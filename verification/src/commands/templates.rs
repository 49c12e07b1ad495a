//! The source texts of what is generated.
pub mod generate_item_templates;
pub mod generate_templates;
pub mod new_templates;
