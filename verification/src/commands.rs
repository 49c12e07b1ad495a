//! The commands: the generation of artifacts, of whole modules and of
//! middleware, and the making of a new project.
pub mod generate;
pub mod generate_item;
pub mod generate_module;
pub mod new;
pub mod templates;
