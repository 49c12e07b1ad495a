//! The parts that the commands are made of: names, paths, texts, the source
//! tree, its manifests and its composition root.
pub mod common;
pub mod file;
pub mod manifest;
pub mod root;
pub mod target;
pub mod text;
pub mod tree;
