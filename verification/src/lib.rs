//! A scaffolding engine for Axum projects.
//!
//! For a kind of artifact and a name the library makes the source text of
//! the artifact and edits a source tree so that the tree stays whole: every
//! generated file is declared by the manifest of its directory, every
//! directory by the manifest above it, and routes and middleware are wired
//! into the one composition root, each of them once however often a command
//! is run.
//!
//! The source tree is a value, `utils::tree::SourceTree`: the library reads
//! and writes no file itself. Every function states what it returns and
//! what it does to the tree, and the proof functions state what holds of
//! them: that a second run changes nothing, that what is generated can be
//! reached from the root manifest, and that a patch of the composition root
//! keeps what the root held.
pub mod commands;
pub mod utils;
