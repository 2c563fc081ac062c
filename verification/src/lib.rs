//! A component installer's decision core: package-manager detection,
//! alias and path-mapping resolution, placeholder rewriting, staleness
//! comparison, install planning, and invocation-strategy selection — each
//! stated in contracts and proved, with the surrounding I/O kept outside.
pub mod builder;
pub mod cli;
pub mod config;
pub mod installer;
pub mod package_manager;
pub mod placeholder;
pub mod registry;
pub mod strategy;
pub mod text;
