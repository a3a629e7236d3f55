//! Solhunt: a static analyzer for Solidity sources.
pub mod text;
pub mod source;
pub mod paint;
pub mod findings;
pub mod tight_pack;
pub mod walker;
pub mod ast;
pub mod version;
pub mod project;
pub mod loader;
pub mod detectors;
pub mod names;
pub mod solidity;
