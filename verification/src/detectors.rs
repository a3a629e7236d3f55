//! The detection modules: each looks for one kind of issue and reports it
//! under codes of its own.
pub mod address_zero;
pub mod calls;
pub mod assembly;
pub mod inline_assembly;
pub mod centralization;
pub mod encode_packed;
pub mod erc20;
pub mod misc;
pub mod dirty;
pub mod condition;
pub mod constructor;
pub mod function;
pub mod maths;
pub mod uint256;
pub mod tree;
pub mod require;
pub mod state;
pub mod immutable;
pub mod chainlink;
pub mod overflow;
pub mod oz;
