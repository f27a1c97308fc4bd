//! The host functions that programs may call by name.

pub mod error;
pub mod function;
