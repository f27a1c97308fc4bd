//! The flat stack-machine program format and its interpreter.

pub mod error;
pub mod ops;
pub mod reader;
pub mod util;
pub mod vm;
