//! Modules as plain lists of functions and data types.

pub mod types;
