//! The values that programs compute with, and programs as graphs of
//! function nodes.

pub mod datatype;
pub mod graph;
pub mod value;
