//! Functions as lists of procedures over variables.

pub mod function;
pub mod math;
