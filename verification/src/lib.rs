//! A compiler and runtime for the Vertex data-flow language.

pub mod bytecode;
pub mod compiler;
pub mod context;
pub mod data;
pub mod modules;
pub mod registry;
pub mod runtime;
pub mod shared;
pub mod text;
