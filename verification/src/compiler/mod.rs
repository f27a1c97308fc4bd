//! From a syntax tree to the typed intermediate representation, and from
//! there to executable tables.

pub mod ast;
pub mod ast_to_ir;
pub mod bytecode;
pub mod context;
pub mod emission;
pub mod errors;
pub mod expressions;
pub mod ir_context;
pub mod ir_datatype;
pub mod ir_function;
pub mod ir_node;
pub mod ir_path;
pub mod ir_struct;
pub mod loading;
pub mod names;
pub mod nodes;
pub mod ordering;
pub mod resolution;
pub mod token_reader;
pub mod tokenization;
pub mod type_names;
