//! The nodes of the positioned syntax tree that a front end hands over.

use vstd::prelude::*;

verus! {

/// The line and column at which a node starts in the source text.
#[derive(Debug, Clone, Copy, PartialEq, Eq)]
pub struct NodePosition {
    /// The line number.
    pub line: usize,
    /// The column number.
    pub col: usize,
}

/// The root of a program: its top-level modules.
#[derive(Debug, PartialEq, Eq)]
pub struct ContextNode {
    /// The top-level modules.
    pub modules: Vec<ModuleNode>,
}

/// A namespace of functions, structs and further modules.
#[derive(Debug, PartialEq, Eq)]
pub struct ModuleNode {
    /// Where the module starts.
    pub position: NodePosition,
    /// The name of the module.
    pub name: String,
    /// Whether the module is exported.
    pub export: bool,
    /// The modules nested in this one.
    pub modules: Vec<ModuleNode>,
    /// The functions of this module.
    pub functions: Vec<FunctionNode>,
    /// The structs of this module.
    pub structs: Vec<StructNode>,
}

/// A function: a set of single-assignment bindings over its parameters.
#[derive(Debug, PartialEq, Eq)]
pub struct FunctionNode {
    /// Where the function starts.
    pub position: NodePosition,
    /// The name of the function.
    pub name: String,
    /// Whether the function is exported.
    pub export: bool,
    /// Whether the function holds serial actions.
    pub serial: bool,
    /// The parameters of the function.
    pub params: ArgumentListNode,
    /// The values that the function returns.
    pub returns: ArgumentListNode,
    /// The functions nested in this one.
    pub functions: Vec<FunctionNode>,
    /// The structs nested in this function.
    pub structs: Vec<StructNode>,
    /// The assignments of this function.
    pub assignments: Vec<AssignmentNode>,
}

/// A struct type: a name and named, typed fields.
#[derive(Debug, PartialEq, Eq)]
pub struct StructNode {
    /// Where the struct starts.
    pub position: NodePosition,
    /// The name of the struct.
    pub name: String,
    /// Whether the struct is exported.
    pub export: bool,
    /// The fields of the struct.
    pub fields: ArgumentListNode,
}

/// A name with the name of its data type.
#[derive(Debug, PartialEq, Eq)]
pub struct ArgumentNode {
    /// Where the argument starts.
    pub position: NodePosition,
    /// The name of the argument.
    pub name: String,
    /// The name of its data type.
    pub dtype: String,
}

/// A list of named, typed arguments.
#[derive(Debug, PartialEq, Eq)]
pub struct ArgumentListNode {
    /// Where the list starts.
    pub position: NodePosition,
    /// The arguments, in order.
    pub arguments: Vec<ArgumentNode>,
}

/// A variable, by name.
#[derive(Debug, PartialEq, Eq)]
pub struct VariableNode {
    /// Where the variable starts.
    pub position: NodePosition,
    /// The name of the variable.
    pub name: String,
}

/// A field inside a variable: the variable's name, then field names.
#[derive(Debug, PartialEq, Eq)]
pub struct InnerVariableNode {
    /// Where the expression starts.
    pub position: NodePosition,
    /// The variable's name, then the names of the fields to go through.
    pub path: Vec<String>,
}

/// A call of a function on argument expressions.
#[derive(Debug, PartialEq, Eq)]
pub struct FunctionCallNode {
    /// Where the call starts.
    pub position: NodePosition,
    /// The name of the function that is called.
    pub function_name: String,
    /// Whether the call is executed in serial.
    pub serial: bool,
    /// Whether the function is provided by the host.
    pub external: bool,
    /// The argument expressions.
    pub arguments: ExpressionListNode,
}

/// A list of expressions.
#[derive(Debug, PartialEq, Eq)]
pub struct ExpressionListNode {
    /// Where the list starts.
    pub position: NodePosition,
    /// The expressions, in order.
    pub expressions: Vec<ExpressionNode>,
}

/// The binding of an expression's value to a variable, or an expression
/// that is evaluated without binding its value.
#[derive(Debug, PartialEq, Eq)]
pub struct AssignmentNode {
    /// Where the assignment starts.
    pub position: NodePosition,
    /// The variable that is written, if any.
    pub variable: Option<VariableNode>,
    /// The expression that is evaluated.
    pub expression: ExpressionNode,
}

/// An integer literal.
#[derive(Debug, PartialEq, Eq)]
pub struct IntLiteralNode {
    /// Where the literal starts.
    pub position: NodePosition,
    /// The value of the literal.
    pub value: i64,
}

/// A float literal, held as its IEEE-754 bit pattern.
#[derive(Debug, PartialEq, Eq)]
pub struct FloatLiteralNode {
    /// Where the literal starts.
    pub position: NodePosition,
    /// The bit pattern of the literal's value.
    pub value: u64,
}

/// A string literal.
#[derive(Debug, PartialEq, Eq)]
pub struct StringLiteralNode {
    /// Where the literal starts.
    pub position: NodePosition,
    /// The value of the literal.
    pub value: String,
}

/// A boolean literal.
#[derive(Debug, PartialEq, Eq)]
pub struct BoolLiteralNode {
    /// Where the literal starts.
    pub position: NodePosition,
    /// The value of the literal.
    pub value: bool,
}

/// An expression.
#[derive(Debug, PartialEq, Eq)]
pub enum ExpressionNode {
    /// An integer literal.
    IntLiteral(IntLiteralNode),
    /// A float literal.
    FloatLiteral(FloatLiteralNode),
    /// A string literal.
    StringLiteral(StringLiteralNode),
    /// A boolean literal.
    BoolLiteral(BoolLiteralNode),
    /// A call of a function.
    FunctionCall(FunctionCallNode),
    /// The value of a variable.
    Variable(VariableNode),
    /// The value of a field inside a variable.
    InnerVariable(InnerVariableNode),
}

} // verus!
