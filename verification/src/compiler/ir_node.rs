//! The statements of a function of the intermediate representation.

use crate::compiler::ir_datatype::{IRDataType, TypeView};
use vstd::prelude::*;

verus! {

/// Where a statement takes one of its inputs from.
#[derive(Debug, Clone, Copy, PartialEq, Eq)]
pub enum IRNodeInput {
    /// The parameter of the function at the given index.
    FunctionParam(u32),
    /// The statement of the same function at the given index.
    HiddenNode(u32),
}

/// What a statement calls.
#[derive(Debug, PartialEq, Eq)]
pub enum IRFuncCall {
    /// The host function of the given name.
    External(String),
    /// The function at the given index of the context.
    Internal(usize),
    /// A function of the program that is known by name only so far.
    Unresolved(String),
    /// The constant function that returns this integer.
    IntConstant(i64),
    /// The constant function that returns the float of this bit pattern.
    FloatConstant(u64),
    /// The constant function that returns this string.
    StringConstant(String),
    /// The constant function that returns this character.
    CharConstant(char),
    /// The constant function that returns this boolean.
    BoolConstant(bool),
}

/// What a statement calls, as a mathematical value.
pub enum FuncCallView {
    /// The host function of the given name.
    External(Seq<char>),
    /// The function at the given index of the context.
    Internal(usize),
    /// A function of the program that is known by name only so far.
    Unresolved(Seq<char>),
    /// The constant function that returns this integer.
    IntConstant(i64),
    /// The constant function that returns the float of this bit pattern.
    FloatConstant(u64),
    /// The constant function that returns this string.
    StringConstant(Seq<char>),
    /// The constant function that returns this character.
    CharConstant(char),
    /// The constant function that returns this boolean.
    BoolConstant(bool),
}

impl View for IRFuncCall {
    type V = FuncCallView;

    open spec fn view(&self) -> FuncCallView {
        match self {
            IRFuncCall::External(n) => FuncCallView::External(n@),
            IRFuncCall::Internal(i) => FuncCallView::Internal(*i),
            IRFuncCall::Unresolved(n) => FuncCallView::Unresolved(n@),
            IRFuncCall::IntConstant(v) => FuncCallView::IntConstant(*v),
            IRFuncCall::FloatConstant(v) => FuncCallView::FloatConstant(*v),
            IRFuncCall::StringConstant(v) => FuncCallView::StringConstant(v@),
            IRFuncCall::CharConstant(v) => FuncCallView::CharConstant(*v),
            IRFuncCall::BoolConstant(v) => FuncCallView::BoolConstant(*v),
        }
    }
}

impl IRFuncCall {
    /// A copy of this call.
    pub fn duplicate(&self) -> (r: IRFuncCall)
        ensures
            r@ == self@,
    {
        match self {
            IRFuncCall::External(n) => IRFuncCall::External(n.clone()),
            IRFuncCall::Internal(i) => IRFuncCall::Internal(*i),
            IRFuncCall::Unresolved(n) => IRFuncCall::Unresolved(n.clone()),
            IRFuncCall::IntConstant(v) => IRFuncCall::IntConstant(*v),
            IRFuncCall::FloatConstant(v) => IRFuncCall::FloatConstant(*v),
            IRFuncCall::StringConstant(v) => IRFuncCall::StringConstant(v.clone()),
            IRFuncCall::CharConstant(v) => IRFuncCall::CharConstant(*v),
            IRFuncCall::BoolConstant(v) => IRFuncCall::BoolConstant(*v),
        }
    }
}

impl Clone for IRFuncCall {
    fn clone(&self) -> (r: Self)
        ensures
            r@ == self@,
    {
        self.duplicate()
    }
}

/// A statement: a call, the places its inputs come from, and the type of
/// what it gives.
#[derive(Debug, PartialEq, Eq)]
pub struct IRNode {
    function: IRFuncCall,
    inputs: Vec<IRNodeInput>,
    output: IRDataType,
}

/// A statement as a mathematical value.
pub struct IRNodeView {
    /// What the statement calls.
    pub function: FuncCallView,
    /// Where its inputs come from, in order.
    pub inputs: Seq<IRNodeInput>,
    /// The type of what it gives.
    pub output: TypeView,
}

impl View for IRNode {
    type V = IRNodeView;

    closed spec fn view(&self) -> IRNodeView {
        IRNodeView { function: self.function@, inputs: self.inputs@, output: self.output@ }
    }
}

/// The views of a sequence of statements.
pub open spec fn node_views(nodes: Seq<IRNode>) -> Seq<IRNodeView> {
    Seq::new(nodes.len(), |i: int| nodes[i]@)
}

/// Whether every input of the statement at index `at` that refers to a
/// statement refers to an earlier one.
pub open spec fn inputs_precede(node: IRNodeView, at: int) -> bool {
    forall|k: int|
        0 <= k < node.inputs.len() ==> ((#[trigger] node.inputs[k]) matches IRNodeInput::HiddenNode(
            j,
        ) ==> j < at)
}

/// Whether in a sequence of statements every reference to a statement goes
/// to an earlier one.
pub open spec fn topologically_sound(nodes: Seq<IRNodeView>) -> bool {
    forall|i: int| 0 <= i < nodes.len() ==> inputs_precede(#[trigger] nodes[i], i)
}

impl IRNode {
    /// A statement.
    pub fn new(function: IRFuncCall, inputs: Vec<IRNodeInput>, output: IRDataType) -> (n: Self)
        ensures
            n@ == (IRNodeView { function: function@, inputs: inputs@, output: output@ }),
    {
        IRNode { function, inputs, output }
    }

    /// Where the inputs come from, in order.
    pub fn get_inputs(&self) -> (inputs: &Vec<IRNodeInput>)
        ensures
            inputs@ == self@.inputs,
    {
        &self.inputs
    }

    /// The type of what the statement gives.
    pub fn get_output(&self) -> (output: &IRDataType)
        ensures
            output@ == self@.output,
    {
        &self.output
    }

    /// What the statement calls.
    pub fn get_function(&self) -> (function: &IRFuncCall)
        ensures
            function@ == self@.function,
    {
        &self.function
    }

    /// A copy of this statement.
    pub fn duplicate(&self) -> (n: IRNode)
        ensures
            n@ == self@,
    {
        IRNode {
            function: self.function.duplicate(),
            inputs: self.inputs.clone(),
            output: self.output.duplicate(),
        }
    }

    /// This statement with another call in place of its own.
    pub fn with_function(self, function: IRFuncCall) -> (n: IRNode)
        ensures
            n@ == (IRNodeView { function: function@, ..self@ }),
    {
        IRNode { function, inputs: self.inputs, output: self.output }
    }
}

impl Clone for IRNode {
    fn clone(&self) -> (r: Self)
        ensures
            r@ == self@,
    {
        self.duplicate()
    }
}

} // verus!
