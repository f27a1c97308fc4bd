//! The functions of the intermediate representation.

use crate::compiler::ir_datatype::{type_views, IRDataType, TypeView};
use crate::compiler::ir_node::{node_views, topologically_sound, IRNode, IRNodeView};
use crate::compiler::ir_path::{accessibility, accessibility_of, path_view, IRPathElement, PathView};
use vstd::prelude::*;

verus! {

/// A function: its path, its signature and its statements. The last
/// statement gives the function's result.
#[derive(Debug, PartialEq, Eq)]
pub struct IRFunction {
    path: Vec<IRPathElement>,
    accessability: u32,
    statements: Vec<IRNode>,
    inputs: Vec<IRDataType>,
    output: IRDataType,
}

/// A function as a mathematical value.
pub struct IRFunctionView {
    /// The path of the function.
    pub path: PathView,
    /// The types of the parameters, in order.
    pub inputs: Seq<TypeView>,
    /// The type of the result.
    pub output: TypeView,
    /// The statements, in order.
    pub statements: Seq<IRNodeView>,
}

impl View for IRFunction {
    type V = IRFunctionView;

    closed spec fn view(&self) -> IRFunctionView {
        IRFunctionView {
            path: path_view(self.path@),
            inputs: type_views(self.inputs@),
            output: self.output@,
            statements: node_views(self.statements@),
        }
    }
}

impl IRFunction {
    /// A function at the given path with the given signature and statements.
    pub fn new(
        path: Vec<IRPathElement>,
        inputs: Vec<IRDataType>,
        output: IRDataType,
        statements: Vec<IRNode>,
    ) -> (f: Self)
        requires
            path@.len() <= u32::MAX,
        ensures
            f.wf(),
            f@ == (IRFunctionView {
                path: path_view(path@),
                inputs: type_views(inputs@),
                output: output@,
                statements: node_views(statements@),
            }),
    {
        let depth = accessibility_of(&path);
        proof {
            crate::compiler::ir_path::lemma_accessibility_bound(path_view(path@));
        }
        IRFunction { path, accessability: depth as u32, statements, inputs, output }
    }

    /// The invariant of a function: its accessibility is that of its path,
    /// and its path is short enough for the accessibility to be counted in
    /// 32 bits.
    pub closed spec fn wf(&self) -> bool {
        &&& self.accessability == accessibility(path_view(self.path@))
        &&& self.path@.len() <= u32::MAX
    }

    /// What the invariant says of the length of the path.
    pub proof fn lemma_path_fits(&self)
        requires
            self.wf(),
        ensures
            self@.path.len() <= u32::MAX,
    {
    }

    /// The path of this function: the names of the enclosing elements from
    /// the outermost on, then its own name.
    pub fn path(&self) -> (path: &Vec<IRPathElement>)
        ensures
            path_view(path@) == self@.path,
    {
        &self.path
    }

    /// The accessibility of this function: how many leading elements of a
    /// reader's path have to agree with this function's path.
    pub fn accessability(&self) -> (a: u32)
        requires
            self.wf(),
        ensures
            a == accessibility(self@.path),
    {
        self.accessability
    }

    /// The statements of this function, ordered so that each comes after
    /// those it takes its inputs from.
    pub fn get_statements(&self) -> (statements: &Vec<IRNode>)
        ensures
            node_views(statements@) == self@.statements,
    {
        &self.statements
    }

    /// The types of the parameters.
    pub fn get_inputs(&self) -> (inputs: &Vec<IRDataType>)
        ensures
            type_views(inputs@) == self@.inputs,
    {
        &self.inputs
    }

    /// The type of the result.
    pub fn get_output(&self) -> (output: &IRDataType)
        ensures
            output@ == self@.output,
    {
        &self.output
    }
}

} // verus!
