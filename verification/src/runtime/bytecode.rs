//! The executable tables of a program: its constants, the host functions
//! it calls, and its own functions as flat lists of operations.

use crate::data::value::{Data, DataView};
use crate::registry::function::VertexFunction;
use std::sync::Arc;
use vstd::prelude::*;

verus! {

/// A host function that a program calls: its name in the registry and the
/// handle of its callback.
#[derive(Debug, Clone, PartialEq, Eq)]
pub struct ExternalFunction {
    name: String,
    function: VertexFunction,
}

/// A host function of a program as a mathematical value.
pub struct ExternalView {
    /// The name of the function in the registry.
    pub name: Seq<char>,
    /// The handle of its callback.
    pub function: VertexFunction,
}

impl View for ExternalFunction {
    type V = ExternalView;

    closed spec fn view(&self) -> ExternalView {
        ExternalView { name: self.name@, function: self.function }
    }
}

impl ExternalFunction {
    /// A host function with the given name and callback.
    pub fn new(name: String, function: VertexFunction) -> (e: Self)
        ensures
            e@ == (ExternalView { name: name@, function }),
    {
        ExternalFunction { name, function }
    }

    /// The name of the function in the registry.
    pub fn get_function_name(&self) -> (name: &str)
        ensures
            name@ == self@.name,
    {
        self.name.as_str()
    }

    /// The handle of the callback.
    pub fn get_function_exec(&self) -> (function: &VertexFunction)
        ensures
            *function == self@.function,
    {
        &self.function
    }
}

/// What an operation calls.
#[derive(Debug, Clone, Copy, PartialEq, Eq)]
pub enum FunctionCall {
    /// The function of the program at the given index.
    Internal(usize),
    /// The host function at the given index.
    External(usize),
    /// The constant at the given index.
    Constant(usize),
}

/// Where an operation takes one of its inputs from.
#[derive(Debug, Clone, Copy, PartialEq, Eq)]
pub enum OperationInput {
    /// The parameter of the function at the given index.
    Param(usize),
    /// The operation of the same function at the given index.
    Hidden(usize),
}

/// One operation of a function: what it calls, and where its inputs come
/// from.
#[derive(Debug, Clone, PartialEq, Eq)]
pub struct Operation {
    function_call: FunctionCall,
    inputs: Vec<OperationInput>,
}

/// An operation as a mathematical value.
pub struct OperationView {
    /// What the operation calls.
    pub function_call: FunctionCall,
    /// Where its inputs come from, in order.
    pub inputs: Seq<OperationInput>,
}

impl View for Operation {
    type V = OperationView;

    closed spec fn view(&self) -> OperationView {
        OperationView { function_call: self.function_call, inputs: self.inputs@ }
    }
}

impl Operation {
    /// An operation.
    pub fn new(function_call: FunctionCall, inputs: Vec<OperationInput>) -> (o: Self)
        ensures
            o@ == (OperationView { function_call, inputs: inputs@ }),
    {
        Operation { function_call, inputs }
    }

    /// What the operation calls.
    pub fn get_function(&self) -> (call: &FunctionCall)
        ensures
            *call == self@.function_call,
    {
        &self.function_call
    }

    /// Where the inputs come from, in order.
    pub fn get_inputs(&self) -> (inputs: &Vec<OperationInput>)
        ensures
            inputs@ == self@.inputs,
    {
        &self.inputs
    }
}

/// A function of a program: its operations, in the order of evaluation.
/// The last operation gives the function's result.
#[derive(Debug, Clone, PartialEq, Eq)]
pub struct InternalFunction {
    operations: Vec<Operation>,
}

impl View for InternalFunction {
    type V = Seq<OperationView>;

    closed spec fn view(&self) -> Seq<OperationView> {
        Seq::new(self.operations@.len(), |i: int| self.operations@[i]@)
    }
}

impl InternalFunction {
    /// A function without operations.
    pub fn new() -> (f: Self)
        ensures
            f@ == Seq::<OperationView>::empty(),
    {
        let f = InternalFunction { operations: Vec::new() };
        assert(f@ =~= Seq::<OperationView>::empty());
        f
    }

    /// Appends an operation.
    pub fn add_operation(&mut self, operation: Operation)
        ensures
            final(self)@ == old(self)@.push(operation@),
    {
        self.operations.push(operation);
        assert(self@ =~= old(self)@.push(operation@));
    }

    /// The operations, in the order of evaluation.
    pub fn get_operations(&self) -> (operations: &Vec<Operation>)
        ensures
            operations@.len() == self@.len(),
            forall|i: int| 0 <= i < operations@.len() ==> (#[trigger] operations@[i])@ == self@[i],
    {
        &self.operations
    }
}

/// Whether every input of the operation at index `at` that refers to an
/// operation refers to an earlier one.
pub open spec fn operation_sound(op: OperationView, at: int) -> bool {
    forall|k: int|
        0 <= k < op.inputs.len() ==> ((#[trigger] op.inputs[k]) matches OperationInput::Hidden(j)
            ==> j < at)
}

/// Whether in a function every reference to an operation goes to an
/// earlier one.
pub open spec fn operations_sound(ops: Seq<OperationView>) -> bool {
    forall|i: int| 0 <= i < ops.len() ==> operation_sound(#[trigger] ops[i], i)
}

/// The executable tables of a program.
#[derive(Debug)]
pub struct VertexBytecode {
    external_functions: Vec<ExternalFunction>,
    internal_functions: Vec<InternalFunction>,
    constants: Vec<Arc<Data>>,
}

/// The executable tables of a program as a mathematical value.
pub struct VertexBytecodeView {
    /// The host functions that the program calls.
    pub external_functions: Seq<ExternalView>,
    /// The functions of the program.
    pub internal_functions: Seq<Seq<OperationView>>,
    /// The constants of the program.
    pub constants: Seq<DataView>,
}

impl View for VertexBytecode {
    type V = VertexBytecodeView;

    closed spec fn view(&self) -> VertexBytecodeView {
        VertexBytecodeView {
            external_functions: Seq::new(
                self.external_functions@.len(),
                |i: int| self.external_functions@[i]@,
            ),
            internal_functions: Seq::new(
                self.internal_functions@.len(),
                |i: int| self.internal_functions@[i]@,
            ),
            constants: Seq::new(self.constants@.len(), |i: int| (*self.constants@[i])@),
        }
    }
}

impl VertexBytecode {
    /// Empty tables.
    pub fn new() -> (b: Self)
        ensures
            b@ == (VertexBytecodeView {
                external_functions: Seq::empty(),
                internal_functions: Seq::empty(),
                constants: Seq::empty(),
            }),
    {
        let b = VertexBytecode {
            external_functions: Vec::new(),
            internal_functions: Vec::new(),
            constants: Vec::new(),
        };
        assert(b@.external_functions =~= Seq::<ExternalView>::empty());
        assert(b@.internal_functions =~= Seq::<Seq<OperationView>>::empty());
        assert(b@.constants =~= Seq::<DataView>::empty());
        b
    }

    /// Appends a host function.
    pub fn add_external_function(&mut self, function: ExternalFunction)
        ensures
            final(self)@ == (VertexBytecodeView {
                external_functions: old(self)@.external_functions.push(function@),
                ..old(self)@
            }),
    {
        self.external_functions.push(function);
        assert(self@.external_functions =~= old(self)@.external_functions.push(function@));
        assert(self@.internal_functions =~= old(self)@.internal_functions);
        assert(self@.constants =~= old(self)@.constants);
    }

    /// The host functions that the program calls.
    pub fn get_external_functions(&self) -> (functions: &Vec<ExternalFunction>)
        ensures
            functions@.len() == self@.external_functions.len(),
            forall|i: int|
                0 <= i < functions@.len() ==> (#[trigger] functions@[i])@
                    == self@.external_functions[i],
    {
        &self.external_functions
    }

    /// Appends a function of the program.
    pub fn add_internal_function(&mut self, function: InternalFunction)
        ensures
            final(self)@ == (VertexBytecodeView {
                internal_functions: old(self)@.internal_functions.push(function@),
                ..old(self)@
            }),
    {
        self.internal_functions.push(function);
        assert(self@.internal_functions =~= old(self)@.internal_functions.push(function@));
        assert(self@.external_functions =~= old(self)@.external_functions);
        assert(self@.constants =~= old(self)@.constants);
    }

    /// The functions of the program.
    pub fn get_internal_functions(&self) -> (functions: &Vec<InternalFunction>)
        ensures
            functions@.len() == self@.internal_functions.len(),
            forall|i: int|
                0 <= i < functions@.len() ==> (#[trigger] functions@[i])@
                    == self@.internal_functions[i],
    {
        &self.internal_functions
    }

    /// Appends a constant.
    pub fn add_constant(&mut self, constant: Data)
        ensures
            final(self)@ == (VertexBytecodeView {
                constants: old(self)@.constants.push(constant@),
                ..old(self)@
            }),
    {
        self.constants.push(Arc::new(constant));
        assert(self@.constants =~= old(self)@.constants.push(constant@));
        assert(self@.external_functions =~= old(self)@.external_functions);
        assert(self@.internal_functions =~= old(self)@.internal_functions);
    }

    /// The constants of the program.
    pub fn get_constants(&self) -> (constants: &Vec<Arc<Data>>)
        ensures
            constants@.len() == self@.constants.len(),
            forall|i: int|
                0 <= i < constants@.len() ==> (*#[trigger] constants@[i])@ == self@.constants[i],
    {
        &self.constants
    }
}

} // verus!
