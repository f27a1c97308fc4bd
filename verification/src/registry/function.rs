//! The registry of host functions.

use crate::compiler::ir_datatype::{
    all_resolved, are_resolved, duplicate_types, resolved, type_views, IRDataType, TypeView,
};
use crate::registry::error::{RegistryError, RegistryFault};
use crate::text::same_text;
use vstd::prelude::*;

verus! {

/// The handle of a host callback. The host keeps the callbacks themselves
/// and finds each by its handle.
#[derive(Debug, Clone, Copy, PartialEq, Eq)]
pub struct VertexFunction {
    /// The number by which the host knows the callback.
    pub id: usize,
}

/// What is declared of a host function: its name, its callback and its
/// signature.
#[derive(Debug, PartialEq, Eq)]
pub struct FuncMeta {
    name: String,
    func: VertexFunction,
    input_args: Vec<IRDataType>,
    output: IRDataType,
}

/// The declaration of a host function as a mathematical value.
pub struct FuncMetaView {
    /// The name of the function.
    pub name: Seq<char>,
    /// The handle of its callback.
    pub func: VertexFunction,
    /// The types of its arguments.
    pub inputs: Seq<TypeView>,
    /// The type of its result.
    pub output: TypeView,
}

/// Whether every type of a signature is resolved.
pub open spec fn signature_resolved(inputs: Seq<TypeView>, output: TypeView) -> bool {
    all_resolved(inputs) && resolved(output)
}

impl View for FuncMeta {
    type V = FuncMetaView;

    closed spec fn view(&self) -> FuncMetaView {
        FuncMetaView {
            name: self.name@,
            func: self.func,
            inputs: type_views(self.input_args@),
            output: self.output@,
        }
    }
}

impl FuncMeta {
    /// Declares a host function. Every type of the signature has to be
    /// resolved.
    pub fn new(
        name: String,
        func: VertexFunction,
        input_args: Vec<IRDataType>,
        output: IRDataType,
    ) -> (r: Result<Self, RegistryError>)
        ensures
            r is Ok <==> signature_resolved(type_views(input_args@), output@),
            r matches Ok(m) ==> m@ == (FuncMetaView {
                name: name@,
                func,
                inputs: type_views(input_args@),
                output: output@,
            }),
            r matches Err(e) ==> e@ == RegistryFault::UnresolvedDataType,
    {
        if !are_resolved(&input_args) || !output.is_resolved() {
            return Err(RegistryError::UnresolvedDataType);
        }
        Ok(FuncMeta { name, func, input_args, output })
    }

    /// The name of the function.
    pub fn get_name(&self) -> (name: &str)
        ensures
            name@ == self@.name,
    {
        self.name.as_str()
    }

    /// The handle of the callback.
    pub fn get_func(&self) -> (func: VertexFunction)
        ensures
            func == self@.func,
    {
        self.func
    }

    /// The types of the arguments.
    pub fn get_inputs(&self) -> (inputs: &Vec<IRDataType>)
        ensures
            type_views(inputs@) == self@.inputs,
    {
        &self.input_args
    }

    /// The type of the result.
    pub fn get_output(&self) -> (output: &IRDataType)
        ensures
            output@ == self@.output,
    {
        &self.output
    }

    /// A copy of this declaration.
    pub fn duplicate(&self) -> (m: FuncMeta)
        ensures
            m@ == self@,
    {
        FuncMeta {
            name: self.name.clone(),
            func: self.func,
            input_args: duplicate_types(&self.input_args),
            output: self.output.duplicate(),
        }
    }
}

impl Clone for FuncMeta {
    fn clone(&self) -> (m: Self)
        ensures
            m@ == self@,
    {
        self.duplicate()
    }
}

/// The declarations of a registry, in the order of registration.
pub type RegistryView = Seq<FuncMetaView>;

/// The position of the first declaration with the given name.
pub open spec fn position_of(registry: RegistryView, name: Seq<char>) -> Option<int>
    decreases registry.len(),
{
    if registry.len() == 0 {
        None
    } else if registry[0].name == name {
        Some(0)
    } else {
        match position_of(registry.drop_first(), name) {
            Some(i) => Some(i + 1),
            None => None,
        }
    }
}

/// Whether no two declarations carry the same name.
pub open spec fn names_unique(registry: RegistryView) -> bool {
    forall|i: int, j: int|
        0 <= i < j < registry.len() ==> (#[trigger] registry[i]).name != (
        #[trigger] registry[j]).name
}

/// A position found by name is in range, carries the name, and no earlier
/// declaration does; where none is found, no declaration carries the name.
pub proof fn lemma_position_of(registry: RegistryView, name: Seq<char>)
    ensures
        match position_of(registry, name) {
            Some(i) => {
                &&& 0 <= i < registry.len()
                &&& registry[i].name == name
                &&& forall|j: int| 0 <= j < i ==> (#[trigger] registry[j]).name != name
            },
            None => forall|j: int| 0 <= j < registry.len() ==> (#[trigger] registry[j]).name
                != name,
        },
    decreases registry.len(),
{
    if registry.len() > 0 && registry[0].name != name {
        let rest = registry.drop_first();
        lemma_position_of(rest, name);
        match position_of(rest, name) {
            Some(i) => {
                assert forall|j: int| 0 <= j < i + 1 implies (#[trigger] registry[j]).name
                    != name by {
                    if j > 0 {
                        assert(rest[j - 1].name != name);
                    }
                }
            },
            None => {
                assert forall|j: int| 0 <= j < registry.len() implies (#[trigger] registry[j]).name
                    != name by {
                    if j > 0 {
                        assert(rest[j - 1].name != name);
                    }
                }
            },
        }
    }
}

/// A name found among the first declarations is found at the same place
/// among all.
pub proof fn lemma_position_of_first(registry: RegistryView, name: Seq<char>, i: int)
    requires
        0 <= i < registry.len(),
        registry[i].name == name,
        forall|j: int| 0 <= j < i ==> (#[trigger] registry[j]).name != name,
    ensures
        position_of(registry, name) == Some(i),
    decreases registry.len(),
{
    if i > 0 {
        let rest = registry.drop_first();
        assert forall|j: int| 0 <= j < i - 1 implies (#[trigger] rest[j]).name != name by {
            assert(registry[j + 1].name != name);
        }
        lemma_position_of_first(rest, name, i - 1);
    }
}

/// The host functions that programs may call, by name.
#[derive(Debug, PartialEq, Eq)]
pub struct FunctionRegistry {
    functions: Vec<FuncMeta>,
}

impl View for FunctionRegistry {
    type V = RegistryView;

    closed spec fn view(&self) -> RegistryView {
        Seq::new(self.functions@.len(), |i: int| self.functions@[i]@)
    }
}

impl FunctionRegistry {
    /// An empty registry.
    pub fn new() -> (r: Self)
        ensures
            r@ == RegistryView::empty(),
            r.wf(),
    {
        let r = FunctionRegistry { functions: Vec::new() };
        assert(r@ =~= RegistryView::empty());
        r
    }

    /// The invariant of a registry: names are unique and every signature is
    /// resolved.
    pub open spec fn wf(&self) -> bool {
        &&& names_unique(self@)
        &&& forall|i: int|
            0 <= i < self@.len() ==> signature_resolved(
                (#[trigger] self@[i]).inputs,
                self@[i].output,
            )
    }

    /// The position of the function with the given name.
    pub fn find_function(&self, name: &str) -> (r: Option<usize>)
        ensures
            match r {
                Some(i) => position_of(self@, name@) == Some(i as int),
                None => position_of(self@, name@) is None,
            },
    {
        let mut i: usize = 0;
        while i < self.functions.len()
            invariant
                i <= self.functions@.len(),
                forall|j: int| 0 <= j < i ==> (#[trigger] self@[j]).name != name@,
            decreases self.functions@.len() - i,
        {
            if same_text(self.functions[i].get_name(), name) {
                proof {
                    lemma_position_of_first(self@, name@, i as int);
                }
                return Some(i);
            }
            i += 1;
        }
        proof {
            lemma_position_of(self@, name@);
        }
        None
    }

    /// The function with the given name.
    pub fn get_function(&self, name: &str) -> (r: Option<&FuncMeta>)
        ensures
            match r {
                Some(m) => position_of(self@, name@) matches Some(i) && self@[i] == m@,
                None => position_of(self@, name@) is None,
            },
    {
        match self.find_function(name) {
            Some(i) => {
                proof {
                    lemma_position_of(self@, name@);
                }
                Some(&self.functions[i])
            },
            None => None,
        }
    }

    /// The function at the given position.
    pub fn function_at(&self, index: usize) -> (m: &FuncMeta)
        requires
            index < self@.len(),
        ensures
            m@ == self@[index as int],
    {
        &self.functions[index]
    }

    /// The number of registered functions.
    pub fn len(&self) -> (n: usize)
        ensures
            n == self@.len(),
    {
        self.functions.len()
    }

    /// Registers a function. A function of the same name must not be
    /// registered already, and its signature has to be resolved.
    pub fn register(&mut self, function: FuncMeta) -> (r: Result<(), RegistryError>)
        requires
            old(self).wf(),
        ensures
            final(self).wf(),
            match r {
                Ok(_) => {
                    &&& position_of(old(self)@, function@.name) is None
                    &&& signature_resolved(function@.inputs, function@.output)
                    &&& final(self)@ == old(self)@.push(function@)
                },
                Err(e) => {
                    &&& final(self)@ == old(self)@
                    &&& e@ == (if position_of(old(self)@, function@.name) is Some {
                        RegistryFault::FunctionAlreadyExists(function@.name)
                    } else {
                        RegistryFault::UnresolvedDataType
                    })
                    &&& position_of(old(self)@, function@.name) is Some || !signature_resolved(
                        function@.inputs,
                        function@.output,
                    )
                },
            },
    {
        if self.find_function(function.get_name()).is_some() {
            return Err(RegistryError::FunctionAlreadyExists(function.name));
        }
        if !are_resolved(function.get_inputs()) || !function.get_output().is_resolved() {
            return Err(RegistryError::UnresolvedDataType);
        }
        proof {
            lemma_position_of(self@, function@.name);
        }
        let ghost before = self@;
        self.functions.push(function);
        assert(self@ =~= before.push(function@));
        Ok(())
    }
}

} // verus!
