//! A whole program in the intermediate representation.

use crate::compiler::ir_function::{IRFunction, IRFunctionView};
use crate::compiler::ir_path::{path_view, IRPathElement, PathView};
use crate::compiler::ir_struct::{IRStruct, IRStructView};
use crate::text::same_text;
use vstd::prelude::*;

verus! {

/// A program: the flat lists of its structs and of its functions.
#[derive(Debug, PartialEq, Eq)]
pub struct IRContext {
    structs: Vec<IRStruct>,
    functions: Vec<IRFunction>,
}

/// A program as a mathematical value.
pub struct IRContextView {
    /// The structs of the program.
    pub structs: Seq<IRStructView>,
    /// The functions of the program.
    pub functions: Seq<IRFunctionView>,
}

impl View for IRContext {
    type V = IRContextView;

    closed spec fn view(&self) -> IRContextView {
        IRContextView {
            structs: Seq::new(self.structs@.len(), |i: int| self.structs@[i]@),
            functions: Seq::new(self.functions@.len(), |i: int| self.functions@[i]@),
        }
    }
}

/// Whether two paths carry the same names.
pub open spec fn same_names(a: PathView, b: PathView) -> bool {
    &&& a.len() == b.len()
    &&& forall|i: int| 0 <= i < a.len() ==> (#[trigger] a[i]).identifier == b[i].identifier
}

/// Whether two paths carry the same names.
pub fn paths_match(a: &Vec<IRPathElement>, b: &Vec<IRPathElement>) -> (r: bool)
    ensures
        r == same_names(path_view(a@), path_view(b@)),
{
    if a.len() != b.len() {
        return false;
    }
    let mut i: usize = 0;
    while i < a.len()
        invariant
            i <= a@.len(),
            a@.len() == b@.len(),
            forall|j: int|
                0 <= j < i ==> (#[trigger] path_view(a@)[j]).identifier == path_view(
                    b@,
                )[j].identifier,
        decreases a@.len() - i,
    {
        if !same_text(a[i].identifier.as_str(), b[i].identifier.as_str()) {
            assert(path_view(a@)[i as int].identifier != path_view(b@)[i as int].identifier);
            return false;
        }
        i += 1;
    }
    true
}

impl IRContext {
    /// An empty program.
    pub fn new() -> (c: Self)
        ensures
            c.wf(),
            c@.structs == Seq::<IRStructView>::empty(),
            c@.functions == Seq::<IRFunctionView>::empty(),
    {
        let c = IRContext { structs: Vec::new(), functions: Vec::new() };
        assert(c@.structs =~= Seq::<IRStructView>::empty());
        assert(c@.functions =~= Seq::<IRFunctionView>::empty());
        c
    }

    /// The invariant of a program: that of each of its structs and
    /// functions.
    pub closed spec fn wf(&self) -> bool {
        &&& forall|i: int| 0 <= i < self.structs@.len() ==> (#[trigger] self.structs@[i]).wf()
        &&& forall|i: int| 0 <= i < self.functions@.len() ==> (#[trigger] self.functions@[i]).wf()
    }

    /// The first struct whose path carries the given names.
    pub fn get_struct(&self, path: &Vec<IRPathElement>) -> (r: Option<&IRStruct>)
        requires
            self.wf(),
        ensures
            match r {
                Some(s) => exists|i: int|
                    {
                        &&& 0 <= i < self@.structs.len()
                        &&& #[trigger] self@.structs[i] == s@
                        &&& same_names(s@.path, path_view(path@))
                        &&& forall|j: int|
                            0 <= j < i ==> !same_names(
                                (#[trigger] self@.structs[j]).path,
                                path_view(path@),
                            )
                    },
                None => forall|j: int|
                    0 <= j < self@.structs.len() ==> !same_names(
                        (#[trigger] self@.structs[j]).path,
                        path_view(path@),
                    ),
            },
            r matches Some(s) ==> s.wf(),
    {
        let mut i: usize = 0;
        while i < self.structs.len()
            invariant
                self.wf(),
                i <= self.structs@.len(),
                forall|j: int|
                    0 <= j < i ==> !same_names(
                        (#[trigger] self@.structs[j]).path,
                        path_view(path@),
                    ),
            decreases self.structs@.len() - i,
        {
            if paths_match(self.structs[i].path(), path) {
                assert(self@.structs[i as int] == self.structs@[i as int]@);
                return Some(&self.structs[i]);
            }
            i += 1;
        }
        None
    }

    /// The first function whose path carries the given names.
    pub fn get_function(&self, path: &Vec<IRPathElement>) -> (r: Option<&IRFunction>)
        requires
            self.wf(),
        ensures
            match r {
                Some(f) => exists|i: int|
                    {
                        &&& 0 <= i < self@.functions.len()
                        &&& #[trigger] self@.functions[i] == f@
                        &&& same_names(f@.path, path_view(path@))
                        &&& forall|j: int|
                            0 <= j < i ==> !same_names(
                                (#[trigger] self@.functions[j]).path,
                                path_view(path@),
                            )
                    },
                None => forall|j: int|
                    0 <= j < self@.functions.len() ==> !same_names(
                        (#[trigger] self@.functions[j]).path,
                        path_view(path@),
                    ),
            },
            r matches Some(f) ==> f.wf(),
    {
        let mut i: usize = 0;
        while i < self.functions.len()
            invariant
                self.wf(),
                i <= self.functions@.len(),
                forall|j: int|
                    0 <= j < i ==> !same_names(
                        (#[trigger] self@.functions[j]).path,
                        path_view(path@),
                    ),
            decreases self.functions@.len() - i,
        {
            if paths_match(self.functions[i].path(), path) {
                assert(self@.functions[i as int] == self.functions@[i as int]@);
                return Some(&self.functions[i]);
            }
            i += 1;
        }
        None
    }

    /// Adds a struct to this program.
    pub fn add_struct(&mut self, structure: IRStruct)
        requires
            old(self).wf(),
            structure.wf(),
        ensures
            final(self).wf(),
            final(self)@.structs == old(self)@.structs.push(structure@),
            final(self)@.functions == old(self)@.functions,
    {
        self.structs.push(structure);
        assert(self@.structs =~= old(self)@.structs.push(structure@));
        assert(self@.functions =~= old(self)@.functions);
    }

    /// Adds a function to this program.
    pub fn add_function(&mut self, function: IRFunction)
        requires
            old(self).wf(),
            function.wf(),
        ensures
            final(self).wf(),
            final(self)@.functions == old(self)@.functions.push(function@),
            final(self)@.structs == old(self)@.structs,
    {
        self.functions.push(function);
        assert(self@.functions =~= old(self)@.functions.push(function@));
        assert(self@.structs =~= old(self)@.structs);
    }

    /// The functions of this program.
    pub fn get_functions(&self) -> (functions: &Vec<IRFunction>)
        requires
            self.wf(),
        ensures
            functions@.len() == self@.functions.len(),
            forall|i: int|
                0 <= i < functions@.len() ==> (#[trigger] functions@[i])@ == self@.functions[i]
                    && functions@[i].wf(),
    {
        &self.functions
    }

    /// The structs of this program.
    pub fn get_structs(&self) -> (structs: &Vec<IRStruct>)
        requires
            self.wf(),
        ensures
            structs@.len() == self@.structs.len(),
            forall|i: int|
                0 <= i < structs@.len() ==> (#[trigger] structs@[i])@ == self@.structs[i]
                    && structs@[i].wf(),
    {
        &self.structs
    }
}

} // verus!

verus! {

impl IRContext {
    /// This program with other functions in place of its own.
    pub fn with_functions(self, functions: Vec<IRFunction>) -> (c: IRContext)
        requires
            self.wf(),
            forall|i: int| 0 <= i < functions@.len() ==> (#[trigger] functions@[i]).wf(),
        ensures
            c.wf(),
            c@.structs == self@.structs,
            c@.functions == Seq::new(functions@.len(), |i: int| functions@[i]@),
    {
        let c = IRContext { structs: self.structs, functions };
        assert(c@.structs =~= self@.structs);
        c
    }
}

} // verus!
