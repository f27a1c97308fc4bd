//! The struct types of the intermediate representation.

use crate::compiler::errors::{IRError, IRErrorView};
use crate::compiler::ir_datatype::{field_views, IRDataType, TypeView};
use crate::compiler::ir_path::{accessibility, accessibility_of, path_view, IRPathElement, PathView};
use crate::text::same_text;
use vstd::prelude::*;

verus! {

/// A struct type: its path and its named, typed fields. It serves type
/// checking only and does not reach the executable tables.
#[derive(Debug, PartialEq, Eq)]
pub struct IRStruct {
    path: Vec<IRPathElement>,
    accessability: u32,
    fields: Vec<(String, IRDataType)>,
}

/// A struct type as a mathematical value.
pub struct IRStructView {
    /// The path of the struct.
    pub path: PathView,
    /// The names and types of the fields, in order.
    pub fields: Seq<(Seq<char>, TypeView)>,
}

impl View for IRStruct {
    type V = IRStructView;

    closed spec fn view(&self) -> IRStructView {
        IRStructView { path: path_view(self.path@), fields: field_views(self.fields@) }
    }
}

/// The position of the first field with the given name.
pub open spec fn field_position(fields: Seq<(Seq<char>, TypeView)>, name: Seq<char>) -> Option<int>
    decreases fields.len(),
{
    if fields.len() == 0 {
        None
    } else if fields.last().0 == name && field_position(fields.drop_last(), name) is None {
        Some(fields.len() - 1)
    } else {
        field_position(fields.drop_last(), name)
    }
}

/// Whether no two fields carry the same name.
pub open spec fn field_names_unique(fields: Seq<(Seq<char>, TypeView)>) -> bool {
    forall|i: int, j: int|
        0 <= i < j < fields.len() ==> (#[trigger] fields[i]).0 != (#[trigger] fields[j]).0
}

/// A position found by name is that of the first field of the name; where
/// none is found, no field carries the name.
pub proof fn lemma_field_position(fields: Seq<(Seq<char>, TypeView)>, name: Seq<char>)
    ensures
        match field_position(fields, name) {
            Some(i) => {
                &&& 0 <= i < fields.len()
                &&& fields[i].0 == name
                &&& forall|j: int| 0 <= j < i ==> (#[trigger] fields[j]).0 != name
            },
            None => forall|j: int| 0 <= j < fields.len() ==> (#[trigger] fields[j]).0 != name,
        },
    decreases fields.len(),
{
    if fields.len() > 0 {
        lemma_field_position(fields.drop_last(), name);
        assert forall|j: int| 0 <= j < fields.len() - 1 implies fields[j]
            == fields.drop_last()[j] by {}
    }
}

impl IRStruct {
    /// A struct type without fields at the given path.
    pub fn new(path: Vec<IRPathElement>) -> (s: Self)
        requires
            path@.len() <= u32::MAX,
        ensures
            s.wf(),
            s@ == (IRStructView { path: path_view(path@), fields: Seq::empty() }),
    {
        let depth = accessibility_of(&path);
        proof {
            crate::compiler::ir_path::lemma_accessibility_bound(path_view(path@));
        }
        let s = IRStruct { path, accessability: depth as u32, fields: Vec::new() };
        assert(s@.fields =~= Seq::empty());
        s
    }

    /// The invariant of a struct type: its accessibility is that of its
    /// path, and no two fields carry the same name.
    pub closed spec fn wf(&self) -> bool {
        &&& self.accessability == accessibility(path_view(self.path@))
        &&& field_names_unique(self@.fields)
    }

    /// What the invariant says in terms of the view.
    pub proof fn lemma_wf(&self)
        requires
            self.wf(),
        ensures
            field_names_unique(self@.fields),
            accessibility(self@.path) <= u32::MAX,
    {
    }

    /// The path of this struct: the names of the enclosing elements from the
    /// outermost on, then its own name.
    pub fn path(&self) -> (path: &Vec<IRPathElement>)
        ensures
            path_view(path@) == self@.path,
    {
        &self.path
    }

    /// The accessibility of this struct: how many leading elements of a
    /// reader's path have to agree with this struct's path.
    pub fn accessability(&self) -> (a: u32)
        requires
            self.wf(),
        ensures
            a == accessibility(self@.path),
    {
        self.accessability
    }

    /// Adds a field. It fails if a field of this name exists, and then
    /// changes nothing.
    pub fn add_field(&mut self, name: String, dtype: IRDataType) -> (r: Result<(), IRError>)
        requires
            old(self).wf(),
        ensures
            final(self).wf(),
            final(self)@.path == old(self)@.path,
            match r {
                Ok(_) => {
                    &&& field_position(old(self)@.fields, name@) is None
                    &&& final(self)@.fields == old(self)@.fields.push((name@, dtype@))
                },
                Err(e) => {
                    &&& field_position(old(self)@.fields, name@) is Some
                    &&& final(self)@ == old(self)@
                    &&& e@ == IRErrorView::IdentifierAlreadyExists(name@)
                },
            },
    {
        if self.get_field(name.as_str()).is_none() {
            proof {
                lemma_field_position(self@.fields, name@);
            }
            let ghost before = self@.fields;
            self.fields.push((name, dtype));
            assert(self@.fields =~= before.push((name@, dtype@)));
            Ok(())
        } else {
            Err(IRError::IdentifierAlreadyExists(name))
        }
    }

    /// The type of the field with the given name.
    pub fn get_field(&self, name: &str) -> (r: Option<&IRDataType>)
        ensures
            match r {
                Some(t) => field_position(self@.fields, name@) matches Some(i) && self@.fields[i].1
                    == t@,
                None => field_position(self@.fields, name@) is None,
            },
    {
        let mut i: usize = 0;
        while i < self.fields.len()
            invariant
                i <= self.fields@.len(),
                field_position(self@.fields.subrange(0, i as int), name@) is None,
            decreases self.fields@.len() - i,
        {
            let ghost upto = self@.fields.subrange(0, i + 1);
            proof {
                assert(upto.drop_last() =~= self@.fields.subrange(0, i as int));
            }
            if same_text(self.fields[i].0.as_str(), name) {
                proof {
                    assert(field_position(upto, name@) == Some(i as int));
                    lemma_field_position_extends(self@.fields, name@, i + 1);
                }
                return Some(&self.fields[i].1);
            }
            i += 1;
        }
        assert(self@.fields.subrange(0, i as int) =~= self@.fields);
        None
    }
}

/// A field found among the first `k` fields is found at the same place among
/// all.
pub proof fn lemma_field_position_extends(
    fields: Seq<(Seq<char>, TypeView)>,
    name: Seq<char>,
    k: int,
)
    requires
        0 <= k <= fields.len(),
        field_position(fields.subrange(0, k), name) is Some,
    ensures
        field_position(fields, name) == field_position(fields.subrange(0, k), name),
    decreases fields.len() - k,
{
    if k < fields.len() {
        let next = fields.subrange(0, k + 1);
        assert(next.drop_last() =~= fields.subrange(0, k));
        lemma_field_position_extends(fields, name, k + 1);
    } else {
        assert(fields.subrange(0, k) =~= fields);
    }
}

} // verus!
