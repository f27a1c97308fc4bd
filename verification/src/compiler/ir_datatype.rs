//! The data types of the intermediate representation.

use vstd::prelude::*;

verus! {

/// A data type of the intermediate representation.
#[derive(Debug, PartialEq, Eq)]
pub enum IRDataType {
    /// A type of which only the name is known so far.
    Unresolved(String),
    /// The type of what a call returns whose function is not yet bound.
    Unknown,
    /// A 64-bit signed integer.
    Int,
    /// A 64-bit float.
    Float,
    /// A UTF-8 string.
    String,
    /// A Unicode scalar value.
    Char,
    /// A boolean.
    Bool,
    /// A failure.
    Error,
    /// The type of no value.
    Null,
    /// A list of elements of one type.
    List(Box<IRDataType>),
    /// An array of a fixed number of elements of one type.
    Array(Box<IRDataType>, u32),
    /// A value that may be absent.
    Option(Box<IRDataType>),
    /// A value that may be a failure.
    Result(Box<IRDataType>),
    /// A fixed group of values of the given types.
    Tuple(Vec<IRDataType>),
    /// A dictionary from keys of the first type to values of the second.
    Dictionary(Box<IRDataType>, Box<IRDataType>),
    /// A named type made of named fields.
    Struct(String, Vec<(String, IRDataType)>),
}

/// A data type as a mathematical value.
pub enum TypeView {
    /// A type of which only the name is known so far.
    Unresolved(Seq<char>),
    /// The type of what a call returns whose function is not yet bound.
    Unknown,
    /// A 64-bit signed integer.
    Int,
    /// A 64-bit float.
    Float,
    /// A UTF-8 string.
    String,
    /// A Unicode scalar value.
    Char,
    /// A boolean.
    Bool,
    /// A failure.
    Error,
    /// The type of no value.
    Null,
    /// A list of elements of one type.
    List(Box<TypeView>),
    /// An array of a fixed number of elements of one type.
    Array(Box<TypeView>, u32),
    /// A value that may be absent.
    Option(Box<TypeView>),
    /// A value that may be a failure.
    Result(Box<TypeView>),
    /// A fixed group of values of the given types.
    Tuple(Seq<TypeView>),
    /// A dictionary from keys of the first type to values of the second.
    Dictionary(Box<TypeView>, Box<TypeView>),
    /// A named type made of named fields.
    Struct(Seq<char>, Seq<(Seq<char>, TypeView)>),
}

/// The views of a sequence of types.
pub open spec fn type_views(items: Seq<IRDataType>) -> Seq<TypeView>
    decreases items,
{
    Seq::new(
        items.len(),
        |i: int|
            if 0 <= i < items.len() {
                type_view(items[i])
            } else {
                TypeView::Unknown
            },
    )
}

/// The views of a sequence of named fields.
pub open spec fn field_views(items: Seq<(String, IRDataType)>) -> Seq<(Seq<char>, TypeView)>
    decreases items,
{
    Seq::new(
        items.len(),
        |i: int|
            if 0 <= i < items.len() {
                (items[i].0@, type_view(items[i].1))
            } else {
                (Seq::empty(), TypeView::Unknown)
            },
    )
}

/// The mathematical value of an executable type.
pub open spec fn type_view(t: IRDataType) -> TypeView
    decreases t,
{
    match t {
        IRDataType::Unresolved(n) => TypeView::Unresolved(n@),
        IRDataType::Unknown => TypeView::Unknown,
        IRDataType::Int => TypeView::Int,
        IRDataType::Float => TypeView::Float,
        IRDataType::String => TypeView::String,
        IRDataType::Char => TypeView::Char,
        IRDataType::Bool => TypeView::Bool,
        IRDataType::Error => TypeView::Error,
        IRDataType::Null => TypeView::Null,
        IRDataType::List(e) => TypeView::List(Box::new(type_view(*e))),
        IRDataType::Array(e, n) => TypeView::Array(Box::new(type_view(*e)), n),
        IRDataType::Option(e) => TypeView::Option(Box::new(type_view(*e))),
        IRDataType::Result(e) => TypeView::Result(Box::new(type_view(*e))),
        IRDataType::Tuple(v) => TypeView::Tuple(type_views(v@)),
        IRDataType::Dictionary(k, v) => TypeView::Dictionary(
            Box::new(type_view(*k)),
            Box::new(type_view(*v)),
        ),
        IRDataType::Struct(n, f) => TypeView::Struct(n@, field_views(f@)),
    }
}

impl View for IRDataType {
    type V = TypeView;

    open spec fn view(&self) -> TypeView {
        type_view(*self)
    }
}

/// Whether a type holds no leaf that is unresolved or unknown.
pub open spec fn resolved(t: TypeView) -> bool
    decreases t,
{
    match t {
        TypeView::Unresolved(_) => false,
        TypeView::Unknown => false,
        TypeView::List(e) => resolved(*e),
        TypeView::Array(e, _) => resolved(*e),
        TypeView::Option(e) => resolved(*e),
        TypeView::Result(e) => resolved(*e),
        TypeView::Tuple(v) => all_resolved(v),
        TypeView::Dictionary(k, v) => resolved(*k) && resolved(*v),
        TypeView::Struct(_, f) => all_fields_resolved(f),
        _ => true,
    }
}

/// Whether every type of a list is resolved.
pub open spec fn all_resolved(v: Seq<TypeView>) -> bool
    decreases v,
{
    forall|i: int| 0 <= i < v.len() ==> resolved(#[trigger] v[i])
}

/// Whether the type of every field of a list is resolved.
pub open spec fn all_fields_resolved(f: Seq<(Seq<char>, TypeView)>) -> bool
    decreases f,
{
    forall|i: int| 0 <= i < f.len() ==> resolved((#[trigger] f[i]).1)
}

/// Whether every type of a list is resolved.
pub fn are_resolved(items: &Vec<IRDataType>) -> (r: bool)
    ensures
        r == all_resolved(type_views(items@)),
    decreases items, 0nat,
{
    let mut i: usize = 0;
    while i < items.len()
        invariant
            i <= items@.len(),
            forall|j: int| 0 <= j < i ==> resolved(#[trigger] type_views(items@)[j]),
        decreases items@.len() - i,
    {
        if !items[i].is_resolved() {
            assert(!resolved(type_views(items@)[i as int]));
            return false;
        }
        i += 1;
    }
    true
}

/// Whether the type of every field of a list is resolved.
fn fields_resolved(items: &Vec<(String, IRDataType)>) -> (r: bool)
    ensures
        r == all_fields_resolved(field_views(items@)),
    decreases items, 0nat,
{
    let mut i: usize = 0;
    while i < items.len()
        invariant
            i <= items@.len(),
            forall|j: int| 0 <= j < i ==> resolved((#[trigger] field_views(items@)[j]).1),
        decreases items@.len() - i,
    {
        if !items[i].1.is_resolved() {
            assert(!resolved(field_views(items@)[i as int].1));
            return false;
        }
        i += 1;
    }
    true
}

/// A copy of every type of a list.
pub fn duplicate_types(items: &Vec<IRDataType>) -> (r: Vec<IRDataType>)
    ensures
        type_views(r@) == type_views(items@),
    decreases items, 0nat,
{
    let mut out: Vec<IRDataType> = Vec::new();
    let mut i: usize = 0;
    while i < items.len()
        invariant
            i <= items@.len(),
            out@.len() == i,
            forall|j: int| 0 <= j < i ==> out@[j]@ == items@[j]@,
        decreases items@.len() - i,
    {
        out.push(items[i].duplicate());
        i += 1;
    }
    assert(type_views(out@) =~= type_views(items@));
    out
}

/// A copy of every field of a list.
pub fn duplicate_fields(items: &Vec<(String, IRDataType)>) -> (r: Vec<(String, IRDataType)>)
    ensures
        field_views(r@) == field_views(items@),
    decreases items, 0nat,
{
    let mut out: Vec<(String, IRDataType)> = Vec::new();
    let mut i: usize = 0;
    while i < items.len()
        invariant
            i <= items@.len(),
            out@.len() == i,
            forall|j: int|
                0 <= j < i ==> out@[j].0@ == items@[j].0@ && out@[j].1@ == items@[j].1@,
        decreases items@.len() - i,
    {
        out.push((items[i].0.clone(), items[i].1.duplicate()));
        i += 1;
    }
    assert(field_views(out@) =~= field_views(items@));
    out
}

impl IRDataType {
    /// Whether this type holds no leaf that is unresolved or unknown.
    pub fn is_resolved(&self) -> (r: bool)
        ensures
            r == resolved(self@),
        decreases self, 1nat,
    {
        match self {
            IRDataType::Unresolved(_) => false,
            IRDataType::Unknown => false,
            IRDataType::Int => true,
            IRDataType::Float => true,
            IRDataType::String => true,
            IRDataType::Char => true,
            IRDataType::Bool => true,
            IRDataType::Error => true,
            IRDataType::Null => true,
            IRDataType::List(e) => {
                let r = e.is_resolved();
                assert(self@ == TypeView::List(Box::new(e@)));
                r
            },
            IRDataType::Array(e, n) => {
                let r = e.is_resolved();
                assert(self@ == TypeView::Array(Box::new(e@), *n));
                r
            },
            IRDataType::Option(e) => {
                let r = e.is_resolved();
                assert(self@ == TypeView::Option(Box::new(e@)));
                r
            },
            IRDataType::Result(e) => {
                let r = e.is_resolved();
                assert(self@ == TypeView::Result(Box::new(e@)));
                r
            },
            IRDataType::Tuple(v) => {
                let r = are_resolved(v);
                assert(self@ == TypeView::Tuple(type_views(v@)));
                r
            },
            IRDataType::Dictionary(k, v) => {
                let r = k.is_resolved() && v.is_resolved();
                assert(self@ == TypeView::Dictionary(Box::new(k@), Box::new(v@)));
                r
            },
            IRDataType::Struct(n, f) => {
                let r = fields_resolved(f);
                assert(self@ == TypeView::Struct(n@, field_views(f@)));
                r
            },
        }
    }

    /// A copy of this type.
    pub fn duplicate(&self) -> (r: IRDataType)
        ensures
            r@ == self@,
        decreases self, 1nat,
    {
        match self {
            IRDataType::Unresolved(n) => IRDataType::Unresolved(n.clone()),
            IRDataType::Unknown => IRDataType::Unknown,
            IRDataType::Int => IRDataType::Int,
            IRDataType::Float => IRDataType::Float,
            IRDataType::String => IRDataType::String,
            IRDataType::Char => IRDataType::Char,
            IRDataType::Bool => IRDataType::Bool,
            IRDataType::Error => IRDataType::Error,
            IRDataType::Null => IRDataType::Null,
            IRDataType::List(e) => IRDataType::List(Box::new(e.duplicate())),
            IRDataType::Array(e, n) => IRDataType::Array(Box::new(e.duplicate()), *n),
            IRDataType::Option(e) => IRDataType::Option(Box::new(e.duplicate())),
            IRDataType::Result(e) => IRDataType::Result(Box::new(e.duplicate())),
            IRDataType::Tuple(v) => IRDataType::Tuple(duplicate_types(v)),
            IRDataType::Dictionary(k, v) => IRDataType::Dictionary(
                Box::new(k.duplicate()),
                Box::new(v.duplicate()),
            ),
            IRDataType::Struct(n, f) => IRDataType::Struct(n.clone(), duplicate_fields(f)),
        }
    }
}

impl Clone for IRDataType {
    fn clone(&self) -> (r: Self)
        ensures
            r@ == self@,
    {
        self.duplicate()
    }
}

} // verus!
