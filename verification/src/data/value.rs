//! Immutable tagged values.

use vstd::prelude::*;

verus! {

/// The type name and the field values of a struct value.
#[derive(Debug, PartialEq, Eq)]
pub struct StructData {
    /// The name of the struct type.
    pub struct_type: String,
    /// The values of the fields, in the order of the type's definition.
    pub fields: Vec<Data>,
}

/// A value. Values are immutable; equality is structural.
///
/// A float is held as its IEEE-754 bit pattern, so two floats are equal
/// exactly if their patterns are.
#[derive(Debug, PartialEq, Eq)]
pub enum Data {
    /// A value that has not been assigned.
    Null,
    /// A 64-bit signed integer.
    Int(i64),
    /// The bit pattern of a 64-bit float.
    Float(u64),
    /// A UTF-8 string.
    String(String),
    /// A Unicode scalar value.
    Char(char),
    /// A boolean.
    Bool(bool),
    /// A value of a struct type.
    Struct(StructData),
    /// A list of values of one type.
    List(Vec<Data>),
    /// A fixed-length array of values.
    Array(Vec<Data>),
    /// A failure, with its message.
    Error(String),
    /// A value that may be null.
    Option(Box<Data>),
    /// A value that may be a failure.
    Result(Box<Data>),
    /// A fixed group of values of possibly different types.
    Tuple(Vec<Data>),
    /// Keys and, at the same positions, their values.
    Dictionary(Vec<Data>, Vec<Data>),
}

/// A value as a mathematical value.
pub enum DataView {
    /// A value that has not been assigned.
    Null,
    /// A 64-bit signed integer.
    Int(i64),
    /// The bit pattern of a 64-bit float.
    Float(u64),
    /// A string, as its characters.
    String(Seq<char>),
    /// A Unicode scalar value.
    Char(char),
    /// A boolean.
    Bool(bool),
    /// A struct: its type name and its field values.
    Struct(Seq<char>, Seq<DataView>),
    /// A list.
    List(Seq<DataView>),
    /// A fixed-length array.
    Array(Seq<DataView>),
    /// A failure, with its message.
    Error(Seq<char>),
    /// A value that may be null.
    Option(Box<DataView>),
    /// A value that may be a failure.
    Result(Box<DataView>),
    /// A fixed group of values.
    Tuple(Seq<DataView>),
    /// Keys and, at the same positions, their values.
    Dictionary(Seq<DataView>, Seq<DataView>),
}

/// The views of a sequence of values.
pub open spec fn data_views(items: Seq<Data>) -> Seq<DataView>
    decreases items,
{
    Seq::new(
        items.len(),
        |i: int|
            if 0 <= i < items.len() {
                data_view(items[i])
            } else {
                DataView::Null
            },
    )
}

/// The mathematical value of an executable value.
pub open spec fn data_view(d: Data) -> DataView
    decreases d,
{
    match d {
        Data::Null => DataView::Null,
        Data::Int(v) => DataView::Int(v),
        Data::Float(v) => DataView::Float(v),
        Data::String(v) => DataView::String(v@),
        Data::Char(v) => DataView::Char(v),
        Data::Bool(v) => DataView::Bool(v),
        Data::Struct(v) => DataView::Struct(v.struct_type@, data_views(v.fields@)),
        Data::List(v) => DataView::List(data_views(v@)),
        Data::Array(v) => DataView::Array(data_views(v@)),
        Data::Error(v) => DataView::Error(v@),
        Data::Option(v) => DataView::Option(Box::new(data_view(*v))),
        Data::Result(v) => DataView::Result(Box::new(data_view(*v))),
        Data::Tuple(v) => DataView::Tuple(data_views(v@)),
        Data::Dictionary(k, v) => DataView::Dictionary(data_views(k@), data_views(v@)),
    }
}

impl View for Data {
    type V = DataView;

    open spec fn view(&self) -> DataView {
        data_view(*self)
    }
}

/// Whether the keys of every dictionary inside a value are pairwise
/// different and as many as its values.
pub open spec fn well_formed(d: DataView) -> bool
    decreases d,
{
    match d {
        DataView::Struct(_, f) => forall|i: int| 0 <= i < f.len() ==> well_formed(#[trigger] f[i]),
        DataView::List(v) => forall|i: int| 0 <= i < v.len() ==> well_formed(#[trigger] v[i]),
        DataView::Array(v) => forall|i: int| 0 <= i < v.len() ==> well_formed(#[trigger] v[i]),
        DataView::Tuple(v) => forall|i: int| 0 <= i < v.len() ==> well_formed(#[trigger] v[i]),
        DataView::Option(v) => well_formed(*v),
        DataView::Result(v) => well_formed(*v),
        DataView::Dictionary(k, v) => {
            &&& k.len() == v.len()
            &&& k.no_duplicates()
            &&& forall|i: int| 0 <= i < k.len() ==> well_formed(#[trigger] k[i])
            &&& forall|i: int| 0 <= i < v.len() ==> well_formed(#[trigger] v[i])
        },
        _ => true,
    }
}

/// Whether two lists hold equal values at every position.
fn same_items(a: &Vec<Data>, b: &Vec<Data>) -> (r: bool)
    ensures
        r == (data_views(a@) == data_views(b@)),
    decreases a, 0nat,
{
    if a.len() != b.len() {
        assert(data_views(a@).len() != data_views(b@).len());
        return false;
    }
    let mut i: usize = 0;
    while i < a.len()
        invariant
            i <= a@.len(),
            a@.len() == b@.len(),
            forall|j: int| 0 <= j < i ==> a@[j]@ == b@[j]@,
        decreases a@.len() - i,
    {
        if !a[i].same(&b[i]) {
            assert(data_views(a@)[i as int] != data_views(b@)[i as int]);
            return false;
        }
        i += 1;
    }
    assert(data_views(a@) =~= data_views(b@));
    true
}

/// A copy of every value of a list.
fn duplicate_items(items: &Vec<Data>) -> (r: Vec<Data>)
    ensures
        data_views(r@) == data_views(items@),
    decreases items, 0nat,
{
    let mut out: Vec<Data> = Vec::new();
    let mut i: usize = 0;
    while i < items.len()
        invariant
            i <= items@.len(),
            out@.len() == i,
            forall|j: int| 0 <= j < i ==> out@[j]@ == items@[j]@,
        decreases items@.len() - i,
    {
        out.push(items[i].duplicate());
        i += 1;
    }
    assert(data_views(out@) =~= data_views(items@));
    out
}

impl Data {
    /// Whether two values are structurally equal.
    pub fn same(&self, other: &Data) -> (r: bool)
        ensures
            r == (self@ == other@),
        decreases self, 1nat,
    {
        match (self, other) {
            (Data::Null, Data::Null) => true,
            (Data::Int(a), Data::Int(b)) => *a == *b,
            (Data::Float(a), Data::Float(b)) => *a == *b,
            (Data::String(a), Data::String(b)) => *a == *b,
            (Data::Char(a), Data::Char(b)) => *a == *b,
            (Data::Bool(a), Data::Bool(b)) => *a == *b,
            (Data::Struct(a), Data::Struct(b)) => a.struct_type == b.struct_type && same_items(
                &a.fields,
                &b.fields,
            ),
            (Data::List(a), Data::List(b)) => same_items(a, b),
            (Data::Array(a), Data::Array(b)) => same_items(a, b),
            (Data::Error(a), Data::Error(b)) => *a == *b,
            (Data::Option(a), Data::Option(b)) => a.same(b),
            (Data::Result(a), Data::Result(b)) => a.same(b),
            (Data::Tuple(a), Data::Tuple(b)) => same_items(a, b),
            (Data::Dictionary(ka, va), Data::Dictionary(kb, vb)) => same_items(ka, kb)
                && same_items(va, vb),
            _ => false,
        }
    }

    /// A copy of this value.
    pub fn duplicate(&self) -> (r: Data)
        ensures
            r@ == self@,
        decreases self, 1nat,
    {
        match self {
            Data::Null => Data::Null,
            Data::Int(v) => Data::Int(*v),
            Data::Float(v) => Data::Float(*v),
            Data::String(v) => Data::String(v.clone()),
            Data::Char(v) => Data::Char(*v),
            Data::Bool(v) => Data::Bool(*v),
            Data::Struct(v) => Data::Struct(
                StructData { struct_type: v.struct_type.clone(), fields: duplicate_items(&v.fields) },
            ),
            Data::List(v) => Data::List(duplicate_items(v)),
            Data::Array(v) => Data::Array(duplicate_items(v)),
            Data::Error(v) => Data::Error(v.clone()),
            Data::Option(v) => Data::Option(Box::new(v.duplicate())),
            Data::Result(v) => Data::Result(Box::new(v.duplicate())),
            Data::Tuple(v) => Data::Tuple(duplicate_items(v)),
            Data::Dictionary(k, v) => Data::Dictionary(duplicate_items(k), duplicate_items(v)),
        }
    }
}

impl Clone for Data {
    fn clone(&self) -> (r: Self)
        ensures
            r@ == self@,
    {
        self.duplicate()
    }
}

impl Clone for StructData {
    fn clone(&self) -> (r: Self)
        ensures
            r.struct_type@ == self.struct_type@,
            data_views(r.fields@) == data_views(self.fields@),
    {
        StructData { struct_type: self.struct_type.clone(), fields: duplicate_items(&self.fields) }
    }
}

} // verus!
