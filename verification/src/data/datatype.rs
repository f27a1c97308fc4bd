//! The data types of function graphs.

use vstd::prelude::*;

verus! {

/// A named field of a struct type.
#[derive(Debug, PartialEq, Eq)]
pub struct StructField {
    /// The name of the field.
    pub name: String,
    /// The data type of the field.
    pub dtype: DataType,
}

/// A data type of a function graph.
#[derive(Debug, PartialEq, Eq)]
pub enum DataType {
    /// A 64-bit signed integer.
    Int,
    /// A 64-bit float.
    Float,
    /// A UTF-8 string.
    String,
    /// A boolean.
    Bool,
    /// The type of a failure that a function returns.
    Error,
    /// A list of values of one type.
    List(Box<DataType>),
    /// Either a failure or a value of the given type.
    Result(Box<DataType>),
    /// Either nothing or a value of the given type.
    Option(Box<DataType>),
    /// A named type made of named fields.
    Struct {
        /// The name of the struct type.
        struct_name: String,
        /// The fields of the struct type.
        fields: Vec<StructField>,
    },
}

/// A data type as a mathematical value.
pub enum DataTypeView {
    /// A 64-bit signed integer.
    Int,
    /// A 64-bit float.
    Float,
    /// A UTF-8 string.
    String,
    /// A boolean.
    Bool,
    /// The type of a failure that a function returns.
    Error,
    /// A list of values of one type.
    List(Box<DataTypeView>),
    /// Either a failure or a value of the given type.
    Result(Box<DataTypeView>),
    /// Either nothing or a value of the given type.
    Option(Box<DataTypeView>),
    /// A named type made of named fields.
    Struct(Seq<char>, Seq<(Seq<char>, DataTypeView)>),
}

/// The views of a list of fields.
pub open spec fn struct_field_views(fields: Seq<StructField>) -> Seq<(Seq<char>, DataTypeView)>
    decreases fields,
{
    Seq::new(
        fields.len(),
        |i: int|
            if 0 <= i < fields.len() {
                (fields[i].name@, data_type_view(fields[i].dtype))
            } else {
                (Seq::empty(), DataTypeView::Int)
            },
    )
}

/// The mathematical value of an executable type.
pub open spec fn data_type_view(t: DataType) -> DataTypeView
    decreases t,
{
    match t {
        DataType::Int => DataTypeView::Int,
        DataType::Float => DataTypeView::Float,
        DataType::String => DataTypeView::String,
        DataType::Bool => DataTypeView::Bool,
        DataType::Error => DataTypeView::Error,
        DataType::List(e) => DataTypeView::List(Box::new(data_type_view(*e))),
        DataType::Result(e) => DataTypeView::Result(Box::new(data_type_view(*e))),
        DataType::Option(e) => DataTypeView::Option(Box::new(data_type_view(*e))),
        DataType::Struct { struct_name, fields } => DataTypeView::Struct(
            struct_name@,
            struct_field_views(fields@),
        ),
    }
}

impl View for DataType {
    type V = DataTypeView;

    open spec fn view(&self) -> DataTypeView {
        data_type_view(*self)
    }
}

impl View for StructField {
    type V = (Seq<char>, DataTypeView);

    open spec fn view(&self) -> (Seq<char>, DataTypeView) {
        (self.name@, self.dtype@)
    }
}

/// A copy of every field of a list.
fn duplicate_fields(fields: &Vec<StructField>) -> (r: Vec<StructField>)
    ensures
        struct_field_views(r@) == struct_field_views(fields@),
    decreases fields, 0nat,
{
    let mut out: Vec<StructField> = Vec::new();
    let mut i: usize = 0;
    while i < fields.len()
        invariant
            i <= fields@.len(),
            out@.len() == i,
            forall|j: int| 0 <= j < i ==> out@[j]@ == fields@[j]@,
        decreases fields@.len() - i,
    {
        let field = &fields[i];
        out.push(StructField { name: field.name.clone(), dtype: field.dtype.duplicate() });
        i += 1;
    }
    assert(struct_field_views(out@) =~= struct_field_views(fields@));
    out
}

/// Whether two lists of fields are equal.
fn same_fields(a: &Vec<StructField>, b: &Vec<StructField>) -> (r: bool)
    ensures
        r == (struct_field_views(a@) == struct_field_views(b@)),
    decreases a, 0nat,
{
    if a.len() != b.len() {
        assert(struct_field_views(a@).len() != struct_field_views(b@).len());
        return false;
    }
    let mut i: usize = 0;
    while i < a.len()
        invariant
            i <= a@.len(),
            a@.len() == b@.len(),
            forall|j: int| 0 <= j < i ==> a@[j]@ == b@[j]@,
        decreases a@.len() - i,
    {
        if a[i].name != b[i].name || !a[i].dtype.same(&b[i].dtype) {
            assert(struct_field_views(a@)[i as int] != struct_field_views(b@)[i as int]);
            return false;
        }
        i += 1;
    }
    assert(struct_field_views(a@) =~= struct_field_views(b@));
    true
}

impl DataType {
    /// A copy of this type.
    pub fn duplicate(&self) -> (r: DataType)
        ensures
            r@ == self@,
        decreases self, 1nat,
    {
        match self {
            DataType::Int => DataType::Int,
            DataType::Float => DataType::Float,
            DataType::String => DataType::String,
            DataType::Bool => DataType::Bool,
            DataType::Error => DataType::Error,
            DataType::List(e) => DataType::List(Box::new(e.duplicate())),
            DataType::Result(e) => DataType::Result(Box::new(e.duplicate())),
            DataType::Option(e) => DataType::Option(Box::new(e.duplicate())),
            DataType::Struct { struct_name, fields } => DataType::Struct {
                struct_name: struct_name.clone(),
                fields: duplicate_fields(fields),
            },
        }
    }

    /// Whether two types are equal.
    pub fn same(&self, other: &DataType) -> (r: bool)
        ensures
            r == (self@ == other@),
        decreases self, 1nat,
    {
        match (self, other) {
            (DataType::Int, DataType::Int) => true,
            (DataType::Float, DataType::Float) => true,
            (DataType::String, DataType::String) => true,
            (DataType::Bool, DataType::Bool) => true,
            (DataType::Error, DataType::Error) => true,
            (DataType::List(a), DataType::List(b)) => a.same(b),
            (DataType::Result(a), DataType::Result(b)) => a.same(b),
            (DataType::Option(a), DataType::Option(b)) => a.same(b),
            (
                DataType::Struct { struct_name: na, fields: fa },
                DataType::Struct { struct_name: nb, fields: fb },
            ) => *na == *nb && same_fields(fa, fb),
            _ => false,
        }
    }
}

impl Clone for DataType {
    fn clone(&self) -> (r: Self)
        ensures
            r@ == self@,
    {
        self.duplicate()
    }
}

impl Clone for StructField {
    fn clone(&self) -> (r: Self)
        ensures
            r@ == self@,
    {
        StructField { name: self.name.clone(), dtype: self.dtype.duplicate() }
    }
}

} // verus!
