//! Modules, their functions and their data types, by name and by index.

use crate::text::same_text;
use vstd::prelude::*;

verus! {

/// A module: a name, functions and data types.
#[derive(Debug)]
pub struct Module {
    /// The name of the module.
    pub name: String,
    /// The functions of the module.
    pub functions: Vec<FunctionImpl>,
    /// The data types of the module; each lies at its own index.
    pub data_types: Vec<DataType>,
}

/// A function with its body.
#[derive(Debug)]
pub struct FunctionImpl {
    /// The name and the signature of the function.
    pub header: FunctionHeader,
    /// The variables of the function.
    pub variables: Vec<Variable>,
    /// The variables that are the parameters.
    pub parameters: Vec<usize>,
    /// The variables that are returned.
    pub returned: Vec<usize>,
    /// The expressions of the function.
    pub expressions: Vec<Expression>,
}

/// The name and the signature of a function.
#[derive(Debug)]
pub struct FunctionHeader {
    /// The name of the function.
    pub name: String,
    /// Whether the function holds serial actions.
    pub serial: bool,
    /// The data types of the parameters, by index.
    pub parameters: Vec<usize>,
    /// The data types of the results, by index.
    pub return_types: Vec<usize>,
}

/// A variable: a name and the index of its data type.
#[derive(Debug)]
pub struct Variable {
    /// The name of the variable.
    pub name: String,
    /// The index of its data type.
    pub data_type: usize,
}

/// A data type: a name and its index in its module.
#[derive(Debug, PartialEq)]
pub struct DataType {
    /// The name of the data type.
    pub name: String,
    /// The index of the data type in its module.
    pub index: usize,
}

/// A call of a function on variables, whose results go to variables.
#[derive(Debug)]
pub struct Expression {
    /// The function that is called.
    pub func: FunctionHeader,
    /// The variables that are passed.
    pub inputs: Vec<usize>,
    /// The variables that take the results.
    pub outputs: Vec<usize>,
}

/// The names of the functions of a list.
pub open spec fn function_names(functions: Seq<FunctionImpl>) -> Seq<Seq<char>> {
    Seq::new(functions.len(), |i: int| functions[i].header.name@)
}

/// The names of the data types of a list.
pub open spec fn data_type_names(types: Seq<DataType>) -> Seq<Seq<char>> {
    Seq::new(types.len(), |i: int| types[i].name@)
}

/// Whether `i` is the first index at which a list of names holds a name.
pub open spec fn first_named(names: Seq<Seq<char>>, name: Seq<char>, i: int) -> bool {
    &&& 0 <= i < names.len()
    &&& names[i] == name
    &&& forall|j: int| 0 <= j < i ==> #[trigger] names[j] != name
}

/// Whether a list of names does not hold a name.
pub open spec fn unnamed(names: Seq<Seq<char>>, name: Seq<char>) -> bool {
    forall|j: int| 0 <= j < names.len() ==> #[trigger] names[j] != name
}

impl Module {
    /// A module of the given name, without functions and data types.
    pub fn new(name: &str) -> (m: Module)
        ensures
            m.name@ == name@,
            m.functions@.len() == 0,
            m.data_types@.len() == 0,
    {
        Module { name: String::from_str(name), functions: Vec::new(), data_types: Vec::new() }
    }

    /// The index of the first function of the given name.
    pub fn function_index(&self, name: &str) -> (r: Option<usize>)
        ensures
            match r {
                Some(i) => first_named(function_names(self.functions@), name@, i as int),
                None => unnamed(function_names(self.functions@), name@),
            },
    {
        let ghost names = function_names(self.functions@);
        let mut i: usize = 0;
        while i < self.functions.len()
            invariant
                i <= self.functions@.len(),
                names == function_names(self.functions@),
                forall|j: int| 0 <= j < i ==> #[trigger] names[j] != name@,
            decreases self.functions@.len() - i,
        {
            if same_text(self.functions[i].header.name.as_str(), name) {
                return Some(i);
            }
            i += 1;
        }
        None
    }

    /// The first function of the given name.
    pub fn find_function(&self, name: &str) -> (r: Option<&FunctionImpl>)
        ensures
            match r {
                Some(f) => exists|i: int|
                    first_named(function_names(self.functions@), name@, i) && *f
                        == #[trigger] self.functions@[i],
                None => unnamed(function_names(self.functions@), name@),
            },
    {
        match self.function_index(name) {
            Some(i) => Some(&self.functions[i]),
            None => None,
        }
    }

    /// The first data type of the given name.
    pub fn find_data_type(&self, name: &String) -> (r: Option<&DataType>)
        ensures
            match r {
                Some(t) => exists|i: int|
                    first_named(data_type_names(self.data_types@), name@, i) && *t
                        == #[trigger] self.data_types@[i],
                None => unnamed(data_type_names(self.data_types@), name@),
            },
    {
        let ghost names = data_type_names(self.data_types@);
        let mut i: usize = 0;
        while i < self.data_types.len()
            invariant
                i <= self.data_types@.len(),
                names == data_type_names(self.data_types@),
                forall|j: int| 0 <= j < i ==> #[trigger] names[j] != name@,
            decreases self.data_types@.len() - i,
        {
            if same_text(self.data_types[i].name.as_str(), name.as_str()) {
                assert(first_named(names, name@, i as int));
                return Some(&self.data_types[i]);
            }
            i += 1;
        }
        None
    }

    /// The data type at the given index.
    pub fn get_data_type(&self, index: usize) -> (r: Option<&DataType>)
        ensures
            match r {
                Some(t) => index < self.data_types@.len() && *t == self.data_types@[index as int],
                None => index >= self.data_types@.len(),
            },
    {
        if index >= self.data_types.len() {
            return None;
        }
        Some(&self.data_types[index])
    }

    /// Adds a function.
    pub fn add_function(&mut self, func: FunctionImpl)
        ensures
            final(self).functions@ == old(self).functions@.push(func),
            final(self).data_types == old(self).data_types,
            final(self).name == old(self).name,
    {
        self.functions.push(func);
    }

    /// Adds a data type; its index becomes that at which it lies.
    pub fn add_data_type(&mut self, data_type: DataType)
        ensures
            final(self).data_types@ == old(self).data_types@.push(
                DataType { name: data_type.name, index: old(self).data_types@.len() as usize },
            ),
            final(self).functions == old(self).functions,
            final(self).name == old(self).name,
    {
        let mut data_type = data_type;
        data_type.index = self.data_types.len();
        self.data_types.push(data_type);
    }
}

} // verus!
