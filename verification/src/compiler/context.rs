//! A context of modules, each with its data types, its native functions and
//! its functions, which are found by path or by name.

use crate::text::same_text;
use vstd::prelude::*;

verus! {

/// The path of a module: its index in the context.
#[derive(Debug, Copy, Clone, PartialEq, Eq)]
pub struct ModulePath {
    module_index: usize,
}

/// The path of a data type: the index of its module and its index there.
#[derive(Debug, Copy, Clone, PartialEq, Eq)]
pub struct DataTypePath {
    module_index: usize,
    data_type_index: usize,
}

/// The path of a native function: the index of its module and its index
/// there.
#[derive(Debug, Copy, Clone, PartialEq, Eq)]
pub struct NativeFunctionPath {
    module_index: usize,
    function_index: usize,
}

/// The path of a function: the index of its module and its index there.
#[derive(Debug, Copy, Clone, PartialEq, Eq)]
pub struct FunctionPath {
    module_index: usize,
    function_index: usize,
}

/// The path of an expression: the path of its function and its index
/// there.
#[derive(Debug, Copy, Clone, PartialEq, Eq)]
pub struct ExpressionPath {
    module_index: usize,
    function_index: usize,
    expression_index: usize,
}

/// The path of a variable: the path of its function and its index there.
#[derive(Debug, Copy, Clone, PartialEq, Eq)]
pub struct VariablePath {
    module_index: usize,
    function_index: usize,
    variable_index: usize,
}

/// A data type of a module.
pub struct DataType {
    /// The path of the data type.
    pub path: DataTypePath,
    /// The name of the data type.
    pub name: String,
}

/// A function that the host provides.
pub struct NativeFunction {
    /// The path of the function.
    pub path: NativeFunctionPath,
    /// The name of the function.
    pub name: String,
    inputs: Vec<usize>,
    outputs: Vec<usize>,
}

/// An expression of a function.
pub struct Expression {
    /// The path of the expression.
    pub path: ExpressionPath,
    inputs: Vec<usize>,
    outputs: Vec<usize>,
}

/// A variable of a function.
pub struct Variable {
    /// The path of the variable.
    pub path: VariablePath,
    /// The name of the variable, if it has one.
    pub name: Option<String>,
    /// The index of the data type of the variable.
    pub data_type: usize,
}

/// A function of a module.
pub struct Function {
    /// The path of the function.
    pub path: FunctionPath,
    /// The name of the function.
    pub name: String,
    /// Whether the function holds serial actions.
    pub serial: bool,
    /// Whether the function is exported.
    pub exportable: bool,
    /// Whether the function can be accelerated.
    pub acceleratable: bool,
    inputs: Vec<usize>,
    outputs: Vec<usize>,
    variables: Vec<Variable>,
    expressions: Vec<Expression>,
    parameters: Vec<usize>,
}

/// A module of a context.
pub struct Module {
    /// The path of the module.
    pub path: ModulePath,
    /// The name of the module.
    pub name: String,
    data_types: Vec<DataType>,
    native_functions: Vec<NativeFunction>,
    functions: Vec<Function>,
}

/// A context: a list of modules.
pub struct Context {
    modules: Vec<Module>,
}

impl ModulePath {
    /// The index of the module in the context.
    pub closed spec fn index(&self) -> usize {
        self.module_index
    }
}

impl DataTypePath {
    /// The index of the module in the context.
    pub closed spec fn module(&self) -> usize {
        self.module_index
    }

    /// The index of the data type in its module.
    pub closed spec fn index(&self) -> usize {
        self.data_type_index
    }
}

impl NativeFunctionPath {
    /// The index of the module in the context.
    pub closed spec fn module(&self) -> usize {
        self.module_index
    }

    /// The index of the function in its module.
    pub closed spec fn index(&self) -> usize {
        self.function_index
    }
}

impl FunctionPath {
    /// The index of the module in the context.
    pub closed spec fn module(&self) -> usize {
        self.module_index
    }

    /// The index of the function in its module.
    pub closed spec fn index(&self) -> usize {
        self.function_index
    }
}

impl NativeFunction {
    /// The path of this function.
    pub closed spec fn path_of(&self) -> NativeFunctionPath {
        self.path
    }

    /// The name of this function.
    pub closed spec fn name_of(&self) -> String {
        self.name
    }
}

impl Function {
    /// The path of this function.
    pub closed spec fn path_of(&self) -> FunctionPath {
        self.path
    }

    /// The name of this function.
    pub closed spec fn name_of(&self) -> String {
        self.name
    }

    /// Whether this function holds serial actions, is exported, and can be
    /// accelerated.
    pub closed spec fn flags(&self) -> (bool, bool, bool) {
        (self.serial, self.exportable, self.acceleratable)
    }
}

impl Module {
    /// The path of this module.
    pub closed spec fn path_of(&self) -> ModulePath {
        self.path
    }

    /// The name of this module.
    pub closed spec fn name_of(&self) -> String {
        self.name
    }

    /// The data types of this module.
    pub closed spec fn data_types(&self) -> Seq<DataType> {
        self.data_types@
    }

    /// The native functions of this module.
    pub closed spec fn native_functions(&self) -> Seq<NativeFunction> {
        self.native_functions@
    }

    /// The functions of this module.
    pub closed spec fn functions(&self) -> Seq<Function> {
        self.functions@
    }
}

/// Whether `i` is the first index below `n` at which `named` holds of the
/// name.
pub open spec fn first_where(n: nat, named: spec_fn(int) -> bool, i: int) -> bool {
    &&& 0 <= i < n
    &&& named(i)
    &&& forall|j: int| 0 <= j < i ==> !#[trigger] named(j)
}

/// Whether `named` holds at no index below `n`.
pub open spec fn nowhere(n: nat, named: spec_fn(int) -> bool) -> bool {
    forall|j: int| 0 <= j < n ==> !#[trigger] named(j)
}

impl Context {
    /// The modules of this context.
    pub closed spec fn modules(&self) -> Seq<Module> {
        self.modules@
    }

    /// A context without modules.
    pub fn new() -> (c: Context)
        ensures
            c.modules().len() == 0,
    {
        Context { modules: Vec::new() }
    }

    /// Adds a module of the given name, without anything in it.
    pub fn add_module(&mut self, name: String) -> (module: &Module)
        ensures
            final(self).modules() == old(self).modules().push(*module),
            module.path_of().index() == old(self).modules().len(),
            module.name_of() == name,
            module.data_types().len() == 0,
            module.native_functions().len() == 0,
            module.functions().len() == 0,
    {
        let index = self.modules.len();
        let module = Module {
            path: ModulePath { module_index: index },
            name,
            data_types: Vec::new(),
            native_functions: Vec::new(),
            functions: Vec::new(),
        };
        self.modules.push(module);
        &self.modules[index]
    }

    /// The module at the given path.
    pub fn get_module(&self, path: ModulePath) -> (module: &Module)
        requires
            path.index() < self.modules().len(),
        ensures
            *module == self.modules()[path.index() as int],
    {
        &self.modules[path.module_index]
    }

    /// The first module of the given name.
    pub fn find_module(&self, name: &String) -> (r: Option<&Module>)
        ensures
            match r {
                Some(m) => exists|i: int|
                    first_where(
                        self.modules().len(),
                        |k: int| self.modules()[k].name_of()@ == name@,
                        i,
                    ) && *m == #[trigger] self.modules()[i],
                None => nowhere(
                    self.modules().len(),
                    |k: int| self.modules()[k].name_of()@ == name@,
                ),
            },
    {
        let ghost named = |k: int| self.modules()[k].name_of()@ == name@;
        let mut i: usize = 0;
        while i < self.modules.len()
            invariant
                i <= self.modules@.len(),
                named == (|k: int| self.modules()[k].name_of()@ == name@),
                forall|j: int| 0 <= j < i ==> !#[trigger] named(j),
            decreases self.modules@.len() - i,
        {
            if same_text(self.modules[i].name.as_str(), name.as_str()) {
                assert(named(i as int));
                assert(first_where(self.modules().len(), named, i as int));
                return Some(&self.modules[i]);
            }
            assert(!named(i as int));
            i += 1;
        }
        None
    }

    /// Adds a data type of the given name to a module.
    pub fn add_data_type(&mut self, name: String, parent: ModulePath) -> (data_type: &DataType)
        requires
            parent.index() < old(self).modules().len(),
        ensures
            final(self).modules().len() == old(self).modules().len(),
            data_type.name == name,
            data_type.path.index() == old(self).modules()[parent.index() as int].data_types().len(),
            final(self).modules()[parent.index() as int].data_types() == old(
                self,
            ).modules()[parent.index() as int].data_types().push(*data_type),
            forall|k: int|
                0 <= k < old(self).modules().len() && k != parent.index()
                    ==> #[trigger] final(self).modules()[k] == old(self).modules()[k],
    {
        let mi = parent.module_index;
        let index = self.modules[mi].data_types.len();
        let data_type = DataType {
            path: DataTypePath {
                module_index: self.modules[mi].path.module_index,
                data_type_index: index,
            },
            name,
        };
        self.modules[mi].data_types.push(data_type);
        &self.modules[mi].data_types[index]
    }

    /// The data type at the given path.
    pub fn get_data_type(&self, path: DataTypePath) -> (data_type: &DataType)
        requires
            path.module() < self.modules().len(),
            path.index() < self.modules()[path.module() as int].data_types().len(),
        ensures
            *data_type == self.modules()[path.module() as int].data_types()[path.index() as int],
    {
        let module = &self.modules[path.module_index];
        &module.data_types[path.data_type_index]
    }

    /// The first data type of the given name in a module.
    pub fn find_data_type(&self, parent: ModulePath, name: &String) -> (r: Option<&DataType>)
        requires
            parent.index() < self.modules().len(),
        ensures
            match r {
                Some(t) => exists|i: int|
                    first_where(
                        self.modules()[parent.index() as int].data_types().len(),
                        |k: int|
                            self.modules()[parent.index() as int].data_types()[k].name@
                                == name@,
                        i,
                    ) && *t == #[trigger] self.modules()[parent.index() as int].data_types()[i],
                None => nowhere(
                    self.modules()[parent.index() as int].data_types().len(),
                    |k: int|
                        self.modules()[parent.index() as int].data_types()[k].name@ == name@,
                ),
            },
    {
        let module = self.get_module(parent);
        let ghost named = |k: int|
            self.modules()[parent.index() as int].data_types()[k].name@ == name@;
        let mut i: usize = 0;
        while i < module.data_types.len()
            invariant
                i <= module.data_types@.len(),
                parent.index() < self.modules().len(),
                *module == self.modules()[parent.index() as int],
                named == (|k: int|
                    self.modules()[parent.index() as int].data_types()[k].name@ == name@),
                forall|j: int| 0 <= j < i ==> !#[trigger] named(j),
            decreases module.data_types@.len() - i,
        {
            if same_text(module.data_types[i].name.as_str(), name.as_str()) {
                assert(named(i as int));
                assert(first_where(module.data_types().len(), named, i as int));
                return Some(&module.data_types[i]);
            }
            assert(!named(i as int));
            i += 1;
        }
        None
    }

    /// Adds a native function of the given name to a module.
    pub fn add_native_function(&mut self, name: String, parent: ModulePath) -> (function:
        &NativeFunction)
        requires
            parent.index() < old(self).modules().len(),
        ensures
            final(self).modules().len() == old(self).modules().len(),
            function.name_of() == name,
            function.path_of().index() == old(self).modules()[parent.index() as int].native_functions().len(),
            final(self).modules()[parent.index() as int].native_functions() == old(
                self,
            ).modules()[parent.index() as int].native_functions().push(*function),
            forall|k: int|
                0 <= k < old(self).modules().len() && k != parent.index()
                    ==> #[trigger] final(self).modules()[k] == old(self).modules()[k],
    {
        let mi = parent.module_index;
        let index = self.modules[mi].native_functions.len();
        let native_function = NativeFunction {
            path: NativeFunctionPath {
                module_index: self.modules[mi].path.module_index,
                function_index: index,
            },
            name,
            inputs: Vec::new(),
            outputs: Vec::new(),
        };
        self.modules[mi].native_functions.push(native_function);
        &self.modules[mi].native_functions[index]
    }

    /// The native function at the given path.
    pub fn get_native_function(&self, path: NativeFunctionPath) -> (function: &NativeFunction)
        requires
            path.module() < self.modules().len(),
            path.index() < self.modules()[path.module() as int].native_functions().len(),
        ensures
            *function == self.modules()[path.module() as int].native_functions()[path.index() as int],
    {
        let module = &self.modules[path.module_index];
        &module.native_functions[path.function_index]
    }

    /// The first native function of the given name in a module.
    pub fn find_native_function(&self, parent: ModulePath, name: &String) -> (r: Option<
        &NativeFunction,
    >)
        requires
            parent.index() < self.modules().len(),
        ensures
            match r {
                Some(f) => exists|i: int|
                    first_where(
                        self.modules()[parent.index() as int].native_functions().len(),
                        |k: int|
                            self.modules()[parent.index() as int].native_functions()[k].name_of()@
                                == name@,
                        i,
                    ) && *f
                        == #[trigger] self.modules()[parent.index() as int].native_functions()[i],
                None => nowhere(
                    self.modules()[parent.index() as int].native_functions().len(),
                    |k: int|
                        self.modules()[parent.index() as int].native_functions()[k].name_of()@
                            == name@,
                ),
            },
    {
        let module = &self.modules[parent.module_index];
        let ghost named = |k: int|
            self.modules()[parent.index() as int].native_functions()[k].name_of()@ == name@;
        let mut i: usize = 0;
        while i < module.native_functions.len()
            invariant
                i <= module.native_functions@.len(),
                parent.index() < self.modules().len(),
                *module == self.modules()[parent.index() as int],
                named == (|k: int|
                    self.modules()[parent.index() as int].native_functions()[k].name_of()@
                        == name@),
                forall|j: int| 0 <= j < i ==> !#[trigger] named(j),
            decreases module.native_functions@.len() - i,
        {
            if same_text(module.native_functions[i].name.as_str(), name.as_str()) {
                assert(named(i as int));
                assert(first_where(module.native_functions().len(), named, i as int));
                return Some(&module.native_functions[i]);
            }
            assert(!named(i as int));
            i += 1;
        }
        None
    }

    /// Adds a function of the given name to a module.
    pub fn add_function(
        &mut self,
        name: String,
        parent: ModulePath,
        serial: bool,
        exportable: bool,
        acceleratable: bool,
    ) -> (function: &Function)
        requires
            parent.index() < old(self).modules().len(),
        ensures
            final(self).modules().len() == old(self).modules().len(),
            function.name_of() == name,
            function.flags() == (serial, exportable, acceleratable),
            function.path_of().index() == old(self).modules()[parent.index() as int].functions().len(),
            final(self).modules()[parent.index() as int].functions() == old(
                self,
            ).modules()[parent.index() as int].functions().push(*function),
            forall|k: int|
                0 <= k < old(self).modules().len() && k != parent.index()
                    ==> #[trigger] final(self).modules()[k] == old(self).modules()[k],
    {
        let mi = parent.module_index;
        let index = self.modules[mi].functions.len();
        let function = Function {
            path: FunctionPath {
                module_index: self.modules[mi].path.module_index,
                function_index: index,
            },
            name,
            serial,
            exportable,
            acceleratable,
            inputs: Vec::new(),
            outputs: Vec::new(),
            expressions: Vec::new(),
            parameters: Vec::new(),
            variables: Vec::new(),
        };
        self.modules[mi].functions.push(function);
        &self.modules[mi].functions[index]
    }

    /// The function at the given path.
    pub fn get_function(&self, path: FunctionPath) -> (function: &Function)
        requires
            path.module() < self.modules().len(),
            path.index() < self.modules()[path.module() as int].functions().len(),
        ensures
            *function == self.modules()[path.module() as int].functions()[path.index() as int],
    {
        let module = &self.modules[path.module_index];
        &module.functions[path.function_index]
    }

    /// The first function of the given name in a module.
    pub fn find_function(&self, parent: ModulePath, name: &String) -> (r: Option<&Function>)
        requires
            parent.index() < self.modules().len(),
        ensures
            match r {
                Some(f) => exists|i: int|
                    first_where(
                        self.modules()[parent.index() as int].functions().len(),
                        |k: int|
                            self.modules()[parent.index() as int].functions()[k].name_of()@
                                == name@,
                        i,
                    ) && *f == #[trigger] self.modules()[parent.index() as int].functions()[i],
                None => nowhere(
                    self.modules()[parent.index() as int].functions().len(),
                    |k: int|
                        self.modules()[parent.index() as int].functions()[k].name_of()@ == name@,
                ),
            },
    {
        let module = &self.modules[parent.module_index];
        let ghost named = |k: int|
            self.modules()[parent.index() as int].functions()[k].name_of()@ == name@;
        let mut i: usize = 0;
        while i < module.functions.len()
            invariant
                i <= module.functions@.len(),
                parent.index() < self.modules().len(),
                *module == self.modules()[parent.index() as int],
                named == (|k: int|
                    self.modules()[parent.index() as int].functions()[k].name_of()@ == name@),
                forall|j: int| 0 <= j < i ==> !#[trigger] named(j),
            decreases module.functions@.len() - i,
        {
            if same_text(module.functions[i].name.as_str(), name.as_str()) {
                assert(named(i as int));
                assert(first_where(module.functions().len(), named, i as int));
                return Some(&module.functions[i]);
            }
            assert(!named(i as int));
            i += 1;
        }
        None
    }

    /// Whether a path is that of a module of this context.
    pub fn has_module(&self, path: ModulePath) -> (r: bool)
        ensures
            r == (path.index() < self.modules().len()),
    {
        path.module_index < self.modules.len()
    }
}

} // verus!
