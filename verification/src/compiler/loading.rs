//! From the modules, functions and structs of a syntax tree to the flat
//! lists of a program.
//!
//! The elements nested in an element are loaded before the element itself:
//! in a module its modules, then its functions, then its structs; in a
//! function its functions, then its structs, then the function.

use crate::compiler::emission::{
    fault, function_statements, lemma_function_statements_sound, parse_function_statements,
};
use crate::compiler::errors::{CompileFault, CompilerError, IRError, IRErrorView};
use crate::compiler::ir_context::{IRContext, IRContextView};
use crate::compiler::ir_datatype::{type_views, IRDataType, TypeView};
use crate::compiler::ir_function::{IRFunction, IRFunctionView};
use crate::compiler::ir_node::topologically_sound;
use crate::compiler::ir_path::{path_view, IRPathElement, PathElementView, PathView};
use crate::compiler::ir_struct::{field_position, IRStruct, IRStructView};
use crate::compiler::nodes::{ArgumentNode, FunctionNode, ModuleNode, NodePosition, StructNode};
use crate::compiler::type_names::type_of_name;
use crate::registry::function::{FunctionRegistry, RegistryView};
use vstd::prelude::*;

verus! {

/// What has been loaded of a program: its structs, its functions and, for
/// each function, the place it starts at in the source text.
pub struct Loaded {
    /// The structs loaded so far.
    pub structs: Seq<IRStructView>,
    /// The functions loaded so far.
    pub functions: Seq<IRFunctionView>,
    /// For each function, the place it starts at.
    pub positions: Seq<NodePosition>,
}

/// What has been loaded so far, or a failure.
pub type LoadResult = Result<Loaded, CompileFault>;

/// The path element of an element with the given name.
pub open spec fn element(name: Seq<char>, exported: bool) -> PathElementView {
    PathElementView { identifier: name, exported }
}

/// The types that the type names of a list of arguments stand for.
pub open spec fn argument_types(args: Seq<ArgumentNode>) -> Seq<TypeView> {
    Seq::new(args.len(), |i: int| type_of_name(args[i].dtype@))
}

/// The single result type of a function: no value where it returns
/// nothing, the type itself where it returns one value, and a tuple where
/// it returns several.
pub open spec fn signature_output(outputs: Seq<TypeView>) -> TypeView {
    if outputs.len() == 0 {
        TypeView::Null
    } else if outputs.len() == 1 {
        outputs[0]
    } else {
        TypeView::Tuple(outputs)
    }
}

/// The fields that the first `count` arguments of a struct declare; a name
/// that comes twice is a failure at its second occurrence.
pub open spec fn struct_fields(args: Seq<ArgumentNode>, count: nat) -> Result<
    Seq<(Seq<char>, TypeView)>,
    CompileFault,
>
    decreases count,
{
    if count == 0 || count > args.len() {
        Ok(Seq::empty())
    } else {
        match struct_fields(args, (count - 1) as nat) {
            Ok(fields) => {
                let field = args[count - 1];
                if field_position(fields, field.name@) is Some {
                    Err(fault(IRErrorView::IdentifierAlreadyExists(field.name@), field.position))
                } else {
                    Ok(fields.push((field.name@, type_of_name(field.dtype@))))
                }
            },
            Err(e) => Err(e),
        }
    }
}

/// What is loaded after a struct below the given path has been loaded.
pub open spec fn loaded_struct(done: Loaded, s: StructNode, path: PathView) -> LoadResult {
    let own = path.push(element(s.name@, s.export));
    if own.len() > u32::MAX {
        Err(fault(IRErrorView::LimitExceeded, s.position))
    } else {
        match struct_fields(s.fields.arguments@, s.fields.arguments@.len()) {
            Ok(fields) => Ok(
                Loaded { structs: done.structs.push(IRStructView { path: own, fields }), ..done },
            ),
            Err(e) => Err(e),
        }
    }
}

/// What is loaded after the first `count` structs of a list have been
/// loaded.
pub open spec fn loaded_structs(done: Loaded, structs: Seq<StructNode>, count: nat, path: PathView) -> LoadResult
    decreases count,
{
    if count == 0 || count > structs.len() {
        Ok(done)
    } else {
        match loaded_structs(done, structs, (count - 1) as nat, path) {
            Ok(before) => loaded_struct(before, structs[count - 1], path),
            Err(e) => Err(e),
        }
    }
}

/// What is loaded after a function below the given path has been loaded.
pub open spec fn loaded_function(
    done: Loaded,
    f: FunctionNode,
    path: PathView,
    registry: RegistryView,
) -> LoadResult
    decreases f, 0nat,
{
    let own = path.push(element(f.name@, f.export));
    if own.len() > u32::MAX {
        Err(fault(IRErrorView::LimitExceeded, f.position))
    } else {
        match loaded_functions(done, f.functions@, f.functions@.len(), own, registry) {
            Ok(nested) => match loaded_structs(nested, f.structs@, f.structs@.len(), own) {
                Ok(before) => match function_statements(f, registry) {
                    Ok(statements) => Ok(
                        Loaded {
                            structs: before.structs,
                            functions: before.functions.push(
                                IRFunctionView {
                                    path: own,
                                    inputs: argument_types(f.params.arguments@),
                                    output: signature_output(
                                        argument_types(f.returns.arguments@),
                                    ),
                                    statements,
                                },
                            ),
                            positions: before.positions.push(f.position),
                        },
                    ),
                    Err(e) => Err(e),
                },
                Err(e) => Err(e),
            },
            Err(e) => Err(e),
        }
    }
}

/// What is loaded after the first `count` functions of a list have been
/// loaded.
pub open spec fn loaded_functions(
    done: Loaded,
    functions: Seq<FunctionNode>,
    count: nat,
    path: PathView,
    registry: RegistryView,
) -> LoadResult
    decreases functions, count,
{
    if count == 0 || count > functions.len() {
        Ok(done)
    } else {
        match loaded_functions(done, functions, (count - 1) as nat, path, registry) {
            Ok(before) => loaded_function(before, functions[count - 1], path, registry),
            Err(e) => Err(e),
        }
    }
}

/// What is loaded after a module below the given path has been loaded.
pub open spec fn loaded_module(done: Loaded, m: ModuleNode, path: PathView, registry: RegistryView) -> LoadResult
    decreases m, 0nat,
{
    let own = path.push(element(m.name@, m.export));
    if own.len() > u32::MAX {
        Err(fault(IRErrorView::LimitExceeded, m.position))
    } else {
        match loaded_modules(done, m.modules@, m.modules@.len(), own, registry) {
            Ok(nested) => match loaded_functions(
                nested,
                m.functions@,
                m.functions@.len(),
                own,
                registry,
            ) {
                Ok(before) => loaded_structs(before, m.structs@, m.structs@.len(), own),
                Err(e) => Err(e),
            },
            Err(e) => Err(e),
        }
    }
}

/// What is loaded after the first `count` modules of a list have been
/// loaded.
pub open spec fn loaded_modules(
    done: Loaded,
    modules: Seq<ModuleNode>,
    count: nat,
    path: PathView,
    registry: RegistryView,
) -> LoadResult
    decreases modules, count,
{
    if count == 0 || count > modules.len() {
        Ok(done)
    } else {
        match loaded_modules(done, modules, (count - 1) as nat, path, registry) {
            Ok(before) => loaded_module(before, modules[count - 1], path, registry),
            Err(e) => Err(e),
        }
    }
}

/// Whether every function loaded is topologically sound and has its place
/// recorded.
pub open spec fn loaded_sound(done: Loaded) -> bool {
    &&& done.positions.len() == done.functions.len()
    &&& forall|i: int|
        0 <= i < done.functions.len() ==> topologically_sound(
            (#[trigger] done.functions[i]).statements,
        )
}

/// Loading structs leaves the functions as they are.
pub proof fn lemma_load_structs_sound(
    done: Loaded,
    structs: Seq<StructNode>,
    count: nat,
    path: PathView,
)
    requires
        loaded_sound(done),
    ensures
        loaded_structs(done, structs, count, path) matches Ok(r) ==> loaded_sound(r),
    decreases count,
{
    if !(count == 0 || count > structs.len()) {
        lemma_load_structs_sound(done, structs, (count - 1) as nat, path);
    }
}

/// Loading a function keeps every function loaded topologically sound.
pub proof fn lemma_load_function_sound(
    done: Loaded,
    f: FunctionNode,
    path: PathView,
    registry: RegistryView,
)
    requires
        loaded_sound(done),
    ensures
        loaded_function(done, f, path, registry) matches Ok(r) ==> loaded_sound(r),
    decreases f, 0nat,
{
    let own = path.push(element(f.name@, f.export));
    if own.len() <= u32::MAX {
        lemma_load_functions_sound(done, f.functions@, f.functions@.len(), own, registry);
        match loaded_functions(done, f.functions@, f.functions@.len(), own, registry) {
            Ok(nested) => {
                lemma_load_structs_sound(nested, f.structs@, f.structs@.len(), own);
                lemma_function_statements_sound(f, registry);
            },
            Err(_) => {},
        }
    }
}

/// Loading functions keeps every function loaded topologically sound.
pub proof fn lemma_load_functions_sound(
    done: Loaded,
    functions: Seq<FunctionNode>,
    count: nat,
    path: PathView,
    registry: RegistryView,
)
    requires
        loaded_sound(done),
    ensures
        loaded_functions(done, functions, count, path, registry) matches Ok(r) ==> loaded_sound(r),
    decreases functions, count,
{
    if !(count == 0 || count > functions.len()) {
        lemma_load_functions_sound(done, functions, (count - 1) as nat, path, registry);
        match loaded_functions(done, functions, (count - 1) as nat, path, registry) {
            Ok(before) => {
                lemma_load_function_sound(before, functions[count - 1], path, registry);
            },
            Err(_) => {},
        }
    }
}

/// Loading a module keeps every function loaded topologically sound.
pub proof fn lemma_load_module_sound(
    done: Loaded,
    m: ModuleNode,
    path: PathView,
    registry: RegistryView,
)
    requires
        loaded_sound(done),
    ensures
        loaded_module(done, m, path, registry) matches Ok(r) ==> loaded_sound(r),
    decreases m, 0nat,
{
    let own = path.push(element(m.name@, m.export));
    if own.len() <= u32::MAX {
        lemma_load_modules_sound(done, m.modules@, m.modules@.len(), own, registry);
        match loaded_modules(done, m.modules@, m.modules@.len(), own, registry) {
            Ok(nested) => {
                lemma_load_functions_sound(
                    nested,
                    m.functions@,
                    m.functions@.len(),
                    own,
                    registry,
                );
                match loaded_functions(nested, m.functions@, m.functions@.len(), own, registry) {
                    Ok(before) => {
                        lemma_load_structs_sound(before, m.structs@, m.structs@.len(), own);
                    },
                    Err(_) => {},
                }
            },
            Err(_) => {},
        }
    }
}

/// Loading modules keeps every function loaded topologically sound.
pub proof fn lemma_load_modules_sound(
    done: Loaded,
    modules: Seq<ModuleNode>,
    count: nat,
    path: PathView,
    registry: RegistryView,
)
    requires
        loaded_sound(done),
    ensures
        loaded_modules(done, modules, count, path, registry) matches Ok(r) ==> loaded_sound(r),
    decreases modules, count,
{
    if !(count == 0 || count > modules.len()) {
        lemma_load_modules_sound(done, modules, (count - 1) as nat, path, registry);
        match loaded_modules(done, modules, (count - 1) as nat, path, registry) {
            Ok(before) => {
                lemma_load_module_sound(before, modules[count - 1], path, registry);
            },
            Err(_) => {},
        }
    }
}

/// Where loading some of the first structs fails, loading more fails in
/// the same way.
proof fn lemma_load_structs_fails(
    done: Loaded,
    structs: Seq<StructNode>,
    few: nat,
    many: nat,
    path: PathView,
)
    requires
        few <= many <= structs.len(),
        loaded_structs(done, structs, few, path) is Err,
    ensures
        loaded_structs(done, structs, many, path) == loaded_structs(done, structs, few, path),
    decreases many,
{
    if few < many {
        lemma_load_structs_fails(done, structs, few, (many - 1) as nat, path);
    }
}

/// Where loading some of the first functions fails, loading more fails in
/// the same way.
proof fn lemma_load_functions_fails(
    done: Loaded,
    functions: Seq<FunctionNode>,
    few: nat,
    many: nat,
    path: PathView,
    registry: RegistryView,
)
    requires
        few <= many <= functions.len(),
        loaded_functions(done, functions, few, path, registry) is Err,
    ensures
        loaded_functions(done, functions, many, path, registry) == loaded_functions(
            done,
            functions,
            few,
            path,
            registry,
        ),
    decreases many,
{
    if few < many {
        lemma_load_functions_fails(done, functions, few, (many - 1) as nat, path, registry);
    }
}

/// Where loading some of the first modules fails, loading more fails in
/// the same way.
proof fn lemma_load_modules_fails(
    done: Loaded,
    modules: Seq<ModuleNode>,
    few: nat,
    many: nat,
    path: PathView,
    registry: RegistryView,
)
    requires
        few <= many <= modules.len(),
        loaded_modules(done, modules, few, path, registry) is Err,
    ensures
        loaded_modules(done, modules, many, path, registry) == loaded_modules(
            done,
            modules,
            few,
            path,
            registry,
        ),
    decreases many,
{
    if few < many {
        lemma_load_modules_fails(done, modules, few, (many - 1) as nat, path, registry);
    }
}

/// Where collecting some of the first fields fails, collecting more fails in
/// the same way.
proof fn lemma_struct_fields_fails(args: Seq<ArgumentNode>, few: nat, many: nat)
    requires
        few <= many <= args.len(),
        struct_fields(args, few) is Err,
    ensures
        struct_fields(args, many) == struct_fields(args, few),
    decreases many,
{
    if few < many {
        lemma_struct_fields_fails(args, few, (many - 1) as nat);
    }
}

/// A program while it is loaded: the program and, for each of its
/// functions, the place it starts at.
pub struct Loader {
    context: IRContext,
    positions: Vec<NodePosition>,
}

impl View for Loader {
    type V = Loaded;

    closed spec fn view(&self) -> Loaded {
        Loaded {
            structs: self.context@.structs,
            functions: self.context@.functions,
            positions: self.positions@,
        }
    }
}

impl Loader {
    /// The invariant of a program while it is loaded.
    pub closed spec fn wf(&self) -> bool {
        self.context.wf()
    }

    /// Nothing loaded yet.
    pub fn new() -> (l: Self)
        ensures
            l.wf(),
            l@ == (Loaded {
                structs: Seq::empty(),
                functions: Seq::empty(),
                positions: Seq::empty(),
            }),
    {
        Loader { context: IRContext::new(), positions: Vec::new() }
    }

    /// Adds a struct.
    fn add_struct(&mut self, structure: IRStruct)
        requires
            old(self).wf(),
            structure.wf(),
        ensures
            final(self).wf(),
            final(self)@ == (Loaded {
                structs: old(self)@.structs.push(structure@),
                ..old(self)@
            }),
    {
        self.context.add_struct(structure);
    }

    /// Adds a function that starts at the given place.
    fn add_function(&mut self, function: IRFunction, position: NodePosition)
        requires
            old(self).wf(),
            function.wf(),
        ensures
            final(self).wf(),
            final(self)@ == (Loaded {
                structs: old(self)@.structs,
                functions: old(self)@.functions.push(function@),
                positions: old(self)@.positions.push(position),
            }),
    {
        self.context.add_function(function);
        self.positions.push(position);
    }

    /// The program and the places of its functions.
    pub fn finish(self) -> (parts: (IRContext, Vec<NodePosition>))
        requires
            self.wf(),
        ensures
            parts.0.wf(),
            parts.0@.structs == self@.structs,
            parts.0@.functions == self@.functions,
            parts.1@ == self@.positions,
    {
        (self.context, self.positions)
    }
}

/// The path of an element with the given name below the given path.
fn extend_path(path: &Vec<IRPathElement>, name: &String, exported: bool) -> (own: Vec<
    IRPathElement,
>)
    ensures
        path_view(own@) == path_view(path@).push(element(name@, exported)),
{
    let mut own: Vec<IRPathElement> = Vec::new();
    let mut i: usize = 0;
    while i < path.len()
        invariant
            i <= path@.len(),
            own@.len() == i,
            forall|j: int| 0 <= j < i ==> own@[j]@ == path@[j]@,
        decreases path@.len() - i,
    {
        own.push(
            IRPathElement { identifier: path[i].identifier.clone(), exported: path[i].exported },
        );
        i += 1;
    }
    own.push(IRPathElement { identifier: name.clone(), exported });
    assert(path_view(own@) =~= path_view(path@).push(element(name@, exported)));
    own
}

/// The types that the type names of a list of arguments stand for.
fn types_of_arguments(args: &Vec<ArgumentNode>) -> (types: Vec<IRDataType>)
    ensures
        type_views(types@) == argument_types(args@),
{
    let mut types: Vec<IRDataType> = Vec::new();
    let mut i: usize = 0;
    while i < args.len()
        invariant
            i <= args@.len(),
            types@.len() == i,
            forall|j: int| 0 <= j < i ==> types@[j]@ == type_of_name(args@[j].dtype@),
        decreases args@.len() - i,
    {
        types.push(IRDataType::from(args[i].dtype.as_str()));
        i += 1;
    }
    assert(type_views(types@) =~= argument_types(args@));
    types
}

/// The single result type of a function with the given return types.
fn output_of(mut outputs: Vec<IRDataType>) -> (output: IRDataType)
    ensures
        output@ == signature_output(type_views(outputs@)),
{
    if outputs.len() == 0 {
        IRDataType::Null
    } else if outputs.len() == 1 {
        let ghost first = outputs@[0];
        match outputs.pop() {
            Some(t) => t,
            None => IRDataType::Null,
        }
    } else {
        IRDataType::Tuple(outputs)
    }
}

/// Whether an executable step of loading did what loading defines.
pub open spec fn load_is(r: Result<(), CompilerError>, after: Loaded, expected: LoadResult) -> bool {
    match r {
        Ok(_) => expected == Ok::<Loaded, CompileFault>(after),
        Err(e) => expected == Err::<Loaded, CompileFault>(e@),
    }
}

/// Loads a struct below the given path.
pub fn load_struct(loader: &mut Loader, path: &Vec<IRPathElement>, structure: &StructNode) -> (r:
    Result<(), CompilerError>)
    requires
        old(loader).wf(),
    ensures
        final(loader).wf(),
        load_is(r, final(loader)@, loaded_struct(old(loader)@, *structure, path_view(path@))),
{
    let own = extend_path(path, &structure.name, structure.export);
    if own.len() > u32::MAX as usize {
        return Err(CompilerError::new(structure.position, IRError::LimitExceeded));
    }
    let mut ir_struct = IRStruct::new(own);
    let fields = &structure.fields.arguments;
    let mut i: usize = 0;
    while i < fields.len()
        invariant
            i <= fields@.len(),
            fields == &structure.fields.arguments,
            loader.wf(),
            *loader == *old(loader),
            ir_struct@.path.len() <= u32::MAX,
            ir_struct.wf(),
            ir_struct@.path == path_view(path@).push(element(structure.name@, structure.export)),
            struct_fields(fields@, i as nat) == Ok::<Seq<(Seq<char>, TypeView)>, CompileFault>(
                ir_struct@.fields,
            ),
        decreases fields@.len() - i,
    {
        let field = &fields[i];
        let res = ir_struct.add_field(
            field.name.clone(),
            IRDataType::from(field.dtype.as_str()),
        );
        match res {
            Ok(_) => {},
            Err(e) => {
                proof {
                    assert(struct_fields(fields@, (i + 1) as nat) is Err);
                    lemma_struct_fields_fails(fields@, (i + 1) as nat, fields@.len());
                }
                return Err(CompilerError::new(field.position, e));
            },
        }
        i += 1;
    }
    loader.add_struct(ir_struct);
    Ok(())
}

/// Loads the structs of a list below the given path.
fn load_struct_list(loader: &mut Loader, path: &Vec<IRPathElement>, structs: &Vec<StructNode>) -> (r:
    Result<(), CompilerError>)
    requires
        old(loader).wf(),
    ensures
        final(loader).wf(),
        load_is(
            r,
            final(loader)@,
            loaded_structs(old(loader)@, structs@, structs@.len(), path_view(path@)),
        ),
{
    let ghost start = loader@;
    let mut i: usize = 0;
    while i < structs.len()
        invariant
            i <= structs@.len(),
            loader.wf(),
            start == old(loader)@,
            loaded_structs(start, structs@, i as nat, path_view(path@)) == Ok::<
                Loaded,
                CompileFault,
            >(loader@),
        decreases structs@.len() - i,
    {
        match load_struct(loader, path, &structs[i]) {
            Ok(_) => {},
            Err(e) => {
                proof {
                    assert(loaded_structs(start, structs@, (i + 1) as nat, path_view(path@))
                        == Err::<Loaded, CompileFault>(e@));
                    lemma_load_structs_fails(
                        start,
                        structs@,
                        (i + 1) as nat,
                        structs@.len(),
                        path_view(path@),
                    );
                }
                return Err(e);
            },
        }
        i += 1;
    }
    Ok(())
}

/// Loads the functions of a list below the given path.
fn load_function_list(
    loader: &mut Loader,
    path: &Vec<IRPathElement>,
    functions: &Vec<FunctionNode>,
    function_registry: &FunctionRegistry,
) -> (r: Result<(), CompilerError>)
    requires
        old(loader).wf(),
    ensures
        final(loader).wf(),
        load_is(
            r,
            final(loader)@,
            loaded_functions(
                old(loader)@,
                functions@,
                functions@.len(),
                path_view(path@),
                function_registry@,
            ),
        ),
    decreases functions, 0nat,
{
    let ghost start = loader@;
    let mut i: usize = 0;
    while i < functions.len()
        invariant
            i <= functions@.len(),
            loader.wf(),
            start == old(loader)@,
            loaded_functions(start, functions@, i as nat, path_view(path@), function_registry@)
                == Ok::<Loaded, CompileFault>(loader@),
        decreases functions@.len() - i,
    {
        match load_function(loader, path, &functions[i], function_registry) {
            Ok(_) => {},
            Err(e) => {
                proof {
                    assert(loaded_functions(
                        start,
                        functions@,
                        (i + 1) as nat,
                        path_view(path@),
                        function_registry@,
                    ) == Err::<Loaded, CompileFault>(e@));
                    lemma_load_functions_fails(
                        start,
                        functions@,
                        (i + 1) as nat,
                        functions@.len(),
                        path_view(path@),
                        function_registry@,
                    );
                }
                return Err(e);
            },
        }
        i += 1;
    }
    Ok(())
}

/// Loads a function below the given path: the functions and structs nested
/// in it, then the function itself.
pub fn load_function(
    loader: &mut Loader,
    path: &Vec<IRPathElement>,
    function: &FunctionNode,
    function_registry: &FunctionRegistry,
) -> (r: Result<(), CompilerError>)
    requires
        old(loader).wf(),
    ensures
        final(loader).wf(),
        load_is(
            r,
            final(loader)@,
            loaded_function(old(loader)@, *function, path_view(path@), function_registry@),
        ),
    decreases function, 1nat,
{
    let own = extend_path(path, &function.name, function.export);
    if own.len() > u32::MAX as usize {
        return Err(CompilerError::new(function.position, IRError::LimitExceeded));
    }
    match load_function_list(loader, &own, &function.functions, function_registry) {
        Ok(_) => {},
        Err(e) => {
            return Err(e);
        },
    }
    match load_struct_list(loader, &own, &function.structs) {
        Ok(_) => {},
        Err(e) => {
            return Err(e);
        },
    }
    let inputs = types_of_arguments(&function.params.arguments);
    let outputs = types_of_arguments(&function.returns.arguments);
    let output = output_of(outputs);
    let statements = match parse_function_statements(function, function_registry) {
        Ok(statements) => statements,
        Err(e) => {
            return Err(e);
        },
    };
    let ir_function = IRFunction::new(own, inputs, output, statements);
    loader.add_function(ir_function, function.position);
    Ok(())
}

/// Loads the modules of a list below the given path.
fn load_module_list(
    loader: &mut Loader,
    path: &Vec<IRPathElement>,
    modules: &Vec<ModuleNode>,
    function_registry: &FunctionRegistry,
) -> (r: Result<(), CompilerError>)
    requires
        old(loader).wf(),
    ensures
        final(loader).wf(),
        load_is(
            r,
            final(loader)@,
            loaded_modules(
                old(loader)@,
                modules@,
                modules@.len(),
                path_view(path@),
                function_registry@,
            ),
        ),
    decreases modules, 0nat,
{
    let ghost start = loader@;
    let mut i: usize = 0;
    while i < modules.len()
        invariant
            i <= modules@.len(),
            loader.wf(),
            start == old(loader)@,
            loaded_modules(start, modules@, i as nat, path_view(path@), function_registry@) == Ok::<
                Loaded,
                CompileFault,
            >(loader@),
        decreases modules@.len() - i,
    {
        match load_module(loader, path, &modules[i], function_registry) {
            Ok(_) => {},
            Err(e) => {
                proof {
                    assert(loaded_modules(
                        start,
                        modules@,
                        (i + 1) as nat,
                        path_view(path@),
                        function_registry@,
                    ) == Err::<Loaded, CompileFault>(e@));
                    lemma_load_modules_fails(
                        start,
                        modules@,
                        (i + 1) as nat,
                        modules@.len(),
                        path_view(path@),
                        function_registry@,
                    );
                }
                return Err(e);
            },
        }
        i += 1;
    }
    Ok(())
}

/// Loads a module below the given path: the modules nested in it, then its
/// functions, then its structs.
pub fn load_module(
    loader: &mut Loader,
    path: &Vec<IRPathElement>,
    module: &ModuleNode,
    function_registry: &FunctionRegistry,
) -> (r: Result<(), CompilerError>)
    requires
        old(loader).wf(),
    ensures
        final(loader).wf(),
        load_is(
            r,
            final(loader)@,
            loaded_module(old(loader)@, *module, path_view(path@), function_registry@),
        ),
    decreases module, 1nat,
{
    let own = extend_path(path, &module.name, module.export);
    if own.len() > u32::MAX as usize {
        return Err(CompilerError::new(module.position, IRError::LimitExceeded));
    }
    match load_module_list(loader, &own, &module.modules, function_registry) {
        Ok(_) => {},
        Err(e) => {
            return Err(e);
        },
    }
    match load_function_list(loader, &own, &module.functions, function_registry) {
        Ok(_) => {},
        Err(e) => {
            return Err(e);
        },
    }
    load_struct_list(loader, &own, &module.structs)
}

/// Loads all modules of a program.
pub fn load_context(modules: &Vec<ModuleNode>, function_registry: &FunctionRegistry) -> (r: Result<
    Loader,
    CompilerError,
>)
    ensures
        match r {
            Ok(loader) => {
                &&& loader.wf()
                &&& loaded_sound(loader@)
                &&& loaded_modules(
                    Loaded {
                        structs: Seq::empty(),
                        functions: Seq::empty(),
                        positions: Seq::empty(),
                    },
                    modules@,
                    modules@.len(),
                    Seq::empty(),
                    function_registry@,
                ) == Ok::<Loaded, CompileFault>(loader@)
            },
            Err(e) => loaded_modules(
                Loaded { structs: Seq::empty(), functions: Seq::empty(), positions: Seq::empty() },
                modules@,
                modules@.len(),
                Seq::empty(),
                function_registry@,
            ) == Err::<Loaded, CompileFault>(e@),
        },
{
    let mut loader = Loader::new();
    let path: Vec<IRPathElement> = Vec::new();
    assert(path_view(path@) =~= Seq::<PathElementView>::empty());
    proof {
        lemma_load_modules_sound(
            loader@,
            modules@,
            modules@.len(),
            Seq::empty(),
            function_registry@,
        );
    }
    match load_module_list(&mut loader, &path, modules, function_registry) {
        Ok(_) => Ok(loader),
        Err(e) => Err(e),
    }
}

} // verus!
