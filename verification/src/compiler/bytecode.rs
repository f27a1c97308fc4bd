//! From a program in the intermediate representation to its executable
//! tables.
//!
//! Every statement becomes an operation. A constant is looked up in the
//! constant pool by its value and added where the pool does not hold it; a
//! host function is looked up in the table of host functions by its name
//! and added, with the callback that the registry has for it, where the
//! table does not hold it.

use crate::compiler::ast_to_ir::program_sound;
use crate::compiler::ir_context::{IRContext, IRContextView};
use crate::compiler::ir_function::{IRFunction, IRFunctionView};
use crate::compiler::ir_node::{
    inputs_precede, node_views, topologically_sound, FuncCallView, IRFuncCall, IRNode,
    IRNodeInput, IRNodeView,
};
use crate::data::value::{Data, DataView};
use crate::registry::function::{
    lemma_position_of, position_of, FunctionRegistry, RegistryView, VertexFunction,
};
use crate::runtime::bytecode::{
    operation_sound, operations_sound, ExternalFunction, ExternalView, FunctionCall,
    InternalFunction, Operation, OperationInput, OperationView, VertexBytecode,
    VertexBytecodeView,
};
use crate::text::same_text;
use vstd::prelude::*;

verus! {

/// Why a program could not be assembled.
#[derive(Debug, Clone, PartialEq, Eq)]
pub enum AssemblyError {
    /// A call of a function of the program that was left unbound.
    UnresolvedCall(String),
    /// A call of a host function that the registry does not hold.
    UnknownExternal(String),
}

/// A failure of assembling as a mathematical value.
pub enum AssemblyFault {
    /// A call of a function of the program that was left unbound.
    UnresolvedCall(Seq<char>),
    /// A call of a host function that the registry does not hold.
    UnknownExternal(Seq<char>),
}

impl View for AssemblyError {
    type V = AssemblyFault;

    open spec fn view(&self) -> AssemblyFault {
        match self {
            AssemblyError::UnresolvedCall(n) => AssemblyFault::UnresolvedCall(n@),
            AssemblyError::UnknownExternal(n) => AssemblyFault::UnknownExternal(n@),
        }
    }
}

/// The text of a failure of assembling.
pub open spec fn assembly_fault_text(e: AssemblyFault) -> Seq<char> {
    match e {
        AssemblyFault::UnresolvedCall(n) => "Cannot load bytecode from unresolved function: "@
            + n,
        AssemblyFault::UnknownExternal(n) => "Unknown function: "@ + n,
    }
}

impl AssemblyError {
    /// The text of this failure.
    pub fn to_text(&self) -> (s: String)
        ensures
            s@ == assembly_fault_text(self@),
    {
        match self {
            AssemblyError::UnresolvedCall(n) => {
                let mut out = String::from_str("Cannot load bytecode from unresolved function: ");
                out.append(n.as_str());
                out
            },
            AssemblyError::UnknownExternal(n) => {
                let mut out = String::from_str("Unknown function: ");
                out.append(n.as_str());
                out
            },
        }
    }
}

/// The two tables that grow while a program is assembled.
pub struct Tables {
    /// The host functions found so far.
    pub externals: Seq<ExternalView>,
    /// The constants found so far.
    pub constants: Seq<DataView>,
}

/// The names of a table of host functions.
pub open spec fn external_names(externals: Seq<ExternalView>) -> Seq<Seq<char>> {
    Seq::new(externals.len(), |i: int| externals[i].name)
}

/// The value that a constant call gives.
pub open spec fn constant_of(call: FuncCallView) -> Option<DataView> {
    match call {
        FuncCallView::IntConstant(v) => Some(DataView::Int(v)),
        FuncCallView::FloatConstant(v) => Some(DataView::Float(v)),
        FuncCallView::StringConstant(v) => Some(DataView::String(v)),
        FuncCallView::CharConstant(v) => Some(DataView::Char(v)),
        FuncCallView::BoolConstant(v) => Some(DataView::Bool(v)),
        _ => None,
    }
}

/// The name of the host function that a call goes to.
pub open spec fn external_of(call: FuncCallView) -> Option<Seq<char>> {
    match call {
        FuncCallView::External(n) => Some(n),
        _ => None,
    }
}

/// A pool with an item looked up in it and added where it was missing, and
/// the index of the item.
pub open spec fn interned<T>(pool: Seq<T>, item: T) -> (Seq<T>, int) {
    if pool.contains(item) {
        (pool, pool.index_of(item))
    } else {
        (pool.push(item), pool.len() as int)
    }
}

/// The tables after a call has been looked at, and what the operation
/// calls.
pub open spec fn assemble_call(tables: Tables, call: FuncCallView, registry: RegistryView) -> Result<
    (Tables, FunctionCall),
    AssemblyFault,
> {
    match call {
        FuncCallView::External(name) => {
            let names = external_names(tables.externals);
            if names.contains(name) {
                Ok((tables, FunctionCall::External(names.index_of(name) as usize)))
            } else {
                match position_of(registry, name) {
                    Some(k) => Ok(
                        (
                            Tables {
                                externals: tables.externals.push(
                                    ExternalView { name, function: registry[k].func },
                                ),
                                ..tables
                            },
                            FunctionCall::External(tables.externals.len() as usize),
                        ),
                    ),
                    None => Err(AssemblyFault::UnknownExternal(name)),
                }
            }
        },
        FuncCallView::Internal(i) => Ok((tables, FunctionCall::Internal(i))),
        FuncCallView::Unresolved(name) => Err(AssemblyFault::UnresolvedCall(name)),
        _ => {
            let found = interned(tables.constants, constant_of(call)->Some_0);
            Ok((Tables { constants: found.0, ..tables }, FunctionCall::Constant(found.1 as usize)))
        },
    }
}

/// The input of an operation that stands for the input of a statement.
pub open spec fn input_of(input: IRNodeInput) -> OperationInput {
    match input {
        IRNodeInput::FunctionParam(i) => OperationInput::Param(i as usize),
        IRNodeInput::HiddenNode(i) => OperationInput::Hidden(i as usize),
    }
}

/// The inputs of an operation that stand for the inputs of a statement.
pub open spec fn inputs_of(inputs: Seq<IRNodeInput>) -> Seq<OperationInput> {
    Seq::new(inputs.len(), |i: int| input_of(inputs[i]))
}

/// The tables and the operations after the first `count` statements of a
/// function have been assembled.
pub open spec fn assemble_nodes(
    tables: Tables,
    nodes: Seq<IRNodeView>,
    count: nat,
    registry: RegistryView,
) -> Result<(Tables, Seq<OperationView>), AssemblyFault>
    decreases count,
{
    if count == 0 || count > nodes.len() {
        Ok((tables, Seq::empty()))
    } else {
        match assemble_nodes(tables, nodes, (count - 1) as nat, registry) {
            Ok(done) => match assemble_call(done.0, nodes[count - 1].function, registry) {
                Ok(next) => Ok(
                    (
                        next.0,
                        done.1.push(
                            OperationView {
                                function_call: next.1,
                                inputs: inputs_of(nodes[count - 1].inputs),
                            },
                        ),
                    ),
                ),
                Err(e) => Err(e),
            },
            Err(e) => Err(e),
        }
    }
}

/// The tables and the functions after the first `count` functions of a
/// program have been assembled.
pub open spec fn assemble_functions(
    tables: Tables,
    functions: Seq<IRFunctionView>,
    count: nat,
    registry: RegistryView,
) -> Result<(Tables, Seq<Seq<OperationView>>), AssemblyFault>
    decreases count,
{
    if count == 0 || count > functions.len() {
        Ok((tables, Seq::empty()))
    } else {
        match assemble_functions(tables, functions, (count - 1) as nat, registry) {
            Ok(done) => {
                let nodes = functions[count - 1].statements;
                match assemble_nodes(done.0, nodes, nodes.len(), registry) {
                    Ok(next) => Ok((next.0, done.1.push(next.1))),
                    Err(e) => Err(e),
                }
            },
            Err(e) => Err(e),
        }
    }
}

/// No tables yet.
pub open spec fn no_tables() -> Tables {
    Tables { externals: Seq::empty(), constants: Seq::empty() }
}

/// The executable tables of a program.
pub open spec fn assembled(program: IRContextView, registry: RegistryView) -> Result<
    VertexBytecodeView,
    AssemblyFault,
> {
    match assemble_functions(no_tables(), program.functions, program.functions.len(), registry) {
        Ok(done) => Ok(
            VertexBytecodeView {
                external_functions: done.0.externals,
                internal_functions: done.1,
                constants: done.0.constants,
            },
        ),
        Err(e) => Err(e),
    }
}

/// The set that holds the item of an option, if it has one.
pub open spec fn option_set<T>(item: Option<T>) -> Set<T> {
    match item {
        Some(v) => Set::empty().insert(v),
        None => Set::empty(),
    }
}

/// The values of the constants among the first `count` statements.
pub open spec fn constants_in(nodes: Seq<IRNodeView>, count: nat) -> Set<DataView>
    decreases count,
{
    if count == 0 || count > nodes.len() {
        Set::empty()
    } else {
        constants_in(nodes, (count - 1) as nat).union(
            option_set(constant_of(nodes[count - 1].function)),
        )
    }
}

/// The names of the host functions that the first `count` statements call.
pub open spec fn externals_in(nodes: Seq<IRNodeView>, count: nat) -> Set<Seq<char>>
    decreases count,
{
    if count == 0 || count > nodes.len() {
        Set::empty()
    } else {
        externals_in(nodes, (count - 1) as nat).union(
            option_set(external_of(nodes[count - 1].function)),
        )
    }
}

/// The distinct values of the constants of the first `count` functions.
pub open spec fn program_constants(functions: Seq<IRFunctionView>, count: nat) -> Set<DataView>
    decreases count,
{
    if count == 0 || count > functions.len() {
        Set::empty()
    } else {
        program_constants(functions, (count - 1) as nat).union(
            constants_in(
                functions[count - 1].statements,
                functions[count - 1].statements.len(),
            ),
        )
    }
}

/// The distinct names of the host functions that the first `count`
/// functions call.
pub open spec fn program_externals(functions: Seq<IRFunctionView>, count: nat) -> Set<Seq<char>>
    decreases count,
{
    if count == 0 || count > functions.len() {
        Set::empty()
    } else {
        program_externals(functions, (count - 1) as nat).union(
            externals_in(
                functions[count - 1].statements,
                functions[count - 1].statements.len(),
            ),
        )
    }
}

/// Whether neither table holds an item twice.
pub open spec fn deduplicated(tables: Tables) -> bool {
    tables.constants.no_duplicates() && external_names(tables.externals).no_duplicates()
}

/// Looking an item up in a pool without duplicates keeps it so, adds the
/// item to what the pool holds and nothing else, and gives the item's index.
pub proof fn lemma_interned<T>(pool: Seq<T>, item: T)
    requires
        pool.no_duplicates(),
    ensures
        interned(pool, item).0.no_duplicates(),
        interned(pool, item).0.to_set() == pool.to_set().insert(item),
        0 <= interned(pool, item).1 < interned(pool, item).0.len(),
        interned(pool, item).0[interned(pool, item).1] == item,
        pool.len() <= interned(pool, item).0.len(),
        interned(pool, item).0.subrange(0, pool.len() as int) == pool,
{
    let after = interned(pool, item).0;
    if pool.contains(item) {
        assert(after.to_set() =~= pool.to_set().insert(item));
        assert(after.subrange(0, pool.len() as int) =~= pool);
    } else {
        assert forall|x: T| after.to_set().contains(x) <==> pool.to_set().insert(item).contains(
            x,
        ) by {
            if after.contains(x) {
                let i = choose|i: int| 0 <= i < after.len() && after[i] == x;
                if i < pool.len() {
                    assert(pool[i] == x);
                }
            }
            if pool.contains(x) {
                let i = choose|i: int| 0 <= i < pool.len() && pool[i] == x;
                assert(after[i] == x);
            }
            if x == item {
                assert(after[pool.len() as int] == x);
            }
        }
        assert(after.to_set() =~= pool.to_set().insert(item));
        assert(after.subrange(0, pool.len() as int) =~= pool);
    }
}

/// Looking at a call keeps the tables without duplicates and adds to them
/// what the call names, and nothing else.
pub proof fn lemma_assemble_call(tables: Tables, call: FuncCallView, registry: RegistryView)
    requires
        deduplicated(tables),
    ensures
        assemble_call(tables, call, registry) matches Ok(r) ==> {
            &&& deduplicated(r.0)
            &&& r.0.constants.to_set() == tables.constants.to_set().union(
                option_set(constant_of(call)),
            )
            &&& external_names(r.0.externals).to_set() == external_names(
                tables.externals,
            ).to_set().union(option_set(external_of(call)))
        },
{
    match call {
        FuncCallView::External(name) => {
            let names = external_names(tables.externals);
            lemma_interned(names, name);
            if !names.contains(name) {
                match position_of(registry, name) {
                    Some(k) => {
                        let after = tables.externals.push(
                            ExternalView { name, function: registry[k].func },
                        );
                        assert(external_names(after) =~= names.push(name));
                        assert(names.to_set().insert(name) =~= names.to_set().union(
                            option_set(external_of(call)),
                        ));
                    },
                    None => {},
                }
            } else {
                assert(names.to_set().insert(name) =~= names.to_set());
                assert(names.to_set() =~= names.to_set().union(option_set(external_of(call))));
            }
            assert(tables.constants.to_set() =~= tables.constants.to_set().union(
                option_set(constant_of(call)),
            ));
        },
        FuncCallView::Internal(_) => {
            assert(tables.constants.to_set() =~= tables.constants.to_set().union(
                option_set(constant_of(call)),
            ));
            assert(external_names(tables.externals).to_set() =~= external_names(
                tables.externals,
            ).to_set().union(option_set(external_of(call))));
        },
        FuncCallView::Unresolved(_) => {},
        _ => {
            let item = constant_of(call)->Some_0;
            lemma_interned(tables.constants, item);
            assert(tables.constants.to_set().insert(item) =~= tables.constants.to_set().union(
                option_set(constant_of(call)),
            ));
            assert(external_names(tables.externals).to_set() =~= external_names(
                tables.externals,
            ).to_set().union(option_set(external_of(call))));
        },
    }
}

/// Assembling statements keeps the tables without duplicates and adds to
/// them what the statements name, and nothing else. The operations refer to
/// earlier operations wherever the statements refer to earlier statements.
pub proof fn lemma_assemble_nodes(
    tables: Tables,
    nodes: Seq<IRNodeView>,
    count: nat,
    registry: RegistryView,
)
    requires
        deduplicated(tables),
        count <= nodes.len(),
    ensures
        assemble_nodes(tables, nodes, count, registry) matches Ok(r) ==> {
            &&& deduplicated(r.0)
            &&& r.0.constants.to_set() == tables.constants.to_set().union(
                constants_in(nodes, count),
            )
            &&& external_names(r.0.externals).to_set() == external_names(
                tables.externals,
            ).to_set().union(externals_in(nodes, count))
            &&& r.1.len() == count
            &&& forall|i: int| 0 <= i < count ==> (#[trigger] r.1[i]).inputs == inputs_of(nodes[i].inputs)
        },
    decreases count,
{
    if count == 0 {
        assert(tables.constants.to_set() =~= tables.constants.to_set().union(
            constants_in(nodes, count),
        ));
        assert(external_names(tables.externals).to_set() =~= external_names(
            tables.externals,
        ).to_set().union(externals_in(nodes, count)));
    } else {
        lemma_assemble_nodes(tables, nodes, (count - 1) as nat, registry);
        match assemble_nodes(tables, nodes, (count - 1) as nat, registry) {
            Ok(done) => {
                let call = nodes[count - 1].function;
                lemma_assemble_call(done.0, call, registry);
                match assemble_call(done.0, call, registry) {
                    Ok(next) => {
                        assert(next.0.constants.to_set() =~= tables.constants.to_set().union(
                            constants_in(nodes, count),
                        ));
                        assert(external_names(next.0.externals).to_set() =~= external_names(
                            tables.externals,
                        ).to_set().union(externals_in(nodes, count)));
                    },
                    Err(_) => {},
                }
            },
            Err(_) => {},
        }
    }
}

/// Assembling functions keeps the tables without duplicates and adds to
/// them what the functions name, and nothing else.
pub proof fn lemma_assemble_functions(
    tables: Tables,
    functions: Seq<IRFunctionView>,
    count: nat,
    registry: RegistryView,
)
    requires
        deduplicated(tables),
        count <= functions.len(),
    ensures
        assemble_functions(tables, functions, count, registry) matches Ok(r) ==> {
            &&& deduplicated(r.0)
            &&& r.0.constants.to_set() == tables.constants.to_set().union(
                program_constants(functions, count),
            )
            &&& external_names(r.0.externals).to_set() == external_names(
                tables.externals,
            ).to_set().union(program_externals(functions, count))
            &&& r.1.len() == count
            &&& forall|f: int|
                #![trigger r.1[f]]
                0 <= f < count ==> {
                    &&& r.1[f].len() == functions[f].statements.len()
                    &&& forall|i: int|
                        0 <= i < r.1[f].len() ==> (#[trigger] r.1[f][i]).inputs == inputs_of(
                            functions[f].statements[i].inputs,
                        )
                }
        },
    decreases count,
{
    if count == 0 {
        assert(tables.constants.to_set() =~= tables.constants.to_set().union(
            program_constants(functions, count),
        ));
        assert(external_names(tables.externals).to_set() =~= external_names(
            tables.externals,
        ).to_set().union(program_externals(functions, count)));
    } else {
        lemma_assemble_functions(tables, functions, (count - 1) as nat, registry);
        match assemble_functions(tables, functions, (count - 1) as nat, registry) {
            Ok(done) => {
                let nodes = functions[count - 1].statements;
                lemma_assemble_nodes(done.0, nodes, nodes.len(), registry);
                match assemble_nodes(done.0, nodes, nodes.len(), registry) {
                    Ok(next) => {
                        assert(next.0.constants.to_set() =~= tables.constants.to_set().union(
                            program_constants(functions, count),
                        ));
                        assert(external_names(next.0.externals).to_set() =~= external_names(
                            tables.externals,
                        ).to_set().union(program_externals(functions, count)));
                    },
                    Err(_) => {},
                }
            },
            Err(_) => {},
        }
    }
}

/// Operations that stand for topologically sound statements are
/// topologically sound.
pub proof fn lemma_operations_sound(nodes: Seq<IRNodeView>, ops: Seq<OperationView>)
    requires
        topologically_sound(nodes),
        ops.len() == nodes.len(),
        forall|i: int| 0 <= i < ops.len() ==> (#[trigger] ops[i]).inputs == inputs_of(nodes[i].inputs),
    ensures
        operations_sound(ops),
{
    assert forall|i: int| 0 <= i < ops.len() implies operation_sound(#[trigger] ops[i], i) by {
        assert(inputs_precede(nodes[i], i));
        assert forall|k: int| 0 <= k < ops[i].inputs.len() implies ((
        #[trigger] ops[i].inputs[k]) matches OperationInput::Hidden(j) ==> j < i) by {
            assert(ops[i].inputs[k] == input_of(nodes[i].inputs[k]));
        }
    }
}

/// The executable tables of a program hold every constant of the program
/// once: there are as many constants in the pool as the program has
/// distinct constant values. Likewise there are as many host functions in
/// the table as the program calls by distinct names. And every function
/// whose statements are topologically sound has topologically sound
/// operations.
pub proof fn lemma_assembled(program: IRContextView, registry: RegistryView)
    ensures
        assembled(program, registry) matches Ok(b) ==> {
            &&& b.constants.no_duplicates()
            &&& b.constants.to_set() == program_constants(
                program.functions,
                program.functions.len(),
            )
            &&& b.constants.len() == program_constants(
                program.functions,
                program.functions.len(),
            ).len()
            &&& external_names(b.external_functions).no_duplicates()
            &&& external_names(b.external_functions).to_set() == program_externals(
                program.functions,
                program.functions.len(),
            )
            &&& b.external_functions.len() == program_externals(
                program.functions,
                program.functions.len(),
            ).len()
            &&& b.internal_functions.len() == program.functions.len()
            &&& program_sound(program) ==> forall|f: int|
                0 <= f < b.internal_functions.len() ==> operations_sound(
                    #[trigger] b.internal_functions[f],
                )
        },
{
    let functions = program.functions;
    assert(external_names(no_tables().externals) =~= Seq::<Seq<char>>::empty());
    lemma_assemble_functions(no_tables(), functions, functions.len(), registry);
    match assemble_functions(no_tables(), functions, functions.len(), registry) {
        Ok(done) => {
            let constants = done.0.constants;
            let names = external_names(done.0.externals);
            assert(no_tables().constants.to_set() =~= Set::<DataView>::empty());
            assert(external_names(no_tables().externals).to_set() =~= Set::<Seq<char>>::empty());
            assert(constants.to_set() =~= program_constants(functions, functions.len()));
            assert(names.to_set() =~= program_externals(functions, functions.len()));
            constants.unique_seq_to_set();
            names.unique_seq_to_set();
            if program_sound(program) {
                assert forall|f: int| 0 <= f < done.1.len() implies operations_sound(
                    #[trigger] done.1[f],
                ) by {
                    assert(topologically_sound(functions[f].statements));
                    lemma_operations_sound(functions[f].statements, done.1[f]);
                }
            }
        },
        Err(_) => {},
    }
}

} // verus!

verus! {

/// The two growing tables of the executable tables.
pub open spec fn tables_of(b: VertexBytecodeView) -> Tables {
    Tables { externals: b.external_functions, constants: b.constants }
}

/// In a pool without duplicates, an item that lies at an index is found at
/// that index.
pub proof fn lemma_index_of<T>(pool: Seq<T>, item: T, i: int)
    requires
        pool.no_duplicates(),
        0 <= i < pool.len(),
        pool[i] == item,
    ensures
        pool.contains(item),
        pool.index_of(item) == i,
{
    let found = pool.index_of(item);
    assert(0 <= found < pool.len() && pool[found] == item);
}

/// The data value of a constant call.
fn data_of(call: &IRFuncCall) -> (d: Option<Data>)
    ensures
        match d {
            Some(v) => constant_of(call@) == Some(v@),
            None => constant_of(call@) is None,
        },
{
    match call {
        IRFuncCall::IntConstant(v) => Some(Data::Int(*v)),
        IRFuncCall::FloatConstant(v) => Some(Data::Float(*v)),
        IRFuncCall::StringConstant(v) => Some(Data::String(v.clone())),
        IRFuncCall::CharConstant(v) => Some(Data::Char(*v)),
        IRFuncCall::BoolConstant(v) => Some(Data::Bool(*v)),
        _ => None,
    }
}

/// Looks a constant up in the pool by its value, adds it where the pool
/// does not hold it, and gives the call of the constant.
pub fn add_const(bytecode: &mut VertexBytecode, constant: Data) -> (call: FunctionCall)
    requires
        old(bytecode)@.constants.no_duplicates(),
    ensures
        final(bytecode)@ == (VertexBytecodeView {
            constants: interned(old(bytecode)@.constants, constant@).0,
            ..old(bytecode)@
        }),
        call == FunctionCall::Constant(interned(old(bytecode)@.constants, constant@).1 as usize),
{
    let ghost pool = bytecode@.constants;
    let constants = bytecode.get_constants();
    let mut i: usize = 0;
    while i < constants.len()
        invariant
            i <= constants@.len(),
            pool == bytecode@.constants,
            pool.no_duplicates(),
            constants@.len() == pool.len(),
            forall|j: int| 0 <= j < constants@.len() ==> (*#[trigger] constants@[j])@ == pool[j],
            forall|j: int| 0 <= j < i ==> pool[j] != constant@,
        decreases constants@.len() - i,
    {
        if constants[i].same(&constant) {
            proof {
                lemma_index_of(pool, constant@, i as int);
            }
            return FunctionCall::Constant(i);
        }
        i += 1;
    }
    let index = constants.len();
    bytecode.add_constant(constant);
    FunctionCall::Constant(index)
}

/// Looks a host function up in the table by its name, adds it with the
/// callback that the registry has for it where the table does not hold it,
/// and gives the call of the function. It fails where neither holds a
/// function of the name.
pub fn add_ext_func(bytecode: &mut VertexBytecode, function: &str, registry: &FunctionRegistry) -> (r:
    Result<FunctionCall, AssemblyError>)
    requires
        external_names(old(bytecode)@.external_functions).no_duplicates(),
    ensures
        match r {
            Ok(call) => assemble_call(
                tables_of(old(bytecode)@),
                FuncCallView::External(function@),
                registry@,
            ) == Ok::<(Tables, FunctionCall), AssemblyFault>((tables_of(final(bytecode)@), call)),
            Err(e) => assemble_call(
                tables_of(old(bytecode)@),
                FuncCallView::External(function@),
                registry@,
            ) == Err::<(Tables, FunctionCall), AssemblyFault>(e@),
        },
        final(bytecode)@.internal_functions == old(bytecode)@.internal_functions,
{
    let ghost names = external_names(bytecode@.external_functions);
    let externals = bytecode.get_external_functions();
    let mut i: usize = 0;
    while i < externals.len()
        invariant
            i <= externals@.len(),
            names == external_names(bytecode@.external_functions),
            names.no_duplicates(),
            externals@.len() == names.len(),
            forall|j: int| 0 <= j < externals@.len() ==> (#[trigger] externals@[j])@.name == names[j],
            forall|j: int| 0 <= j < i ==> names[j] != function@,
        decreases externals@.len() - i,
    {
        if same_text(externals[i].get_function_name(), function) {
            proof {
                lemma_index_of(names, function@, i as int);
            }
            return Ok(FunctionCall::External(i));
        }
        i += 1;
    }
    let index = externals.len();
    match registry.get_function(function) {
        Some(func_meta) => {
            proof {
                lemma_position_of(registry@, function@);
            }
            let func = func_meta.get_func();
            bytecode.add_external_function(
                ExternalFunction::new(String::from_str(function), func),
            );
            Ok(FunctionCall::External(index))
        },
        None => Err(AssemblyError::UnknownExternal(String::from_str(function))),
    }
}

/// The inputs of an operation that stand for the inputs of a statement.
fn operation_inputs(inputs: &Vec<IRNodeInput>) -> (out: Vec<OperationInput>)
    ensures
        out@ == inputs_of(inputs@),
{
    let mut out: Vec<OperationInput> = Vec::new();
    let mut i: usize = 0;
    while i < inputs.len()
        invariant
            i <= inputs@.len(),
            out@.len() == i,
            forall|j: int| 0 <= j < i ==> out@[j] == input_of(inputs@[j]),
        decreases inputs@.len() - i,
    {
        let input = match inputs[i] {
            IRNodeInput::FunctionParam(p) => OperationInput::Param(p as usize),
            IRNodeInput::HiddenNode(h) => OperationInput::Hidden(h as usize),
        };
        out.push(input);
        i += 1;
    }
    assert(out@ =~= inputs_of(inputs@));
    out
}

/// Looks at the call of a statement.
fn call_of(bytecode: &mut VertexBytecode, call: &IRFuncCall, registry: &FunctionRegistry) -> (r:
    Result<FunctionCall, AssemblyError>)
    requires
        deduplicated(tables_of(old(bytecode)@)),
    ensures
        match r {
            Ok(c) => assemble_call(tables_of(old(bytecode)@), call@, registry@) == Ok::<
                (Tables, FunctionCall),
                AssemblyFault,
            >((tables_of(final(bytecode)@), c)),
            Err(e) => assemble_call(tables_of(old(bytecode)@), call@, registry@) == Err::<
                (Tables, FunctionCall),
                AssemblyFault,
            >(e@),
        },
        final(bytecode)@.internal_functions == old(bytecode)@.internal_functions,
{
    match call {
        IRFuncCall::External(f) => add_ext_func(bytecode, f.as_str(), registry),
        IRFuncCall::Internal(f) => Ok(FunctionCall::Internal(*f)),
        IRFuncCall::Unresolved(f) => Err(AssemblyError::UnresolvedCall(f.clone())),
        _ => match data_of(call) {
            Some(d) => Ok(add_const(bytecode, d)),
            None => Ok(FunctionCall::Constant(0)),
        },
    }
}

/// Where assembling some of the first statements fails, assembling more
/// fails in the same way.
proof fn lemma_assemble_nodes_fails(
    tables: Tables,
    nodes: Seq<IRNodeView>,
    few: nat,
    many: nat,
    registry: RegistryView,
)
    requires
        few <= many <= nodes.len(),
        assemble_nodes(tables, nodes, few, registry) is Err,
    ensures
        assemble_nodes(tables, nodes, many, registry) == assemble_nodes(
            tables,
            nodes,
            few,
            registry,
        ),
    decreases many,
{
    if few < many {
        lemma_assemble_nodes_fails(tables, nodes, few, (many - 1) as nat, registry);
    }
}

/// Where assembling some of the first functions fails, assembling more
/// fails in the same way.
proof fn lemma_assemble_functions_fails(
    tables: Tables,
    functions: Seq<IRFunctionView>,
    few: nat,
    many: nat,
    registry: RegistryView,
)
    requires
        few <= many <= functions.len(),
        assemble_functions(tables, functions, few, registry) is Err,
    ensures
        assemble_functions(tables, functions, many, registry) == assemble_functions(
            tables,
            functions,
            few,
            registry,
        ),
    decreases many,
{
    if few < many {
        lemma_assemble_functions_fails(tables, functions, few, (many - 1) as nat, registry);
    }
}

/// Assembles the statements of one function.
fn assemble_function(
    bytecode: &mut VertexBytecode,
    function: &IRFunction,
    registry: &FunctionRegistry,
) -> (r: Result<InternalFunction, AssemblyError>)
    requires
        deduplicated(tables_of(old(bytecode)@)),
    ensures
        match r {
            Ok(f) => assemble_nodes(
                tables_of(old(bytecode)@),
                function@.statements,
                function@.statements.len(),
                registry@,
            ) == Ok::<(Tables, Seq<OperationView>), AssemblyFault>(
                (tables_of(final(bytecode)@), f@),
            ) && deduplicated(tables_of(final(bytecode)@)),
            Err(e) => assemble_nodes(
                tables_of(old(bytecode)@),
                function@.statements,
                function@.statements.len(),
                registry@,
            ) == Err::<(Tables, Seq<OperationView>), AssemblyFault>(e@),
        },
        final(bytecode)@.internal_functions == old(bytecode)@.internal_functions,
{
    let statements = function.get_statements();
    let ghost nodes = function@.statements;
    let ghost start = tables_of(bytecode@);
    let mut int_func = InternalFunction::new();
    let mut i: usize = 0;
    while i < statements.len()
        invariant
            i <= statements@.len(),
            nodes == node_views(statements@),
            nodes == function@.statements,
            start == tables_of(old(bytecode)@),
            deduplicated(start),
            deduplicated(tables_of(bytecode@)),
            bytecode@.internal_functions == old(bytecode)@.internal_functions,
            assemble_nodes(start, nodes, i as nat, registry@) == Ok::<
                (Tables, Seq<OperationView>),
                AssemblyFault,
            >((tables_of(bytecode@), int_func@)),
        decreases statements@.len() - i,
    {
        let statement = &statements[i];
        assert(nodes[i as int] == statement@);
        proof {
            lemma_assemble_call(tables_of(bytecode@), statement@.function, registry@);
        }
        let func = match call_of(bytecode, statement.get_function(), registry) {
            Ok(func) => func,
            Err(e) => {
                proof {
                    assert(assemble_nodes(start, nodes, (i + 1) as nat, registry@) == Err::<
                        (Tables, Seq<OperationView>),
                        AssemblyFault,
                    >(e@));
                    lemma_assemble_nodes_fails(
                        start,
                        nodes,
                        (i + 1) as nat,
                        nodes.len(),
                        registry@,
                    );
                }
                return Err(e);
            },
        };
        let inputs = operation_inputs(statement.get_inputs());
        let operation = Operation::new(func, inputs);
        int_func.add_operation(operation);
        i += 1;
    }
    Ok(int_func)
}

/// Assembles the executable tables of a program. It fails where a call of
/// a function of the program was left unbound, and where a host function
/// is called that the registry does not hold.
pub fn bytecode_from_ir(context: IRContext, registry: &FunctionRegistry) -> (r: Result<
    VertexBytecode,
    AssemblyError,
>)
    requires
        context.wf(),
    ensures
        match r {
            Ok(b) => {
                &&& assembled(context@, registry@) == Ok::<VertexBytecodeView, AssemblyFault>(b@)
                &&& b@.constants.len() == program_constants(
                    context@.functions,
                    context@.functions.len(),
                ).len()
                &&& b@.external_functions.len() == program_externals(
                    context@.functions,
                    context@.functions.len(),
                ).len()
                &&& b@.internal_functions.len() == context@.functions.len()
                &&& program_sound(context@) ==> forall|f: int|
                    0 <= f < b@.internal_functions.len() ==> operations_sound(
                        #[trigger] b@.internal_functions[f],
                    )
            },
            Err(e) => assembled(context@, registry@) == Err::<VertexBytecodeView, AssemblyFault>(
                e@,
            ),
        },
{
    let mut bytecode = VertexBytecode::new();
    let functions = context.get_functions();
    let ghost views = context@.functions;
    assert(external_names(no_tables().externals) =~= Seq::<Seq<char>>::empty());
    let mut i: usize = 0;
    while i < functions.len()
        invariant
            i <= functions@.len(),
            functions@.len() == views.len(),
            views == context@.functions,
            forall|k: int| 0 <= k < functions@.len() ==> (#[trigger] functions@[k])@ == views[k],
            deduplicated(tables_of(bytecode@)),
            assemble_functions(no_tables(), views, i as nat, registry@) == Ok::<
                (Tables, Seq<Seq<OperationView>>),
                AssemblyFault,
            >((tables_of(bytecode@), bytecode@.internal_functions)),
        decreases functions@.len() - i,
    {
        let function = &functions[i];
        assert(views[i as int] == function@);
        match assemble_function(&mut bytecode, function, registry) {
            Ok(int_func) => {
                bytecode.add_internal_function(int_func);
            },
            Err(e) => {
                proof {
                    assert(assemble_functions(no_tables(), views, (i + 1) as nat, registry@)
                        == Err::<(Tables, Seq<Seq<OperationView>>), AssemblyFault>(e@));
                    lemma_assemble_functions_fails(
                        no_tables(),
                        views,
                        (i + 1) as nat,
                        views.len(),
                        registry@,
                    );
                }
                return Err(e);
            },
        }
        i += 1;
    }
    proof {
        lemma_assembled(context@, registry@);
    }
    Ok(bytecode)
}

} // verus!
