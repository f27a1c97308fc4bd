//! From the expressions of a function to its statements.

use crate::compiler::errors::{CompileFault, CompilerError, IRError, IRErrorView};
use crate::compiler::ir_datatype::{IRDataType, TypeView};
use crate::compiler::ir_node::{
    inputs_precede, node_views, topologically_sound, FuncCallView, IRFuncCall, IRNode,
    IRNodeInput, IRNodeView,
};
use crate::compiler::names::{
    argument_names, find_argument, lemma_name_position, lemma_name_position_at, name_position,
};
use crate::compiler::nodes::{
    ArgumentNode, AssignmentNode, ExpressionNode, FunctionCallNode, FunctionNode, NodePosition,
};
use crate::compiler::ordering::{dependency_order, indices, order_assignments};
use crate::registry::function::{lemma_position_of, position_of, FunctionRegistry, RegistryView};
use crate::text::same_text;
use vstd::prelude::*;

verus! {

/// The variables assigned so far, each with the place its value comes from.
pub type Locals = Seq<(Seq<char>, IRNodeInput)>;

/// What the names of an expression are looked up in.
pub struct Scope {
    /// The names of the parameters of the function.
    pub params: Seq<Seq<char>>,
    /// The variables assigned so far.
    pub locals: Locals,
    /// The host functions.
    pub registry: RegistryView,
}

/// The view of a list of assigned variables.
pub open spec fn locals_view(locals: Seq<(String, IRNodeInput)>) -> Locals {
    Seq::new(locals.len(), |i: int| (locals[i].0@, locals[i].1))
}

/// The names of the variables assigned so far.
pub open spec fn local_names(locals: Locals) -> Seq<Seq<char>> {
    Seq::new(locals.len(), |i: int| locals[i].0)
}

/// A failure at a place.
pub open spec fn fault(source: IRErrorView, position: NodePosition) -> CompileFault {
    CompileFault { source, position }
}

/// The statements so far and the place of an expression's value, or a
/// failure.
pub type Emitted = Result<(Seq<IRNodeView>, IRNodeInput), CompileFault>;

/// The statements so far and the places of the values of a list of
/// expressions, or a failure.
pub type EmittedList = Result<(Seq<IRNodeView>, Seq<IRNodeInput>), CompileFault>;

/// Adds a statement; its value is found at the statement's index.
pub open spec fn push_node(nodes: Seq<IRNodeView>, node: IRNodeView, position: NodePosition) -> Emitted {
    if nodes.len() >= u32::MAX {
        Err(fault(IRErrorView::LimitExceeded, position))
    } else {
        Ok((nodes.push(node), IRNodeInput::HiddenNode(nodes.len() as u32)))
    }
}

/// The statement that gives a constant.
pub open spec fn constant_node(call: FuncCallView, output: TypeView) -> IRNodeView {
    IRNodeView { function: call, inputs: Seq::empty(), output }
}

/// Where the value of a name comes from: a parameter of the name comes
/// first, then the first variable of the name that was assigned.
pub open spec fn resolve_name(scope: Scope, name: Seq<char>, position: NodePosition) -> Result<
    IRNodeInput,
    CompileFault,
> {
    match name_position(scope.params, name) {
        Some(p) => if p <= u32::MAX {
            Ok(IRNodeInput::FunctionParam(p as u32))
        } else {
            Err(fault(IRErrorView::LimitExceeded, position))
        },
        None => match name_position(local_names(scope.locals), name) {
            Some(i) => Ok(scope.locals[i].1),
            None => Err(fault(IRErrorView::UnknownIdentifier(name), position)),
        },
    }
}

/// The statement of a call whose arguments have been evaluated. A host
/// function has to be registered and gives the type of its result; a
/// function of the program is left to be bound later.
pub open spec fn call_node(
    f: FunctionCallNode,
    nodes: Seq<IRNodeView>,
    inputs: Seq<IRNodeInput>,
    scope: Scope,
) -> Emitted {
    if f.external {
        match position_of(scope.registry, f.function_name@) {
            Some(i) => push_node(
                nodes,
                IRNodeView {
                    function: FuncCallView::External(f.function_name@),
                    inputs,
                    output: scope.registry[i].output,
                },
                f.position,
            ),
            None => Err(fault(IRErrorView::UnknownIdentifier(f.function_name@), f.position)),
        }
    } else {
        push_node(
            nodes,
            IRNodeView {
                function: FuncCallView::Unresolved(f.function_name@),
                inputs,
                output: TypeView::Unknown,
            },
            f.position,
        )
    }
}

/// The statements after an expression has been evaluated, and the place of
/// its value. The statements of the arguments of a call come before that of
/// the call; a variable adds no statement.
pub open spec fn emit_expr(expr: ExpressionNode, nodes: Seq<IRNodeView>, scope: Scope) -> Emitted
    decreases expr, 0nat,
{
    match expr {
        ExpressionNode::IntLiteral(v) => push_node(
            nodes,
            constant_node(FuncCallView::IntConstant(v.value), TypeView::Int),
            v.position,
        ),
        ExpressionNode::FloatLiteral(v) => push_node(
            nodes,
            constant_node(FuncCallView::FloatConstant(v.value), TypeView::Float),
            v.position,
        ),
        ExpressionNode::StringLiteral(v) => push_node(
            nodes,
            constant_node(FuncCallView::StringConstant(v.value@), TypeView::String),
            v.position,
        ),
        ExpressionNode::BoolLiteral(v) => push_node(
            nodes,
            constant_node(FuncCallView::BoolConstant(v.value), TypeView::Bool),
            v.position,
        ),
        ExpressionNode::Variable(v) => match resolve_name(scope, v.name@, v.position) {
            Ok(input) => Ok((nodes, input)),
            Err(e) => Err(e),
        },
        ExpressionNode::InnerVariable(v) => Err(
            fault(IRErrorView::UnsupportedExpression, v.position),
        ),
        ExpressionNode::FunctionCall(f) => match emit_args(
            f.arguments.expressions@,
            f.arguments.expressions@.len(),
            nodes,
            scope,
        ) {
            Ok(done) => call_node(f, done.0, done.1, scope),
            Err(e) => Err(e),
        },
    }
}

/// The statements after the first `count` expressions of a list have been
/// evaluated in order, and the places of their values.
pub open spec fn emit_args(
    args: Seq<ExpressionNode>,
    count: nat,
    nodes: Seq<IRNodeView>,
    scope: Scope,
) -> EmittedList
    decreases args, count,
{
    if count == 0 || count > args.len() {
        Ok((nodes, Seq::empty()))
    } else {
        match emit_args(args, (count - 1) as nat, nodes, scope) {
            Ok(done) => match emit_expr(args[count - 1], done.0, scope) {
                Ok(next) => Ok((next.0, done.1.push(next.1))),
                Err(e) => Err(e),
            },
            Err(e) => Err(e),
        }
    }
}

/// Whether a place is a parameter or a statement before index `len`.
pub open spec fn input_in_range(input: IRNodeInput, len: int) -> bool {
    input matches IRNodeInput::HiddenNode(j) ==> j < len
}

/// Whether every place of a list is a parameter or a statement before
/// index `len`.
pub open spec fn inputs_in_range(inputs: Seq<IRNodeInput>, len: int) -> bool {
    forall|k: int| 0 <= k < inputs.len() ==> input_in_range(#[trigger] inputs[k], len)
}

/// Whether the value of every variable comes from a parameter or from a
/// statement before index `len`.
pub open spec fn locals_in_range(locals: Locals, len: int) -> bool {
    forall|k: int| 0 <= k < locals.len() ==> input_in_range((#[trigger] locals[k]).1, len)
}

/// Adding a statement whose inputs come from earlier statements keeps the
/// statements topologically sound.
pub proof fn lemma_push_sound(nodes: Seq<IRNodeView>, node: IRNodeView, position: NodePosition)
    requires
        topologically_sound(nodes),
        inputs_in_range(node.inputs, nodes.len() as int),
    ensures
        push_node(nodes, node, position) matches Ok(r) ==> {
            &&& topologically_sound(r.0)
            &&& nodes.len() <= r.0.len()
            &&& input_in_range(r.1, r.0.len() as int)
        },
{
    if nodes.len() < u32::MAX {
        let after = nodes.push(node);
        assert forall|i: int| 0 <= i < after.len() implies inputs_precede(
            #[trigger] after[i],
            i,
        ) by {
            if i < nodes.len() {
                assert(after[i] == nodes[i]);
            } else {
                assert forall|k: int| 0 <= k < node.inputs.len() implies ((
                #[trigger] node.inputs[k]) matches IRNodeInput::HiddenNode(j) ==> j < i) by {
                    assert(input_in_range(node.inputs[k], nodes.len() as int));
                }
            }
        }
    }
}

/// Evaluating an expression keeps the statements topologically sound, only
/// adds statements, and gives a place among them.
pub proof fn lemma_emit_expr_sound(expr: ExpressionNode, nodes: Seq<IRNodeView>, scope: Scope)
    requires
        topologically_sound(nodes),
        locals_in_range(scope.locals, nodes.len() as int),
    ensures
        emit_expr(expr, nodes, scope) matches Ok(r) ==> {
            &&& topologically_sound(r.0)
            &&& nodes.len() <= r.0.len()
            &&& input_in_range(r.1, r.0.len() as int)
        },
    decreases expr, 0nat,
{
    match expr {
        ExpressionNode::IntLiteral(v) => {
            lemma_push_sound(
                nodes,
                constant_node(FuncCallView::IntConstant(v.value), TypeView::Int),
                v.position,
            );
        },
        ExpressionNode::FloatLiteral(v) => {
            lemma_push_sound(
                nodes,
                constant_node(FuncCallView::FloatConstant(v.value), TypeView::Float),
                v.position,
            );
        },
        ExpressionNode::StringLiteral(v) => {
            lemma_push_sound(
                nodes,
                constant_node(FuncCallView::StringConstant(v.value@), TypeView::String),
                v.position,
            );
        },
        ExpressionNode::BoolLiteral(v) => {
            lemma_push_sound(
                nodes,
                constant_node(FuncCallView::BoolConstant(v.value), TypeView::Bool),
                v.position,
            );
        },
        ExpressionNode::Variable(v) => {
            lemma_name_position(local_names(scope.locals), v.name@);
        },
        ExpressionNode::InnerVariable(_) => {},
        ExpressionNode::FunctionCall(f) => {
            let args = f.arguments.expressions@;
            lemma_emit_args_sound(args, args.len(), nodes, scope);
            match emit_args(args, args.len(), nodes, scope) {
                Ok(done) => {
                    if f.external {
                        match position_of(scope.registry, f.function_name@) {
                            Some(i) => {
                                lemma_push_sound(
                                    done.0,
                                    IRNodeView {
                                        function: FuncCallView::External(f.function_name@),
                                        inputs: done.1,
                                        output: scope.registry[i].output,
                                    },
                                    f.position,
                                );
                            },
                            None => {},
                        }
                    } else {
                        lemma_push_sound(
                            done.0,
                            IRNodeView {
                                function: FuncCallView::Unresolved(f.function_name@),
                                inputs: done.1,
                                output: TypeView::Unknown,
                            },
                            f.position,
                        );
                    }
                },
                Err(_) => {},
            }
        },
    }
}

/// Evaluating a list of expressions keeps the statements topologically
/// sound, only adds statements, and gives places among them.
pub proof fn lemma_emit_args_sound(
    args: Seq<ExpressionNode>,
    count: nat,
    nodes: Seq<IRNodeView>,
    scope: Scope,
)
    requires
        topologically_sound(nodes),
        locals_in_range(scope.locals, nodes.len() as int),
    ensures
        emit_args(args, count, nodes, scope) matches Ok(r) ==> {
            &&& topologically_sound(r.0)
            &&& nodes.len() <= r.0.len()
            &&& inputs_in_range(r.1, r.0.len() as int)
            &&& r.1.len() == (if count > args.len() { 0 } else { count })
        },
    decreases args, count,
{
    if !(count == 0 || count > args.len()) {
        lemma_emit_args_sound(args, (count - 1) as nat, nodes, scope);
        match emit_args(args, (count - 1) as nat, nodes, scope) {
            Ok(done) => {
                lemma_emit_expr_sound(args[count - 1], done.0, scope);
                match emit_expr(args[count - 1], done.0, scope) {
                    Ok(next) => {
                        let all = done.1.push(next.1);
                        assert forall|k: int| 0 <= k < all.len() implies input_in_range(
                            #[trigger] all[k],
                            next.0.len() as int,
                        ) by {
                            if k < done.1.len() {
                                assert(input_in_range(done.1[k], done.0.len() as int));
                            }
                        }
                    },
                    Err(_) => {},
                }
            },
            Err(_) => {},
        }
    }
}

/// Whether an executable result of evaluating is the expected one, the
/// statements being those in `after`.
pub open spec fn emitted_is(
    r: Result<IRNodeInput, CompilerError>,
    after: Seq<IRNodeView>,
    expected: Emitted,
) -> bool {
    match r {
        Ok(input) => expected == Ok::<(Seq<IRNodeView>, IRNodeInput), CompileFault>((after, input)),
        Err(e) => expected == Err::<(Seq<IRNodeView>, IRNodeInput), CompileFault>(e@),
    }
}

/// The scope made of executable parts.
pub open spec fn scope_of(
    params: Seq<ArgumentNode>,
    locals: Seq<(String, IRNodeInput)>,
    registry: RegistryView,
) -> Scope {
    Scope { params: argument_names(params), locals: locals_view(locals), registry }
}

/// The place of the value of the first variable of the given name.
fn find_local(locals: &Vec<(String, IRNodeInput)>, name: &str) -> (r: Option<IRNodeInput>)
    ensures
        match r {
            Some(input) => name_position(local_names(locals_view(locals@)), name@) matches Some(i)
                && locals_view(locals@)[i].1 == input,
            None => name_position(local_names(locals_view(locals@)), name@) is None,
        },
{
    let ghost names = local_names(locals_view(locals@));
    let mut i: usize = 0;
    while i < locals.len()
        invariant
            i <= locals@.len(),
            names == local_names(locals_view(locals@)),
            forall|j: int| 0 <= j < i ==> #[trigger] names[j] != name@,
        decreases locals@.len() - i,
    {
        if same_text(locals[i].0.as_str(), name) {
            proof {
                lemma_name_position_at(names, name@, i as int);
            }
            return Some(locals[i].1);
        }
        i += 1;
    }
    proof {
        lemma_name_position(names, name@);
    }
    None
}

/// Adds a statement to the executable statements.
fn push_statement(nodes: &mut Vec<IRNode>, node: IRNode, position: NodePosition) -> (r: Result<
    IRNodeInput,
    CompilerError,
>)
    ensures
        emitted_is(
            r,
            node_views(final(nodes)@),
            push_node(node_views(old(nodes)@), node@, position),
        ),
{
    let len = nodes.len();
    if len >= u32::MAX as usize {
        return Err(CompilerError::new(position, IRError::LimitExceeded));
    }
    nodes.push(node);
    assert(node_views(nodes@) =~= node_views(old(nodes)@).push(node@));
    Ok(IRNodeInput::HiddenNode(len as u32))
}

/// Evaluates a list of expressions in order.
fn parse_arguments(
    args: &Vec<ExpressionNode>,
    nodes: &mut Vec<IRNode>,
    locals: &Vec<(String, IRNodeInput)>,
    params: &Vec<ArgumentNode>,
    function_registry: &FunctionRegistry,
) -> (r: Result<Vec<IRNodeInput>, CompilerError>)
    ensures
        match r {
            Ok(inputs) => emit_args(
                args@,
                args@.len(),
                node_views(old(nodes)@),
                scope_of(params@, locals@, function_registry@),
            ) == Ok::<(Seq<IRNodeView>, Seq<IRNodeInput>), CompileFault>(
                (node_views(final(nodes)@), inputs@),
            ),
            Err(e) => emit_args(
                args@,
                args@.len(),
                node_views(old(nodes)@),
                scope_of(params@, locals@, function_registry@),
            ) == Err::<(Seq<IRNodeView>, Seq<IRNodeInput>), CompileFault>(e@),
        },
    decreases args, 0nat,
{
    let ghost scope = scope_of(params@, locals@, function_registry@);
    let ghost start = node_views(nodes@);
    let mut inputs: Vec<IRNodeInput> = Vec::new();
    let mut i: usize = 0;
    while i < args.len()
        invariant
            i <= args@.len(),
            scope == scope_of(params@, locals@, function_registry@),
            start == node_views(old(nodes)@),
            emit_args(args@, i as nat, start, scope) == Ok::<
                (Seq<IRNodeView>, Seq<IRNodeInput>),
                CompileFault,
            >((node_views(nodes@), inputs@)),
        decreases args@.len() - i,
    {
        match parse_expression_into_nodes(&args[i], nodes, locals, params, function_registry) {
            Ok(input) => {
                inputs.push(input);
            },
            Err(e) => {
                proof {
                    assert(emit_args(args@, (i + 1) as nat, start, scope) == Err::<
                        (Seq<IRNodeView>, Seq<IRNodeInput>),
                        CompileFault,
                    >(e@));
                    lemma_emit_args_fails(args@, (i + 1) as nat, args@.len(), start, scope);
                }
                return Err(e);
            },
        }
        i += 1;
    }
    Ok(inputs)
}

/// Where evaluating some of the first expressions fails, evaluating more
/// of them fails in the same way.
pub proof fn lemma_emit_args_fails(
    args: Seq<ExpressionNode>,
    few: nat,
    many: nat,
    nodes: Seq<IRNodeView>,
    scope: Scope,
)
    requires
        few <= many <= args.len(),
        emit_args(args, few, nodes, scope) is Err,
    ensures
        emit_args(args, many, nodes, scope) == emit_args(args, few, nodes, scope),
    decreases many,
{
    if few < many {
        lemma_emit_args_fails(args, few, (many - 1) as nat, nodes, scope);
    }
}

/// Evaluates an expression: adds a statement for each of its parts, the
/// arguments of a call before the call, and gives the place of its value.
pub fn parse_expression_into_nodes(
    expr: &ExpressionNode,
    nodes: &mut Vec<IRNode>,
    locals: &Vec<(String, IRNodeInput)>,
    params: &Vec<ArgumentNode>,
    function_registry: &FunctionRegistry,
) -> (r: Result<IRNodeInput, CompilerError>)
    ensures
        emitted_is(
            r,
            node_views(final(nodes)@),
            emit_expr(
                *expr,
                node_views(old(nodes)@),
                scope_of(params@, locals@, function_registry@),
            ),
        ),
    decreases expr, 1nat,
{
    let ghost scope = scope_of(params@, locals@, function_registry@);
    match expr {
        ExpressionNode::IntLiteral(v) => push_statement(
            nodes,
            IRNode::new(IRFuncCall::IntConstant(v.value), Vec::new(), IRDataType::Int),
            v.position,
        ),
        ExpressionNode::FloatLiteral(v) => push_statement(
            nodes,
            IRNode::new(IRFuncCall::FloatConstant(v.value), Vec::new(), IRDataType::Float),
            v.position,
        ),
        ExpressionNode::StringLiteral(v) => push_statement(
            nodes,
            IRNode::new(
                IRFuncCall::StringConstant(v.value.clone()),
                Vec::new(),
                IRDataType::String,
            ),
            v.position,
        ),
        ExpressionNode::BoolLiteral(v) => push_statement(
            nodes,
            IRNode::new(IRFuncCall::BoolConstant(v.value), Vec::new(), IRDataType::Bool),
            v.position,
        ),
        ExpressionNode::Variable(v) => {
            match find_argument(params, v.name.as_str()) {
                Some(p) => {
                    if p <= u32::MAX as usize {
                        Ok(IRNodeInput::FunctionParam(p as u32))
                    } else {
                        Err(CompilerError::new(v.position, IRError::LimitExceeded))
                    }
                },
                None => match find_local(locals, v.name.as_str()) {
                    Some(input) => Ok(input),
                    None => Err(
                        CompilerError::new(v.position, IRError::UnknownIdentifier(v.name.clone())),
                    ),
                },
            }
        },
        ExpressionNode::InnerVariable(v) => Err(
            CompilerError::new(v.position, IRError::UnsupportedExpression),
        ),
        ExpressionNode::FunctionCall(f) => {
            let inputs = match parse_arguments(
                &f.arguments.expressions,
                nodes,
                locals,
                params,
                function_registry,
            ) {
                Ok(inputs) => inputs,
                Err(e) => {
                    return Err(e);
                },
            };
            if f.external {
                match function_registry.get_function(f.function_name.as_str()) {
                    Some(ext_func) => {
                        proof {
                            lemma_position_of(function_registry@, f.function_name@);
                        }
                        push_statement(
                            nodes,
                            IRNode::new(
                                IRFuncCall::External(f.function_name.clone()),
                                inputs,
                                ext_func.get_output().duplicate(),
                            ),
                            f.position,
                        )
                    },
                    None => Err(
                        CompilerError::new(
                            f.position,
                            IRError::UnknownIdentifier(f.function_name.clone()),
                        ),
                    ),
                }
            } else {
                push_statement(
                    nodes,
                    IRNode::new(
                        IRFuncCall::Unresolved(f.function_name.clone()),
                        inputs,
                        IRDataType::Unknown,
                    ),
                    f.position,
                )
            }
        },
    }
}

/// The statements and the variables after the first `count` assignments,
/// taken in the given order, have been evaluated.
pub open spec fn emit_assignments(
    assignments: Seq<AssignmentNode>,
    order: Seq<int>,
    count: nat,
    params: Seq<Seq<char>>,
    registry: RegistryView,
) -> Result<(Seq<IRNodeView>, Locals), CompileFault>
    decreases count,
{
    if count == 0 || count > order.len() {
        Ok((Seq::empty(), Seq::empty()))
    } else {
        match emit_assignments(assignments, order, (count - 1) as nat, params, registry) {
            Ok(done) => {
                let a = assignments[order[count - 1]];
                match emit_expr(a.expression, done.0, Scope { params, locals: done.1, registry }) {
                    Ok(next) => Ok(
                        (
                            next.0,
                            match a.variable {
                                Some(v) => done.1.push((v.name@, next.1)),
                                None => done.1,
                            },
                        ),
                    ),
                    Err(e) => Err(e),
                }
            },
            Err(e) => Err(e),
        }
    }
}

/// The failure of assignments that depend on each other in a circle, the
/// first of those left being the one at index `at`.
pub open spec fn circular_fault(function: FunctionNode, at: int) -> CompileFault {
    if 0 <= at < function.assignments@.len() {
        let a = function.assignments@[at];
        fault(
            IRErrorView::CircularDependency(
                match a.variable {
                    Some(v) => v.name@,
                    None => Seq::empty(),
                },
            ),
            a.position,
        )
    } else {
        fault(IRErrorView::CircularDependency(Seq::empty()), function.position)
    }
}

/// The statements of a function: its assignments are put in the order of
/// their dependencies and evaluated one after the other.
pub open spec fn function_statements(function: FunctionNode, registry: RegistryView) -> Result<
    Seq<IRNodeView>,
    CompileFault,
> {
    let params = argument_names(function.params.arguments@);
    match dependency_order(function.assignments@, params, Seq::empty()) {
        Ok(order) => match emit_assignments(
            function.assignments@,
            order,
            order.len(),
            params,
            registry,
        ) {
            Ok(done) => Ok(done.0),
            Err(e) => Err(e),
        },
        Err(at) => Err(circular_fault(function, at)),
    }
}

/// Evaluating assignments gives topologically sound statements, and every
/// variable's value comes from a parameter or from one of them.
pub proof fn lemma_emit_assignments_sound(
    assignments: Seq<AssignmentNode>,
    order: Seq<int>,
    count: nat,
    params: Seq<Seq<char>>,
    registry: RegistryView,
)
    ensures
        emit_assignments(assignments, order, count, params, registry) matches Ok(r) ==> {
            &&& topologically_sound(r.0)
            &&& locals_in_range(r.1, r.0.len() as int)
        },
    decreases count,
{
    if !(count == 0 || count > order.len()) {
        lemma_emit_assignments_sound(assignments, order, (count - 1) as nat, params, registry);
        match emit_assignments(assignments, order, (count - 1) as nat, params, registry) {
            Ok(done) => {
                let a = assignments[order[count - 1]];
                let scope = Scope { params, locals: done.1, registry };
                lemma_emit_expr_sound(a.expression, done.0, scope);
                match emit_expr(a.expression, done.0, scope) {
                    Ok(next) => {
                        let locals = match a.variable {
                            Some(v) => done.1.push((v.name@, next.1)),
                            None => done.1,
                        };
                        assert forall|k: int| 0 <= k < locals.len() implies input_in_range(
                            (#[trigger] locals[k]).1,
                            next.0.len() as int,
                        ) by {
                            if k < done.1.len() {
                                assert(input_in_range(done.1[k].1, done.0.len() as int));
                            }
                        }
                    },
                    Err(_) => {},
                }
            },
            Err(_) => {},
        }
    }
}

/// In the statements of a function every reference to a statement goes to
/// an earlier one.
pub proof fn lemma_function_statements_sound(function: FunctionNode, registry: RegistryView)
    ensures
        function_statements(function, registry) matches Ok(nodes) ==> topologically_sound(nodes),
{
    let params = argument_names(function.params.arguments@);
    match dependency_order(function.assignments@, params, Seq::empty()) {
        Ok(order) => {
            lemma_emit_assignments_sound(
                function.assignments@,
                order,
                order.len(),
                params,
                registry,
            );
        },
        Err(_) => {},
    }
}

/// Where evaluating some of the first assignments fails, evaluating more of
/// them fails in the same way.
pub proof fn lemma_emit_assignments_fails(
    assignments: Seq<AssignmentNode>,
    order: Seq<int>,
    few: nat,
    many: nat,
    params: Seq<Seq<char>>,
    registry: RegistryView,
)
    requires
        few <= many <= order.len(),
        emit_assignments(assignments, order, few, params, registry) is Err,
    ensures
        emit_assignments(assignments, order, many, params, registry) == emit_assignments(
            assignments,
            order,
            few,
            params,
            registry,
        ),
    decreases many,
{
    if few < many {
        lemma_emit_assignments_fails(
            assignments,
            order,
            few,
            (many - 1) as nat,
            params,
            registry,
        );
    }
}

/// The failure of assignments that depend on each other in a circle.
fn circular_error(function: &FunctionNode, at: usize) -> (e: CompilerError)
    ensures
        e@ == circular_fault(*function, at as int),
{
    if at < function.assignments.len() {
        let a = &function.assignments[at];
        let name = match &a.variable {
            Some(v) => v.name.clone(),
            None => String::new(),
        };
        CompilerError::new(a.position, IRError::CircularDependency(name))
    } else {
        CompilerError::new(function.position, IRError::CircularDependency(String::new()))
    }
}

/// Builds the statements of a function.
pub fn parse_function_statements(function: &FunctionNode, function_registry: &FunctionRegistry) -> (r:
    Result<Vec<IRNode>, CompilerError>)
    ensures
        match r {
            Ok(nodes) => function_statements(*function, function_registry@) == Ok::<
                Seq<IRNodeView>,
                CompileFault,
            >(node_views(nodes@)) && topologically_sound(node_views(nodes@)),
            Err(e) => function_statements(*function, function_registry@) == Err::<
                Seq<IRNodeView>,
                CompileFault,
            >(e@),
        },
{
    let params = &function.params.arguments;
    let assignments = &function.assignments;
    let ghost names = argument_names(params@);
    let order = match order_assignments(assignments, params) {
        Ok(order) => order,
        Err(at) => {
            return Err(circular_error(function, at));
        },
    };
    let ghost plan = indices(order@);
    let mut nodes: Vec<IRNode> = Vec::new();
    let mut locals: Vec<(String, IRNodeInput)> = Vec::new();
    assert(node_views(nodes@) =~= Seq::<IRNodeView>::empty());
    assert(locals_view(locals@) =~= Seq::<(Seq<char>, IRNodeInput)>::empty());
    let mut i: usize = 0;
    while i < order.len()
        invariant
            i <= order@.len(),
            order@.len() == assignments@.len(),
            plan == indices(order@),
            names == argument_names(params@),
            assignments == &function.assignments,
            params == &function.params.arguments,
            forall|k: int| 0 <= k < plan.len() ==> 0 <= #[trigger] plan[k] < assignments@.len(),
            dependency_order(assignments@, names, Seq::empty()) == Ok::<Seq<int>, int>(plan),
            emit_assignments(assignments@, plan, i as nat, names, function_registry@) == Ok::<
                (Seq<IRNodeView>, Locals),
                CompileFault,
            >((node_views(nodes@), locals_view(locals@))),
        decreases order@.len() - i,
    {
        assert(plan[i as int] == order@[i as int]);
        let a = &assignments[order[i]];
        let ghost before = locals_view(locals@);
        match parse_expression_into_nodes(
            &a.expression,
            &mut nodes,
            &locals,
            params,
            function_registry,
        ) {
            Ok(input) => {
                match &a.variable {
                    Some(v) => {
                        locals.push((v.name.clone(), input));
                        assert(locals_view(locals@) =~= before.push((v.name@, input)));
                    },
                    None => {},
                }
            },
            Err(e) => {
                proof {
                    assert(emit_assignments(
                        assignments@,
                        plan,
                        (i + 1) as nat,
                        names,
                        function_registry@,
                    ) == Err::<(Seq<IRNodeView>, Locals), CompileFault>(e@));
                    lemma_emit_assignments_fails(
                        assignments@,
                        plan,
                        (i + 1) as nat,
                        plan.len(),
                        names,
                        function_registry@,
                    );
                }
                return Err(e);
            },
        }
        i += 1;
    }
    proof {
        lemma_function_statements_sound(*function, function_registry@);
    }
    Ok(nodes)
}

} // verus!
