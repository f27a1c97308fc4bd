//! Binding the calls of functions of the program.
//!
//! A call by name is answered by every function of that name that the
//! caller may access. Among them the function wins whose path shares the
//! longest prefix with the caller's path; among those of equal prefix, the
//! one whose path goes on for the fewest elements. A call that nothing
//! answers stays unbound; one that several answer equally well is
//! ambiguous.

use crate::compiler::emission::fault;
use crate::compiler::errors::{CompileFault, CompilerError, IRError, IRErrorView};
use crate::compiler::ir_context::{IRContext, IRContextView};
use crate::compiler::ir_datatype::duplicate_types;
use crate::compiler::ir_function::{IRFunction, IRFunctionView};
use crate::compiler::ir_node::{
    inputs_precede, node_views, topologically_sound, FuncCallView, IRFuncCall, IRNode, IRNodeView,
};
use crate::compiler::ir_path::{
    can_access, common_prefix, lemma_common_prefix_bound, match_path_accessibility, may_access,
    path_view, IRPathElement, PathView,
};
use crate::compiler::nodes::NodePosition;
use crate::text::same_text;
use vstd::prelude::*;

verus! {

/// Whether the function at index `c` answers a call of `name` from code at
/// `caller`: it carries the name and the caller may access it.
pub open spec fn answers(
    functions: Seq<IRFunctionView>,
    caller: PathView,
    name: Seq<char>,
    c: int,
) -> bool {
    &&& 0 <= c < functions.len()
    &&& functions[c].path.len() > 0
    &&& functions[c].path.last().identifier == name
    &&& may_access(caller, functions[c].path)
}

/// How close a function is to a caller: the length of the prefix that their
/// paths share, and the number of elements by which the function's path
/// goes on after it.
pub open spec fn closeness(caller: PathView, callee: PathView) -> (nat, nat) {
    (common_prefix(caller, callee), (callee.len() - common_prefix(caller, callee)) as nat)
}

/// Whether the first closeness is the better one: a longer shared prefix,
/// or the same prefix and a shorter rest.
pub open spec fn closer(a: (nat, nat), b: (nat, nat)) -> bool {
    a.0 > b.0 || (a.0 == b.0 && a.1 < b.1)
}

/// Whether the function at index `c` answers a call and is closer to the
/// caller than every other function that answers it.
pub open spec fn wins(functions: Seq<IRFunctionView>, caller: PathView, name: Seq<char>, c: int) -> bool {
    &&& answers(functions, caller, name, c)
    &&& forall|d: int|
        d != c && #[trigger] answers(functions, caller, name, d) ==> closer(
            closeness(caller, functions[c].path),
            closeness(caller, functions[d].path),
        )
}

/// What becomes of a call by name.
#[derive(Debug, Clone, Copy, PartialEq, Eq)]
pub enum Binding {
    /// No function answers the call.
    Unbound,
    /// The function at this index wins the call.
    Bound(usize),
    /// Functions answer the call, and none of them wins.
    Ambiguous,
}

/// Whether a binding is the one that the rules give for a call.
pub open spec fn binding_is(
    functions: Seq<IRFunctionView>,
    caller: PathView,
    name: Seq<char>,
    b: Binding,
) -> bool {
    match b {
        Binding::Unbound => forall|c: int| !#[trigger] answers(functions, caller, name, c),
        Binding::Bound(c) => wins(functions, caller, name, c as int),
        Binding::Ambiguous => {
            &&& exists|c: int| #[trigger] answers(functions, caller, name, c)
            &&& forall|c: int| !#[trigger] wins(functions, caller, name, c)
        },
    }
}

/// The binding that the rules give for a call.
pub open spec fn binding_of(functions: Seq<IRFunctionView>, caller: PathView, name: Seq<char>) -> Binding {
    if forall|c: int| !#[trigger] answers(functions, caller, name, c) {
        Binding::Unbound
    } else if exists|c: int| #[trigger] wins(functions, caller, name, c) {
        Binding::Bound((choose|c: int| #[trigger] wins(functions, caller, name, c)) as usize)
    } else {
        Binding::Ambiguous
    }
}

/// At most one function wins a call, so the binding of a call is
/// determined.
pub proof fn lemma_binding_unique(
    functions: Seq<IRFunctionView>,
    caller: PathView,
    name: Seq<char>,
    b: Binding,
)
    requires
        binding_is(functions, caller, name, b),
        functions.len() <= usize::MAX,
    ensures
        binding_of(functions, caller, name) == b,
{
    match b {
        Binding::Bound(c) => {
            let other = choose|d: int| #[trigger] wins(functions, caller, name, d);
            if other != c {
                assert(answers(functions, caller, name, other));
                assert(answers(functions, caller, name, c as int));
            }
        },
        _ => {},
    }
}

/// A statement after its call has been bound, or the name of the call where
/// that is ambiguous. A call that nothing answers stays as it is.
pub open spec fn resolve_node(functions: Seq<IRFunctionView>, caller: PathView, node: IRNodeView) -> Result<
    IRNodeView,
    Seq<char>,
> {
    match node.function {
        FuncCallView::Unresolved(name) => match binding_of(functions, caller, name) {
            Binding::Unbound => Ok(node),
            Binding::Bound(c) => Ok(IRNodeView { function: FuncCallView::Internal(c), ..node }),
            Binding::Ambiguous => Err(name),
        },
        _ => Ok(node),
    }
}

/// The first `count` statements of a function after their calls have been
/// bound.
pub open spec fn resolve_nodes(
    functions: Seq<IRFunctionView>,
    caller: PathView,
    nodes: Seq<IRNodeView>,
    count: nat,
) -> Result<Seq<IRNodeView>, Seq<char>>
    decreases count,
{
    if count == 0 || count > nodes.len() {
        Ok(Seq::empty())
    } else {
        match resolve_nodes(functions, caller, nodes, (count - 1) as nat) {
            Ok(done) => match resolve_node(functions, caller, nodes[count - 1]) {
                Ok(node) => Ok(done.push(node)),
                Err(name) => Err(name),
            },
            Err(name) => Err(name),
        }
    }
}

/// The first `count` functions of a program after the calls in them have
/// been bound. An ambiguous call is a failure at the place of the function
/// that makes it.
pub open spec fn resolve_functions(
    functions: Seq<IRFunctionView>,
    positions: Seq<NodePosition>,
    count: nat,
) -> Result<Seq<IRFunctionView>, CompileFault>
    decreases count,
{
    if count == 0 || count > functions.len() || count > positions.len() {
        Ok(Seq::empty())
    } else {
        match resolve_functions(functions, positions, (count - 1) as nat) {
            Ok(done) => {
                let f = functions[count - 1];
                match resolve_nodes(functions, f.path, f.statements, f.statements.len()) {
                    Ok(statements) => Ok(done.push(IRFunctionView { statements, ..f })),
                    Err(name) => Err(
                        fault(IRErrorView::AmbiguousCall(name), positions[count - 1]),
                    ),
                }
            },
            Err(e) => Err(e),
        }
    }
}

/// Binding calls changes no input of a statement, so it keeps the
/// statements topologically sound.
pub proof fn lemma_resolve_nodes_sound(
    functions: Seq<IRFunctionView>,
    caller: PathView,
    nodes: Seq<IRNodeView>,
    count: nat,
)
    requires
        topologically_sound(nodes),
        count <= nodes.len(),
    ensures
        resolve_nodes(functions, caller, nodes, count) matches Ok(r) ==> {
            &&& r.len() == count
            &&& topologically_sound(r)
            &&& forall|i: int| 0 <= i < count ==> (#[trigger] r[i]).inputs == nodes[i].inputs
        },
    decreases count,
{
    if count > 0 {
        lemma_resolve_nodes_sound(functions, caller, nodes, (count - 1) as nat);
        match resolve_nodes(functions, caller, nodes, (count - 1) as nat) {
            Ok(done) => match resolve_node(functions, caller, nodes[count - 1]) {
                Ok(node) => {
                    let r = done.push(node);
                    assert(node.inputs == nodes[count - 1].inputs);
                    assert forall|i: int| 0 <= i < r.len() implies inputs_precede(
                        #[trigger] r[i],
                        i,
                    ) by {
                        assert(inputs_precede(nodes[i], i));
                        assert(r[i].inputs == nodes[i].inputs);
                    }
                },
                Err(_) => {},
            },
            Err(_) => {},
        }
    }
}

/// Binding the calls of a program keeps every function topologically sound.
pub proof fn lemma_resolve_functions_sound(
    functions: Seq<IRFunctionView>,
    positions: Seq<NodePosition>,
    count: nat,
)
    requires
        forall|i: int|
            0 <= i < functions.len() ==> topologically_sound(
                (#[trigger] functions[i]).statements,
            ),
    ensures
        resolve_functions(functions, positions, count) matches Ok(r) ==> forall|i: int|
            0 <= i < r.len() ==> topologically_sound((#[trigger] r[i]).statements),
    decreases count,
{
    if !(count == 0 || count > functions.len() || count > positions.len()) {
        lemma_resolve_functions_sound(functions, positions, (count - 1) as nat);
        let f = functions[count - 1];
        lemma_resolve_nodes_sound(functions, f.path, f.statements, f.statements.len());
    }
}

/// The views of a list of functions.
pub open spec fn function_views(functions: Seq<IRFunction>) -> Seq<IRFunctionView> {
    Seq::new(functions.len(), |i: int| functions[i]@)
}

/// Whether the function at index `c` answers a call.
fn does_answer(
    functions: &Vec<IRFunction>,
    caller: &Vec<IRPathElement>,
    name: &str,
    c: usize,
) -> (r: bool)
    requires
        c < functions@.len(),
    ensures
        r == answers(function_views(functions@), path_view(caller@), name@, c as int),
{
    let path = functions[c].path();
    if path.len() == 0 {
        return false;
    }
    let last = &path[path.len() - 1];
    assert(path_view(path@).last() == last@);
    same_text(last.identifier.as_str(), name) && can_access(caller, path)
}

/// What has been found while the functions are gone through: the best
/// answer so far, how close it is, and whether another answer is as close.
#[derive(Clone, Copy)]
struct Best {
    index: usize,
    prefix: usize,
    rest: usize,
    tied: bool,
}

/// Whether what has been found is right for the first `k` functions.
spec fn best_upto(
    functions: Seq<IRFunctionView>,
    caller: PathView,
    name: Seq<char>,
    best: Option<Best>,
    k: int,
) -> bool {
    match best {
        None => forall|d: int| 0 <= d < k ==> !#[trigger] answers(functions, caller, name, d),
        Some(b) => {
            &&& 0 <= b.index < k
            &&& answers(functions, caller, name, b.index as int)
            &&& closeness(caller, functions[b.index as int].path) == (
                b.prefix as nat,
                b.rest as nat,
            )
            &&& forall|d: int|
                0 <= d < k && #[trigger] answers(functions, caller, name, d) ==> !closer(
                    closeness(caller, functions[d].path),
                    (b.prefix as nat, b.rest as nat),
                )
            &&& b.tied <==> exists|d: int|
                0 <= d < k && d != b.index && #[trigger] answers(functions, caller, name, d)
                    && closeness(caller, functions[d].path) == (b.prefix as nat, b.rest as nat)
        },
    }
}

/// Finds the function that a call by name is bound to.
pub fn bind_call(functions: &Vec<IRFunction>, caller: &Vec<IRPathElement>, name: &str) -> (b:
    Binding)
    ensures
        binding_is(function_views(functions@), path_view(caller@), name@, b),
        binding_of(function_views(functions@), path_view(caller@), name@) == b,
        b matches Binding::Bound(c) ==> c < functions@.len(),
{
    let ghost views = function_views(functions@);
    let ghost from = path_view(caller@);
    let mut best: Option<Best> = None;
    let mut c: usize = 0;
    while c < functions.len()
        invariant
            c <= functions@.len(),
            views == function_views(functions@),
            from == path_view(caller@),
            best_upto(views, from, name@, best, c as int),
        decreases functions@.len() - c,
    {
        if does_answer(functions, caller, name, c) {
            let path = functions[c].path();
            let prefix = match_path_accessibility(caller, path);
            proof {
                lemma_common_prefix_bound(from, path_view(path@));
            }
            let rest = path.len() - prefix;
            let ghost here = (prefix as nat, rest as nat);
            assert(closeness(from, views[c as int].path) == here);
            match best {
                None => {
                    best = Some(Best { index: c, prefix, rest, tied: false });
                },
                Some(b) => {
                    let ghost old_score = (b.prefix as nat, b.rest as nat);
                    if prefix > b.prefix || (prefix == b.prefix && rest < b.rest) {
                        best = Some(Best { index: c, prefix, rest, tied: false });
                        proof {
                            assert forall|d: int|
                                0 <= d < c + 1 && #[trigger] answers(
                                    views,
                                    from,
                                    name@,
                                    d,
                                ) implies !closer(closeness(from, views[d].path), here) by {
                                if d < c {
                                    assert(!closer(closeness(from, views[d].path), old_score));
                                }
                            }
                            assert forall|d: int|
                                0 <= d < c + 1 && d != c && #[trigger] answers(
                                    views,
                                    from,
                                    name@,
                                    d,
                                ) implies closeness(from, views[d].path) != here by {
                                assert(!closer(closeness(from, views[d].path), old_score));
                            }
                        }
                    } else if prefix == b.prefix && rest == b.rest {
                        best = Some(Best { index: b.index, prefix: b.prefix, rest: b.rest, tied: true });
                        proof {
                            assert(answers(views, from, name@, c as int) && c != b.index
                                && closeness(from, views[c as int].path) == old_score);
                        }
                    } else {
                        proof {
                            if b.tied {
                                let w = choose|d: int|
                                    0 <= d < c && d != b.index && #[trigger] answers(
                                        views,
                                        from,
                                        name@,
                                        d,
                                    ) && closeness(from, views[d].path) == old_score;
                                assert(0 <= w < c + 1 && w != b.index && answers(
                                    views,
                                    from,
                                    name@,
                                    w,
                                ) && closeness(from, views[w].path) == old_score);
                            }
                        }
                    }
                },
            }
        }
        c += 1;
    }
    let b = match best {
        None => Binding::Unbound,
        Some(b) => {
            let ghost score = (b.prefix as nat, b.rest as nat);
            if b.tied {
                proof {
                    let w = choose|d: int|
                        0 <= d < functions@.len() && d != b.index && #[trigger] answers(
                            views,
                            from,
                            name@,
                            d,
                        ) && closeness(from, views[d].path) == score;
                    assert forall|x: int| !#[trigger] wins(views, from, name@, x) by {
                        if wins(views, from, name@, x) {
                            if x == b.index {
                                assert(answers(views, from, name@, w));
                            } else {
                                assert(answers(views, from, name@, b.index as int));
                                assert(!closer(closeness(from, views[x].path), score));
                            }
                        }
                    }
                    assert(answers(views, from, name@, b.index as int));
                }
                Binding::Ambiguous
            } else {
                proof {
                    assert forall|d: int|
                        d != b.index && #[trigger] answers(views, from, name@, d) implies closer(
                        score,
                        closeness(from, views[d].path),
                    ) by {
                        assert(!closer(closeness(from, views[d].path), score));
                        assert(closeness(from, views[d].path) != score);
                    }
                }
                Binding::Bound(b.index)
            }
        },
    };
    proof {
        lemma_binding_unique(views, from, name@, b);
    }
    b
}

/// Binds the calls in the statements of one function.
fn resolve_statements(functions: &Vec<IRFunction>, index: usize) -> (r: Result<
    Vec<IRNode>,
    String,
>)
    requires
        index < functions@.len(),
    ensures
        match r {
            Ok(nodes) => resolve_nodes(
                function_views(functions@),
                functions@[index as int]@.path,
                functions@[index as int]@.statements,
                functions@[index as int]@.statements.len(),
            ) == Ok::<Seq<IRNodeView>, Seq<char>>(node_views(nodes@)),
            Err(name) => resolve_nodes(
                function_views(functions@),
                functions@[index as int]@.path,
                functions@[index as int]@.statements,
                functions@[index as int]@.statements.len(),
            ) == Err::<Seq<IRNodeView>, Seq<char>>(name@),
        },
{
    let caller = functions[index].path();
    let statements = functions[index].get_statements();
    let ghost views = function_views(functions@);
    let ghost from = functions@[index as int]@.path;
    let ghost nodes = functions@[index as int]@.statements;
    let mut out: Vec<IRNode> = Vec::new();
    assert(node_views(out@) =~= Seq::<IRNodeView>::empty());
    let mut i: usize = 0;
    while i < statements.len()
        invariant
            i <= statements@.len(),
            views == function_views(functions@),
            from == path_view(caller@),
            nodes == node_views(statements@),
            index < functions@.len(),
            from == functions@[index as int]@.path,
            nodes == functions@[index as int]@.statements,
            resolve_nodes(views, from, nodes, i as nat) == Ok::<Seq<IRNodeView>, Seq<char>>(
                node_views(out@),
            ),
        decreases statements@.len() - i,
    {
        let node = &statements[i];
        assert(nodes[i as int] == node@);
        let ghost before = node_views(out@);
        let next = match node.get_function() {
            IRFuncCall::Unresolved(name) => match bind_call(functions, caller, name.as_str()) {
                Binding::Unbound => node.duplicate(),
                Binding::Bound(c) => node.duplicate().with_function(IRFuncCall::Internal(c)),
                Binding::Ambiguous => {
                    proof {
                        assert(resolve_nodes(views, from, nodes, (i + 1) as nat) == Err::<
                            Seq<IRNodeView>,
                            Seq<char>,
                        >(name@));
                        lemma_resolve_nodes_fails(
                            views,
                            from,
                            nodes,
                            (i + 1) as nat,
                            nodes.len(),
                        );
                    }
                    return Err(name.clone());
                },
            },
            _ => node.duplicate(),
        };
        out.push(next);
        assert(node_views(out@) =~= before.push(next@));
        i += 1;
    }
    Ok(out)
}

/// Where binding some of the first statements fails, binding more fails in
/// the same way.
proof fn lemma_resolve_nodes_fails(
    functions: Seq<IRFunctionView>,
    caller: PathView,
    nodes: Seq<IRNodeView>,
    few: nat,
    many: nat,
)
    requires
        few <= many <= nodes.len(),
        resolve_nodes(functions, caller, nodes, few) is Err,
    ensures
        resolve_nodes(functions, caller, nodes, many) == resolve_nodes(
            functions,
            caller,
            nodes,
            few,
        ),
    decreases many,
{
    if few < many {
        lemma_resolve_nodes_fails(functions, caller, nodes, few, (many - 1) as nat);
    }
}

/// Where binding some of the first functions fails, binding more fails in
/// the same way.
proof fn lemma_resolve_functions_fails(
    functions: Seq<IRFunctionView>,
    positions: Seq<NodePosition>,
    few: nat,
    many: nat,
)
    requires
        few <= many <= functions.len(),
        many <= positions.len(),
        resolve_functions(functions, positions, few) is Err,
    ensures
        resolve_functions(functions, positions, many) == resolve_functions(
            functions,
            positions,
            few,
        ),
    decreases many,
{
    if few < many {
        lemma_resolve_functions_fails(functions, positions, few, (many - 1) as nat);
    }
}

/// A copy of a path.
fn duplicate_path(path: &Vec<IRPathElement>) -> (r: Vec<IRPathElement>)
    ensures
        path_view(r@) == path_view(path@),
        r@.len() == path@.len(),
{
    let mut out: Vec<IRPathElement> = Vec::new();
    let mut i: usize = 0;
    while i < path.len()
        invariant
            i <= path@.len(),
            out@.len() == i,
            forall|j: int| 0 <= j < i ==> out@[j]@ == path@[j]@,
        decreases path@.len() - i,
    {
        out.push(
            IRPathElement { identifier: path[i].identifier.clone(), exported: path[i].exported },
        );
        i += 1;
    }
    assert(path_view(out@) =~= path_view(path@));
    out
}

/// Binds the calls of functions of the program, as far as they can be
/// bound. The places are those at which the functions start.
pub fn resolve_function_calls(ir_context: IRContext, positions: &Vec<NodePosition>) -> (r: Result<
    IRContext,
    CompilerError,
>)
    requires
        ir_context.wf(),
        positions@.len() == ir_context@.functions.len(),
    ensures
        match r {
            Ok(c) => {
                &&& c.wf()
                &&& c@.structs == ir_context@.structs
                &&& resolve_functions(
                    ir_context@.functions,
                    positions@,
                    ir_context@.functions.len(),
                ) == Ok::<Seq<IRFunctionView>, CompileFault>(c@.functions)
            },
            Err(e) => resolve_functions(
                ir_context@.functions,
                positions@,
                ir_context@.functions.len(),
            ) == Err::<Seq<IRFunctionView>, CompileFault>(e@),
        },
{
    let functions = ir_context.get_functions();
    let ghost views = ir_context@.functions;
    assert(function_views(functions@) =~= views);
    let mut out: Vec<IRFunction> = Vec::new();
    assert(function_views(out@) =~= Seq::<IRFunctionView>::empty());
    let mut i: usize = 0;
    while i < functions.len()
        invariant
            i <= functions@.len(),
            positions@.len() == functions@.len(),
            views == function_views(functions@),
            views == ir_context@.functions,
            forall|k: int| 0 <= k < functions@.len() ==> (#[trigger] functions@[k]).wf(),
            forall|k: int| 0 <= k < out@.len() ==> (#[trigger] out@[k]).wf(),
            resolve_functions(views, positions@, i as nat) == Ok::<
                Seq<IRFunctionView>,
                CompileFault,
            >(function_views(out@)),
        decreases functions@.len() - i,
    {
        let f = &functions[i];
        assert(views[i as int] == f@);
        let ghost before = function_views(out@);
        match resolve_statements(functions, i) {
            Ok(statements) => {
                proof {
                    f.lemma_path_fits();
                }
                let path = duplicate_path(f.path());
                let g = IRFunction::new(
                    path,
                    duplicate_types(f.get_inputs()),
                    f.get_output().duplicate(),
                    statements,
                );
                out.push(g);
                assert(function_views(out@) =~= before.push(g@));
            },
            Err(name) => {
                proof {
                    assert(resolve_functions(views, positions@, (i + 1) as nat) == Err::<
                        Seq<IRFunctionView>,
                        CompileFault,
                    >(fault(IRErrorView::AmbiguousCall(name@), positions@[i as int])));
                    lemma_resolve_functions_fails(
                        views,
                        positions@,
                        (i + 1) as nat,
                        views.len(),
                    );
                }
                return Err(CompilerError::new(positions[i], IRError::AmbiguousCall(name)));
            },
        }
        i += 1;
    }
    let ghost done = function_views(out@);
    let c = ir_context.with_functions(out);
    assert(c@.functions =~= done);
    Ok(c)
}

} // verus!
