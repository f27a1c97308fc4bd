//! The order in which the assignments of a function are evaluated.
//!
//! An assignment that reads a variable waits for every assignment that
//! writes it. Again and again, the first assignment in source order that
//! waits for nothing unplaced is placed next. Where some are left and none
//! of them can be placed, the assignments depend on each other in a circle.

use crate::compiler::names::{argument_names, find_argument, name_position};
use crate::compiler::nodes::{ArgumentNode, AssignmentNode, ExpressionNode, VariableNode};
use crate::text::same_text;
use vstd::prelude::*;

verus! {

/// Whether an expression reads the variable of the given name.
pub open spec fn mentions(expr: ExpressionNode, name: Seq<char>) -> bool
    decreases expr, 0nat,
{
    match expr {
        ExpressionNode::Variable(v) => v.name@ == name,
        ExpressionNode::InnerVariable(v) => v.path@.len() > 0 && v.path@[0]@ == name,
        ExpressionNode::FunctionCall(f) => any_mentions(
            f.arguments.expressions@,
            f.arguments.expressions@.len(),
            name,
        ),
        _ => false,
    }
}

/// Whether one of the first `count` expressions reads the variable of the
/// given name.
pub open spec fn any_mentions(args: Seq<ExpressionNode>, count: nat, name: Seq<char>) -> bool
    decreases args, count,
{
    if count == 0 || count > args.len() {
        false
    } else {
        any_mentions(args, (count - 1) as nat, name) || mentions(args[count - 1], name)
    }
}

/// Whether one of the given expressions reads the given variable.
fn any_contains_variable(args: &Vec<ExpressionNode>, var: &VariableNode) -> (r: bool)
    ensures
        r == any_mentions(args@, args@.len(), var.name@),
    decreases args, 0nat,
{
    let mut i: usize = 0;
    while i < args.len()
        invariant
            i <= args@.len(),
            !any_mentions(args@, i as nat, var.name@),
        decreases args@.len() - i,
    {
        if expression_contains_variable(&args[i], var) {
            proof {
                lemma_any_mentions(args@, (i + 1) as nat, args@.len(), var.name@);
            }
            return true;
        }
        i += 1;
    }
    false
}

/// Whether an expression reads the given variable.
pub fn expression_contains_variable(expr: &ExpressionNode, var: &VariableNode) -> (r: bool)
    ensures
        r == mentions(*expr, var.name@),
    decreases expr, 1nat,
{
    match expr {
        ExpressionNode::IntLiteral(_) => false,
        ExpressionNode::FloatLiteral(_) => false,
        ExpressionNode::StringLiteral(_) => false,
        ExpressionNode::BoolLiteral(_) => false,
        ExpressionNode::Variable(v) => same_text(v.name.as_str(), var.name.as_str()),
        ExpressionNode::InnerVariable(v) => v.path.len() > 0 && same_text(
            v.path[0].as_str(),
            var.name.as_str(),
        ),
        ExpressionNode::FunctionCall(f) => any_contains_variable(&f.arguments.expressions, var),
    }
}

/// What one of the first expressions reads, one of more of them reads.
pub proof fn lemma_any_mentions(args: Seq<ExpressionNode>, few: nat, many: nat, name: Seq<char>)
    requires
        few <= many <= args.len(),
        any_mentions(args, few, name),
    ensures
        any_mentions(args, many, name),
    decreases many,
{
    if few < many {
        lemma_any_mentions(args, few, (many - 1) as nat, name);
    }
}

/// Whether the assignment at `reader` has to wait for the one at `writer`:
/// it reads the variable that the other writes, and no parameter of that
/// name hides it.
pub open spec fn waits_for(
    assignments: Seq<AssignmentNode>,
    params: Seq<Seq<char>>,
    reader: int,
    writer: int,
) -> bool {
    assignments[writer].variable matches Some(v) && name_position(params, v.name@) is None
        && mentions(assignments[reader].expression, v.name@)
}

/// Whether every assignment among the first `upto` that the assignment at
/// `reader` waits for has been placed.
pub open spec fn ready_upto(
    assignments: Seq<AssignmentNode>,
    params: Seq<Seq<char>>,
    placed: Seq<int>,
    reader: int,
    upto: int,
) -> bool {
    forall|w: int|
        0 <= w < upto && #[trigger] waits_for(assignments, params, reader, w) ==> placed.contains(
            w,
        )
}

/// Whether every assignment that the one at `reader` waits for has been
/// placed.
pub open spec fn ready(
    assignments: Seq<AssignmentNode>,
    params: Seq<Seq<char>>,
    placed: Seq<int>,
    reader: int,
) -> bool {
    ready_upto(assignments, params, placed, reader, assignments.len() as int)
}

/// The first assignment at or after `from` that is not placed and is ready.
pub open spec fn first_ready(
    assignments: Seq<AssignmentNode>,
    params: Seq<Seq<char>>,
    placed: Seq<int>,
    from: int,
) -> Option<int>
    decreases assignments.len() - from,
{
    if from < 0 || from >= assignments.len() {
        None
    } else if !placed.contains(from) && ready(assignments, params, placed, from) {
        Some(from)
    } else {
        first_ready(assignments, params, placed, from + 1)
    }
}

/// The first index at or after `from` that is not placed; `n` where all
/// are.
pub open spec fn first_unplaced(n: int, placed: Seq<int>, from: int) -> int
    decreases n - from,
{
    if from < 0 || from >= n {
        n
    } else if !placed.contains(from) {
        from
    } else {
        first_unplaced(n, placed, from + 1)
    }
}

/// The order of evaluation that goes on from the assignments placed so far,
/// or the first assignment that is left when none can be placed.
pub open spec fn dependency_order(
    assignments: Seq<AssignmentNode>,
    params: Seq<Seq<char>>,
    placed: Seq<int>,
) -> Result<Seq<int>, int>
    decreases assignments.len() - placed.len(),
{
    if placed.len() >= assignments.len() {
        Ok(placed)
    } else {
        match first_ready(assignments, params, placed, 0) {
            Some(i) => dependency_order(assignments, params, placed.push(i)),
            None => Err(first_unplaced(assignments.len() as int, placed, 0)),
        }
    }
}

/// Whether in an order every assignment comes after those it waits for, and
/// none comes twice.
pub open spec fn respects_dependencies(
    assignments: Seq<AssignmentNode>,
    params: Seq<Seq<char>>,
    order: Seq<int>,
) -> bool {
    &&& forall|k: int| 0 <= k < order.len() ==> 0 <= #[trigger] order[k] < assignments.len()
    &&& forall|k: int, l: int| 0 <= k < l < order.len() ==> order[k] != order[l]
    &&& forall|k: int|
        0 <= k < order.len() ==> ready(
            assignments,
            params,
            order.subrange(0, k),
            #[trigger] order[k],
        )
}

/// The first ready assignment is in range, unplaced and ready.
pub proof fn lemma_first_ready(
    assignments: Seq<AssignmentNode>,
    params: Seq<Seq<char>>,
    placed: Seq<int>,
    from: int,
)
    requires
        0 <= from,
    ensures
        first_ready(assignments, params, placed, from) matches Some(i) ==> {
            &&& from <= i < assignments.len()
            &&& !placed.contains(i)
            &&& ready(assignments, params, placed, i)
        },
    decreases assignments.len() - from,
{
    if from < assignments.len() && !(!placed.contains(from) && ready(
        assignments,
        params,
        placed,
        from,
    )) {
        lemma_first_ready(assignments, params, placed, from + 1);
    }
}

/// An order that is computed from placed assignments that respect the
/// dependencies respects them too, and places every assignment.
pub proof fn lemma_dependency_order(
    assignments: Seq<AssignmentNode>,
    params: Seq<Seq<char>>,
    placed: Seq<int>,
)
    requires
        respects_dependencies(assignments, params, placed),
    ensures
        dependency_order(assignments, params, placed) matches Ok(order) ==> {
            &&& respects_dependencies(assignments, params, order)
            &&& order.len() >= assignments.len()
        },
    decreases assignments.len() - placed.len(),
{
    if placed.len() < assignments.len() {
        lemma_first_ready(assignments, params, placed, 0);
        match first_ready(assignments, params, placed, 0) {
            Some(i) => {
                let next = placed.push(i);
                assert forall|k: int| 0 <= k < next.len() implies ready(
                    assignments,
                    params,
                    next.subrange(0, k),
                    #[trigger] next[k],
                ) by {
                    if k < placed.len() {
                        assert(next.subrange(0, k) =~= placed.subrange(0, k));
                        assert(next[k] == placed[k]);
                    } else {
                        assert(next.subrange(0, k) =~= placed);
                    }
                }
                lemma_dependency_order(assignments, params, next);
            },
            None => {},
        }
    }
}

/// An order as a sequence of mathematical integers.
pub open spec fn indices(order: Seq<usize>) -> Seq<int> {
    Seq::new(order.len(), |i: int| order[i] as int)
}

/// Whether the marks say which assignments are placed.
spec fn marks_match(done: Seq<bool>, placed: Seq<int>) -> bool {
    forall|k: int| 0 <= k < done.len() ==> #[trigger] done[k] == placed.contains(k)
}

/// Whether the assignment at `reader` waits for the one at `writer`.
fn waits(
    assignments: &Vec<AssignmentNode>,
    params: &Vec<ArgumentNode>,
    reader: usize,
    writer: usize,
) -> (r: bool)
    requires
        reader < assignments@.len(),
        writer < assignments@.len(),
    ensures
        r == waits_for(assignments@, argument_names(params@), reader as int, writer as int),
{
    match &assignments[writer].variable {
        Some(v) => find_argument(params, v.name.as_str()).is_none()
            && expression_contains_variable(&assignments[reader].expression, v),
        None => false,
    }
}

/// Whether every assignment that the one at `reader` waits for is marked.
fn is_ready(
    assignments: &Vec<AssignmentNode>,
    params: &Vec<ArgumentNode>,
    done: &Vec<bool>,
    reader: usize,
    Ghost(placed): Ghost<Seq<int>>,
) -> (r: bool)
    requires
        reader < assignments@.len(),
        done@.len() == assignments@.len(),
        marks_match(done@, placed),
    ensures
        r == ready(assignments@, argument_names(params@), placed, reader as int),
{
    let mut w: usize = 0;
    while w < assignments.len()
        invariant
            w <= assignments@.len(),
            reader < assignments@.len(),
            done@.len() == assignments@.len(),
            marks_match(done@, placed),
            ready_upto(assignments@, argument_names(params@), placed, reader as int, w as int),
        decreases assignments@.len() - w,
    {
        if !done[w] && waits(assignments, params, reader, w) {
            assert(!placed.contains(w as int));
            return false;
        }
        w += 1;
    }
    true
}

/// Computes the order in which the assignments of a function are
/// evaluated; fails with the first assignment that is left when none can be
/// placed.
pub fn order_assignments(assignments: &Vec<AssignmentNode>, params: &Vec<ArgumentNode>) -> (r:
    Result<Vec<usize>, usize>)
    ensures
        match r {
            Ok(order) => {
                &&& dependency_order(assignments@, argument_names(params@), Seq::empty()) == Ok::<
                    Seq<int>,
                    int,
                >(indices(order@))
                &&& order@.len() == assignments@.len()
                &&& respects_dependencies(assignments@, argument_names(params@), indices(order@))
            },
            Err(i) => dependency_order(assignments@, argument_names(params@), Seq::empty())
                == Err::<Seq<int>, int>(i as int),
        },
{
    let n = assignments.len();
    let ghost names = argument_names(params@);
    let ghost goal = dependency_order(assignments@, names, Seq::empty());
    let mut done: Vec<bool> = Vec::new();
    while done.len() < n
        invariant
            done@.len() <= n,
            forall|k: int| 0 <= k < done@.len() ==> !(#[trigger] done@[k]),
        decreases n - done@.len(),
    {
        done.push(false);
    }
    let mut order: Vec<usize> = Vec::new();
    assert(indices(order@) =~= Seq::<int>::empty());
    while order.len() < n
        invariant
            n == assignments@.len(),
            names == argument_names(params@),
            done@.len() == n,
            order@.len() <= n,
            marks_match(done@, indices(order@)),
            respects_dependencies(assignments@, names, indices(order@)),
            goal == dependency_order(assignments@, names, Seq::empty()),
            goal == dependency_order(assignments@, names, indices(order@)),
        decreases n - order@.len(),
    {
        let ghost placed = indices(order@);
        let mut i: usize = 0;
        let mut found: Option<usize> = None;
        while i < n
            invariant_except_break
                found is None,
                first_ready(assignments@, names, placed, 0) == first_ready(
                    assignments@,
                    names,
                    placed,
                    i as int,
                ),
            invariant
                i <= n,
                n == assignments@.len(),
                names == argument_names(params@),
                done@.len() == n,
                placed == indices(order@),
                marks_match(done@, placed),
            ensures
                match found {
                    Some(k) => first_ready(assignments@, names, placed, 0) == Some(k as int) && k
                        < n,
                    None => first_ready(assignments@, names, placed, 0) is None,
                },
            decreases n - i,
        {
            if !done[i] && is_ready(assignments, params, &done, i, Ghost(placed)) {
                found = Some(i);
                break ;
            }
            i += 1;
        }
        match found {
            Some(k) => {
                proof {
                    lemma_first_ready(assignments@, names, placed, 0);
                    let next = placed.push(k as int);
                    assert forall|j: int| 0 <= j < next.len() implies ready(
                        assignments@,
                        names,
                        next.subrange(0, j),
                        #[trigger] next[j],
                    ) by {
                        if j < placed.len() {
                            assert(next.subrange(0, j) =~= placed.subrange(0, j));
                            assert(next[j] == placed[j]);
                        } else {
                            assert(next.subrange(0, j) =~= placed);
                        }
                    }
                }
                done.set(k, true);
                order.push(k);
                proof {
                    assert(indices(order@) =~= placed.push(k as int));
                    assert forall|j: int| 0 <= j < done@.len() implies #[trigger] done@[j]
                        == indices(order@).contains(j) by {
                        if j == k {
                            assert(indices(order@)[placed.len() as int] == k);
                        } else if placed.contains(j) {
                            let at = choose|at: int| 0 <= at < placed.len() && placed[at] == j;
                            assert(indices(order@)[at] == j);
                        } else {
                            if indices(order@).contains(j) {
                                let at = choose|at: int|
                                    0 <= at < indices(order@).len() && indices(order@)[at] == j;
                                assert(placed[at] == j);
                            }
                        }
                    }
                }
            },
            None => {
                let mut u: usize = 0;
                while u < n && done[u]
                    invariant
                        u <= n,
                        done@.len() == n,
                        marks_match(done@, placed),
                        first_unplaced(n as int, placed, 0) == first_unplaced(
                            n as int,
                            placed,
                            u as int,
                        ),
                    decreases n - u,
                {
                    u += 1;
                }
                return Err(u);
            },
        }
    }
    Ok(order)
}

} // verus!
