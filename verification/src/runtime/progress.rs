//! What running one job changes in an execution, and what it leaves as it
//! is.

use crate::data::value::DataView;
use crate::runtime::bytecode::{FunctionCall, OperationView, VertexBytecodeView};
use crate::runtime::machine::{
    dependencies, operands, stepped, stored, values, with_job, with_operation, with_operations,
    Host, JobView, MachineView, NodeState,
};
use crate::runtime::multithreading::model::{
    dispatched, ids_of, live, remove_first, submitted, SchedulerView,
};
use crate::runtime::multithreading::shifted::{
    lemma_completed_settles, lemma_remove_only, settles,
};
use vstd::prelude::*;

verus! {

/// The node that a job writes into.
pub open spec fn writes(job: JobView) -> usize {
    match job {
        JobView::External { node, inputs, function } => node,
        JobView::Internal { node, inputs, function } => node,
        JobView::Copy { from, to } => to,
    }
}

/// Whether a job is neither ready nor asleep: it will not be run.
pub open spec fn idle(s: SchedulerView, id: usize) -> bool {
    !s.queue.contains(id) && !ids_of(s.sleeping).contains(id)
}

/// What holds between a state `m` and a later state `r` that was reached
/// by making nodes and submitting their jobs: the nodes and jobs of `m`
/// are there unchanged; the new jobs write into new nodes; there is a new
/// id for each new job; and of the jobs of `m` none has become ready or
/// fallen asleep.
pub open spec fn grown(m: MachineView, r: MachineView) -> bool {
    &&& m.nodes.len() <= r.nodes.len()
    &&& forall|i: int| 0 <= i < m.nodes.len() ==> #[trigger] r.nodes[i] == m.nodes[i]
    &&& m.jobs.len() <= r.jobs.len()
    &&& forall|j: int| 0 <= j < m.jobs.len() ==> #[trigger] r.jobs[j] == m.jobs[j]
    &&& forall|j: int|
        m.jobs.len() <= j < r.jobs.len() ==> writes(#[trigger] r.jobs[j]) >= m.nodes.len()
    &&& r.jobs.len() - m.jobs.len() == r.scheduler.next_id - m.scheduler.next_id
    &&& r.scheduler.in_flight == m.scheduler.in_flight
    &&& r.scheduler.closed == m.scheduler.closed
    &&& forall|x: usize|
        x < m.scheduler.next_id && #[trigger] r.scheduler.queue.contains(x)
            ==> m.scheduler.queue.contains(x)
    &&& forall|x: usize|
        x < m.scheduler.next_id && #[trigger] ids_of(r.scheduler.sleeping).contains(x) ==> ids_of(
            m.scheduler.sleeping,
        ).contains(x)
}

/// Submitting a job makes none of the earlier jobs ready or asleep.
pub proof fn lemma_submitted_quiet(s: SchedulerView, deps: Seq<usize>)
    requires
        s.next_id < usize::MAX,
    ensures
        submitted(s, deps).next_id == s.next_id + 1,
        submitted(s, deps).in_flight == s.in_flight,
        submitted(s, deps).closed == s.closed,
        forall|x: usize|
            x < s.next_id && #[trigger] submitted(s, deps).queue.contains(x) ==> s.queue.contains(
                x,
            ),
        forall|x: usize|
            x < s.next_id && #[trigger] ids_of(submitted(s, deps).sleeping).contains(x) ==> ids_of(
                s.sleeping,
            ).contains(x),
{
    let r = submitted(s, deps);
    assert forall|x: usize| x < s.next_id && #[trigger] r.queue.contains(x) implies s.queue.contains(
        x,
    ) by {
        let k = choose|k: int| 0 <= k < r.queue.len() && r.queue[k] == x;
        if k < s.queue.len() {
            assert(s.queue[k] == x);
        }
    }
    assert forall|x: usize|
        x < s.next_id && #[trigger] ids_of(r.sleeping).contains(x) implies ids_of(
        s.sleeping,
    ).contains(x) by {
        let k = choose|k: int| 0 <= k < ids_of(r.sleeping).len() && ids_of(r.sleeping)[k] == x;
        if k < s.sleeping.len() {
            assert(ids_of(s.sleeping)[k] == x);
        }
    }
}

/// Making the node of an operation makes the execution grow.
pub proof fn lemma_with_operation_grown(
    m: MachineView,
    code: VertexBytecodeView,
    params: Seq<usize>,
    made: Seq<usize>,
    op: OperationView,
)
    requires
        with_operation(m, code, params, made, op) matches Ok(r) && r.nodes.len() <= usize::MAX,
    ensures
        grown(m, with_operation(m, code, params, made, op)->Ok_0),
        with_operation(m, code, params, made, op)->Ok_0.nodes.len() == m.nodes.len() + 1,
{
    let r = with_operation(m, code, params, made, op)->Ok_0;
    let from = operands(params, made, op.inputs, op.inputs.len())->Ok_0;
    match op.function_call {
        FunctionCall::Constant(i) => {},
        _ => {
            let deps = dependencies(m.nodes, from, from.len());
            lemma_submitted_quiet(m.scheduler, deps);
            assert(r.jobs.len() == m.jobs.len() + 1);
            assert(writes(r.jobs[m.jobs.len() as int]) == m.nodes.len());
        },
    }
}

/// Growing twice is growing.
pub proof fn lemma_grown_twice(m: MachineView, b: MachineView, r: MachineView)
    requires
        grown(m, b),
        grown(b, r),
    ensures
        grown(m, r),
{
    assert forall|i: int| 0 <= i < m.nodes.len() implies #[trigger] r.nodes[i] == m.nodes[i] by {
        assert(b.nodes[i] == m.nodes[i]);
    }
    assert forall|j: int| 0 <= j < m.jobs.len() implies #[trigger] r.jobs[j] == m.jobs[j] by {
        assert(b.jobs[j] == m.jobs[j]);
    }
    assert forall|j: int| m.jobs.len() <= j < r.jobs.len() implies writes(#[trigger] r.jobs[j])
        >= m.nodes.len() by {
        if j < b.jobs.len() {
            assert(r.jobs[j] == b.jobs[j]);
        }
    }
    assert forall|x: usize|
        x < m.scheduler.next_id && #[trigger] r.scheduler.queue.contains(
            x,
        ) implies m.scheduler.queue.contains(x) by {
        assert(b.scheduler.queue.contains(x));
    }
    assert forall|x: usize|
        x < m.scheduler.next_id && #[trigger] ids_of(r.scheduler.sleeping).contains(
            x,
        ) implies ids_of(m.scheduler.sleeping).contains(x) by {
        assert(ids_of(b.scheduler.sleeping).contains(x));
    }
}

/// Making the nodes of the operations of a function makes the execution
/// grow.
pub proof fn lemma_with_operations_grown(
    m: MachineView,
    code: VertexBytecodeView,
    params: Seq<usize>,
    ops: Seq<OperationView>,
    k: nat,
)
    requires
        k <= ops.len(),
        with_operations(m, code, params, ops, k) matches Ok(r) && r.0.nodes.len() <= usize::MAX,
    ensures
        grown(m, with_operations(m, code, params, ops, k)->Ok_0.0),
        with_operations(m, code, params, ops, k)->Ok_0.0.nodes.len() == m.nodes.len() + k,
        with_operations(m, code, params, ops, k)->Ok_0.1.len() == k,
        forall|i: int|
            0 <= i < k ==> m.nodes.len() <= (#[trigger] with_operations(
                m,
                code,
                params,
                ops,
                k,
            )->Ok_0.1[i]) < m.nodes.len() + k,
    decreases k,
{
    if k > 0 {
        let before = with_operations(m, code, params, ops, (k - 1) as nat)->Ok_0;
        lemma_with_operation_grown(before.0, code, params, before.1, ops[k - 1]);
        lemma_with_operations_grown(m, code, params, ops, (k - 1) as nat);
        let r = with_operations(m, code, params, ops, k)->Ok_0;
        lemma_grown_twice(m, before.0, r.0);
        assert forall|i: int| 0 <= i < k implies m.nodes.len() <= (#[trigger] r.1[i]) < m.nodes.len()
            + k by {
            if i < k - 1 {
                assert(r.1[i] == before.1[i]);
            }
        }
    }
}

/// What running the first ready job changes, where `m` is the state before
/// and `r` the state after: the jobs of `m` are there unchanged, and
/// there is a job for every id; no job is in flight; a node that the job
/// does not write into is unchanged; a job that stores a value changes
/// nothing but the value of its node; a job that expands a function
/// leaves all nodes as they are, and of the jobs that it makes the last
/// copies into its own node and all others write into new nodes; and of
/// the jobs of `m` only such are ready afterwards as were ready behind the
/// first or asleep, and only such asleep as were asleep.
pub open spec fn advanced(m: MachineView, r: MachineView) -> bool {
    let id = m.scheduler.queue[0];
    let job = m.jobs[id - 1];
    &&& 1 <= id <= m.jobs.len()
    &&& r.jobs.len() + 1 == r.scheduler.next_id
    &&& r.scheduler.in_flight.len() == 0
    &&& r.scheduler.closed == m.scheduler.closed
    &&& m.jobs.len() <= r.jobs.len()
    &&& forall|j: int| 0 <= j < m.jobs.len() ==> #[trigger] r.jobs[j] == m.jobs[j]
    &&& m.nodes.len() <= r.nodes.len()
    &&& forall|i: int|
        0 <= i < m.nodes.len() && i != writes(job) ==> #[trigger] r.nodes[i] == m.nodes[i]
    &&& match job {
        JobView::External { node, inputs, function } => {
            &&& r.jobs == m.jobs
            &&& r.nodes.len() == m.nodes.len()
            &&& node < m.nodes.len()
            &&& r.nodes[node as int].data is Some
        },
        JobView::Copy { from, to } => {
            &&& r.jobs == m.jobs
            &&& r.nodes.len() == m.nodes.len()
            &&& from < m.nodes.len()
            &&& to < m.nodes.len()
            &&& m.nodes[from as int].data is Some
            &&& r.nodes[to as int].data == m.nodes[from as int].data
        },
        JobView::Internal { node, inputs, function } => {
            &&& m.jobs.len() < r.jobs.len()
            &&& forall|i: int| 0 <= i < m.nodes.len() ==> #[trigger] r.nodes[i] == m.nodes[i]
            &&& r.jobs.last() is Copy
            &&& writes(r.jobs.last()) == node
            &&& forall|j: int|
                m.jobs.len() <= j < r.jobs.len() - 1 ==> writes(#[trigger] r.jobs[j])
                    >= m.nodes.len()
        },
    }
    &&& forall|x: usize|
        x < m.scheduler.next_id && #[trigger] r.scheduler.queue.contains(x)
            ==> m.scheduler.queue.drop_first().contains(x) || ids_of(
            m.scheduler.sleeping,
        ).contains(x)
    &&& forall|x: usize|
        x < m.scheduler.next_id && #[trigger] ids_of(r.scheduler.sleeping).contains(x) ==> ids_of(
            m.scheduler.sleeping,
        ).contains(x)
}

/// Storing a value and ending the one job in flight.
pub proof fn lemma_stored_advanced(m: MachineView, id: usize, node: usize, value: DataView)
    requires
        m.scheduler.in_flight == seq![id],
        stored(m, id, node, value) is Ok,
    ensures
        settles(
            SchedulerView { in_flight: Seq::empty(), ..m.scheduler },
            stored(m, id, node, value)->Ok_0.scheduler,
        ),
        stored(m, id, node, value)->Ok_0.jobs == m.jobs,
        stored(m, id, node, value)->Ok_0.nodes == m.nodes.update(
            node as int,
            NodeState { data: Some(value), ..m.nodes[node as int] },
        ),
        node < m.nodes.len(),
{
    lemma_remove_only(id);
    assert(m.scheduler.in_flight[0] == id);
    let out = SchedulerView { in_flight: remove_first(m.scheduler.in_flight, id), ..m.scheduler };
    lemma_completed_settles(out, id, (m.scheduler.hibernating.len() + 1) as nat);
}

/// Running the first ready job advances the execution.
pub proof fn lemma_stepped_advanced(m: MachineView, code: VertexBytecodeView, host: Host)
    requires
        m.jobs.len() + 1 == m.scheduler.next_id,
        m.scheduler.in_flight.len() == 0,
        m.scheduler.queue.len() > 0,
        stepped(m, code, host) matches Ok(r) && r.nodes.len() <= usize::MAX,
    ensures
        advanced(m, stepped(m, code, host)->Ok_0),
{
    let id = m.scheduler.queue[0];
    let job = m.jobs[id - 1];
    let r = stepped(m, code, host)->Ok_0;
    let taken = MachineView { scheduler: dispatched(m.scheduler), ..m };
    assert(taken.scheduler.in_flight =~= seq![id]);
    let out = SchedulerView { in_flight: Seq::empty(), ..taken.scheduler };
    match job {
        JobView::External { node, inputs, function } => {
            let v = values(taken.nodes, inputs, inputs.len())->Ok_0;
            lemma_stored_advanced(
                taken,
                id,
                node,
                host(code.external_functions[function as int].function, v),
            );
            lemma_after_end(m, out, r.scheduler);
        },
        JobView::Copy { from, to } => {
            lemma_stored_advanced(taken, id, to, taken.nodes[from as int].data->Some_0);
            lemma_after_end(m, out, r.scheduler);
        },
        JobView::Internal { node, inputs, function } => {
            let ops = code.internal_functions[function as int];
            lemma_with_operations_grown(taken, code, inputs, ops, ops.len());
            let made = with_operations(taken, code, inputs, ops, ops.len())->Ok_0;
            let last = made.1.last();
            let copy = made.0.scheduler.next_id;
            let deps = dependencies(made.0.nodes, seq![last], 1);
            lemma_submitted_quiet(made.0.scheduler, deps);
            let with_copy = with_job(made.0, deps, JobView::Copy { from: last, to: node })->Ok_0;
            let waits_for = live(with_copy.scheduler, seq![copy], 1);
            lemma_remove_only(id);
            assert(with_copy.scheduler.in_flight[0] == id);
            let before = SchedulerView {
                in_flight: remove_first(with_copy.scheduler.in_flight, id),
                ..with_copy.scheduler
            };
            if waits_for.len() == 0 {
                lemma_completed_settles(
                    before,
                    id,
                    (with_copy.scheduler.hibernating.len() + 1) as nat,
                );
            }
            assert(settles(before, r.scheduler) || (r.scheduler.queue == before.queue
                && r.scheduler.sleeping == before.sleeping && r.scheduler.next_id == before.next_id
                && r.scheduler.in_flight == before.in_flight && r.scheduler.closed
                == before.closed));
            assert forall|x: usize|
                x < m.scheduler.next_id && #[trigger] r.scheduler.queue.contains(
                    x,
                ) implies m.scheduler.queue.drop_first().contains(x) || ids_of(
                m.scheduler.sleeping,
            ).contains(x) by {
                if before.queue.contains(x) {
                    assert(made.0.scheduler.queue.contains(x));
                } else {
                    assert(ids_of(before.sleeping).contains(x));
                    assert(ids_of(made.0.scheduler.sleeping).contains(x));
                }
            }
            assert forall|x: usize|
                x < m.scheduler.next_id && #[trigger] ids_of(r.scheduler.sleeping).contains(
                    x,
                ) implies ids_of(m.scheduler.sleeping).contains(x) by {
                assert(ids_of(before.sleeping).contains(x));
                assert(ids_of(made.0.scheduler.sleeping).contains(x));
            }
            assert(r.jobs == made.0.jobs.push(JobView::Copy { from: last, to: node }));
            assert forall|j: int| 0 <= j < m.jobs.len() implies #[trigger] r.jobs[j] == m.jobs[j] by {
                assert(made.0.jobs[j] == m.jobs[j]);
            }
            assert forall|j: int| m.jobs.len() <= j < r.jobs.len() - 1 implies writes(
                #[trigger] r.jobs[j],
            ) >= m.nodes.len() by {
                assert(r.jobs[j] == made.0.jobs[j]);
            }
            assert forall|i: int| 0 <= i < m.nodes.len() implies #[trigger] r.nodes[i]
                == m.nodes[i] by {
                assert(made.0.nodes[i] == m.nodes[i]);
            }
        },
    }
}

/// After the end of the job that was taken from the queue, only such jobs
/// are ready as were ready behind it or asleep, and only such asleep as
/// were asleep.
proof fn lemma_after_end(m: MachineView, out: SchedulerView, r: SchedulerView)
    requires
        m.scheduler.queue.len() > 0,
        out.queue == m.scheduler.queue.drop_first(),
        out.sleeping == m.scheduler.sleeping,
        settles(out, r),
    ensures
        forall|x: usize|
            #[trigger] r.queue.contains(x) ==> m.scheduler.queue.drop_first().contains(x) || ids_of(
                m.scheduler.sleeping,
            ).contains(x),
        forall|x: usize|
            #[trigger] ids_of(r.sleeping).contains(x) ==> ids_of(m.scheduler.sleeping).contains(x),
{
}

} // verus!
