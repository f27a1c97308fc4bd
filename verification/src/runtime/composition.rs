//! A function that does nothing but call another gives what the other
//! gives.
//!
//! The execution of the outer function holds the execution of the inner
//! one: the same nodes, one place further on from the node of the call,
//! and the same jobs under other ids. Two jobs are its own: that of the
//! outer call, and the job that hands the result on. The two executions
//! move in step until the inner call has its value; from then on nothing
//! but the job that hands the result on writes into the node of the outer
//! call.

use crate::data::value::DataView;
use crate::runtime::bytecode::{FunctionCall, OperationInput, OperationView, VertexBytecodeView};
use crate::runtime::machine::{
    dependencies, executed, expanded, fresh, indices_from, operand, operands, run, started,
    stepped, stored, values, with_call, with_constant, with_inputs, with_job, with_operation,
    with_operations, Host, JobView, MachineView, NodeState, VmError,
};
use crate::runtime::multithreading::laws::{
    lemma_dispatched_wf, lemma_finished, lemma_hibernated, lemma_initial_wf, lemma_submitted_wf,
};
use crate::runtime::multithreading::model::{
    dispatched, done, hibernated, ids_of, initial, live, submitted, wf, SchedulerView, Waiting,
};
use crate::runtime::multithreading::shifted::{
    handing_on, ids_small, lemma_dispatched_moved, lemma_finished_moved, lemma_hibernated_moved,
    lemma_moved, lemma_moved_contains, lemma_remove_only, lemma_submitted_moved, moved,
    moved_entries, moved_ids, outer, outer_call, small, steady,
};
use crate::runtime::progress::{idle, lemma_stepped_advanced, lemma_stored_advanced, writes};
use vstd::prelude::*;

verus! {

/// The place that a node of the inner execution has in the outer one:
/// the nodes of the inputs stay, every other node comes one place later.
pub open spec fn raised(node: usize, inputs: nat) -> usize {
    if node < inputs {
        node
    } else {
        (node + 1) as usize
    }
}

/// The places of a list of nodes in the outer execution.
pub open spec fn raised_all(nodes: Seq<usize>, inputs: nat) -> Seq<usize> {
    Seq::new(nodes.len(), |i: int| raised(nodes[i], inputs))
}

/// A node as the outer execution has it.
pub open spec fn outer_node(node: NodeState) -> NodeState {
    NodeState {
        job: match node.job {
            Some(id) => Some(moved(id)),
            None => None,
        },
        data: node.data,
    }
}

/// A job as the outer execution has it.
pub open spec fn outer_job(job: JobView, inputs: nat) -> JobView {
    match job {
        JobView::External { node, inputs: from, function } => JobView::External {
            node: raised(node, inputs),
            inputs: raised_all(from, inputs),
            function,
        },
        JobView::Internal { node, inputs: from, function } => JobView::Internal {
            node: raised(node, inputs),
            inputs: raised_all(from, inputs),
            function,
        },
        JobView::Copy { from, to } => JobView::Copy {
            from: raised(from, inputs),
            to: raised(to, inputs),
        },
    }
}

/// The nodes of the outer execution: those of the inner one, and the node
/// of the outer call behind the nodes of the inputs.
pub open spec fn outer_nodes(nodes: Seq<NodeState>, inputs: nat) -> Seq<NodeState> {
    Seq::new(
        nodes.len() + 1,
        |i: int|
            if i < inputs {
                outer_node(nodes[i])
            } else if i == inputs {
                NodeState { job: Some(1), data: None }
            } else {
                outer_node(nodes[i - 1])
            },
    )
}

/// The job of the outer call: it expands the function `function` on the
/// nodes of the inputs.
pub open spec fn entry_job(inputs: nat, function: usize) -> JobView {
    JobView::Internal {
        node: inputs as usize,
        inputs: Seq::new(inputs, |i: int| i as usize),
        function,
    }
}

/// The job that hands the result on: it copies the value of the node of
/// the inner call into the node of the outer call.
pub open spec fn handing_job(inputs: nat) -> JobView {
    JobView::Copy { from: (inputs + 1) as usize, to: inputs as usize }
}

/// The jobs of the outer execution: its own two, and those of the inner
/// one.
pub open spec fn outer_jobs(jobs: Seq<JobView>, inputs: nat, function: usize) -> Seq<JobView> {
    Seq::new(
        jobs.len() + 2,
        |j: int|
            if j == 0 {
                entry_job(inputs, function)
            } else if j == 1 {
                outer_job(jobs[0], inputs)
            } else if j == 2 {
                handing_job(inputs)
            } else {
                outer_job(jobs[j - 2], inputs)
            },
    )
}

/// The state of the outer execution, as long as the inner call has not
/// ended.
pub open spec fn outer_machine(m: MachineView, inputs: nat, function: usize) -> MachineView {
    MachineView {
        scheduler: outer(m.scheduler),
        nodes: outer_nodes(m.nodes, inputs),
        jobs: outer_jobs(m.jobs, inputs, function),
    }
}

/// Whether all nodes of a list have been made.
pub open spec fn nodes_made(nodes: Seq<usize>, count: nat) -> bool {
    forall|k: int| 0 <= k < nodes.len() ==> #[trigger] nodes[k] < count
}

/// Whether the nodes that a job reads and writes have been made.
pub open spec fn job_made(job: JobView, count: nat) -> bool {
    match job {
        JobView::External { node, inputs, function } => node < count && nodes_made(inputs, count),
        JobView::Internal { node, inputs, function } => node < count && nodes_made(inputs, count),
        JobView::Copy { from, to } => from < count && to < count,
    }
}

/// Whether the jobs of the nodes have been given out.
pub open spec fn node_jobs_small(nodes: Seq<NodeState>, bound: usize) -> bool {
    forall|i: int|
        0 <= i < nodes.len() && (#[trigger] nodes[i]).job is Some ==> small(
            nodes[i].job->Some_0,
            bound,
        )
}

/// What holds of the inner execution as long as the inner call has not
/// ended, where the execution was started on `inputs` values and `last` is
/// the job that the inner call hibernates for: its scheduler is steady
/// and keeps its invariant; there is a job for every id that was given
/// out; the node of the call has been made; the outer execution has room
/// for one node more; and every job reads and writes nodes that have been
/// made.
pub open spec fn kept(m: MachineView, inputs: nat, last: usize) -> bool {
    &&& counted(m, inputs, last)
    &&& jobs_made(m.jobs, m.nodes.len())
}

/// All of that but what holds of the nodes of the jobs.
pub open spec fn counted(m: MachineView, inputs: nat, last: usize) -> bool {
    &&& steady(m.scheduler, last)
    &&& wf(m.scheduler)
    &&& 1 <= m.jobs.len()
    &&& m.jobs.len() + 1 == m.scheduler.next_id
    &&& inputs < m.nodes.len()
    &&& m.nodes.len() + 1 <= usize::MAX
    &&& node_jobs_small(m.nodes, m.scheduler.next_id)
}

/// Whether every job of a list reads and writes nodes that have been made.
pub open spec fn jobs_made(jobs: Seq<JobView>, count: nat) -> bool {
    forall|j: int| 0 <= j < jobs.len() ==> job_made(#[trigger] jobs[j], count)
}

/// The jobs of nodes are the same in both executions.
pub proof fn lemma_dependencies_moved(
    nodes: Seq<NodeState>,
    from: Seq<usize>,
    k: nat,
    inputs: nat,
    bound: usize,
)
    requires
        k <= from.len(),
        nodes_made(from, nodes.len()),
        nodes.len() + 1 <= usize::MAX,
        node_jobs_small(nodes, bound),
    ensures
        dependencies(outer_nodes(nodes, inputs), raised_all(from, inputs), k) == moved_ids(
            dependencies(nodes, from, k),
        ),
        ids_small(dependencies(nodes, from, k), bound),
    decreases k,
{
    let inner = dependencies(nodes, from, k);
    let there = dependencies(outer_nodes(nodes, inputs), raised_all(from, inputs), k);
    if k == 0 {
        assert(there =~= moved_ids(inner));
    } else {
        lemma_dependencies_moved(nodes, from, (k - 1) as nat, inputs, bound);
        let input = from[k - 1];
        assert(raised_all(from, inputs)[k - 1] == raised(input, inputs));
        assert(outer_nodes(nodes, inputs)[raised(input, inputs) as int] == outer_node(
            nodes[input as int],
        ));
        assert(there =~= moved_ids(inner));
    }
}

/// The values of nodes are the same in both executions.
pub proof fn lemma_values_moved(nodes: Seq<NodeState>, from: Seq<usize>, k: nat, inputs: nat)
    requires
        k <= from.len(),
        nodes_made(from, nodes.len()),
        nodes.len() + 1 <= usize::MAX,
    ensures
        values(nodes, from, k) is Ok ==> values(
            outer_nodes(nodes, inputs),
            raised_all(from, inputs),
            k,
        ) == values(nodes, from, k),
        values(nodes, from, k) is Err ==> values(
            outer_nodes(nodes, inputs),
            raised_all(from, inputs),
            k,
        ) is Err,
    decreases k,
{
    if k > 0 {
        lemma_values_moved(nodes, from, (k - 1) as nat, inputs);
        let input = from[k - 1];
        assert(raised_all(from, inputs)[k - 1] == raised(input, inputs));
        assert(outer_nodes(nodes, inputs)[raised(input, inputs) as int] == outer_node(
            nodes[input as int],
        ));
    }
}

/// The nodes that the inputs of an operation come from are the same in
/// both executions.
pub proof fn lemma_operands_moved(
    params: Seq<usize>,
    made: Seq<usize>,
    from: Seq<OperationInput>,
    k: nat,
    inputs: nat,
    count: nat,
)
    requires
        k <= from.len(),
        nodes_made(params, count),
        nodes_made(made, count),
    ensures
        match operands(params, made, from, k) {
            Ok(nodes) => operands(raised_all(params, inputs), raised_all(made, inputs), from, k)
                == Ok::<Seq<usize>, VmError>(raised_all(nodes, inputs)) && nodes_made(nodes, count),
            Err(e) => operands(raised_all(params, inputs), raised_all(made, inputs), from, k)
                == Err::<Seq<usize>, VmError>(e),
        },
    decreases k,
{
    if k > 0 {
        lemma_operands_moved(params, made, from, (k - 1) as nat, inputs, count);
        match operands(params, made, from, (k - 1) as nat) {
            Ok(before) => {
                match operand(params, made, from[k - 1]) {
                    Ok(node) => {
                        assert(raised_all(before.push(node), inputs) =~= raised_all(
                            before,
                            inputs,
                        ).push(raised(node, inputs)));
                    },
                    Err(_) => {},
                }
            },
            Err(_) => {},
        }
    } else {
        assert(raised_all(Seq::<usize>::empty(), inputs) =~= Seq::<usize>::empty());
    }
}

/// Submitting a job of an execution is the same in both executions.
pub proof fn lemma_with_job_moved(
    m: MachineView,
    deps: Seq<usize>,
    job: JobView,
    inputs: nat,
    function: usize,
    last: usize,
)
    requires
        counted(m, inputs, last),
        ids_small(deps, m.scheduler.next_id),
        with_job(outer_machine(m, inputs, function), moved_ids(deps), outer_job(job, inputs)) is Ok,
    ensures
        with_job(m, deps, job) is Ok,
        with_job(outer_machine(m, inputs, function), moved_ids(deps), outer_job(job, inputs))
            == Ok::<MachineView, VmError>(
            outer_machine(with_job(m, deps, job)->Ok_0, inputs, function),
        ),
        counted(with_job(m, deps, job)->Ok_0, inputs, last),
        with_job(m, deps, job)->Ok_0.nodes == m.nodes,
        with_job(m, deps, job)->Ok_0.jobs == m.jobs.push(job),
        with_job(m, deps, job)->Ok_0.scheduler == submitted(m.scheduler, deps),
{
    let there = outer_machine(m, inputs, function);
    lemma_submitted_moved(m.scheduler, deps, last);
    lemma_submitted_wf(m.scheduler, deps);
    let r = with_job(m, deps, job)->Ok_0;
    let r_there = with_job(there, moved_ids(deps), outer_job(job, inputs))->Ok_0;
    assert(r_there.jobs =~= outer_jobs(r.jobs, inputs, function));
    assert(r_there == outer_machine(r, inputs, function));
}

/// The node of an operation is one node more.
pub proof fn lemma_one_node(
    m: MachineView,
    code: VertexBytecodeView,
    params: Seq<usize>,
    made: Seq<usize>,
    op: OperationView,
)
    ensures
        with_operation(m, code, params, made, op) matches Ok(r) ==> r.nodes.len() == m.nodes.len()
            + 1,
{
}

/// Making the node of a call is the same in both executions.
pub proof fn lemma_with_call_moved(
    m: MachineView,
    from: Seq<usize>,
    callee: usize,
    external: bool,
    inputs: nat,
    function: usize,
    last: usize,
)
    requires
        kept(m, inputs, last),
        nodes_made(from, m.nodes.len()),
        with_call(outer_machine(m, inputs, function), raised_all(from, inputs), callee, external)
            matches Ok(r) && r.nodes.len() <= usize::MAX,
    ensures
        with_call(m, from, callee, external) is Ok,
        with_call(outer_machine(m, inputs, function), raised_all(from, inputs), callee, external)
            == Ok::<MachineView, VmError>(
            outer_machine(with_call(m, from, callee, external)->Ok_0, inputs, function),
        ),
        kept(with_call(m, from, callee, external)->Ok_0, inputs, last),
        with_call(m, from, callee, external)->Ok_0.scheduler.in_flight == m.scheduler.in_flight,
{
    let there = outer_machine(m, inputs, function);
    let node = m.nodes.len() as usize;
    let job = if external {
        JobView::External { node, inputs: from, function: callee }
    } else {
        JobView::Internal { node, inputs: from, function: callee }
    };
    let deps = dependencies(m.nodes, from, from.len());
    lemma_dependencies_moved(m.nodes, from, from.len(), inputs, m.scheduler.next_id);
    assert(raised_all(from, inputs).len() == from.len());
    assert(there.nodes.len() == m.nodes.len() + 1);
    assert(outer_job(job, inputs) == if external {
        JobView::External {
            node: there.nodes.len() as usize,
            inputs: raised_all(from, inputs),
            function: callee,
        }
    } else {
        JobView::Internal {
            node: there.nodes.len() as usize,
            inputs: raised_all(from, inputs),
            function: callee,
        }
    });
    lemma_with_job_moved(m, deps, job, inputs, function, last);
    lemma_submitted_moved(m.scheduler, deps, last);
    let before = with_job(m, deps, job)->Ok_0;
    let r = with_call(m, from, callee, external)->Ok_0;
    let r_there = with_call(there, raised_all(from, inputs), callee, external)->Ok_0;
    lemma_moved(m.scheduler.next_id, m.scheduler.next_id, (m.scheduler.next_id + 1) as usize);
    assert(r_there.nodes =~= outer_nodes(r.nodes, inputs));
    assert(r_there == outer_machine(r, inputs, function));
    assert forall|i: int| 0 <= i < r.nodes.len() && (#[trigger] r.nodes[i]).job is Some implies small(
        r.nodes[i].job->Some_0,
        r.scheduler.next_id,
    ) by {
        if i < m.nodes.len() {
            assert(r.nodes[i] == m.nodes[i]);
        }
    }
    assert forall|j: int| 0 <= j < r.jobs.len() implies job_made(
        #[trigger] r.jobs[j],
        r.nodes.len(),
    ) by {
        if j < m.jobs.len() {
            assert(r.jobs[j] == m.jobs[j]);
            assert(job_made(m.jobs[j], m.nodes.len()));
        }
    }
}

/// Making the node of an operation is the same in both executions.
pub proof fn lemma_with_operation_moved(
    m: MachineView,
    code: VertexBytecodeView,
    params: Seq<usize>,
    made: Seq<usize>,
    op: OperationView,
    inputs: nat,
    function: usize,
    last: usize,
)
    requires
        kept(m, inputs, last),
        nodes_made(params, m.nodes.len()),
        nodes_made(made, m.nodes.len()),
        with_operation(
            outer_machine(m, inputs, function),
            code,
            raised_all(params, inputs),
            raised_all(made, inputs),
            op,
        ) matches Ok(r) && r.nodes.len() <= usize::MAX,
    ensures
        with_operation(m, code, params, made, op) is Ok,
        with_operation(
            outer_machine(m, inputs, function),
            code,
            raised_all(params, inputs),
            raised_all(made, inputs),
            op,
        ) == Ok::<MachineView, VmError>(
            outer_machine(with_operation(m, code, params, made, op)->Ok_0, inputs, function),
        ),
        kept(with_operation(m, code, params, made, op)->Ok_0, inputs, last),
        with_operation(m, code, params, made, op)->Ok_0.nodes.len() == m.nodes.len() + 1,
        with_operation(m, code, params, made, op)->Ok_0.scheduler.in_flight
            == m.scheduler.in_flight,
{
    let there = outer_machine(m, inputs, function);
    lemma_operands_moved(params, made, op.inputs, op.inputs.len(), inputs, m.nodes.len());
    match operands(params, made, op.inputs, op.inputs.len()) {
        Ok(from) => {
            match op.function_call {
                FunctionCall::Internal(i) => {
                    lemma_with_call_moved(m, from, i, false, inputs, function, last);
                },
                FunctionCall::External(i) => {
                    lemma_with_call_moved(m, from, i, true, inputs, function, last);
                },
                FunctionCall::Constant(i) => {
                    let r = with_constant(m, code.constants[i as int]);
                    let r_there = with_constant(there, code.constants[i as int]);
                    assert(r_there.nodes =~= outer_nodes(r.nodes, inputs));
                    assert(r_there == outer_machine(r, inputs, function));
                    assert forall|k: int|
                        0 <= k < r.nodes.len() && (#[trigger] r.nodes[k]).job is Some implies small(
                        r.nodes[k].job->Some_0,
                        r.scheduler.next_id,
                    ) by {
                        if k < m.nodes.len() {
                            assert(r.nodes[k] == m.nodes[k]);
                        }
                    }
                    assert forall|j: int| 0 <= j < r.jobs.len() implies job_made(
                        #[trigger] r.jobs[j],
                        r.nodes.len(),
                    ) by {
                        assert(job_made(m.jobs[j], m.nodes.len()));
                    }
                },
            }
        },
        Err(_) => {},
    }
}

/// Making the nodes of the operations of a function is the same in both
/// executions.
pub proof fn lemma_with_operations_moved(
    m: MachineView,
    code: VertexBytecodeView,
    params: Seq<usize>,
    ops: Seq<OperationView>,
    k: nat,
    inputs: nat,
    function: usize,
    last: usize,
)
    requires
        kept(m, inputs, last),
        nodes_made(params, m.nodes.len()),
        k <= ops.len(),
        with_operations(
            outer_machine(m, inputs, function),
            code,
            raised_all(params, inputs),
            ops,
            k,
        ) matches Ok(r) && r.0.nodes.len() <= usize::MAX,
    ensures
        with_operations(m, code, params, ops, k) is Ok,
        with_operations(
            outer_machine(m, inputs, function),
            code,
            raised_all(params, inputs),
            ops,
            k,
        ) == Ok::<(MachineView, Seq<usize>), VmError>(
            (
                outer_machine(with_operations(m, code, params, ops, k)->Ok_0.0, inputs, function),
                raised_all(with_operations(m, code, params, ops, k)->Ok_0.1, inputs),
            ),
        ),
        kept(with_operations(m, code, params, ops, k)->Ok_0.0, inputs, last),
        nodes_made(
            with_operations(m, code, params, ops, k)->Ok_0.1,
            with_operations(m, code, params, ops, k)->Ok_0.0.nodes.len(),
        ),
        with_operations(m, code, params, ops, k)->Ok_0.1.len() == k,
        with_operations(m, code, params, ops, k)->Ok_0.0.nodes.len() == m.nodes.len() + k,
        with_operations(m, code, params, ops, k)->Ok_0.0.scheduler.in_flight
            == m.scheduler.in_flight,
    decreases k,
{
    let there = outer_machine(m, inputs, function);
    let params_there = raised_all(params, inputs);
    if k == 0 {
        assert(raised_all(Seq::<usize>::empty(), inputs) =~= Seq::<usize>::empty());
    } else {
        let before_there = with_operations(there, code, params_there, ops, (k - 1) as nat)->Ok_0;
        let r_there = with_operations(there, code, params_there, ops, k)->Ok_0;
        lemma_one_node(before_there.0, code, params_there, before_there.1, ops[k - 1]);
        lemma_with_operations_moved(m, code, params, ops, (k - 1) as nat, inputs, function, last);
        let before = with_operations(m, code, params, ops, (k - 1) as nat)->Ok_0;
        lemma_with_operation_moved(
            before.0,
            code,
            params,
            before.1,
            ops[k - 1],
            inputs,
            function,
            last,
        );
        let next = with_operation(before.0, code, params, before.1, ops[k - 1])->Ok_0;
        let r = with_operations(m, code, params, ops, k)->Ok_0;
        assert(r.0 == next);
        let node = (next.nodes.len() - 1) as usize;
        assert(r.1 == before.1.push(node));
        assert(raised(node, inputs) == next.nodes.len());
        assert(outer_machine(next, inputs, function).nodes.len() == next.nodes.len() + 1);
        assert(r_there.1 =~= raised_all(r.1, inputs));
    }
}

/// Expanding a function is the same in both executions.
pub proof fn lemma_expanded_moved(
    m: MachineView,
    code: VertexBytecodeView,
    id: usize,
    node: usize,
    params: Seq<usize>,
    callee: usize,
    inputs: nat,
    function: usize,
    last: usize,
)
    requires
        kept(m, inputs, last),
        m.scheduler.in_flight == seq![id],
        nodes_made(params, m.nodes.len()),
        node < m.nodes.len(),
        id != last,
        expanded(
            outer_machine(m, inputs, function),
            code,
            moved(id),
            raised(node, inputs),
            raised_all(params, inputs),
            callee,
        ) matches Ok(r) && r.nodes.len() <= usize::MAX,
        id == 1 ==> last + 3 == expanded(
            outer_machine(m, inputs, function),
            code,
            moved(id),
            raised(node, inputs),
            raised_all(params, inputs),
            callee,
        )->Ok_0.scheduler.next_id,
    ensures
        expanded(m, code, id, node, params, callee) is Ok,
        expanded(
            outer_machine(m, inputs, function),
            code,
            moved(id),
            raised(node, inputs),
            raised_all(params, inputs),
            callee,
        ) == Ok::<MachineView, VmError>(
            outer_machine(expanded(m, code, id, node, params, callee)->Ok_0, inputs, function),
        ),
        kept(expanded(m, code, id, node, params, callee)->Ok_0, inputs, last),
        expanded(m, code, id, node, params, callee)->Ok_0.scheduler.in_flight.len() == 0,
{
    let there = outer_machine(m, inputs, function);
    let params_there = raised_all(params, inputs);
    let ops = code.internal_functions[callee as int];
    lemma_with_operations_moved(m, code, params, ops, ops.len(), inputs, function, last);
    let made = with_operations(m, code, params, ops, ops.len())->Ok_0;
    let made_there = with_operations(there, code, params_there, ops, ops.len())->Ok_0;
    assert(made_there.1.len() == made.1.len());
    let from = made.1.last();
    assert(made_there.1.last() == raised(from, inputs));
    let copy = made.0.scheduler.next_id;
    let job = JobView::Copy { from, to: node };
    let deps = dependencies(made.0.nodes, seq![from], 1);
    assert(nodes_made(seq![from], made.0.nodes.len()));
    lemma_dependencies_moved(made.0.nodes, seq![from], 1, inputs, made.0.scheduler.next_id);
    assert(raised_all(seq![from], inputs) =~= seq![raised(from, inputs)]);
    lemma_with_job_moved(made.0, deps, job, inputs, function, last);
    let r = with_job(made.0, deps, job)->Ok_0;
    lemma_moved(copy, copy, r.scheduler.next_id);
    assert(!done(r.scheduler, copy)) by {
        if r.scheduler.gap.contains(copy) {
            let k = choose|k: int| 0 <= k < r.scheduler.gap.len() && r.scheduler.gap[k] == copy;
            assert(small(made.0.scheduler.gap[k], made.0.scheduler.next_id));
        }
    }
    lemma_hibernated_moved(r.scheduler, id, copy, last);
    lemma_hibernated(r.scheduler, id, seq![copy]);
    assert(r.scheduler.in_flight[0] == id);
    let after = expanded(m, code, id, node, params, callee)->Ok_0;
    assert(after == MachineView { scheduler: hibernated(r.scheduler, id, seq![copy]).0, ..r });
    assert forall|j: int| 0 <= j < after.jobs.len() implies job_made(
        #[trigger] after.jobs[j],
        after.nodes.len(),
    ) by {
        if j < made.0.jobs.len() {
            assert(after.jobs[j] == made.0.jobs[j]);
        }
    }
}

/// Storing a value and ending the job in flight is the same in both
/// executions, as long as the job is neither the inner call nor the job
/// that it hibernates for.
pub proof fn lemma_stored_moved(
    m: MachineView,
    id: usize,
    node: usize,
    value: DataView,
    inputs: nat,
    function: usize,
    last: usize,
)
    requires
        kept(m, inputs, last),
        m.scheduler.in_flight == seq![id],
        node < m.nodes.len(),
        id != 1,
        id != last,
    ensures
        stored(m, id, node, value) is Ok,
        stored(outer_machine(m, inputs, function), moved(id), raised(node, inputs), value) == Ok::<
            MachineView,
            VmError,
        >(outer_machine(stored(m, id, node, value)->Ok_0, inputs, function)),
        kept(stored(m, id, node, value)->Ok_0, inputs, last),
        stored(m, id, node, value)->Ok_0.scheduler.in_flight.len() == 0,
{
    let there = outer_machine(m, inputs, function);
    lemma_finished_moved(m.scheduler, id, last);
    assert(m.scheduler.in_flight[0] == id);
    lemma_finished(m.scheduler, id);
    let r = stored(m, id, node, value)->Ok_0;
    let r_there = stored(there, moved(id), raised(node, inputs), value)->Ok_0;
    assert(r_there.nodes =~= outer_nodes(r.nodes, inputs));
    assert(r_there == outer_machine(r, inputs, function));
    assert forall|i: int| 0 <= i < r.nodes.len() && (#[trigger] r.nodes[i]).job is Some implies small(
        r.nodes[i].job->Some_0,
        r.scheduler.next_id,
    ) by {
        assert(r.nodes[i].job == m.nodes[i].job);
    }
}

/// One job is run in the same way in both executions, as long as the job
/// is not the one that the inner call hibernates for.
pub proof fn lemma_stepped_moved(
    m: MachineView,
    code: VertexBytecodeView,
    host: Host,
    inputs: nat,
    function: usize,
    last: usize,
)
    requires
        kept(m, inputs, last),
        m.scheduler.in_flight.len() == 0,
        m.scheduler.queue.len() > 0,
        m.scheduler.queue[0] != last,
        m.jobs[0] is Internal,
        stepped(outer_machine(m, inputs, function), code, host) matches Ok(r) && r.nodes.len()
            <= usize::MAX,
        m.scheduler.queue[0] == 1 ==> last + 3 == stepped(
            outer_machine(m, inputs, function),
            code,
            host,
        )->Ok_0.scheduler.next_id,
    ensures
        stepped(m, code, host) is Ok,
        stepped(outer_machine(m, inputs, function), code, host) == Ok::<MachineView, VmError>(
            outer_machine(stepped(m, code, host)->Ok_0, inputs, function),
        ),
        kept(stepped(m, code, host)->Ok_0, inputs, last),
        stepped(m, code, host)->Ok_0.scheduler.in_flight.len() == 0,
{
    let there = outer_machine(m, inputs, function);
    let id = m.scheduler.queue[0];
    lemma_dispatched_moved(m.scheduler, last);
    lemma_dispatched_wf(m.scheduler);
    let taken = MachineView { scheduler: dispatched(m.scheduler), ..m };
    let taken_there = MachineView { scheduler: dispatched(there.scheduler), ..there };
    assert(taken_there == outer_machine(taken, inputs, function));
    assert(there.scheduler.queue[0] == moved(id));
    lemma_moved(id, id, m.scheduler.next_id);
    assert(there.jobs[moved(id) - 1] == outer_job(m.jobs[id - 1], inputs));
    assert(job_made(m.jobs[id - 1], m.nodes.len()));
    assert(kept(taken, inputs, last));
    match m.jobs[id - 1] {
        JobView::External { node, inputs: from, function: callee } => {
            lemma_values_moved(taken.nodes, from, from.len(), inputs);
            assert(raised_all(from, inputs).len() == from.len());
            let v = values(taken.nodes, from, from.len())->Ok_0;
            lemma_stored_moved(
                taken,
                id,
                node,
                host(code.external_functions[callee as int].function, v),
                inputs,
                function,
                last,
            );
        },
        JobView::Internal { node, inputs: from, function: callee } => {
            lemma_expanded_moved(taken, code, id, node, from, callee, inputs, function, last);
        },
        JobView::Copy { from, to } => {
            assert(taken_there.nodes[raised(from, inputs) as int] == outer_node(
                taken.nodes[from as int],
            ));
            lemma_stored_moved(
                taken,
                id,
                to,
                taken.nodes[from as int].data->Some_0,
                inputs,
                function,
                last,
            );
        },
    }
}

/// What holds of the inner execution while the inner call waits for its
/// value: the node of the call has no value; the first job is the call;
/// the job `last` copies into the node of the call, and no other job but
/// these two writes into it; and the first job is neither ready nor
/// asleep.
pub open spec fn waiting_for(m: MachineView, inputs: nat, last: usize) -> bool {
    &&& m.nodes[inputs as int].data is None
    &&& m.jobs[0] is Internal
    &&& writes(m.jobs[0]) == inputs
    &&& 2 <= last <= m.jobs.len()
    &&& m.jobs[last - 1] is Copy
    &&& writes(m.jobs[last - 1]) == inputs
    &&& forall|j: int|
        0 <= j < m.jobs.len() && writes(#[trigger] m.jobs[j]) == inputs ==> j == 0 || j + 1 == last
    &&& idle(m.scheduler, 1)
}

/// The inner call goes on waiting when a job other than `last` is run.
pub proof fn lemma_waiting_step(
    m: MachineView,
    code: VertexBytecodeView,
    host: Host,
    inputs: nat,
    last: usize,
)
    requires
        waiting_for(m, inputs, last),
        inputs < m.nodes.len(),
        m.jobs.len() + 1 == m.scheduler.next_id,
        m.scheduler.in_flight.len() == 0,
        m.scheduler.queue.len() > 0,
        m.scheduler.queue[0] != last,
        stepped(m, code, host) matches Ok(r) && r.nodes.len() <= usize::MAX,
    ensures
        waiting_for(stepped(m, code, host)->Ok_0, inputs, last),
{
    let r = stepped(m, code, host)->Ok_0;
    lemma_stepped_advanced(m, code, host);
    let id = m.scheduler.queue[0];
    assert(m.scheduler.queue.contains(id));
    let job = m.jobs[id - 1];
    assert(writes(job) != inputs);
    assert(r.jobs[0] == m.jobs[0]);
    assert(r.jobs[last - 1] == m.jobs[last - 1]);
    assert(r.nodes[inputs as int] == m.nodes[inputs as int]);
    assert forall|j: int| 0 <= j < r.jobs.len() && writes(#[trigger] r.jobs[j]) == inputs implies j
        == 0 || j + 1 == last by {
        if j < m.jobs.len() {
            assert(r.jobs[j] == m.jobs[j]);
        } else if j == r.jobs.len() - 1 {
            assert(r.jobs[j] == r.jobs.last());
        }
    }
    if r.scheduler.queue.contains(1) {
        if m.scheduler.queue.drop_first().contains(1) {
            let k = choose|k: int|
                0 <= k < m.scheduler.queue.drop_first().len() && m.scheduler.queue.drop_first()[k]
                    == 1;
            assert(m.scheduler.queue[k + 1] == 1);
        }
    }
}

/// What holds of the outer execution once the node of the inner call has
/// the value `value`: the node of the outer call has no value or that one;
/// there is a job for every id, and none is in flight; and every job that
/// writes into one of the two nodes either copies the value of the inner
/// call into the node of the outer call or is neither ready nor asleep.
pub open spec fn handed(m: MachineView, inputs: nat, value: DataView) -> bool {
    &&& inputs + 1 < m.nodes.len()
    &&& m.nodes[(inputs + 1) as int].data == Some(value)
    &&& (m.nodes[inputs as int].data is None || m.nodes[inputs as int].data == Some(value))
    &&& m.jobs.len() + 1 == m.scheduler.next_id
    &&& m.scheduler.in_flight.len() == 0
    &&& forall|j: int|
        0 <= j < m.jobs.len() && (writes(#[trigger] m.jobs[j]) == inputs || writes(m.jobs[j])
            == inputs + 1) ==> m.jobs[j] == handing_job(inputs) || idle(
            m.scheduler,
            (j + 1) as usize,
        )
}

/// Once the node of the inner call has its value, running a job leaves it
/// so.
pub proof fn lemma_handed_step(
    m: MachineView,
    code: VertexBytecodeView,
    host: Host,
    inputs: nat,
    value: DataView,
)
    requires
        handed(m, inputs, value),
        m.scheduler.queue.len() > 0,
        stepped(m, code, host) matches Ok(r) && r.nodes.len() <= usize::MAX,
    ensures
        handed(stepped(m, code, host)->Ok_0, inputs, value),
{
    let r = stepped(m, code, host)->Ok_0;
    lemma_stepped_advanced(m, code, host);
    let id = m.scheduler.queue[0];
    assert(m.scheduler.queue.contains(id));
    let job = m.jobs[id - 1];
    assert(!idle(m.scheduler, id));
    if writes(job) == inputs || writes(job) == inputs + 1 {
        assert(job == handing_job(inputs));
    } else {
        assert(r.nodes[inputs as int] == m.nodes[inputs as int]);
    }
    assert(r.nodes[(inputs + 1) as int] == m.nodes[(inputs + 1) as int]);
    assert forall|j: int|
        0 <= j < r.jobs.len() && (writes(#[trigger] r.jobs[j]) == inputs || writes(r.jobs[j])
            == inputs + 1) implies r.jobs[j] == handing_job(inputs) || idle(
        r.scheduler,
        (j + 1) as usize,
    ) by {
        if j < m.jobs.len() {
            assert(r.jobs[j] == m.jobs[j]);
            if m.jobs[j] != handing_job(inputs) {
                let x = (j + 1) as usize;
                assert(idle(m.scheduler, x));
                if r.scheduler.queue.contains(x) {
                    if m.scheduler.queue.drop_first().contains(x) {
                        let k = choose|k: int|
                            0 <= k < m.scheduler.queue.drop_first().len()
                                && m.scheduler.queue.drop_first()[k] == x;
                        assert(m.scheduler.queue[k + 1] == x);
                    }
                }
            }
        } else if j == r.jobs.len() - 1 {
            assert(r.jobs[j] == r.jobs.last());
        }
    }
}

/// Whether an execution never holds more nodes than can be counted, as
/// long as jobs are run until the value of the node `root` is there or
/// `fuel` jobs have been run.
pub open spec fn roomy(
    m: MachineView,
    code: VertexBytecodeView,
    host: Host,
    root: usize,
    fuel: nat,
) -> bool
    decreases fuel,
{
    &&& m.nodes.len() <= usize::MAX
    &&& if root < m.nodes.len() && m.nodes[root as int].data is Some {
        true
    } else if m.scheduler.closed || m.scheduler.queue.len() == 0 || fuel == 0 {
        true
    } else {
        match stepped(m, code, host) {
            Ok(next) => roomy(next, code, host, root, (fuel - 1) as nat),
            Err(_) => true,
        }
    }
}

/// Once the node of the inner call has its value, the outer call gives
/// that value if it gives any.
pub proof fn lemma_handed_run(
    m: MachineView,
    code: VertexBytecodeView,
    host: Host,
    inputs: nat,
    value: DataView,
    fuel: nat,
)
    requires
        handed(m, inputs, value),
        roomy(m, code, host, inputs as usize, fuel),
        run(m, code, host, inputs as usize, fuel) is Ok,
    ensures
        run(m, code, host, inputs as usize, fuel) == Ok::<DataView, VmError>(value),
    decreases fuel,
{
    assert(m.nodes.len() <= usize::MAX);
    let root = inputs as usize;
    assert(root == inputs);
    if m.nodes[inputs as int].data is Some {
    } else {
        assert(!m.scheduler.closed && m.scheduler.queue.len() > 0 && fuel > 0);
        assert(stepped(m, code, host) is Ok);
        let next = stepped(m, code, host)->Ok_0;
        assert(roomy(next, code, host, root, (fuel - 1) as nat));
        assert(run(m, code, host, root, fuel) == run(next, code, host, root, (fuel - 1) as nat));
        lemma_handed_step(m, code, host, inputs, value);
        lemma_handed_run(next, code, host, inputs, value, (fuel - 1) as nat);
    }
}

/// The ids of waiting jobs as the outer execution has them.
pub proof fn lemma_moved_entry_ids(entries: Seq<Waiting>)
    ensures
        ids_of(moved_entries(entries)) == moved_ids(ids_of(entries)),
{
    assert(ids_of(moved_entries(entries)) =~= moved_ids(ids_of(entries)));
}

/// When the job that the inner call hibernates for is run, the node of the
/// inner call gets its value in both executions, and in the outer one
/// nothing but handing the value on is left to do with it.
pub proof fn lemma_last_step(
    m: MachineView,
    code: VertexBytecodeView,
    host: Host,
    inputs: nat,
    function: usize,
    last: usize,
)
    requires
        kept(m, inputs, last),
        waiting_for(m, inputs, last),
        m.scheduler.in_flight.len() == 0,
        m.scheduler.queue.len() > 0,
        m.scheduler.queue[0] == last,
        stepped(m, code, host) is Ok,
        stepped(outer_machine(m, inputs, function), code, host) matches Ok(r) && r.nodes.len()
            <= usize::MAX,
    ensures
        stepped(m, code, host)->Ok_0.nodes.len() > inputs,
        stepped(m, code, host)->Ok_0.nodes[inputs as int].data is Some,
        handed(
            stepped(outer_machine(m, inputs, function), code, host)->Ok_0,
            inputs,
            stepped(m, code, host)->Ok_0.nodes[inputs as int].data->Some_0,
        ),
{
    let there = outer_machine(m, inputs, function);
    let s = m.scheduler;
    let r = stepped(m, code, host)->Ok_0;
    let r_there = stepped(there, code, host)->Ok_0;
    let bound = s.next_id;
    lemma_moved(last, last, bound);
    lemma_moved(1, 1, bound);
    assert(there.scheduler.queue[0] == moved(last));
    assert(there.jobs[moved(last) - 1] == outer_job(m.jobs[last - 1], inputs));
    let from = m.jobs[last - 1]->Copy_from;
    assert(m.jobs[last - 1] == JobView::Copy { from, to: inputs as usize });
    assert(job_made(m.jobs[last - 1], m.nodes.len()));
    let value = m.nodes[from as int].data->Some_0;
    let taken = MachineView { scheduler: dispatched(s), ..m };
    let taken_there = MachineView { scheduler: dispatched(there.scheduler), ..there };
    assert(taken_there.nodes[raised(from, inputs) as int] == outer_node(m.nodes[from as int]));
    assert(taken_there.scheduler.in_flight =~= seq![moved(last)]);
    lemma_stored_advanced(taken_there, moved(last), (inputs + 1) as usize, value);
    assert(r_there == stored(taken_there, moved(last), (inputs + 1) as usize, value)->Ok_0);
    let out = SchedulerView { in_flight: Seq::empty(), ..taken_there.scheduler };
    // Which jobs of the outer execution can still be run.
    lemma_moved_entry_ids(s.sleeping);
    lemma_moved_contains(s.queue.drop_first(), last, bound);
    lemma_moved_contains(s.queue.drop_first(), 1, bound);
    lemma_moved_contains(ids_of(s.sleeping), last, bound);
    lemma_moved_contains(ids_of(s.sleeping), 1, bound);
    assert(out.queue =~= moved_ids(s.queue.drop_first()));
    assert(ids_of(out.sleeping) =~= seq![3usize] + moved_ids(ids_of(s.sleeping)));
    assert(s.queue.contains(last));
    assert(!s.queue.drop_first().contains(last)) by {
        if s.queue.drop_first().contains(last) {
            let k = choose|k: int|
                0 <= k < s.queue.drop_first().len() && s.queue.drop_first()[k] == last;
            assert(s.queue[k + 1] == s.queue[0]);
        }
    }
    assert(!s.queue.drop_first().contains(1)) by {
        if s.queue.drop_first().contains(1) {
            let k = choose|k: int| 0 <= k < s.queue.drop_first().len() && s.queue.drop_first()[k] == 1;
            assert(s.queue[k + 1] == 1);
        }
    }
    assert forall|x: usize| x == 1 || x == 2 || x == moved(last) implies idle(
        r_there.scheduler,
        x,
    ) by {
        if ids_of(out.sleeping).contains(x) {
            let k = choose|k: int| 0 <= k < ids_of(out.sleeping).len() && ids_of(out.sleeping)[k] == x;
            if k > 0 {
                assert(moved_ids(ids_of(s.sleeping))[k - 1] == x);
                assert(moved_ids(ids_of(s.sleeping)).contains(x));
            }
        }
    }
    assert forall|j: int|
        0 <= j < r_there.jobs.len() && (writes(#[trigger] r_there.jobs[j]) == inputs || writes(
            r_there.jobs[j],
        ) == inputs + 1) implies r_there.jobs[j] == handing_job(inputs) || idle(
        r_there.scheduler,
        (j + 1) as usize,
    ) by {
        if j >= 3 {
            assert(r_there.jobs[j] == outer_job(m.jobs[j - 2], inputs));
            assert(job_made(m.jobs[j - 2], m.nodes.len()));
            assert(writes(m.jobs[j - 2]) == inputs);
        }
    }
}

/// As long as the inner call waits for its value, the two executions give
/// the same value, if each of them gives one.
pub proof fn lemma_run_moved(
    m: MachineView,
    code: VertexBytecodeView,
    host: Host,
    inputs: nat,
    function: usize,
    last: usize,
    fuel: nat,
    fuel_there: nat,
)
    requires
        kept(m, inputs, last),
        waiting_for(m, inputs, last),
        m.scheduler.in_flight.len() == 0,
        run(m, code, host, inputs as usize, fuel) is Ok,
        run(outer_machine(m, inputs, function), code, host, inputs as usize, fuel_there) is Ok,
        roomy(outer_machine(m, inputs, function), code, host, inputs as usize, fuel_there),
    ensures
        run(outer_machine(m, inputs, function), code, host, inputs as usize, fuel_there) == run(
            m,
            code,
            host,
            inputs as usize,
            fuel,
        ),
    decreases fuel,
{
    let there = outer_machine(m, inputs, function);
    let root = inputs as usize;
    assert(root == inputs);
    assert(there.nodes[inputs as int].data is None);
    assert(there.scheduler.queue.len() == m.scheduler.queue.len());
    assert(there.scheduler.closed == m.scheduler.closed);
    assert(!m.scheduler.closed && m.scheduler.queue.len() > 0 && fuel > 0 && fuel_there > 0);
    assert(stepped(m, code, host) is Ok);
    assert(stepped(there, code, host) is Ok);
    let next = stepped(m, code, host)->Ok_0;
    let next_there = stepped(there, code, host)->Ok_0;
    assert(run(m, code, host, root, fuel) == run(next, code, host, root, (fuel - 1) as nat));
    assert(run(there, code, host, root, fuel_there) == run(
        next_there,
        code,
        host,
        root,
        (fuel_there - 1) as nat,
    ));
    assert(roomy(next_there, code, host, root, (fuel_there - 1) as nat));
    let id = m.scheduler.queue[0];
    assert(m.scheduler.queue.contains(id));
    if id == last {
        lemma_last_step(m, code, host, inputs, function, last);
        lemma_handed_run(
            next_there,
            code,
            host,
            inputs,
            next.nodes[inputs as int].data->Some_0,
            (fuel_there - 1) as nat,
        );
    } else {
        lemma_stepped_moved(m, code, host, inputs, function, last);
        lemma_waiting_step(m, code, host, inputs, last);
        lemma_run_moved(
            next,
            code,
            host,
            inputs,
            function,
            last,
            (fuel - 1) as nat,
            (fuel_there - 1) as nat,
        );
    }
}

/// The nodes of the values that an execution is started on.
pub open spec fn input_nodes(values: Seq<DataView>, k: nat) -> Seq<NodeState> {
    Seq::new(k, |i: int| NodeState { job: None, data: Some(values[i]) })
}

/// Wrapping values in constant nodes makes their nodes and nothing else.
pub proof fn lemma_with_inputs(values: Seq<DataView>, k: nat)
    requires
        k <= values.len(),
    ensures
        with_inputs(fresh(0), values, k) == (MachineView {
            scheduler: initial(0),
            nodes: input_nodes(values, k),
            jobs: Seq::empty(),
        }),
    decreases k,
{
    if k == 0 {
        assert(input_nodes(values, 0) =~= Seq::<NodeState>::empty());
    } else {
        lemma_with_inputs(values, (k - 1) as nat);
        assert(input_nodes(values, k) =~= input_nodes(values, (k - 1) as nat).push(
            NodeState { job: None, data: Some(values[k - 1]) },
        ));
    }
}

/// Nodes without jobs give no jobs to wait for.
pub proof fn lemma_no_dependencies(nodes: Seq<NodeState>, from: Seq<usize>, k: nat)
    requires
        k <= from.len(),
        forall|i: int|
            0 <= i < k && (#[trigger] from[i]) < nodes.len() ==> nodes[from[i] as int].job is None,
    ensures
        dependencies(nodes, from, k) == Seq::<usize>::empty(),
    decreases k,
{
    if k > 0 {
        lemma_no_dependencies(nodes, from, (k - 1) as nat);
    }
}

/// The inputs of an operation that takes the parameters in their order
/// come from the nodes of the parameters.
pub proof fn lemma_operands_of_params(params: Seq<usize>, made: Seq<usize>, k: nat)
    requires
        k <= params.len(),
        params.len() <= usize::MAX,
    ensures
        operands(params, made, parameters(params.len()), k) == Ok::<Seq<usize>, VmError>(
            params.subrange(0, k as int),
        ),
    decreases k,
{
    if k == 0 {
        assert(params.subrange(0, 0) =~= Seq::<usize>::empty());
    } else {
        lemma_operands_of_params(params, made, (k - 1) as nat);
        assert(parameters(params.len())[k - 1] == OperationInput::Param((k - 1) as usize));
        assert(params.subrange(0, k as int) =~= params.subrange(0, k - 1).push(params[k - 1]));
    }
}

/// The inputs of an operation that takes `count` parameters in their
/// order.
pub open spec fn parameters(count: nat) -> Seq<OperationInput> {
    Seq::new(count, |i: int| OperationInput::Param(i as usize))
}

/// The operations of a function that does nothing but call the function
/// `callee` on its `count` parameters.
pub open spec fn single_call(callee: usize, count: nat) -> Seq<OperationView> {
    seq![OperationView { function_call: FunctionCall::Internal(callee), inputs: parameters(count) }]
}

/// The state in which the execution of a function on `values` starts.
pub open spec fn start_of(values: Seq<DataView>, function: usize) -> MachineView {
    MachineView {
        scheduler: submitted(initial(0), Seq::empty()),
        nodes: input_nodes(values, values.len()).push(NodeState { job: Some(1), data: None }),
        jobs: seq![entry_job(values.len(), function)],
    }
}

/// An execution starts with the nodes of its values, the node of the call
/// and the job of the call, which is ready.
pub proof fn lemma_started(code: VertexBytecodeView, function: usize, values: Seq<DataView>)
    requires
        function < code.internal_functions.len(),
        values.len() < usize::MAX,
    ensures
        started(fresh(0), code, function, values) == Ok::<MachineView, VmError>(
            start_of(values, function),
        ),
        start_of(values, function).scheduler.queue == seq![1usize],
        start_of(values, function).scheduler.next_id == 2,
        start_of(values, function).scheduler.sleeping.len() == 0,
        start_of(values, function).scheduler.hibernating.len() == 0,
        start_of(values, function).scheduler.in_flight.len() == 0,
        start_of(values, function).scheduler.gap.len() == 0,
        start_of(values, function).scheduler.waiters.len() == 0,
        start_of(values, function).scheduler.watermark == 0,
        !start_of(values, function).scheduler.closed,
        wf(start_of(values, function).scheduler),
{
    let n = values.len();
    lemma_with_inputs(values, n);
    let wrapped = with_inputs(fresh(0), values, n);
    let from = indices_from(0, n);
    assert(from =~= Seq::new(n, |i: int| i as usize));
    lemma_no_dependencies(wrapped.nodes, from, n);
    assert(live(initial(0), Seq::<usize>::empty(), 0) =~= Seq::<usize>::empty());
    let r = with_call(wrapped, from, function, false)->Ok_0;
    assert(r.jobs =~= seq![entry_job(n, function)]);
    assert(submitted(initial(0), Seq::empty()).queue =~= seq![1usize]);
    lemma_initial_wf(0);
    lemma_submitted_wf(initial(0), Seq::empty());
}

/// The first job of the outer execution makes the node of the inner call
/// and the job that hands the result on: the outer execution then holds
/// the inner one as it starts.
pub proof fn lemma_entered(
    code: VertexBytecodeView,
    host: Host,
    function: usize,
    callee: usize,
    values: Seq<DataView>,
)
    requires
        function < code.internal_functions.len(),
        callee < code.internal_functions.len(),
        code.internal_functions[function as int] == single_call(callee, values.len()),
        values.len() + 2 <= usize::MAX,
    ensures
        stepped(start_of(values, function), code, host) == Ok::<MachineView, VmError>(
            outer_machine(start_of(values, callee), values.len(), function),
        ),
{
    let n = values.len();
    let m = start_of(values, function);
    let inner = start_of(values, callee);
    lemma_started(code, function, values);
    lemma_started(code, callee, values);
    let taken = MachineView { scheduler: dispatched(m.scheduler), ..m };
    assert(taken.scheduler.queue =~= Seq::<usize>::empty());
    assert(taken.scheduler.in_flight =~= seq![1usize]);
    let from = Seq::new(n, |i: int| i as usize);
    assert(m.jobs[0] == JobView::Internal { node: n as usize, inputs: from, function });
    let ops = single_call(callee, n);
    let op = ops[0];
    // The node of the inner call.
    lemma_operands_of_params(from, Seq::empty(), n);
    assert(from.subrange(0, n as int) =~= from);
    assert(op.inputs.len() == n);
    lemma_no_dependencies(taken.nodes, from, n);
    assert(live(taken.scheduler, Seq::<usize>::empty(), 0) =~= Seq::<usize>::empty());
    let call = JobView::Internal { node: (n + 1) as usize, inputs: from, function: callee };
    let called = with_call(taken, from, callee, false)->Ok_0;
    assert(with_operations(taken, code, from, ops, 0) == Ok::<(MachineView, Seq<usize>), VmError>(
        (taken, Seq::empty()),
    ));
    assert(with_operation(taken, code, from, Seq::empty(), op) == Ok::<MachineView, VmError>(
        called,
    ));
    let made = with_operations(taken, code, from, ops, 1);
    assert(made == Ok::<(MachineView, Seq<usize>), VmError>(
        (called, Seq::<usize>::empty().push((n + 1) as usize)),
    ));
    assert(called.scheduler.queue =~= seq![2usize]);
    // The job that hands the result on.
    let node = (n + 1) as usize;
    assert(Seq::<usize>::empty().push(node).last() == node);
    let waits = dependencies(called.nodes, seq![node], 1);
    assert(dependencies(called.nodes, seq![node], 0) =~= Seq::<usize>::empty());
    assert(called.nodes[node as int].job == Some(2usize));
    assert(waits =~= seq![2usize]);
    assert(live(called.scheduler, waits, 0) =~= Seq::<usize>::empty());
    assert(!called.scheduler.gap.contains(2));
    assert(live(called.scheduler, waits, 1) =~= seq![2usize]);
    let copying = with_job(called, waits, JobView::Copy { from: node, to: n as usize })->Ok_0;
    assert(copying.scheduler.sleeping =~= seq![handing_on()]);
    // The outer call hibernates.
    assert(live(copying.scheduler, seq![3usize], 0) =~= Seq::<usize>::empty());
    assert(!copying.scheduler.gap.contains(3));
    assert(live(copying.scheduler, seq![3usize], 1) =~= seq![3usize]);
    lemma_remove_only(1);
    assert(copying.scheduler.in_flight =~= seq![1usize]);
    let r = MachineView { scheduler: hibernated(copying.scheduler, 1, seq![3usize]).0, ..copying };
    assert(r.scheduler.hibernating =~= seq![outer_call()]);
    assert(expanded(taken, code, 1, n as usize, from, function) == Ok::<MachineView, VmError>(r));
    assert(stepped(m, code, host) == Ok::<MachineView, VmError>(r));
    let there = outer_machine(inner, n, function);
    assert(there.scheduler.queue =~= seq![2usize]);
    assert(there.scheduler.sleeping =~= seq![handing_on()]);
    assert(there.scheduler.hibernating =~= seq![outer_call()]);
    assert(there.scheduler.gap =~= r.scheduler.gap);
    assert(there.scheduler.in_flight =~= r.scheduler.in_flight);
    assert(there.scheduler.waiters =~= r.scheduler.waiters);
    assert(there.scheduler == r.scheduler);
    assert(raised_all(from, n) =~= from);
    assert(there.jobs =~= r.jobs);
    assert(there.nodes =~= r.nodes);
}

/// The first job of the outer execution makes two nodes.
pub proof fn lemma_entered_count(
    code: VertexBytecodeView,
    host: Host,
    function: usize,
    callee: usize,
    values: Seq<DataView>,
)
    requires
        function < code.internal_functions.len(),
        code.internal_functions[function as int] == single_call(callee, values.len()),
        values.len() < usize::MAX,
        stepped(start_of(values, function), code, host) is Ok,
    ensures
        stepped(start_of(values, function), code, host)->Ok_0.nodes.len() == values.len() + 2,
{
    let n = values.len();
    let m = start_of(values, function);
    lemma_started(code, function, values);
    let taken = MachineView { scheduler: dispatched(m.scheduler), ..m };
    let from = Seq::new(n, |i: int| i as usize);
    assert(m.jobs[0] == JobView::Internal { node: n as usize, inputs: from, function });
    let ops = single_call(callee, n);
    assert(with_operations(taken, code, from, ops, 0) == Ok::<(MachineView, Seq<usize>), VmError>(
        (taken, Seq::empty()),
    ));
    lemma_one_node(taken, code, from, Seq::empty(), ops[0]);
}

/// Whether the execution of a function on given values never holds more
/// nodes than can be counted, as long as at most `fuel` jobs are run.
pub open spec fn countable(
    code: VertexBytecodeView,
    host: Host,
    function: usize,
    values: Seq<DataView>,
    fuel: nat,
) -> bool {
    roomy(start_of(values, function), code, host, values.len() as usize, fuel)
}

/// A function that does nothing but call another function on its own
/// parameters, in their order, gives the value that the other function
/// gives on the same values, wherever both give a value and the nodes of
/// the execution can be counted.
pub proof fn lemma_single_call(
    code: VertexBytecodeView,
    host: Host,
    function: usize,
    callee: usize,
    values: Seq<DataView>,
    fuel: nat,
    fuel_inner: nat,
)
    requires
        function < code.internal_functions.len(),
        callee < code.internal_functions.len(),
        code.internal_functions[function as int] == single_call(callee, values.len()),
        executed(code, host, function, values, fuel) is Ok,
        executed(code, host, callee, values, fuel_inner) is Ok,
        countable(code, host, function, values, fuel),
    ensures
        executed(code, host, function, values, fuel) == executed(
            code,
            host,
            callee,
            values,
            fuel_inner,
        ),
{
    let n = values.len();
    let root = n as usize;
    let outer_start = start_of(values, function);
    let inner_start = start_of(values, callee);
    assert(outer_start.nodes.len() == n + 1);
    assert(n < usize::MAX);
    assert(root == n);
    lemma_started(code, function, values);
    lemma_started(code, callee, values);
    assert(executed(code, host, function, values, fuel) == run(
        outer_start,
        code,
        host,
        root,
        fuel,
    ));
    assert(executed(code, host, callee, values, fuel_inner) == run(
        inner_start,
        code,
        host,
        root,
        fuel_inner,
    ));
    // The first job of the outer execution.
    assert(outer_start.nodes[n as int].data is None);
    assert(fuel > 0);
    assert(stepped(outer_start, code, host) is Ok);
    let entered = stepped(outer_start, code, host)->Ok_0;
    assert(run(outer_start, code, host, root, fuel) == run(
        entered,
        code,
        host,
        root,
        (fuel - 1) as nat,
    ));
    assert(roomy(entered, code, host, root, (fuel - 1) as nat));
    lemma_entered_count(code, host, function, callee, values);
    lemma_entered(code, host, function, callee, values);
    assert(entered == outer_machine(inner_start, n, function));
    // The first job of the inner execution, in both.
    assert(inner_start.nodes[n as int].data is None);
    assert(fuel_inner > 0);
    assert(stepped(inner_start, code, host) is Ok);
    let inner = stepped(inner_start, code, host)->Ok_0;
    assert(run(inner_start, code, host, root, fuel_inner) == run(
        inner,
        code,
        host,
        root,
        (fuel_inner - 1) as nat,
    ));
    assert(entered.nodes[n as int].data is None);
    assert(entered.scheduler.queue =~= seq![2usize]);
    assert(fuel - 1 > 0);
    assert(stepped(entered, code, host) is Ok);
    let there = stepped(entered, code, host)->Ok_0;
    assert(run(entered, code, host, root, (fuel - 1) as nat) == run(
        there,
        code,
        host,
        root,
        (fuel - 2) as nat,
    ));
    assert(roomy(there, code, host, root, (fuel - 2) as nat));
    assert(entered.jobs.len() == 3);
    assert(entered.scheduler.in_flight =~= Seq::<usize>::empty());
    lemma_stepped_advanced(entered, code, host);
    assert(entered.jobs[1] is Internal);
    let last = (there.scheduler.next_id - 3) as usize;
    assert(inner_start.jobs[0] == entry_job(n, callee));
    assert(kept(inner_start, n, last)) by {
        assert(ids_of(inner_start.scheduler.hibernating) =~= Seq::<usize>::empty());
        assert(inner_start.scheduler.queue[0] == 1);
    }
    lemma_stepped_moved(inner_start, code, host, n, function, last);
    lemma_stepped_advanced(inner_start, code, host);
    assert(waiting_for(inner, n, last)) by {
        assert(inner.jobs[0] == inner_start.jobs[0]);
        assert(inner.nodes[n as int] == inner_start.nodes[n as int]);
        assert(inner.jobs[last - 1] == inner.jobs.last());
        assert(inner_start.scheduler.queue.drop_first() =~= Seq::<usize>::empty());
        assert(ids_of(inner_start.scheduler.sleeping) =~= Seq::<usize>::empty());
    }
    lemma_run_moved(
        inner,
        code,
        host,
        n,
        function,
        last,
        (fuel_inner - 1) as nat,
        (fuel - 2) as nat,
    );
}

} // verus!
