//! The virtual machine as a mathematical state machine.
//!
//! An execution holds a scheduler, the virtual nodes made so far, and for
//! each job what the job does. A constant node carries a value and no job.
//! The node of a call of a host function carries a job that waits for the
//! jobs of its inputs, calls the host and stores what comes back. The node
//! of a call of a function of the program carries a job that waits for the
//! jobs of its inputs and then expands the function: it makes a node for
//! each operation, and a last job that copies the value of the last
//! operation's node into its own node, and hibernates until that job has
//! ended.

use crate::data::value::DataView;
use crate::registry::function::VertexFunction;
use crate::runtime::bytecode::{FunctionCall, OperationInput, OperationView, VertexBytecodeView};
use crate::runtime::multithreading::model::{
    dispatched, finished, hibernated, initial, submitted, SchedulerView,
};
use vstd::prelude::*;

verus! {

/// Why an execution stopped without a result.
#[derive(Debug, Clone, Copy, PartialEq, Eq)]
pub enum VmError {
    /// A call of a function that the program does not have.
    UnknownFunction(usize),
    /// A call of a host function that the program's table does not hold.
    UnknownExternal(usize),
    /// A use of a constant that the program's pool does not hold.
    UnknownConstant(usize),
    /// An input from a parameter that the caller did not pass.
    UnknownParam(usize),
    /// An input from an operation that has not been evaluated.
    UnknownOperation(usize),
    /// A function without operations has no result.
    EmptyFunction(usize),
    /// An input of a job whose value is not there.
    MissingValue(usize),
    /// The ids of jobs are used up.
    OutOfJobs,
    /// No job is ready, and the result is not there.
    Stalled,
    /// The execution took more steps than it was allowed.
    StepLimit,
}

/// A virtual node as a mathematical value.
pub struct NodeState {
    /// The id of the job that computes the node's value, if there is one.
    pub job: Option<usize>,
    /// The value of the node, once it is there.
    pub data: Option<DataView>,
}

/// What a job does.
pub enum JobView {
    /// Calls the host function at an index of the program's table on the
    /// values of the input nodes, and stores what comes back in a node.
    External { node: usize, inputs: Seq<usize>, function: usize },
    /// Expands the function at an index of the program on the input nodes;
    /// the function's value goes to a node.
    Internal { node: usize, inputs: Seq<usize>, function: usize },
    /// Copies the value of one node into another.
    Copy { from: usize, to: usize },
}

/// The state of an execution.
pub struct MachineView {
    /// The scheduler of the jobs.
    pub scheduler: SchedulerView,
    /// The virtual nodes made so far.
    pub nodes: Seq<NodeState>,
    /// What each job does: the job with id `k` is at index `k - 1`.
    pub jobs: Seq<JobView>,
}

/// The state of a fresh execution.
pub open spec fn fresh(uid: u32) -> MachineView {
    MachineView { scheduler: initial(uid), nodes: Seq::empty(), jobs: Seq::empty() }
}

/// The ids of the jobs of the first `n` nodes of a list, in order; nodes
/// without a job, and what is no node, are passed over.
pub open spec fn dependencies(nodes: Seq<NodeState>, inputs: Seq<usize>, n: nat) -> Seq<usize>
    decreases n,
{
    if n == 0 || n > inputs.len() {
        Seq::empty()
    } else {
        let before = dependencies(nodes, inputs, (n - 1) as nat);
        let input = inputs[n - 1];
        if input < nodes.len() && nodes[input as int].job is Some {
            before.push(nodes[input as int].job->Some_0)
        } else {
            before
        }
    }
}

/// The state after a constant node has been made; the node is the last.
pub open spec fn with_constant(m: MachineView, value: DataView) -> MachineView {
    MachineView { nodes: m.nodes.push(NodeState { job: None, data: Some(value) }), ..m }
}

/// The state after a job has been submitted that waits for the given jobs
/// and then does the given thing.
pub open spec fn with_job(m: MachineView, waits_for: Seq<usize>, job: JobView) -> Result<
    MachineView,
    VmError,
> {
    if m.scheduler.next_id >= usize::MAX {
        Err(VmError::OutOfJobs)
    } else {
        Ok(
            MachineView {
                scheduler: submitted(m.scheduler, waits_for),
                jobs: m.jobs.push(job),
                ..m
            },
        )
    }
}

/// The state after the node of a call has been made, whose job waits for
/// the jobs of the input nodes; the node is the last. `external` says
/// whether a host function is called.
pub open spec fn with_call(m: MachineView, inputs: Seq<usize>, function: usize, external: bool) -> Result<
    MachineView,
    VmError,
> {
    let node = m.nodes.len() as usize;
    let job = if external {
        JobView::External { node, inputs, function }
    } else {
        JobView::Internal { node, inputs, function }
    };
    match with_job(m, dependencies(m.nodes, inputs, inputs.len()), job) {
        Ok(r) => Ok(
            MachineView {
                nodes: r.nodes.push(NodeState { job: Some(m.scheduler.next_id), data: None }),
                ..r
            },
        ),
        Err(e) => Err(e),
    }
}

/// The node that an input of an operation comes from, given the nodes of
/// the parameters and the nodes of the operations evaluated so far.
pub open spec fn operand(params: Seq<usize>, made: Seq<usize>, input: OperationInput) -> Result<
    usize,
    VmError,
> {
    match input {
        OperationInput::Param(i) => if i < params.len() {
            Ok(params[i as int])
        } else {
            Err(VmError::UnknownParam(i))
        },
        OperationInput::Hidden(i) => if i < made.len() {
            Ok(made[i as int])
        } else {
            Err(VmError::UnknownOperation(i))
        },
    }
}

/// The nodes that the first `n` inputs of an operation come from.
pub open spec fn operands(
    params: Seq<usize>,
    made: Seq<usize>,
    inputs: Seq<OperationInput>,
    n: nat,
) -> Result<Seq<usize>, VmError>
    decreases n,
{
    if n == 0 || n > inputs.len() {
        Ok(Seq::empty())
    } else {
        match operands(params, made, inputs, (n - 1) as nat) {
            Ok(before) => match operand(params, made, inputs[n - 1]) {
                Ok(node) => Ok(before.push(node)),
                Err(e) => Err(e),
            },
            Err(e) => Err(e),
        }
    }
}

/// The state after the node of an operation has been made; the node is the
/// last.
pub open spec fn with_operation(
    m: MachineView,
    code: VertexBytecodeView,
    params: Seq<usize>,
    made: Seq<usize>,
    op: OperationView,
) -> Result<MachineView, VmError> {
    match operands(params, made, op.inputs, op.inputs.len()) {
        Ok(inputs) => match op.function_call {
            FunctionCall::Internal(i) => if i < code.internal_functions.len() {
                with_call(m, inputs, i, false)
            } else {
                Err(VmError::UnknownFunction(i))
            },
            FunctionCall::External(i) => if i < code.external_functions.len() {
                with_call(m, inputs, i, true)
            } else {
                Err(VmError::UnknownExternal(i))
            },
            FunctionCall::Constant(i) => if i < code.constants.len() {
                Ok(with_constant(m, code.constants[i as int]))
            } else {
                Err(VmError::UnknownConstant(i))
            },
        },
        Err(e) => Err(e),
    }
}

/// The state after the nodes of the first `n` operations of a function
/// have been made, and these nodes.
pub open spec fn with_operations(
    m: MachineView,
    code: VertexBytecodeView,
    params: Seq<usize>,
    ops: Seq<OperationView>,
    n: nat,
) -> Result<(MachineView, Seq<usize>), VmError>
    decreases n,
{
    if n == 0 || n > ops.len() {
        Ok((m, Seq::empty()))
    } else {
        match with_operations(m, code, params, ops, (n - 1) as nat) {
            Ok(before) => match with_operation(before.0, code, params, before.1, ops[n - 1]) {
                Ok(r) => Ok((r, before.1.push((r.nodes.len() - 1) as usize))),
                Err(e) => Err(e),
            },
            Err(e) => Err(e),
        }
    }
}

/// The state after the job `id` in flight has expanded a function: the
/// nodes of the operations have been made, the job that copies the value of
/// the last of them into `node` has been submitted, and the job `id`
/// hibernates until that job has ended.
pub open spec fn expanded(
    m: MachineView,
    code: VertexBytecodeView,
    id: usize,
    node: usize,
    params: Seq<usize>,
    function: usize,
) -> Result<MachineView, VmError> {
    if function >= code.internal_functions.len() {
        Err(VmError::UnknownFunction(function))
    } else {
        let ops = code.internal_functions[function as int];
        match with_operations(m, code, params, ops, ops.len()) {
            Ok(made) => if made.1.len() == 0 {
                Err(VmError::EmptyFunction(function))
            } else {
                let last = made.1.last();
                let copy = made.0.scheduler.next_id;
                match with_job(
                    made.0,
                    dependencies(made.0.nodes, seq![last], 1),
                    JobView::Copy { from: last, to: node },
                ) {
                    Ok(r) => Ok(
                        MachineView { scheduler: hibernated(r.scheduler, id, seq![copy]).0, ..r },
                    ),
                    Err(e) => Err(e),
                }
            },
            Err(e) => Err(e),
        }
    }
}

/// The values of the first `n` nodes of a list, if all are there.
pub open spec fn values(nodes: Seq<NodeState>, inputs: Seq<usize>, n: nat) -> Result<
    Seq<DataView>,
    VmError,
>
    decreases n,
{
    if n == 0 || n > inputs.len() {
        Ok(Seq::empty())
    } else {
        match values(nodes, inputs, (n - 1) as nat) {
            Ok(before) => {
                let input = inputs[n - 1];
                if input < nodes.len() && nodes[input as int].data is Some {
                    Ok(before.push(nodes[input as int].data->Some_0))
                } else {
                    Err(VmError::MissingValue(input))
                }
            },
            Err(e) => Err(e),
        }
    }
}

/// The state after a value has been stored in a node and the job `id` in
/// flight has ended.
pub open spec fn stored(m: MachineView, id: usize, node: usize, value: DataView) -> Result<
    MachineView,
    VmError,
> {
    if node >= m.nodes.len() {
        Err(VmError::MissingValue(node))
    } else {
        Ok(
            MachineView {
                scheduler: finished(m.scheduler, id).0,
                nodes: m.nodes.update(
                    node as int,
                    NodeState { data: Some(value), ..m.nodes[node as int] },
                ),
                ..m
            },
        )
    }
}

/// The state after the job `id` in flight has copied the value of one node
/// into another and has ended.
pub open spec fn copied(m: MachineView, id: usize, from: usize, to: usize) -> Result<
    MachineView,
    VmError,
> {
    if from >= m.nodes.len() || m.nodes[from as int].data is None {
        Err(VmError::MissingValue(from))
    } else {
        stored(m, id, to, m.nodes[from as int].data->Some_0)
    }
}

/// What a host function returns for given values; the host functions are
/// taken to be pure.
pub type Host = spec_fn(VertexFunction, Seq<DataView>) -> DataView;

/// The state after the job that has been ready longest has been taken from
/// the queue and run.
pub open spec fn stepped(m: MachineView, code: VertexBytecodeView, host: Host) -> Result<
    MachineView,
    VmError,
> {
    let id = m.scheduler.queue[0];
    let taken = MachineView { scheduler: dispatched(m.scheduler), ..m };
    if id < 1 || id > m.jobs.len() {
        Err(VmError::Stalled)
    } else {
        match m.jobs[id - 1] {
            JobView::External { node, inputs, function } => {
                if function >= code.external_functions.len() {
                    Err(VmError::UnknownExternal(function))
                } else {
                    match values(taken.nodes, inputs, inputs.len()) {
                        Ok(v) => stored(
                            taken,
                            id,
                            node,
                            host(code.external_functions[function as int].function, v),
                        ),
                        Err(e) => Err(e),
                    }
                }
            },
            JobView::Internal { node, inputs, function } => expanded(
                taken,
                code,
                id,
                node,
                inputs,
                function,
            ),
            JobView::Copy { from, to } => copied(taken, id, from, to),
        }
    }
}

/// The value of the node `root` after jobs have been run, one after the
/// other as a single worker does, until the value is there; at most `fuel`
/// jobs are run.
pub open spec fn run(
    m: MachineView,
    code: VertexBytecodeView,
    host: Host,
    root: usize,
    fuel: nat,
) -> Result<DataView, VmError>
    decreases fuel,
{
    if root < m.nodes.len() && m.nodes[root as int].data is Some {
        Ok(m.nodes[root as int].data->Some_0)
    } else if m.scheduler.closed || m.scheduler.queue.len() == 0 {
        Err(VmError::Stalled)
    } else if fuel == 0 {
        Err(VmError::StepLimit)
    } else {
        match stepped(m, code, host) {
            Ok(next) => run(next, code, host, root, (fuel - 1) as nat),
            Err(e) => Err(e),
        }
    }
}

/// The state after the first `n` values of a list have been wrapped in
/// constant nodes.
pub open spec fn with_inputs(m: MachineView, inputs: Seq<DataView>, n: nat) -> MachineView
    decreases n,
{
    if n == 0 || n > inputs.len() {
        m
    } else {
        with_constant(with_inputs(m, inputs, (n - 1) as nat), inputs[n - 1])
    }
}

/// The indices `from`, `from + 1`, and so on, `n` of them.
pub open spec fn indices_from(from: usize, n: nat) -> Seq<usize> {
    Seq::new(n, |i: int| (from + i) as usize)
}

/// The state in which an execution of a function on given values starts:
/// the values are wrapped in constant nodes, and the node of a call of the
/// function on them has been made; that node is the last.
pub open spec fn started(
    m: MachineView,
    code: VertexBytecodeView,
    function: usize,
    inputs: Seq<DataView>,
) -> Result<MachineView, VmError> {
    if function >= code.internal_functions.len() {
        Err(VmError::UnknownFunction(function))
    } else {
        with_call(
            with_inputs(m, inputs, inputs.len()),
            indices_from(m.nodes.len() as usize, inputs.len()),
            function,
            false,
        )
    }
}

/// What the execution of a function on given values gives, where a single
/// worker runs the jobs, the host functions are pure, and at most `fuel`
/// jobs are run.
pub open spec fn executed(
    code: VertexBytecodeView,
    host: Host,
    function: usize,
    inputs: Seq<DataView>,
    fuel: nat,
) -> Result<DataView, VmError> {
    match started(fresh(0), code, function, inputs) {
        Ok(m) => run(m, code, host, (m.nodes.len() - 1) as usize, fuel),
        Err(e) => Err(e),
    }
}

} // verus!
