//! The virtual machine.
//!
//! An execution makes virtual nodes and jobs and lets a scheduler order
//! the jobs. It does not call a host function itself where it is driven
//! step by step: it says which function is to be called on which values,
//! and is told what came back. `VirtualMachine::execute` drives an
//! execution as a single worker does, and calls the host functions itself.

use crate::data::value::{Data, DataView};
use crate::registry::function::VertexFunction;
use crate::runtime::bytecode::{
    FunctionCall, Operation, OperationInput, OperationView, VertexBytecode, VertexBytecodeView,
};
use crate::runtime::machine::{
    copied, dependencies, executed, expanded, fresh, indices_from, operand, operands, run,
    started, stepped, stored, values, with_call, with_constant, with_inputs, with_job,
    with_operation, with_operations, Host, JobView, MachineView, NodeState, VmError,
};
use crate::runtime::multithreading::jobs::{all_from, handle_ids, JobHandle, JobScheduler};
use crate::runtime::multithreading::model::{dispatched, finished, hibernated, submitted};
use crate::shared::share_arc;
use std::sync::Arc;
use vstd::prelude::*;

verus! {

/// The views of a list of shared values.
pub open spec fn shared_values(values: Seq<Arc<Data>>) -> Seq<DataView> {
    Seq::new(values.len(), |i: int| (*values[i])@)
}

/// The views of a list of values.
pub open spec fn plain_values(values: Seq<Data>) -> Seq<DataView> {
    Seq::new(values.len(), |i: int| values[i]@)
}

/// What a host returns for the host function of a handle and given
/// values: the view of what some call of it on values of these views
/// returns.
pub open spec fn host_of<F: Fn(VertexFunction, &Vec<Arc<Data>>) -> Data>(host: &F) -> Host {
    |function: VertexFunction, inputs: Seq<DataView>|
        {
            let witness = choose|w: (Vec<Arc<Data>>, Data)|
                shared_values(w.0@) == inputs && #[trigger] call_ensures(
                    *host,
                    (function, &w.0),
                    w.1,
                );
            witness.1@
        }
}

/// Whether a host can be called on every function and all values, and is
/// pure: what a call returns depends on the function and on the values
/// only.
pub open spec fn pure_host<F: Fn(VertexFunction, &Vec<Arc<Data>>) -> Data>(host: &F) -> bool {
    &&& forall|function: VertexFunction, args: &Vec<Arc<Data>>|
        #[trigger] call_requires(*host, (function, args))
    &&& forall|function: VertexFunction, args: &Vec<Arc<Data>>, out: Data|
        #[trigger] call_ensures(*host, (function, args), out) ==> out@ == host_of(host)(
            function,
            shared_values(args@),
        )
}

/// A virtual node: one operation of one invocation of a function, with the
/// job that computes its value, if it has one, and its value, once that is
/// there.
pub struct VirtualNode {
    handle: Option<JobHandle>,
    data: Option<Arc<Data>>,
}

impl View for VirtualNode {
    type V = NodeState;

    closed spec fn view(&self) -> NodeState {
        NodeState {
            job: match self.handle {
                Some(h) => Some(h.id()),
                None => None,
            },
            data: match self.data {
                Some(d) => Some((*d)@),
                None => None,
            },
        }
    }
}

impl VirtualNode {
    /// A node that carries a value and no job.
    pub fn constant(data: Arc<Data>) -> (n: Self)
        ensures
            n@ == (NodeState { job: None, data: Some((*data)@) }),
    {
        VirtualNode { handle: None, data: Some(data) }
    }

    /// The handle of the job that computes this node's value.
    pub closed spec fn job_handle(&self) -> Option<JobHandle> {
        self.handle
    }

    /// The handle of the job that computes this node's value.
    pub fn handle(&self) -> (h: &Option<JobHandle>)
        ensures
            *h == self.job_handle(),
            match *h {
                Some(j) => self@.job == Some(j.id()),
                None => self@.job is None,
            },
    {
        &self.handle
    }

    /// The value of this node, once it is there.
    pub fn data(&self) -> (d: Option<Arc<Data>>)
        ensures
            match d {
                Some(v) => self@.data == Some((*v)@),
                None => self@.data is None,
            },
    {
        match &self.data {
            Some(d) => Some(share_arc(d)),
            None => None,
        }
    }
}

/// What a job does.
enum Job {
    External { node: usize, inputs: Vec<usize>, function: usize },
    Internal { node: usize, inputs: Vec<usize>, function: usize },
    Copy { from: usize, to: usize },
}

impl View for Job {
    type V = JobView;

    closed spec fn view(&self) -> JobView {
        match self {
            Job::External { node, inputs, function } => JobView::External {
                node: *node,
                inputs: inputs@,
                function: *function,
            },
            Job::Internal { node, inputs, function } => JobView::Internal {
                node: *node,
                inputs: inputs@,
                function: *function,
            },
            Job::Copy { from, to } => JobView::Copy { from: *from, to: *to },
        }
    }
}

/// What is to be done next in an execution that is driven step by step.
pub enum Tick {
    /// No job is ready.
    Idle,
    /// The host function of the given handle is to be called on the given
    /// values for the given job; `Execution::complete_call` takes what
    /// comes back.
    Call { job: JobHandle, function: VertexFunction, inputs: Vec<Arc<Data>> },
    /// A job was run; waiters for the end of the given jobs are to be
    /// notified.
    Ran { notified: Vec<JobHandle> },
}

/// One execution: a scheduler, the virtual nodes made so far, and what
/// each job does.
pub struct Execution {
    scheduler: JobScheduler,
    nodes: Vec<VirtualNode>,
    jobs: Vec<Job>,
}

impl View for Execution {
    type V = MachineView;

    closed spec fn view(&self) -> MachineView {
        MachineView {
            scheduler: self.scheduler@,
            nodes: Seq::new(self.nodes@.len(), |i: int| self.nodes@[i]@),
            jobs: Seq::new(self.jobs@.len(), |i: int| self.jobs@[i]@),
        }
    }
}

impl Execution {
    /// The invariant of an execution: that of its scheduler; every handle
    /// of a node is the scheduler's own; and there is a job for every id
    /// that the scheduler has given out.
    pub closed spec fn inv(&self) -> bool {
        &&& self.scheduler.inv()
        &&& self.jobs@.len() + 1 == self.scheduler@.next_id
        &&& forall|i: int|
            0 <= i < self.nodes@.len() ==> ((#[trigger] self.nodes@[i]).job_handle() matches Some(
                h,
            ) ==> h.uid() == self.scheduler@.uid)
    }

    /// A fresh execution, whose scheduler has the given number.
    pub fn new(uid: u32) -> (e: Self)
        ensures
            e.inv(),
            e@ == fresh(uid),
    {
        let e = Execution { scheduler: JobScheduler::new(uid), nodes: Vec::new(), jobs: Vec::new() };
        assert(e@.nodes =~= Seq::<NodeState>::empty());
        assert(e@.jobs =~= Seq::<JobView>::empty());
        e
    }

    /// The number of nodes made so far.
    pub fn node_count(&self) -> (n: usize)
        ensures
            n == self@.nodes.len(),
    {
        self.nodes.len()
    }

    /// The value of a node, once it is there.
    pub fn value(&self, node: usize) -> (d: Option<Arc<Data>>)
        ensures
            match d {
                Some(v) => node < self@.nodes.len() && self@.nodes[node as int].data == Some(
                    (*v)@,
                ),
                None => node >= self@.nodes.len() || self@.nodes[node as int].data is None,
            },
    {
        if node < self.nodes.len() {
            self.nodes[node].data()
        } else {
            None
        }
    }

    /// Whether a job can be taken from the queue.
    pub fn has_ready(&self) -> (r: bool)
        ensures
            r == (!self@.scheduler.closed && self@.scheduler.queue.len() > 0),
    {
        self.scheduler.is_ready()
    }

    /// Makes a node that carries a value and no job; gives its index.
    pub fn constant(&mut self, data: Arc<Data>) -> (node: usize)
        requires
            old(self).inv(),
        ensures
            final(self).inv(),
            final(self)@ == with_constant(old(self)@, (*data)@),
            node == old(self)@.nodes.len(),
    {
        let node = self.nodes.len();
        self.nodes.push(VirtualNode::constant(data));
        assert(self@.nodes =~= old(self)@.nodes.push(NodeState { job: None, data: Some((*data)@) }));
        assert(self@.jobs =~= old(self)@.jobs);
        node
    }

    /// The handles of the jobs of the given nodes, in order.
    fn handles_of(&self, inputs: &Vec<usize>) -> (deps: Vec<JobHandle>)
        requires
            self.inv(),
        ensures
            handle_ids(deps@) == dependencies(self@.nodes, inputs@, inputs@.len()),
            all_from(deps@, self@.scheduler.uid),
    {
        let mut deps: Vec<JobHandle> = Vec::new();
        assert(handle_ids(deps@) =~= Seq::<usize>::empty());
        let mut i: usize = 0;
        while i < inputs.len()
            invariant
                i <= inputs@.len(),
                self.inv(),
                handle_ids(deps@) == dependencies(self@.nodes, inputs@, i as nat),
                all_from(deps@, self@.scheduler.uid),
            decreases inputs@.len() - i,
        {
            let input = inputs[i];
            if input < self.nodes.len() {
                assert(self@.nodes[input as int] == self.nodes@[input as int]@);
                match self.nodes[input].handle() {
                    Some(h) => {
                        let ghost before = handle_ids(deps@);
                        deps.push(*h);
                        assert(handle_ids(deps@) =~= before.push(h.id()));
                    },
                    None => {},
                }
            }
            i += 1;
        }
        deps
    }

    /// Submits a job that waits for the given jobs and does the given
    /// thing.
    fn submit(&mut self, deps: Vec<JobHandle>, job: Job) -> (r: Result<JobHandle, VmError>)
        requires
            old(self).inv(),
            all_from(deps@, old(self)@.scheduler.uid),
        ensures
            match r {
                Ok(h) => {
                    &&& final(self).inv()
                    &&& with_job(old(self)@, handle_ids(deps@), job@) == Ok::<
                        MachineView,
                        VmError,
                    >(final(self)@)
                    &&& h.id() == old(self)@.scheduler.next_id
                    &&& h.uid() == old(self)@.scheduler.uid
                },
                Err(e) => with_job(old(self)@, handle_ids(deps@), job@) == Err::<
                    MachineView,
                    VmError,
                >(e),
            },
    {
        if !self.scheduler.has_capacity() {
            return Err(VmError::OutOfJobs);
        }
        let h = self.scheduler.new_job(deps);
        self.jobs.push(job);
        assert(self@.jobs =~= old(self)@.jobs.push(job@));
        assert(self@.nodes =~= old(self)@.nodes);
        Ok(h)
    }

    /// Makes the node of a call, whose job waits for the jobs of the input
    /// nodes; gives its index.
    fn call(&mut self, inputs: Vec<usize>, function: usize, external: bool) -> (r: Result<
        usize,
        VmError,
    >)
        requires
            old(self).inv(),
        ensures
            match r {
                Ok(node) => {
                    &&& final(self).inv()
                    &&& with_call(old(self)@, inputs@, function, external) == Ok::<
                        MachineView,
                        VmError,
                    >(final(self)@)
                    &&& node == old(self)@.nodes.len()
                },
                Err(e) => with_call(old(self)@, inputs@, function, external) == Err::<
                    MachineView,
                    VmError,
                >(e),
            },
    {
        let node = self.nodes.len();
        let deps = self.handles_of(&inputs);
        let job = if external {
            Job::External { node, inputs, function }
        } else {
            Job::Internal { node, inputs, function }
        };
        let h = match self.submit(deps, job) {
            Ok(h) => h,
            Err(e) => {
                return Err(e);
            },
        };
        let ghost before = self@.nodes;
        self.nodes.push(VirtualNode { handle: Some(h), data: None });
        assert(self@.nodes =~= before.push(NodeState { job: Some(h.id()), data: None }));
        assert(self@.jobs =~= Seq::new(self.jobs@.len(), |i: int| self.jobs@[i]@));
        Ok(node)
    }

    /// Makes the node of a call of a host function on the given nodes;
    /// gives its index. The job of the node waits for the jobs of the
    /// given nodes, then has the host function called on their values and
    /// stores what comes back in the node.
    pub fn external(&mut self, inputs: Vec<usize>, function: usize) -> (r: Result<usize, VmError>)
        requires
            old(self).inv(),
        ensures
            match r {
                Ok(node) => {
                    &&& final(self).inv()
                    &&& with_call(old(self)@, inputs@, function, true) == Ok::<
                        MachineView,
                        VmError,
                    >(final(self)@)
                    &&& node == old(self)@.nodes.len()
                },
                Err(e) => with_call(old(self)@, inputs@, function, true) == Err::<
                    MachineView,
                    VmError,
                >(e),
            },
    {
        self.call(inputs, function, true)
    }

    /// Makes the node of a call of a function of the program on the given
    /// nodes; gives its index. The job of the node waits for the jobs of
    /// the given nodes and then expands the function.
    pub fn internal(&mut self, inputs: Vec<usize>, function: usize) -> (r: Result<usize, VmError>)
        requires
            old(self).inv(),
        ensures
            match r {
                Ok(node) => {
                    &&& final(self).inv()
                    &&& with_call(old(self)@, inputs@, function, false) == Ok::<
                        MachineView,
                        VmError,
                    >(final(self)@)
                    &&& node == old(self)@.nodes.len()
                },
                Err(e) => with_call(old(self)@, inputs@, function, false) == Err::<
                    MachineView,
                    VmError,
                >(e),
            },
    {
        self.call(inputs, function, false)
    }

    /// The nodes that the inputs of an operation come from.
    fn operands_of(params: &Vec<usize>, made: &Vec<usize>, inputs: &Vec<OperationInput>) -> (r:
        Result<Vec<usize>, VmError>)
        ensures
            match r {
                Ok(nodes) => operands(params@, made@, inputs@, inputs@.len()) == Ok::<
                    Seq<usize>,
                    VmError,
                >(nodes@),
                Err(e) => operands(params@, made@, inputs@, inputs@.len()) == Err::<
                    Seq<usize>,
                    VmError,
                >(e),
            },
    {
        let mut nodes: Vec<usize> = Vec::new();
        let mut i: usize = 0;
        while i < inputs.len()
            invariant
                i <= inputs@.len(),
                operands(params@, made@, inputs@, i as nat) == Ok::<Seq<usize>, VmError>(nodes@),
            decreases inputs@.len() - i,
        {
            let node = match inputs[i] {
                OperationInput::Param(p) => {
                    if p < params.len() {
                        params[p]
                    } else {
                        proof {
                            lemma_operands_fails(
                                params@,
                                made@,
                                inputs@,
                                (i + 1) as nat,
                                inputs@.len(),
                            );
                        }
                        return Err(VmError::UnknownParam(p));
                    }
                },
                OperationInput::Hidden(h) => {
                    if h < made.len() {
                        made[h]
                    } else {
                        proof {
                            lemma_operands_fails(
                                params@,
                                made@,
                                inputs@,
                                (i + 1) as nat,
                                inputs@.len(),
                            );
                        }
                        return Err(VmError::UnknownOperation(h));
                    }
                },
            };
            nodes.push(node);
            i += 1;
        }
        Ok(nodes)
    }

    /// Makes the node of an operation; gives its index.
    fn operation(
        &mut self,
        code: &VertexBytecode,
        params: &Vec<usize>,
        made: &Vec<usize>,
        op: &Operation,
    ) -> (r: Result<usize, VmError>)
        requires
            old(self).inv(),
        ensures
            match r {
                Ok(node) => {
                    &&& final(self).inv()
                    &&& with_operation(old(self)@, code@, params@, made@, op@) == Ok::<
                        MachineView,
                        VmError,
                    >(final(self)@)
                    &&& node + 1 == final(self)@.nodes.len()
                    &&& final(self)@.scheduler.uid == old(self)@.scheduler.uid
                    &&& final(self)@.scheduler.in_flight == old(self)@.scheduler.in_flight
                },
                Err(e) => with_operation(old(self)@, code@, params@, made@, op@) == Err::<
                    MachineView,
                    VmError,
                >(e),
            },
    {
        let inputs = match Self::operands_of(params, made, op.get_inputs()) {
            Ok(inputs) => inputs,
            Err(e) => {
                return Err(e);
            },
        };
        match *op.get_function() {
            FunctionCall::Internal(i) => {
                if i < code.get_internal_functions().len() {
                    self.call(inputs, i, false)
                } else {
                    Err(VmError::UnknownFunction(i))
                }
            },
            FunctionCall::External(i) => {
                if i < code.get_external_functions().len() {
                    self.call(inputs, i, true)
                } else {
                    Err(VmError::UnknownExternal(i))
                }
            },
            FunctionCall::Constant(i) => {
                let constants = code.get_constants();
                if i < constants.len() {
                    Ok(self.constant(share_arc(&constants[i])))
                } else {
                    Err(VmError::UnknownConstant(i))
                }
            },
        }
    }

    /// Expands a function for the job `job` in flight: makes the nodes of
    /// its operations and the job that copies the value of the last of them
    /// into `node`, and lets `job` hibernate until that job has ended.
    fn expand(
        &mut self,
        code: &VertexBytecode,
        job: JobHandle,
        node: usize,
        params: &Vec<usize>,
        function: usize,
    ) -> (r: Result<Vec<JobHandle>, VmError>)
        requires
            old(self).inv(),
            job.uid() == old(self)@.scheduler.uid,
            old(self)@.scheduler.in_flight.contains(job.id()),
        ensures
            match r {
                Ok(notified) => {
                    &&& final(self).inv()
                    &&& expanded(old(self)@, code@, job.id(), node, params@, function) == Ok::<
                        MachineView,
                        VmError,
                    >(final(self)@)
                    &&& all_from(notified@, old(self)@.scheduler.uid)
                },
                Err(e) => expanded(old(self)@, code@, job.id(), node, params@, function) == Err::<
                    MachineView,
                    VmError,
                >(e),
            },
    {
        let functions = code.get_internal_functions();
        if function >= functions.len() {
            return Err(VmError::UnknownFunction(function));
        }
        let operations = functions[function].get_operations();
        let ghost ops = code@.internal_functions[function as int];
        let ghost start = self@;
        assert(ops =~= Seq::new(operations@.len(), |i: int| operations@[i]@));
        let mut made: Vec<usize> = Vec::new();
        let mut i: usize = 0;
        while i < operations.len()
            invariant
                i <= operations@.len(),
                self.inv(),
                start == old(self)@,
                function < code@.internal_functions.len(),
                ops == code@.internal_functions[function as int],
                ops.len() == operations@.len(),
                forall|k: int| 0 <= k < operations@.len() ==> (#[trigger] operations@[k])@ == ops[k],
                self@.scheduler.uid == start.scheduler.uid,
                self@.scheduler.in_flight == start.scheduler.in_flight,
                with_operations(start, code@, params@, ops, i as nat) == Ok::<
                    (MachineView, Seq<usize>),
                    VmError,
                >((self@, made@)),
            decreases operations@.len() - i,
        {
            match self.operation(code, params, &made, &operations[i]) {
                Ok(op_node) => {
                    made.push(op_node);
                },
                Err(e) => {
                    proof {
                        assert(with_operations(start, code@, params@, ops, (i + 1) as nat)
                            == Err::<(MachineView, Seq<usize>), VmError>(e));
                        lemma_with_operations_fails(
                            start,
                            code@,
                            params@,
                            ops,
                            (i + 1) as nat,
                            ops.len(),
                        );
                    }
                    return Err(e);
                },
            }
            i += 1;
        }
        if made.len() == 0 {
            return Err(VmError::EmptyFunction(function));
        }
        let last = made[made.len() - 1];
        let mut sources: Vec<usize> = Vec::new();
        sources.push(last);
        assert(sources@ =~= seq![last]);
        let deps = self.handles_of(&sources);
        let copy = match self.submit(deps, Job::Copy { from: last, to: node }) {
            Ok(copy) => copy,
            Err(e) => {
                return Err(e);
            },
        };
        let mut children: Vec<JobHandle> = Vec::new();
        children.push(copy);
        assert(handle_ids(children@) =~= seq![copy.id()]);
        let ghost submitted_copy = self@;
        let notified = self.scheduler.hibernate(job, children);
        assert(self@.nodes =~= submitted_copy.nodes);
        assert(self@.jobs =~= submitted_copy.jobs);
        Ok(notified)
    }

    /// The values of the given nodes, if all are there.
    fn values_of(&self, inputs: &Vec<usize>) -> (r: Result<Vec<Arc<Data>>, VmError>)
        ensures
            match r {
                Ok(v) => values(self@.nodes, inputs@, inputs@.len()) == Ok::<
                    Seq<DataView>,
                    VmError,
                >(shared_values(v@)),
                Err(e) => values(self@.nodes, inputs@, inputs@.len()) == Err::<
                    Seq<DataView>,
                    VmError,
                >(e),
            },
    {
        let mut out: Vec<Arc<Data>> = Vec::new();
        assert(shared_values(out@) =~= Seq::<DataView>::empty());
        let mut i: usize = 0;
        while i < inputs.len()
            invariant
                i <= inputs@.len(),
                values(self@.nodes, inputs@, i as nat) == Ok::<Seq<DataView>, VmError>(
                    shared_values(out@),
                ),
            decreases inputs@.len() - i,
        {
            let input = inputs[i];
            match self.value(input) {
                Some(v) => {
                    let ghost before = shared_values(out@);
                    out.push(v);
                    assert(shared_values(out@) =~= before.push((*v)@));
                },
                None => {
                    proof {
                        assert(values(self@.nodes, inputs@, (i + 1) as nat) == Err::<
                            Seq<DataView>,
                            VmError,
                        >(VmError::MissingValue(input)));
                        lemma_values_fails(self@.nodes, inputs@, (i + 1) as nat, inputs@.len());
                    }
                    return Err(VmError::MissingValue(input));
                },
            }
            i += 1;
        }
        Ok(out)
    }

    /// Stores a value in a node and reports the end of the job `job` in
    /// flight.
    fn store(&mut self, job: JobHandle, node: usize, value: Arc<Data>) -> (r: Result<
        Vec<JobHandle>,
        VmError,
    >)
        requires
            old(self).inv(),
            job.uid() == old(self)@.scheduler.uid,
            old(self)@.scheduler.in_flight.contains(job.id()),
        ensures
            match r {
                Ok(notified) => {
                    &&& final(self).inv()
                    &&& stored(old(self)@, job.id(), node, (*value)@) == Ok::<
                        MachineView,
                        VmError,
                    >(final(self)@)
                    &&& all_from(notified@, old(self)@.scheduler.uid)
                },
                Err(e) => stored(old(self)@, job.id(), node, (*value)@) == Err::<
                    MachineView,
                    VmError,
                >(e),
            },
    {
        if node >= self.nodes.len() {
            return Err(VmError::MissingValue(node));
        }
        let handle = match self.nodes[node].handle() {
            Some(h) => Some(*h),
            None => None,
        };
        let ghost before = self@.nodes;
        assert(before[node as int] == self.nodes@[node as int]@);
        self.nodes.set(node, VirtualNode { handle, data: Some(value) });
        assert(self@.nodes =~= before.update(
            node as int,
            NodeState { data: Some((*value)@), ..before[node as int] },
        ));
        let ghost after = self@.nodes;
        let notified = self.scheduler.finish_job(job);
        assert(self@.nodes =~= after);
        assert(self@.jobs =~= old(self)@.jobs);
        Ok(notified)
    }

    /// Takes the job that has been ready longest from the queue and runs
    /// it, as far as that can be done without calling a host function.
    pub fn tick(&mut self, code: &VertexBytecode) -> (r: Result<Tick, VmError>)
        requires
            old(self).inv(),
        ensures
            match r {
                Ok(Tick::Idle) => {
                    &&& final(self).inv()
                    &&& final(self)@ == old(self)@
                    &&& old(self)@.scheduler.closed || old(self)@.scheduler.queue.len() == 0
                },
                Ok(Tick::Call { job, function, inputs }) => {
                    &&& final(self).inv()
                    &&& !old(self)@.scheduler.closed && old(self)@.scheduler.queue.len() > 0
                    &&& job.id() == old(self)@.scheduler.queue[0]
                    &&& job.uid() == old(self)@.scheduler.uid
                    &&& final(self)@ == (MachineView {
                        scheduler: dispatched(old(self)@.scheduler),
                        ..old(self)@
                    })
                    &&& 1 <= job.id() <= old(self)@.jobs.len()
                    &&& old(self)@.jobs[job.id() - 1] matches JobView::External {
                        node,
                        inputs: sources,
                        function: index,
                    } && index < code@.external_functions.len() && function
                        == code@.external_functions[index as int].function && values(
                        old(self)@.nodes,
                        sources,
                        sources.len(),
                    ) == Ok::<Seq<DataView>, VmError>(shared_values(inputs@))
                },
                Ok(Tick::Ran { notified }) => {
                    &&& final(self).inv()
                    &&& !old(self)@.scheduler.closed && old(self)@.scheduler.queue.len() > 0
                    &&& 1 <= old(self)@.scheduler.queue[0] <= old(self)@.jobs.len()
                    &&& !(old(self)@.jobs[old(self)@.scheduler.queue[0] - 1] is External)
                    &&& forall|host: Host|
                        #[trigger] stepped(old(self)@, code@, host) == Ok::<MachineView, VmError>(
                            final(self)@,
                        )
                    &&& all_from(notified@, old(self)@.scheduler.uid)
                },
                Err(e) => {
                    &&& !old(self)@.scheduler.closed && old(self)@.scheduler.queue.len() > 0
                    &&& forall|host: Host|
                        #[trigger] stepped(old(self)@, code@, host) == Err::<MachineView, VmError>(e)
                },
            },
    {
        let job = match self.scheduler.queue_next() {
            Some(job) => job,
            None => {
                return Ok(Tick::Idle);
            },
        };
        let id = job.get_job_id();
        assert(self@.nodes =~= old(self)@.nodes);
        assert(self@.jobs =~= old(self)@.jobs);
        proof {
            lemma_push_has(old(self)@.scheduler.in_flight, id);
        }
        if id < 1 || id > self.jobs.len() {
            return Err(VmError::Stalled);
        }
        assert(old(self)@.jobs[id - 1] == self.jobs@[id - 1]@);
        match &self.jobs[id - 1] {
            Job::External { node, inputs, function } => {
                let externals = code.get_external_functions();
                if *function >= externals.len() {
                    return Err(VmError::UnknownExternal(*function));
                }
                let values = match self.values_of(inputs) {
                    Ok(values) => values,
                    Err(e) => {
                        return Err(e);
                    },
                };
                Ok(
                    Tick::Call {
                        job,
                        function: *externals[*function].get_function_exec(),
                        inputs: values,
                    },
                )
            },
            Job::Internal { node, inputs, function } => {
                let node = *node;
                let function = *function;
                let params = inputs.clone();
                match self.expand(code, job, node, &params, function) {
                    Ok(notified) => Ok(Tick::Ran { notified }),
                    Err(e) => Err(e),
                }
            },
            Job::Copy { from, to } => {
                let from = *from;
                let to = *to;
                let value = match self.value(from) {
                    Some(value) => value,
                    None => {
                        return Err(VmError::MissingValue(from));
                    },
                };
                match self.store(job, to, value) {
                    Ok(notified) => Ok(Tick::Ran { notified }),
                    Err(e) => Err(e),
                }
            },
        }
    }

    /// Takes what a host function returned for the job `job`, which `tick`
    /// asked to be called: stores it in the node of the job and reports the
    /// end of the job. Nothing happens where `job` is no such job.
    pub fn complete_call(&mut self, job: JobHandle, value: Data) -> (r: Result<
        Vec<JobHandle>,
        VmError,
    >)
        requires
            old(self).inv(),
        ensures
            match r {
                Ok(notified) => {
                    &&& final(self).inv()
                    &&& job.uid() == old(self)@.scheduler.uid
                    &&& old(self)@.scheduler.in_flight.contains(job.id())
                    &&& 1 <= job.id() <= old(self)@.jobs.len()
                    &&& old(self)@.jobs[job.id() - 1] matches JobView::External { node, .. }
                        && stored(old(self)@, job.id(), node, value@) == Ok::<
                        MachineView,
                        VmError,
                    >(final(self)@)
                    &&& all_from(notified@, old(self)@.scheduler.uid)
                },
                Err(e) => {
                    ||| e == VmError::Stalled && !(job.uid() == old(self)@.scheduler.uid && old(
                        self,
                    )@.scheduler.in_flight.contains(job.id()) && 1 <= job.id() <= old(
                        self,
                    )@.jobs.len() && old(self)@.jobs[job.id() - 1] is External) && final(self)@
                        == old(self)@ && final(self).inv()
                    ||| job.uid() == old(self)@.scheduler.uid && old(
                        self,
                    )@.scheduler.in_flight.contains(job.id()) && 1 <= job.id() <= old(
                        self,
                    )@.jobs.len() && (old(self)@.jobs[job.id() - 1] matches JobView::External {
                        node,
                        ..
                    } && stored(old(self)@, job.id(), node, value@) == Err::<
                        MachineView,
                        VmError,
                    >(e))
                },
            },
    {
        let id = job.get_job_id();
        if !self.scheduler.is_in_flight(&job) || id < 1 || id > self.jobs.len() {
            return Err(VmError::Stalled);
        }
        assert(self@.jobs[id - 1] == self.jobs@[id - 1]@);
        let node = match &self.jobs[id - 1] {
            Job::External { node, .. } => *node,
            _ => {
                return Err(VmError::Stalled);
            },
        };
        self.store(job, node, Arc::new(value))
    }
}

/// An id that has been appended to a list is in the list.
proof fn lemma_push_has(ids: Seq<usize>, id: usize)
    ensures
        ids.push(id).contains(id),
{
    assert(ids.push(id)[ids.len() as int] == id);
}

/// Where finding the nodes of some of the first inputs fails, finding
/// those of more of them fails in the same way.
proof fn lemma_operands_fails(
    params: Seq<usize>,
    made: Seq<usize>,
    inputs: Seq<OperationInput>,
    few: nat,
    many: nat,
)
    requires
        few <= many <= inputs.len(),
        operands(params, made, inputs, few) is Err,
    ensures
        operands(params, made, inputs, many) == operands(params, made, inputs, few),
    decreases many,
{
    if few < many {
        lemma_operands_fails(params, made, inputs, few, (many - 1) as nat);
    }
}

/// Where making the nodes of some of the first operations fails, making
/// those of more of them fails in the same way.
proof fn lemma_with_operations_fails(
    m: MachineView,
    code: VertexBytecodeView,
    params: Seq<usize>,
    ops: Seq<OperationView>,
    few: nat,
    many: nat,
)
    requires
        few <= many <= ops.len(),
        with_operations(m, code, params, ops, few) is Err,
    ensures
        with_operations(m, code, params, ops, many) == with_operations(m, code, params, ops, few),
    decreases many,
{
    if few < many {
        lemma_with_operations_fails(m, code, params, ops, few, (many - 1) as nat);
    }
}

/// Where the value of one of the first nodes is missing, it is missing
/// among more of them.
proof fn lemma_values_fails(nodes: Seq<NodeState>, inputs: Seq<usize>, few: nat, many: nat)
    requires
        few <= many <= inputs.len(),
        values(nodes, inputs, few) is Err,
    ensures
        values(nodes, inputs, many) == values(nodes, inputs, few),
    decreases many,
{
    if few < many {
        lemma_values_fails(nodes, inputs, few, (many - 1) as nat);
    }
}

} // verus!

verus! {

/// A virtual machine for the executable tables of one program.
pub struct VirtualMachine {
    bytecode: VertexBytecode,
}

/// Whether an executable result of an execution is the expected one.
pub open spec fn result_is(r: Result<Arc<Data>, VmError>, expected: Result<DataView, VmError>) -> bool {
    match r {
        Ok(v) => expected == Ok::<DataView, VmError>((*v)@),
        Err(e) => expected == Err::<DataView, VmError>(e),
    }
}

impl VirtualMachine {
    /// A machine for the given tables.
    pub fn new(bytecode: VertexBytecode) -> (vm: Self)
        ensures
            vm.program() == bytecode@,
    {
        VirtualMachine { bytecode }
    }

    /// The tables of this machine.
    pub closed spec fn program(&self) -> VertexBytecodeView {
        self.bytecode@
    }

    /// The tables of this machine.
    pub fn get_bytecode(&self) -> (code: &VertexBytecode)
        ensures
            code@ == self.program(),
    {
        &self.bytecode
    }

    /// Starts an execution of a function on the given values: wraps the
    /// values in constant nodes and makes the node of a call of the
    /// function on them. Gives the execution and the index of that node,
    /// whose value will be the result.
    pub fn start(&self, uid: u32, func_id: usize, inputs: &Vec<Data>) -> (r: Result<
        (Execution, usize),
        VmError,
    >)
        ensures
            match r {
                Ok(s) => {
                    &&& s.0.inv()
                    &&& started(fresh(uid), self.program(), func_id, plain_values(inputs@)) == Ok::<
                        MachineView,
                        VmError,
                    >(s.0@)
                    &&& s.1 + 1 == s.0@.nodes.len()
                },
                Err(e) => started(fresh(uid), self.program(), func_id, plain_values(inputs@))
                    == Err::<MachineView, VmError>(e),
            },
    {
        if func_id >= self.bytecode.get_internal_functions().len() {
            return Err(VmError::UnknownFunction(func_id));
        }
        let mut execution = Execution::new(uid);
        let ghost values = plain_values(inputs@);
        let mut nodes: Vec<usize> = Vec::new();
        let mut i: usize = 0;
        while i < inputs.len()
            invariant
                i <= inputs@.len(),
                execution.inv(),
                values == plain_values(inputs@),
                execution@ == with_inputs(fresh(uid), values, i as nat),
                execution@.nodes.len() == i,
                nodes@ == indices_from(0, i as nat),
            decreases inputs@.len() - i,
        {
            let value = inputs[i].duplicate();
            let node = execution.constant(Arc::new(value));
            nodes.push(node);
            assert(nodes@ =~= indices_from(0, (i + 1) as nat));
            i += 1;
        }
        match execution.internal(nodes, func_id) {
            Ok(root) => Ok((execution, root)),
            Err(e) => Err(e),
        }
    }

    /// Runs the jobs of an execution one after the other, as a single
    /// worker does, until the value of the node `root` is there; at most
    /// `max_steps` jobs are run.
    pub fn run<F: Fn(VertexFunction, &Vec<Arc<Data>>) -> Data>(
        &self,
        execution: &mut Execution,
        root: usize,
        host: &F,
        max_steps: u64,
    ) -> (r: Result<Arc<Data>, VmError>)
        requires
            old(execution).inv(),
            pure_host(host),
        ensures
            result_is(
                r,
                run(old(execution)@, self.program(), host_of(host), root, max_steps as nat),
            ),
    {
        let ghost goal = run(execution@, self.program(), host_of(host), root, max_steps as nat);
        let mut left = max_steps;
        loop
            invariant
                execution.inv(),
                pure_host(host),
                goal == run(
                    old(execution)@,
                    self.program(),
                    host_of(host),
                    root,
                    max_steps as nat,
                ),
                goal == run(execution@, self.program(), host_of(host), root, left as nat),
            decreases left,
        {
            match execution.value(root) {
                Some(v) => {
                    return Ok(v);
                },
                None => {},
            }
            if !execution.has_ready() {
                return Err(VmError::Stalled);
            }
            if left == 0 {
                return Err(VmError::StepLimit);
            }
            let ghost before = execution@;
            match execution.tick(&self.bytecode) {
                Ok(Tick::Idle) => {
                    return Err(VmError::Stalled);
                },
                Ok(Tick::Call { job, function, inputs }) => {
                    let out = host(function, &inputs);
                    proof {
                        lemma_push_has(before.scheduler.in_flight, job.id());
                    }
                    match execution.complete_call(job, out) {
                        Ok(_) => {},
                        Err(e) => {
                            return Err(e);
                        },
                    }
                },
                Ok(Tick::Ran { .. }) => {
                    assert(stepped(before, self.program(), host_of(host)) == Ok::<
                        MachineView,
                        VmError,
                    >(execution@));
                },
                Err(e) => {
                    assert(stepped(before, self.program(), host_of(host)) == Err::<
                        MachineView,
                        VmError,
                    >(e));
                    return Err(e);
                },
            }
            left -= 1;
        }
    }

    /// Executes the function at the given index of the program on the given
    /// values, and gives its value. The jobs are run one after the other,
    /// as a single worker does; at most `max_steps` jobs are run. The host
    /// functions are called through `host`, which has to be pure; the value
    /// is then a function of the program, the host, the function and the
    /// values alone, the same at every execution.
    pub fn execute<F: Fn(VertexFunction, &Vec<Arc<Data>>) -> Data>(
        &self,
        func_id: usize,
        inputs: Vec<Data>,
        host: &F,
        max_steps: u64,
    ) -> (r: Result<Arc<Data>, VmError>)
        requires
            pure_host(host),
        ensures
            result_is(
                r,
                executed(
                    self.program(),
                    host_of(host),
                    func_id,
                    plain_values(inputs@),
                    max_steps as nat,
                ),
            ),
    {
        let (mut execution, root) = match self.start(0, func_id, &inputs) {
            Ok(started) => started,
            Err(e) => {
                return Err(e);
            },
        };
        self.run(&mut execution, root, host, max_steps)
    }
}

} // verus!
