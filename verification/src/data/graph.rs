//! A graph of function nodes.
//!
//! A graph holds function nodes and the connections from an output of one
//! node to an input of another. It only stores them: nothing here runs a
//! graph.

use crate::data::datatype::{DataType, DataTypeView};
use crate::shared::share_rc;
use std::rc::Rc;
use vstd::prelude::*;

verus! {

/// An input or an output of a function: a name and a data type.
#[derive(Debug, Clone, PartialEq, Eq)]
pub struct Argument {
    name: String,
    dtype: DataType,
}

/// An argument as a mathematical value.
pub struct ArgumentView {
    /// The name of the argument.
    pub name: Seq<char>,
    /// The data type of the argument.
    pub dtype: DataTypeView,
}

impl View for Argument {
    type V = ArgumentView;

    closed spec fn view(&self) -> ArgumentView {
        ArgumentView { name: self.name@, dtype: self.dtype@ }
    }
}

impl Argument {
    /// An argument with the given name and data type.
    pub fn new(name: String, dtype: DataType) -> (a: Self)
        ensures
            a@ == (ArgumentView { name: name@, dtype: dtype@ }),
    {
        Argument { name, dtype }
    }

    /// The name of this argument.
    pub fn get_name(&self) -> (name: &str)
        ensures
            name@ == self@.name,
    {
        self.name.as_str()
    }

    /// The data type of this argument.
    pub fn get_type(&self) -> (dtype: &DataType)
        ensures
            dtype@ == self@.dtype,
    {
        &self.dtype
    }

    /// Whether two arguments are equal.
    pub fn same(&self, other: &Argument) -> (r: bool)
        ensures
            r == (self@ == other@),
    {
        self.name == other.name && self.dtype.same(&other.dtype)
    }
}

/// The views of a list of arguments.
pub open spec fn argument_views(args: Seq<Argument>) -> Seq<ArgumentView> {
    Seq::new(args.len(), |i: int| args[i]@)
}

/// Whether two lists of arguments are equal.
fn same_arguments(a: &Vec<Argument>, b: &Vec<Argument>) -> (r: bool)
    ensures
        r == (argument_views(a@) == argument_views(b@)),
{
    if a.len() != b.len() {
        assert(argument_views(a@).len() != argument_views(b@).len());
        return false;
    }
    let mut i: usize = 0;
    while i < a.len()
        invariant
            i <= a@.len(),
            a@.len() == b@.len(),
            forall|j: int| 0 <= j < i ==> a@[j]@ == b@[j]@,
        decreases a@.len() - i,
    {
        if !a[i].same(&b[i]) {
            assert(argument_views(a@)[i as int] != argument_views(b@)[i as int]);
            return false;
        }
        i += 1;
    }
    assert(argument_views(a@) =~= argument_views(b@));
    true
}

/// A function node of a graph.
#[derive(Debug, Clone, PartialEq, Eq)]
pub struct Function {
    name: String,
    node_id: usize,
    inputs: Vec<Argument>,
    outputs: Vec<Argument>,
}

/// A function node as a mathematical value.
pub struct FunctionView {
    /// The name of the function.
    pub name: Seq<char>,
    /// The id of the node.
    pub node_id: usize,
    /// The inputs of the function.
    pub inputs: Seq<ArgumentView>,
    /// The outputs of the function.
    pub outputs: Seq<ArgumentView>,
}

impl View for Function {
    type V = FunctionView;

    closed spec fn view(&self) -> FunctionView {
        FunctionView {
            name: self.name@,
            node_id: self.node_id,
            inputs: argument_views(self.inputs@),
            outputs: argument_views(self.outputs@),
        }
    }
}

impl Function {
    /// A function node.
    pub fn new(name: String, node_id: usize, inputs: Vec<Argument>, outputs: Vec<Argument>) -> (f:
        Self)
        ensures
            f@ == (FunctionView {
                name: name@,
                node_id,
                inputs: argument_views(inputs@),
                outputs: argument_views(outputs@),
            }),
    {
        Function { name, node_id, inputs, outputs }
    }

    /// The name of this function.
    pub fn get_name(&self) -> (name: &str)
        ensures
            name@ == self@.name,
    {
        self.name.as_str()
    }

    /// The id of this node.
    pub fn get_node_id(&self) -> (id: usize)
        ensures
            id == self@.node_id,
    {
        self.node_id
    }

    /// The inputs of this function.
    pub fn get_inputs(&self) -> (inputs: &Vec<Argument>)
        ensures
            argument_views(inputs@) == self@.inputs,
    {
        &self.inputs
    }

    /// The outputs of this function.
    pub fn get_outputs(&self) -> (outputs: &Vec<Argument>)
        ensures
            argument_views(outputs@) == self@.outputs,
    {
        &self.outputs
    }

    /// Whether two function nodes are equal.
    pub fn same(&self, other: &Function) -> (r: bool)
        ensures
            r == (self@ == other@),
    {
        self.name == other.name && self.node_id == other.node_id && same_arguments(
            &self.inputs,
            &other.inputs,
        ) && same_arguments(&self.outputs, &other.outputs)
    }
}

/// A connection from an output of one function node to an input of
/// another.
#[derive(Debug, Clone, PartialEq, Eq)]
pub struct Connection {
    start_fn: Rc<Function>,
    start_arg: usize,
    end_fn: Rc<Function>,
    end_arg: usize,
}

/// A connection as a mathematical value.
pub struct ConnectionView {
    /// The node that the connection starts at.
    pub start_fn: FunctionView,
    /// The index of the output that it starts at.
    pub start_arg: usize,
    /// The node that the connection ends at.
    pub end_fn: FunctionView,
    /// The index of the input that it ends at.
    pub end_arg: usize,
}

impl View for Connection {
    type V = ConnectionView;

    closed spec fn view(&self) -> ConnectionView {
        ConnectionView {
            start_fn: (*self.start_fn)@,
            start_arg: self.start_arg,
            end_fn: (*self.end_fn)@,
            end_arg: self.end_arg,
        }
    }
}

impl Connection {
    /// A connection from the output `start_arg` of `start_fn` to the input
    /// `end_arg` of `end_fn`.
    pub fn new(start_fn: Rc<Function>, start_arg: usize, end_fn: Rc<Function>, end_arg: usize) -> (c:
        Self)
        ensures
            c@ == (ConnectionView {
                start_fn: (*start_fn)@,
                start_arg,
                end_fn: (*end_fn)@,
                end_arg,
            }),
    {
        Connection { start_fn, start_arg, end_fn, end_arg }
    }

    /// The node and the index of the output that this connection starts
    /// at.
    pub fn get_start(&self) -> (start: (Rc<Function>, usize))
        ensures
            (*start.0)@ == self@.start_fn,
            start.1 == self@.start_arg,
    {
        (share_rc(&self.start_fn), self.start_arg)
    }

    /// The node and the index of the input that this connection ends at.
    pub fn get_end(&self) -> (end: (Rc<Function>, usize))
        ensures
            (*end.0)@ == self@.end_fn,
            end.1 == self@.end_arg,
    {
        (share_rc(&self.end_fn), self.end_arg)
    }
}

/// A graph of function nodes.
#[derive(Debug, Clone, PartialEq, Eq)]
pub struct Graph {
    params: Rc<Function>,
    returns: Rc<Function>,
    nodes: Vec<Rc<Function>>,
    connections: Vec<Rc<Connection>>,
}

/// A graph as a mathematical value.
pub struct GraphView {
    /// The node that stands for the inputs of the graph.
    pub params: FunctionView,
    /// The node that stands for the outputs of the graph.
    pub outputs: FunctionView,
    /// The function nodes of the graph.
    pub nodes: Seq<FunctionView>,
    /// The connections of the graph.
    pub connections: Seq<ConnectionView>,
}

impl View for Graph {
    type V = GraphView;

    closed spec fn view(&self) -> GraphView {
        GraphView {
            params: (*self.params)@,
            outputs: (*self.returns)@,
            nodes: Seq::new(self.nodes@.len(), |i: int| (*self.nodes@[i])@),
            connections: Seq::new(self.connections@.len(), |i: int| (*self.connections@[i])@),
        }
    }
}

/// The nodes at which those of the first `n` connections start that end at
/// the given node, in order.
pub open spec fn parents_of(connections: Seq<ConnectionView>, node: FunctionView, n: nat) -> Seq<
    FunctionView,
>
    decreases n,
{
    if n == 0 || n > connections.len() {
        Seq::empty()
    } else if connections[n - 1].end_fn == node {
        parents_of(connections, node, (n - 1) as nat).push(connections[n - 1].start_fn)
    } else {
        parents_of(connections, node, (n - 1) as nat)
    }
}

/// The nodes at which those of the first `n` connections end that start at
/// the given node, in order.
pub open spec fn children_of(connections: Seq<ConnectionView>, node: FunctionView, n: nat) -> Seq<
    FunctionView,
>
    decreases n,
{
    if n == 0 || n > connections.len() {
        Seq::empty()
    } else if connections[n - 1].start_fn == node {
        children_of(connections, node, (n - 1) as nat).push(connections[n - 1].end_fn)
    } else {
        children_of(connections, node, (n - 1) as nat)
    }
}

/// The views of a list of shared function nodes.
pub open spec fn shared_views(nodes: Seq<Rc<Function>>) -> Seq<FunctionView> {
    Seq::new(nodes.len(), |i: int| (*nodes[i])@)
}

impl Graph {
    /// A graph without nodes, with the given nodes for its inputs and its
    /// outputs.
    pub fn new(params: Function, outputs: Function) -> (g: Self)
        ensures
            g@ == (GraphView {
                params: params@,
                outputs: outputs@,
                nodes: Seq::empty(),
                connections: Seq::empty(),
            }),
    {
        let g = Graph {
            params: Rc::new(params),
            returns: Rc::new(outputs),
            nodes: Vec::new(),
            connections: Vec::new(),
        };
        assert(g@.nodes =~= Seq::<FunctionView>::empty());
        assert(g@.connections =~= Seq::<ConnectionView>::empty());
        g
    }

    /// The node that stands for the inputs of this graph.
    pub fn get_params(&self) -> (params: Rc<Function>)
        ensures
            (*params)@ == self@.params,
    {
        share_rc(&self.params)
    }

    /// The node that stands for the outputs of this graph.
    pub fn get_returns(&self) -> (outputs: Rc<Function>)
        ensures
            (*outputs)@ == self@.outputs,
    {
        share_rc(&self.returns)
    }

    /// Adds a function node, and gives a pointer to it.
    pub fn add_function(&mut self, func: Function) -> (node: Rc<Function>)
        ensures
            (*node)@ == func@,
            final(self)@ == (GraphView { nodes: old(self)@.nodes.push(func@), ..old(self)@ }),
    {
        let func = Rc::new(func);
        self.nodes.push(share_rc(&func));
        assert(self@.nodes =~= old(self)@.nodes.push((*func)@));
        assert(self@.connections =~= old(self)@.connections);
        func
    }

    /// Adds a connection, and gives a pointer to it.
    pub fn add_connection(&mut self, connection: Connection) -> (added: Rc<Connection>)
        ensures
            (*added)@ == connection@,
            final(self)@ == (GraphView {
                connections: old(self)@.connections.push(connection@),
                ..old(self)@
            }),
    {
        let connection = Rc::new(connection);
        self.connections.push(share_rc(&connection));
        assert(self@.connections =~= old(self)@.connections.push((*connection)@));
        assert(self@.nodes =~= old(self)@.nodes);
        connection
    }

    /// The nodes from which a connection leads to the given node: one for
    /// each such connection, in the order of the connections.
    pub fn get_parent_functions(&self, func: Rc<Function>) -> (parents: Vec<Rc<Function>>)
        ensures
            shared_views(parents@) == parents_of(
                self@.connections,
                (*func)@,
                self@.connections.len(),
            ),
    {
        let mut parents: Vec<Rc<Function>> = Vec::new();
        assert(shared_views(parents@) =~= Seq::<FunctionView>::empty());
        let mut i: usize = 0;
        while i < self.connections.len()
            invariant
                i <= self.connections@.len(),
                shared_views(parents@) == parents_of(self@.connections, (*func)@, i as nat),
            decreases self.connections@.len() - i,
        {
            let conn = &self.connections[i];
            assert(self@.connections[i as int] == (**conn)@);
            let (end_fn, _) = conn.get_end();
            if end_fn.same(&func) {
                let (start_fn, _) = conn.get_start();
                let ghost before = shared_views(parents@);
                parents.push(start_fn);
                assert(shared_views(parents@) =~= before.push((*start_fn)@));
            }
            i += 1;
        }
        parents
    }

    /// The nodes to which a connection leads from the given node: one for
    /// each such connection, in the order of the connections.
    pub fn get_child_functions(&self, func: Rc<Function>) -> (children: Vec<Rc<Function>>)
        ensures
            shared_views(children@) == children_of(
                self@.connections,
                (*func)@,
                self@.connections.len(),
            ),
    {
        let mut children: Vec<Rc<Function>> = Vec::new();
        assert(shared_views(children@) =~= Seq::<FunctionView>::empty());
        let mut i: usize = 0;
        while i < self.connections.len()
            invariant
                i <= self.connections@.len(),
                shared_views(children@) == children_of(self@.connections, (*func)@, i as nat),
            decreases self.connections@.len() - i,
        {
            let conn = &self.connections[i];
            assert(self@.connections[i as int] == (**conn)@);
            let (start_fn, _) = conn.get_start();
            if start_fn.same(&func) {
                let (end_fn, _) = conn.get_end();
                let ghost before = shared_views(children@);
                children.push(end_fn);
                assert(shared_views(children@) =~= before.push((*end_fn)@));
            }
            i += 1;
        }
        children
    }

    /// The function nodes of this graph, without the two nodes that stand
    /// for its inputs and outputs.
    pub fn get_functions(&self) -> (nodes: &Vec<Rc<Function>>)
        ensures
            shared_views(nodes@) == self@.nodes,
    {
        assert(shared_views(self.nodes@) =~= self@.nodes);
        &self.nodes
    }

    /// The connections of this graph.
    pub fn get_connections(&self) -> (connections: &Vec<Rc<Connection>>)
        ensures
            connections@.len() == self@.connections.len(),
            forall|i: int|
                0 <= i < connections@.len() ==> (*#[trigger] connections@[i])@
                    == self@.connections[i],
    {
        &self.connections
    }
}

} // verus!
