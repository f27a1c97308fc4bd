//! Functions as lists of procedures over variables, and the context that
//! holds what can be called.
//!
//! A function has variables, some of which take its inputs and some of
//! which give its outputs. Its procedures are run in order: each calls
//! something of the context on the values of some variables and stores what
//! comes back in other variables.

use crate::data::datatype::DataType;
use crate::data::value::{Data, DataView};
use crate::shared::share_rc;
use std::rc::Rc;
use vstd::prelude::*;

verus! {

/// The value of a variable, if it has one.
pub type VariableData = Option<Rc<Data>>;

/// The values of variables as mathematical values.
pub type Values = Seq<Option<DataView>>;

/// The views of a list of values of variables.
pub open spec fn value_views(values: Seq<VariableData>) -> Values {
    Seq::new(
        values.len(),
        |i: int|
            match values[i] {
                Some(v) => Some((*v)@),
                None => None,
            },
    )
}

/// A variable of a function: its data type and its index.
pub struct Variable {
    dtype: DataType,
    index: usize,
}

/// A call of something of the context on the values of some variables,
/// whose results go to other variables.
pub struct Procedure {
    func_index: usize,
    inputs: Vec<usize>,
    outputs: Vec<usize>,
}

/// A procedure as a mathematical value.
pub struct ProcedureView {
    /// The index, in the context, of what is called.
    pub func_index: usize,
    /// The variables whose values are passed.
    pub inputs: Seq<usize>,
    /// The variables that take the results.
    pub outputs: Seq<usize>,
}

impl View for Procedure {
    type V = ProcedureView;

    closed spec fn view(&self) -> ProcedureView {
        ProcedureView { func_index: self.func_index, inputs: self.inputs@, outputs: self.outputs@ }
    }
}

/// A function: variables, and procedures over them.
pub struct Function {
    variables: Vec<Variable>,
    input_vars: Vec<usize>,
    output_vars: Vec<usize>,
    procedures: Vec<Procedure>,
}

/// A function as a mathematical value.
pub struct FunctionView {
    /// The number of variables.
    pub variables: nat,
    /// The variables that take the inputs, in the order of the inputs.
    pub input_vars: Seq<usize>,
    /// The variables that give the outputs, in the order of the outputs.
    pub output_vars: Seq<usize>,
    /// The procedures, in the order in which they are run.
    pub procedures: Seq<ProcedureView>,
}

impl View for Function {
    type V = FunctionView;

    closed spec fn view(&self) -> FunctionView {
        FunctionView {
            variables: self.variables@.len(),
            input_vars: self.input_vars@,
            output_vars: self.output_vars@,
            procedures: Seq::new(self.procedures@.len(), |i: int| self.procedures@[i]@),
        }
    }
}

/// What can be called with values and gives values.
pub trait Callable {
    /// What a call on the given values gives.
    spec fn outcome(&self, inputs: Values) -> Values;

    /// Calls this on the given values.
    fn exec(&self, inputs: Vec<VariableData>) -> (outputs: Vec<VariableData>)
        ensures
            value_views(outputs@) == self.outcome(value_views(inputs@)),
    ;
}

/// What a context holds at an index.
pub enum Slot<C: Callable> {
    /// Something that computes its results itself.
    Native(C),
    /// A function, which calls other things of the context.
    Graph(Function),
}

/// What a context holds at an index, as a mathematical value.
pub enum SlotView<C: Callable> {
    /// Something that computes its results itself.
    Native(C),
    /// A function.
    Graph(FunctionView),
}

impl<C: Callable> View for Slot<C> {
    type V = SlotView<C>;

    open spec fn view(&self) -> SlotView<C> {
        match self {
            Slot::Native(c) => SlotView::Native(*c),
            Slot::Graph(f) => SlotView::Graph(f@),
        }
    }
}

/// What can be called, by index: functions, and things of the kind `C`
/// that compute their results themselves.
pub struct Context<C: Callable> {
    functions: Vec<Slot<C>>,
}

impl<C: Callable> View for Context<C> {
    type V = Seq<SlotView<C>>;

    closed spec fn view(&self) -> Seq<SlotView<C>> {
        Seq::new(self.functions@.len(), |i: int| self.functions@[i]@)
    }
}

/// The values of the variables after the first `n` values of a list have
/// been put into the variables of a list, each into the variable at the
/// same position; a value without a variable is dropped.
pub open spec fn assigned(vars: Values, targets: Seq<usize>, values: Values, n: nat) -> Values
    decreases n,
{
    if n == 0 || n > values.len() {
        vars
    } else {
        let before = assigned(vars, targets, values, (n - 1) as nat);
        if n - 1 < targets.len() && targets[n - 1] < before.len() {
            before.update(targets[n - 1] as int, values[n - 1])
        } else {
            before
        }
    }
}

/// The values of the first `n` variables of a list; a variable that does
/// not exist has no value.
pub open spec fn selected(vars: Values, sources: Seq<usize>, n: nat) -> Values
    decreases n,
{
    if n == 0 || n > sources.len() {
        Seq::empty()
    } else {
        selected(vars, sources, (n - 1) as nat).push(
            if sources[n - 1] < vars.len() {
                vars[sources[n - 1] as int]
            } else {
                None
            },
        )
    }
}

/// What a call of the thing at an index of a context gives, where calls may
/// be nested `depth` deep; nothing where the index is out of range or the
/// depth is used up.
pub open spec fn called<C: Callable>(
    context: Seq<SlotView<C>>,
    index: usize,
    inputs: Values,
    depth: nat,
) -> Values
    decreases depth, 0nat, 0nat,
{
    if index >= context.len() || depth == 0 {
        Seq::empty()
    } else {
        match context[index as int] {
            SlotView::Native(c) => c.outcome(inputs),
            SlotView::Graph(g) => ran(context, g, inputs, (depth - 1) as nat),
        }
    }
}

/// The values of the variables after the first `n` procedures of a
/// function have been run.
pub open spec fn after_procedures<C: Callable>(
    context: Seq<SlotView<C>>,
    procedures: Seq<ProcedureView>,
    vars: Values,
    n: nat,
    depth: nat,
) -> Values
    decreases depth, 1nat, n,
{
    if n == 0 || n > procedures.len() {
        vars
    } else {
        let before = after_procedures(context, procedures, vars, (n - 1) as nat, depth);
        let p = procedures[n - 1];
        let results = called(
            context,
            p.func_index,
            selected(before, p.inputs, p.inputs.len()),
            depth,
        );
        assigned(before, p.outputs, results, results.len())
    }
}

/// What a function gives for given inputs: its variables start without
/// values, take the inputs, and are changed by the procedures in order; the
/// outputs are the values of the output variables then.
pub open spec fn ran<C: Callable>(
    context: Seq<SlotView<C>>,
    function: FunctionView,
    inputs: Values,
    depth: nat,
) -> Values
    decreases depth, 2nat, 0nat,
{
    let empty = Seq::new(function.variables, |i: int| None::<DataView>);
    let start = assigned(empty, function.input_vars, inputs, inputs.len());
    let end = after_procedures(
        context,
        function.procedures,
        start,
        function.procedures.len(),
        depth,
    );
    selected(end, function.output_vars, function.output_vars.len())
}

/// Another pointer to the value of a variable, if it has one.
fn share_value(value: &VariableData) -> (r: VariableData)
    ensures
        r == *value,
{
    match value {
        Some(v) => Some(share_rc(v)),
        None => None,
    }
}

/// Puts the values of a list into the variables of a list.
fn assign(vars: &mut Vec<VariableData>, targets: &Vec<usize>, values: &Vec<VariableData>)
    ensures
        value_views(final(vars)@) == assigned(
            value_views(old(vars)@),
            targets@,
            value_views(values@),
            values@.len(),
        ),
        final(vars)@.len() == old(vars)@.len(),
{
    let ghost start = value_views(vars@);
    let mut i: usize = 0;
    while i < values.len()
        invariant
            i <= values@.len(),
            start == value_views(old(vars)@),
            vars@.len() == old(vars)@.len(),
            value_views(vars@) == assigned(start, targets@, value_views(values@), i as nat),
        decreases values@.len() - i,
    {
        if i < targets.len() && targets[i] < vars.len() {
            let ghost before = value_views(vars@);
            let value = share_value(&values[i]);
            vars.set(targets[i], value);
            assert(value_views(vars@) =~= before.update(
                targets@[i as int] as int,
                value_views(values@)[i as int],
            ));
        }
        i += 1;
    }
}

/// The values of the variables of a list.
fn select(vars: &Vec<VariableData>, sources: &Vec<usize>) -> (out: Vec<VariableData>)
    ensures
        value_views(out@) == selected(value_views(vars@), sources@, sources@.len()),
{
    let mut out: Vec<VariableData> = Vec::new();
    assert(value_views(out@) =~= Seq::<Option<DataView>>::empty());
    let mut i: usize = 0;
    while i < sources.len()
        invariant
            i <= sources@.len(),
            value_views(out@) == selected(value_views(vars@), sources@, i as nat),
        decreases sources@.len() - i,
    {
        let ghost before = value_views(out@);
        let value = if sources[i] < vars.len() {
            share_value(&vars[sources[i]])
        } else {
            None
        };
        out.push(value);
        assert(value_views(out@) =~= before.push(
            if sources@[i as int] < vars@.len() {
                value_views(vars@)[sources@[i as int] as int]
            } else {
                None
            },
        ));
        i += 1;
    }
    out
}

impl Function {
    /// A function without variables and procedures.
    pub fn new() -> (f: Self)
        ensures
            f@ == (FunctionView {
                variables: 0,
                input_vars: Seq::empty(),
                output_vars: Seq::empty(),
                procedures: Seq::empty(),
            }),
    {
        let f = Function {
            variables: Vec::new(),
            input_vars: Vec::new(),
            output_vars: Vec::new(),
            procedures: Vec::new(),
        };
        assert(f@.procedures =~= Seq::<ProcedureView>::empty());
        f
    }

    /// Adds a variable of the given type; gives its index.
    pub fn add_variable(&mut self, dtype: DataType) -> (index: usize)
        ensures
            index == old(self)@.variables,
            final(self)@ == (FunctionView { variables: old(self)@.variables + 1, ..old(self)@ }),
    {
        let index = self.variables.len();
        let variable = Variable { dtype, index };
        self.variables.push(variable);
        assert(self@.procedures =~= old(self)@.procedures);
        index
    }

    /// Adds a variable that takes the next input; gives its index.
    pub fn add_input(&mut self, dtype: DataType) -> (index: usize)
        ensures
            index == old(self)@.variables,
            final(self)@ == (FunctionView {
                variables: old(self)@.variables + 1,
                input_vars: old(self)@.input_vars.push(index),
                ..old(self)@
            }),
    {
        let index = self.add_variable(dtype);
        self.input_vars.push(index);
        assert(self@.procedures =~= old(self)@.procedures);
        index
    }

    /// Adds a variable that gives the next output; gives its index.
    pub fn add_output(&mut self, dtype: DataType) -> (index: usize)
        ensures
            index == old(self)@.variables,
            final(self)@ == (FunctionView {
                variables: old(self)@.variables + 1,
                output_vars: old(self)@.output_vars.push(index),
                ..old(self)@
            }),
    {
        let index = self.add_variable(dtype);
        self.output_vars.push(index);
        assert(self@.procedures =~= old(self)@.procedures);
        index
    }

    /// Adds a procedure: a call of the thing at `func_index` of the context
    /// on the values of the variables `inputs`, whose results go to the
    /// variables `outputs`.
    pub fn add_procedure(&mut self, func_index: usize, inputs: Vec<usize>, outputs: Vec<usize>)
        ensures
            final(self)@ == (FunctionView {
                procedures: old(self)@.procedures.push(
                    ProcedureView { func_index, inputs: inputs@, outputs: outputs@ },
                ),
                ..old(self)@
            }),
    {
        let proc = Procedure { func_index, inputs, outputs };
        self.procedures.push(proc);
        assert(self@.procedures =~= old(self)@.procedures.push(proc@));
    }

    /// Runs this function on the given inputs, in a context; calls may be
    /// nested `depth` deep.
    pub fn exec<C: Callable>(
        &self,
        context: &Context<C>,
        inputs: Vec<VariableData>,
        depth: usize,
    ) -> (outputs: Vec<VariableData>)
        ensures
            value_views(outputs@) == ran(context@, self@, value_views(inputs@), depth as nat),
        decreases depth, 1nat,
    {
        let mut vars: Vec<VariableData> = Vec::new();
        while vars.len() < self.variables.len()
            invariant
                vars@.len() <= self.variables@.len(),
                forall|k: int| 0 <= k < vars@.len() ==> (#[trigger] vars@[k]) is None,
            decreases self.variables@.len() - vars@.len(),
        {
            vars.push(None);
        }
        assert(value_views(vars@) =~= Seq::new(self@.variables, |i: int| None::<DataView>));
        assign(&mut vars, &self.input_vars, &inputs);
        let ghost start = value_views(vars@);
        let ghost procedures = self@.procedures;
        let mut i: usize = 0;
        while i < self.procedures.len()
            invariant
                i <= self.procedures@.len(),
                procedures == self@.procedures,
                value_views(vars@) == after_procedures(
                    context@,
                    procedures,
                    start,
                    i as nat,
                    depth as nat,
                ),
            decreases self.procedures@.len() - i,
        {
            let proc = &self.procedures[i];
            assert(procedures[i as int] == proc@);
            let proc_in = select(&vars, &proc.inputs);
            let proc_out = context.call(proc.func_index, proc_in, depth);
            assign(&mut vars, &proc.outputs, &proc_out);
            i += 1;
        }
        select(&vars, &self.output_vars)
    }
}

impl<C: Callable> Context<C> {
    /// A context that holds nothing.
    pub fn new() -> (c: Self)
        ensures
            c@ == Seq::<SlotView<C>>::empty(),
    {
        let c = Context { functions: Vec::new() };
        assert(c@ =~= Seq::<SlotView<C>>::empty());
        c
    }

    /// Adds something that computes its results itself; gives its index.
    pub fn add_function(&mut self, callable: C) -> (index: usize)
        ensures
            index == old(self)@.len(),
            final(self)@ == old(self)@.push(SlotView::Native(callable)),
    {
        let index = self.functions.len();
        self.functions.push(Slot::Native(callable));
        assert(self@ =~= old(self)@.push(SlotView::Native(callable)));
        index
    }

    /// Adds a function; gives its index.
    pub fn add_graph(&mut self, function: Function) -> (index: usize)
        ensures
            index == old(self)@.len(),
            final(self)@ == old(self)@.push(SlotView::Graph(function@)),
    {
        let index = self.functions.len();
        self.functions.push(Slot::Graph(function));
        assert(self@ =~= old(self)@.push(SlotView::Graph(function@)));
        index
    }

    /// Calls the thing at the given index on the given values; calls may be
    /// nested `depth` deep. It gives nothing where the index is out of
    /// range or the depth is used up.
    pub fn call(&self, func_index: usize, inputs: Vec<VariableData>, depth: usize) -> (outputs: Vec<
        VariableData,
    >)
        ensures
            value_views(outputs@) == called(
                self@,
                func_index,
                value_views(inputs@),
                depth as nat,
            ),
        decreases depth, 0nat,
    {
        if func_index >= self.functions.len() || depth == 0 {
            let out: Vec<VariableData> = Vec::new();
            assert(value_views(out@) =~= Seq::<Option<DataView>>::empty());
            return out;
        }
        assert(self@[func_index as int] == self.functions@[func_index as int]@);
        match &self.functions[func_index] {
            Slot::Native(callable) => callable.exec(inputs),
            Slot::Graph(function) => function.exec(self, inputs, depth - 1),
        }
    }

    /// Calls the thing at the given index on the given values; calls may be
    /// nested as deep as `DEPTH_LIMIT`.
    pub fn exec(&self, func_index: usize, inputs: Vec<VariableData>) -> (outputs: Vec<VariableData>)
        ensures
            value_views(outputs@) == called(
                self@,
                func_index,
                value_views(inputs@),
                DEPTH_LIMIT as nat,
            ),
    {
        self.call(func_index, inputs, DEPTH_LIMIT)
    }
}

/// How deep calls may be nested in `Context::exec`.
pub const DEPTH_LIMIT: usize = 1024;

} // verus!
