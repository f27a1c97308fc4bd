//! Integer arithmetic that can be called from a context.

use crate::context::function::{value_views, Callable, Values, VariableData};
use crate::data::value::{Data, DataView};
use std::rc::Rc;
use vstd::prelude::*;

verus! {

/// The two integers that a call passes, if it passes two values that are
/// integers.
pub open spec fn two_integers(inputs: Values) -> Option<(i64, i64)> {
    if inputs.len() >= 2 {
        match (inputs[0], inputs[1]) {
            (Some(DataView::Int(a)), Some(DataView::Int(b))) => Some((a, b)),
            _ => None,
        }
    } else {
        None
    }
}

/// The one result of an operation on two integers: no value where the call
/// did not pass two integers, or the result does not fit 64 bits.
pub open spec fn one_result(result: Option<i64>) -> Values {
    seq![
        match result {
            Some(v) => Some(DataView::Int(v)),
            None => None,
        },
    ]
}

/// The two integers that a call passes.
fn operands(inputs: &Vec<VariableData>) -> (r: Option<(i64, i64)>)
    ensures
        r == two_integers(value_views(inputs@)),
{
    if inputs.len() < 2 {
        return None;
    }
    match (&inputs[0], &inputs[1]) {
        (Some(a), Some(b)) => match (&**a, &**b) {
            (Data::Int(x), Data::Int(y)) => Some((*x, *y)),
            _ => None,
        },
        _ => None,
    }
}

/// The list that holds the one result of an operation.
fn result_of(result: Option<i64>) -> (out: Vec<VariableData>)
    ensures
        value_views(out@) == one_result(result),
{
    let mut out: Vec<VariableData> = Vec::new();
    match result {
        Some(v) => out.push(Some(Rc::new(Data::Int(v)))),
        None => out.push(None),
    }
    assert(value_views(out@) =~= one_result(result));
    out
}

/// The sum of two integers.
pub struct AddOperation;

impl Callable for AddOperation {
    open spec fn outcome(&self, inputs: Values) -> Values {
        one_result(
            match two_integers(inputs) {
                Some((a, b)) => a.checked_add(b),
                None => None,
            },
        )
    }

    fn exec(&self, inputs: Vec<VariableData>) -> (outputs: Vec<VariableData>) {
        match operands(&inputs) {
            Some((a, b)) => result_of(a.checked_add(b)),
            None => result_of(None),
        }
    }
}

/// The product of two integers.
pub struct MulOperation;

impl Callable for MulOperation {
    open spec fn outcome(&self, inputs: Values) -> Values {
        one_result(
            match two_integers(inputs) {
                Some((a, b)) => a.checked_mul(b),
                None => None,
            },
        )
    }

    fn exec(&self, inputs: Vec<VariableData>) -> (outputs: Vec<VariableData>) {
        match operands(&inputs) {
            Some((a, b)) => result_of(a.checked_mul(b)),
            None => result_of(None),
        }
    }
}

/// The arithmetic that can be called from a context.
pub enum Arithmetic {
    /// The sum of two integers.
    Add(AddOperation),
    /// The product of two integers.
    Mul(MulOperation),
}

impl Callable for Arithmetic {
    open spec fn outcome(&self, inputs: Values) -> Values {
        match self {
            Arithmetic::Add(op) => op.outcome(inputs),
            Arithmetic::Mul(op) => op.outcome(inputs),
        }
    }

    fn exec(&self, inputs: Vec<VariableData>) -> (outputs: Vec<VariableData>) {
        match self {
            Arithmetic::Add(op) => op.exec(inputs),
            Arithmetic::Mul(op) => op.exec(inputs),
        }
    }
}

} // verus!
