use std::rc::Rc;
use vertex_lang::context::function::{Context, Function, VariableData, DEPTH_LIMIT};
use vertex_lang::context::math::{AddOperation, Arithmetic, MulOperation};
use vertex_lang::data::datatype::DataType;
use vertex_lang::data::value::Data;

fn integer(value: &VariableData) -> i64 {
    match value.as_deref() {
        Some(Data::Int(n)) => *n,
        other => panic!("an integer was expected, not {:?}", other),
    }
}

fn madd() -> (Context<Arithmetic>, usize) {
    let mut context = Context::new();

    let add_func_index = context.add_function(Arithmetic::Add(AddOperation {}));
    let mul_func_index = context.add_function(Arithmetic::Mul(MulOperation {}));

    let mut madd_function = Function::new();
    let a_input = madd_function.add_input(DataType::Int);
    let b_input = madd_function.add_input(DataType::Int);
    let c_input = madd_function.add_input(DataType::Int);
    let d_var = madd_function.add_variable(DataType::Int);
    let out_var = madd_function.add_output(DataType::Int);
    madd_function.add_procedure(mul_func_index, vec![a_input, b_input], vec![d_var]);
    madd_function.add_procedure(add_func_index, vec![c_input, d_var], vec![out_var]);
    let madd_func_index = context.add_graph(madd_function);
    (context, madd_func_index)
}

#[test]
fn simple_madd_func() {
    let (context, madd_func_index) = madd();

    let madd_a: VariableData = Some(Rc::new(Data::Int(2)));
    let madd_b: VariableData = Some(Rc::new(Data::Int(3)));
    let madd_c: VariableData = Some(Rc::new(Data::Int(1)));
    let mut madd_output = context.exec(madd_func_index, vec![madd_a, madd_b, madd_c]);
    let madd_output = madd_output.remove(0);
    assert_eq!(integer(&madd_output), 7)
}

#[test]
fn calls_out_of_range_or_too_deep_give_nothing() {
    let (mut context, madd_func_index) = madd();
    let inputs = || -> Vec<VariableData> {
        vec![Some(Rc::new(Data::Int(2))), Some(Rc::new(Data::Int(3))), Some(Rc::new(Data::Int(1)))]
    };
    assert_eq!(context.exec(9, inputs()), vec![]);
    assert_eq!(context.call(madd_func_index, inputs(), 0), vec![]);
    // One level is used up by the function, the next by what it calls.
    assert_eq!(context.call(madd_func_index, inputs(), 1), vec![None]);
    assert_eq!(context.call(madd_func_index, inputs(), 2).len(), 1);
    assert_eq!(integer(&context.call(madd_func_index, inputs(), 2)[0]), 7);
    assert_eq!(DEPTH_LIMIT, 1024);
    // A function that calls itself ends when the depth is used up.
    let mut endless = Function::new();
    let x = endless.add_input(DataType::Int);
    let y = endless.add_output(DataType::Int);
    endless.add_procedure(madd_func_index + 1, vec![x], vec![y]);
    let index = context.add_graph(endless);
    assert_eq!(index, madd_func_index + 1);
    assert_eq!(context.exec(index, vec![Some(Rc::new(Data::Int(1)))]), vec![None]);
}

#[test]
fn arithmetic_gives_no_value_for_what_it_cannot_compute() {
    let mut context = Context::new();
    let add = context.add_function(Arithmetic::Add(AddOperation));
    let mul = context.add_function(Arithmetic::Mul(MulOperation));
    let pair = |a: Data, b: Data| -> Vec<VariableData> { vec![Some(Rc::new(a)), Some(Rc::new(b))] };
    assert_eq!(integer(&context.exec(add, pair(Data::Int(-2), Data::Int(9)))[0]), 7);
    assert_eq!(integer(&context.exec(mul, pair(Data::Int(-2), Data::Int(9)))[0]), -18);
    assert_eq!(context.exec(add, pair(Data::Int(i64::MAX), Data::Int(1))), vec![None]);
    assert_eq!(context.exec(mul, pair(Data::Int(i64::MIN), Data::Int(-1))), vec![None]);
    assert_eq!(context.exec(add, pair(Data::Int(1), Data::Bool(true))), vec![None]);
    assert_eq!(context.exec(add, vec![Some(Rc::new(Data::Int(1)))]), vec![None]);
    assert_eq!(context.exec(add, vec![None, Some(Rc::new(Data::Int(1)))]), vec![None]);
}
