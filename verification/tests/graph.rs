use std::rc::Rc;
use vertex_lang::data::datatype::{DataType, StructField};
use vertex_lang::data::graph::{Argument, Connection, Function, Graph};
use vertex_lang::data::value::{Data, StructData};

fn node(name: &str, id: usize) -> Function {
    Function::new(
        name.to_string(),
        id,
        vec![Argument::new(String::from("a"), DataType::Int)],
        vec![Argument::new(String::from("r"), DataType::List(Box::new(DataType::Int)))],
    )
}

#[test]
fn a_graph_knows_the_parents_and_children_of_a_node() {
    let mut graph = Graph::new(node("params", 0), node("returns", 1));
    let a = graph.add_function(node("a", 2));
    let b = graph.add_function(node("b", 3));
    let c = graph.add_function(node("c", 4));
    graph.add_connection(Connection::new(a.clone(), 0, c.clone(), 0));
    graph.add_connection(Connection::new(b.clone(), 0, c.clone(), 1));
    graph.add_connection(Connection::new(a.clone(), 0, b.clone(), 0));
    assert_eq!(graph.get_parent_functions(c.clone()), vec![a.clone(), b.clone()]);
    assert_eq!(graph.get_child_functions(a.clone()), vec![c.clone(), b.clone()]);
    assert_eq!(graph.get_parent_functions(a.clone()), vec![]);
    assert_eq!(graph.get_child_functions(c.clone()), vec![]);
    assert_eq!(graph.get_functions(), &vec![a.clone(), b.clone(), c.clone()]);
    assert_eq!(graph.get_connections().len(), 3);
    assert_eq!(graph.get_connections()[1].get_start(), (b.clone(), 0));
    assert_eq!(graph.get_connections()[1].get_end(), (c.clone(), 1));
    assert_eq!(graph.get_params().get_name(), "params");
    assert_eq!(graph.get_returns().get_node_id(), 1);
    // A node is known by what it holds, not by where it lies.
    assert_eq!(graph.get_child_functions(Rc::new(node("a", 2))), vec![c, b]);
    assert_eq!(graph.get_child_functions(Rc::new(node("a", 9))), vec![]);
}

#[test]
fn nodes_and_arguments_give_back_what_they_were_made_of() {
    let f = node("f", 5);
    assert_eq!(f.get_name(), "f");
    assert_eq!(f.get_node_id(), 5);
    assert_eq!(f.get_inputs().len(), 1);
    assert_eq!(f.get_inputs()[0].get_name(), "a");
    assert_eq!(f.get_inputs()[0].get_type(), &DataType::Int);
    assert_eq!(f.get_outputs()[0].get_type(), &DataType::List(Box::new(DataType::Int)));
    assert!(f.same(&node("f", 5)));
    assert!(!f.same(&node("f", 6)));
    assert!(!f.same(&node("g", 5)));
}

#[test]
fn types_are_compared_structurally() {
    let point = |field: &str| DataType::Struct {
        struct_name: String::from("Point"),
        fields: vec![StructField { name: field.to_string(), dtype: DataType::Float }],
    };
    assert!(point("x").same(&point("x")));
    assert!(!point("x").same(&point("y")));
    assert!(!point("x").same(&DataType::Int));
    assert!(DataType::Option(Box::new(point("x"))).same(&DataType::Option(Box::new(point("x")))));
    assert!(!DataType::Option(Box::new(DataType::Int)).same(&DataType::Result(Box::new(DataType::Int))));
    assert_eq!(point("x").clone(), point("x"));
}

#[test]
fn values_are_compared_structurally_and_floats_by_their_bits() {
    let nested = |n: i64| {
        Data::Dictionary(
            vec![Data::String(String::from("k"))],
            vec![Data::Tuple(vec![
                Data::Int(n),
                Data::Option(Box::new(Data::Char('c'))),
                Data::Struct(StructData { struct_type: String::from("P"), fields: vec![Data::Null] }),
            ])],
        )
    };
    assert!(nested(1).same(&nested(1)));
    assert!(!nested(1).same(&nested(2)));
    assert_eq!(nested(3).duplicate(), nested(3));
    assert_eq!(nested(3).clone(), nested(3));
    assert!(Data::Float(0.0f64.to_bits()).same(&Data::Float(0.0f64.to_bits())));
    assert!(!Data::Float(0.0f64.to_bits()).same(&Data::Float((-0.0f64).to_bits())));
    assert!(Data::Float(f64::NAN.to_bits()).same(&Data::Float(f64::NAN.to_bits())));
    assert!(!Data::List(vec![Data::Int(1)]).same(&Data::Array(vec![Data::Int(1)])));
    assert!(!Data::List(vec![Data::Int(1)]).same(&Data::List(vec![])));
    assert!(!Data::Error(String::from("a")).same(&Data::String(String::from("a"))));
    assert!(Data::Result(Box::new(Data::Bool(true))).same(&Data::Result(Box::new(Data::Bool(true)))));
}
