use vertex_lang::compiler::ast::Operator;
use vertex_lang::compiler::context::Context;
use vertex_lang::modules::types::{DataType, FunctionHeader, FunctionImpl, Module};

fn build_module() -> Module {
    let mut my_mod = Module { name: String::from("my_mod"), functions: vec![], data_types: vec![] };

    let number_dt = DataType { name: String::from("number"), index: 0 };
    my_mod.add_data_type(number_dt);

    let bool_dt = DataType { name: String::from("bool"), index: 0 };
    my_mod.add_data_type(bool_dt);

    let string_dt = DataType { name: String::from("string"), index: 0 };
    my_mod.add_data_type(string_dt);

    let func1 = FunctionImpl {
        header: FunctionHeader {
            name: String::from("func1"),
            serial: false,
            parameters: vec![
                my_mod.find_data_type(&String::from("number")).unwrap().index,
                my_mod.find_data_type(&String::from("number")).unwrap().index,
            ],
            return_types: vec![my_mod.find_data_type(&String::from("bool")).unwrap().index],
        },
        variables: vec![],
        parameters: vec![],
        expressions: vec![],
        returned: vec![],
    };
    my_mod.add_function(func1);

    let func2 = FunctionImpl {
        header: FunctionHeader {
            name: String::from("func2"),
            serial: false,
            parameters: vec![
                my_mod.find_data_type(&String::from("string")).unwrap().index,
                my_mod.find_data_type(&String::from("string")).unwrap().index,
                my_mod.find_data_type(&String::from("string")).unwrap().index,
            ],
            return_types: vec![my_mod.find_data_type(&String::from("number")).unwrap().index],
        },
        variables: vec![],
        parameters: vec![],
        expressions: vec![],
        returned: vec![],
    };
    my_mod.add_function(func2);

    my_mod
}

#[test]
fn module_find_function() {
    let module = build_module();
    let function = module.find_function(&String::from("func2"));

    assert!(!function.is_none());
    assert_eq!(function.unwrap().header.name, String::from("func2"))
}

#[test]
fn module_find_data_type() {
    let module = build_module();
    let data_type = module.find_data_type(&String::from("string"));

    assert!(!data_type.is_none());
    assert_eq!(data_type.unwrap().name, String::from("string"))
}

#[test]
fn data_types_lie_at_their_index() {
    let module = build_module();
    assert_eq!(module.find_data_type(&String::from("bool")).unwrap().index, 1);
    assert_eq!(module.get_data_type(2).unwrap().name, "string");
    assert_eq!(module.get_data_type(2), Some(&DataType { name: String::from("string"), index: 2 }));
    assert!(module.get_data_type(3).is_none());
    assert!(module.find_data_type(&String::from("float")).is_none());
    assert!(module.find_function("func3").is_none());
    assert_eq!(module.function_index("func1"), Some(0));
    assert_eq!(module.find_function("func1").unwrap().header.parameters, vec![0, 0]);
    assert_eq!(module.find_function("func2").unwrap().header.return_types, vec![0]);
    let empty = Module::new("empty");
    assert_eq!(empty.name, "empty");
    assert!(empty.functions.is_empty() && empty.data_types.is_empty());
}

#[test]
fn a_context_finds_what_was_added_by_path_and_by_name() {
    let mut context = Context::new();
    let first = context.add_module(String::from("first")).path;
    let second = context.add_module(String::from("second")).path;
    assert!(context.has_module(first) && context.has_module(second));
    assert_eq!(context.get_module(second).name, "second");
    assert_eq!(context.find_module(&String::from("first")).unwrap().path, first);
    assert!(context.find_module(&String::from("third")).is_none());

    let number = context.add_data_type(String::from("number"), second).path;
    let text = context.add_data_type(String::from("text"), second).path;
    assert_eq!(context.get_data_type(number).name, "number");
    assert_eq!(context.find_data_type(second, &String::from("text")).unwrap().path, text);
    assert!(context.find_data_type(first, &String::from("text")).is_none());

    let print = context.add_native_function(String::from("print"), first).path;
    assert_eq!(context.get_native_function(print).name, "print");
    assert_eq!(context.find_native_function(first, &String::from("print")).unwrap().path, print);
    assert!(context.find_native_function(second, &String::from("print")).is_none());

    let main = context.add_function(String::from("main"), first, true, true, false).path;
    let other = context.add_function(String::from("other"), first, false, false, true).path;
    assert!(main != other);
    let function = context.find_function(first, &String::from("main")).unwrap();
    assert_eq!(function.path, main);
    assert_eq!(function.exportable, true);
    assert_eq!(function.serial, true);
    assert_eq!(function.acceleratable, false);
    assert_eq!(context.get_function(other).name, "other");
    assert!(context.get_function(other).acceleratable);
    assert!(context.find_function(second, &String::from("main")).is_none());
}

#[test]
fn operators_are_read_from_their_text() {
    let all = [
        ("+", Operator::Plus),
        ("-", Operator::Minus),
        ("*", Operator::Multiply),
        ("/", Operator::Divide),
        ("//", Operator::IntDivide),
        ("%", Operator::Modulus),
        ("**", Operator::Power),
        ("!", Operator::BooleanNot),
        ("~", Operator::BitwiseNegate),
    ];
    for (text, op) in all {
        assert_eq!(Operator::from_str(text), Some(op));
        assert_eq!(op.to_text(), text);
    }
    for text in ["", "++", "/*", "*/", "&", "***", "é"] {
        assert_eq!(Operator::from_str(text), None);
    }
}
