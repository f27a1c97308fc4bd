use vertex_lang::compiler::ir_datatype::IRDataType;

fn boxed(t: IRDataType) -> Box<IRDataType> {
    Box::new(t)
}

#[test]
fn primitive_names_are_matched_literally() {
    assert_eq!(IRDataType::from("Int"), IRDataType::Int);
    assert_eq!(IRDataType::from("Float"), IRDataType::Float);
    assert_eq!(IRDataType::from("String"), IRDataType::String);
    assert_eq!(IRDataType::from("Char"), IRDataType::Char);
    assert_eq!(IRDataType::from("Bool"), IRDataType::Bool);
    assert_eq!(IRDataType::from("Error"), IRDataType::Error);
    assert_eq!(IRDataType::from("Null"), IRDataType::Null);
    assert_eq!(IRDataType::from("int"), IRDataType::Unresolved(String::from("int")));
    assert_eq!(IRDataType::from(""), IRDataType::Unresolved(String::new()));
    assert_eq!(IRDataType::from("Pöint"), IRDataType::Unresolved(String::from("Pöint")));
}

#[test]
fn composite_names_follow_the_suffix_grammar() {
    assert_eq!(IRDataType::from("Int[]"), IRDataType::List(boxed(IRDataType::Int)));
    assert_eq!(IRDataType::from("Int[12]"), IRDataType::Array(boxed(IRDataType::Int), 12));
    assert_eq!(IRDataType::from("Int?"), IRDataType::Option(boxed(IRDataType::Int)));
    assert_eq!(IRDataType::from("Int!"), IRDataType::Result(boxed(IRDataType::Int)));
    assert_eq!(
        IRDataType::from("(Int, Float)"),
        IRDataType::Tuple(vec![IRDataType::Int, IRDataType::Float])
    );
    assert_eq!(
        IRDataType::from("{String: Int}"),
        IRDataType::Dictionary(boxed(IRDataType::String), boxed(IRDataType::Int))
    );
    assert_eq!(
        IRDataType::from("Point[]?"),
        IRDataType::Option(boxed(IRDataType::List(boxed(IRDataType::Unresolved(String::from(
            "Point"
        ))))))
    );
    assert_eq!(
        IRDataType::from("( (Int,Bool)[] , {Char:(Int,Int)}! )"),
        IRDataType::Tuple(vec![
            IRDataType::List(boxed(IRDataType::Tuple(vec![IRDataType::Int, IRDataType::Bool]))),
            IRDataType::Result(boxed(IRDataType::Dictionary(
                boxed(IRDataType::Char),
                boxed(IRDataType::Tuple(vec![IRDataType::Int, IRDataType::Int]))
            ))),
        ])
    );
}

#[test]
fn edge_cases_of_type_names() {
    assert_eq!(IRDataType::from("[]"), IRDataType::Unresolved(String::from("[]")));
    assert_eq!(IRDataType::from("?"), IRDataType::Unresolved(String::from("?")));
    assert_eq!(IRDataType::from("()"), IRDataType::Tuple(vec![]));
    assert_eq!(IRDataType::from("(Int)"), IRDataType::Tuple(vec![IRDataType::Int]));
    assert_eq!(IRDataType::from("(Int,)"), IRDataType::Tuple(vec![IRDataType::Int]));
    assert_eq!(IRDataType::from("{Int}"), IRDataType::Unresolved(String::from("{Int}")));
    assert_eq!(IRDataType::from("Int[x]"), IRDataType::Unresolved(String::from("Int[x]")));
    assert_eq!(
        IRDataType::from("Int[4294967295]"),
        IRDataType::Array(boxed(IRDataType::Int), u32::MAX)
    );
    assert_eq!(
        IRDataType::from("Int[4294967296]"),
        IRDataType::Unresolved(String::from("Int[4294967296]"))
    );
    assert_eq!(
        IRDataType::from("Int[2][3]"),
        IRDataType::Array(boxed(IRDataType::Array(boxed(IRDataType::Int), 2)), 3)
    );
    assert_eq!(IRDataType::from("Int "), IRDataType::Unresolved(String::from("Int ")));
}

#[test]
fn a_type_is_resolved_if_no_leaf_is_unresolved_or_unknown() {
    assert!(IRDataType::Int.is_resolved());
    assert!(!IRDataType::Unknown.is_resolved());
    assert!(!IRDataType::from("Point").is_resolved());
    assert!(IRDataType::from("(Int, {String: Bool[]}?)").is_resolved());
    assert!(!IRDataType::from("(Int, {String: Point[]}?)").is_resolved());
    assert!(IRDataType::Struct(String::from("P"), vec![(String::from("x"), IRDataType::Float)])
        .is_resolved());
    assert!(!IRDataType::Struct(String::from("P"), vec![(String::from("x"), IRDataType::Unknown)])
        .is_resolved());
    assert!(IRDataType::Tuple(vec![]).is_resolved());
    let t = IRDataType::from("(Int, {String: Point[]}?)");
    assert_eq!(t.clone(), t);
}
