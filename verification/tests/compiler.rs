use vertex_lang::compiler::ast_to_ir::compile_context;
use vertex_lang::compiler::bytecode::{bytecode_from_ir, AssemblyError};
use vertex_lang::compiler::errors::{CompilerError, IRError};
use vertex_lang::compiler::ir_context::IRContext;
use vertex_lang::compiler::ir_datatype::IRDataType;
use vertex_lang::compiler::ir_function::IRFunction;
use vertex_lang::compiler::ir_node::{IRFuncCall, IRNode, IRNodeInput};
use vertex_lang::compiler::ir_path::{
    accessibility_of, can_access, match_path_accessibility, IRPathElement,
};
use vertex_lang::compiler::ir_struct::IRStruct;
use vertex_lang::compiler::nodes::{
    ArgumentListNode, ArgumentNode, AssignmentNode, BoolLiteralNode, ContextNode, ExpressionListNode,
    ExpressionNode, FloatLiteralNode, FunctionCallNode, FunctionNode, InnerVariableNode,
    IntLiteralNode, ModuleNode, NodePosition, StringLiteralNode, StructNode, VariableNode,
};
use vertex_lang::compiler::ordering::{expression_contains_variable, order_assignments};
use vertex_lang::data::value::Data;
use vertex_lang::registry::function::{FuncMeta, FunctionRegistry, VertexFunction};
use vertex_lang::runtime::bytecode::{FunctionCall, OperationInput};

fn at(line: usize, col: usize) -> NodePosition {
    NodePosition { line, col }
}

fn arg(name: &str, dtype: &str) -> ArgumentNode {
    ArgumentNode { position: at(0, 0), name: name.to_string(), dtype: dtype.to_string() }
}

fn args(list: Vec<ArgumentNode>) -> ArgumentListNode {
    ArgumentListNode { position: at(0, 0), arguments: list }
}

fn var(name: &str) -> ExpressionNode {
    ExpressionNode::Variable(VariableNode { position: at(9, 9), name: name.to_string() })
}

fn lit(value: i64) -> ExpressionNode {
    ExpressionNode::IntLiteral(IntLiteralNode { position: at(0, 0), value })
}

fn call(name: &str, external: bool, arguments: Vec<ExpressionNode>) -> ExpressionNode {
    ExpressionNode::FunctionCall(FunctionCallNode {
        position: at(3, 4),
        function_name: name.to_string(),
        serial: false,
        external,
        arguments: ExpressionListNode { position: at(0, 0), expressions: arguments },
    })
}

fn assign(name: &str, expression: ExpressionNode) -> AssignmentNode {
    AssignmentNode {
        position: at(5, 6),
        variable: Some(VariableNode { position: at(5, 6), name: name.to_string() }),
        expression,
    }
}

fn function(
    name: &str,
    export: bool,
    params: Vec<ArgumentNode>,
    returns: Vec<ArgumentNode>,
    assignments: Vec<AssignmentNode>,
) -> FunctionNode {
    FunctionNode {
        position: at(2, 5),
        name: name.to_string(),
        export,
        serial: false,
        params: args(params),
        returns: args(returns),
        functions: vec![],
        structs: vec![],
        assignments,
    }
}

fn module(name: &str, export: bool, functions: Vec<FunctionNode>) -> ModuleNode {
    ModuleNode {
        position: at(1, 1),
        name: name.to_string(),
        export,
        modules: vec![],
        functions,
        structs: vec![],
    }
}

fn path(elements: &[(&str, bool)]) -> Vec<IRPathElement> {
    elements
        .iter()
        .map(|(name, exported)| IRPathElement { identifier: name.to_string(), exported: *exported })
        .collect()
}

fn registry() -> FunctionRegistry {
    let mut function_registry = FunctionRegistry::new();
    function_registry
        .register(
            FuncMeta::new(
                String::from("Add"),
                VertexFunction { id: 10 },
                vec![IRDataType::Int, IRDataType::Int],
                IRDataType::Int,
            )
            .unwrap(),
        )
        .unwrap();
    function_registry
        .register(
            FuncMeta::new(
                String::from("Mul"),
                VertexFunction { id: 11 },
                vec![IRDataType::Int, IRDataType::Int],
                IRDataType::Int,
            )
            .unwrap(),
        )
        .unwrap();
    function_registry
}

fn math_source() -> ContextNode {
    let point = StructNode {
        position: at(3, 9),
        name: String::from("Point"),
        export: true,
        fields: args(vec![arg("x", "Float"), arg("y", "Float")]),
    };
    let vector = ModuleNode {
        position: at(2, 5),
        name: String::from("Vector"),
        export: true,
        modules: vec![],
        functions: vec![],
        structs: vec![point],
    };
    let add = function(
        "Add",
        true,
        vec![arg("a", "Int"), arg("b", "Int")],
        vec![arg("value", "Int")],
        vec![assign("value", call("Add", true, vec![var("a"), var("b")]))],
    );
    let multiply = function(
        "Multiply",
        true,
        vec![arg("a", "Int"), arg("b", "Int")],
        vec![arg("value", "Int")],
        vec![assign("value", call("Mul", true, vec![var("a"), var("b")]))],
    );
    ContextNode {
        modules: vec![ModuleNode {
            position: at(1, 1),
            name: String::from("Math"),
            export: true,
            modules: vec![vector],
            functions: vec![add, multiply],
            structs: vec![],
        }],
    }
}

#[test]
fn ast_to_ir_load_functions_and_structs() {
    let function_registry = registry();
    let source = compile_context(math_source(), &function_registry).unwrap();

    let add_func = IRFunction::new(
        path(&[("Math", true), ("Add", true)]),
        vec![IRDataType::Int, IRDataType::Int],
        IRDataType::Int,
        vec![IRNode::new(
            IRFuncCall::External(String::from("Add")),
            vec![IRNodeInput::FunctionParam(0), IRNodeInput::FunctionParam(1)],
            IRDataType::Int,
        )],
    );
    assert_eq!(add_func.accessability(), 0);

    let mul_func = IRFunction::new(
        path(&[("Math", true), ("Multiply", true)]),
        vec![IRDataType::Int, IRDataType::Int],
        IRDataType::Int,
        vec![IRNode::new(
            IRFuncCall::External(String::from("Mul")),
            vec![IRNodeInput::FunctionParam(0), IRNodeInput::FunctionParam(1)],
            IRDataType::Int,
        )],
    );
    assert_eq!(mul_func.accessability(), 0);

    let mut point_struct = IRStruct::new(path(&[("Math", true), ("Vector", true), ("Point", true)]));
    assert_eq!(point_struct.accessability(), 0);
    point_struct.add_field(String::from("x"), IRDataType::Float).unwrap();
    point_struct.add_field(String::from("y"), IRDataType::Float).unwrap();

    let mut target = IRContext::new();
    target.add_function(add_func);
    target.add_function(mul_func);
    target.add_struct(point_struct);

    assert_eq!(source, target);
}

#[test]
fn ir_load_functions_and_structs() {
    let function_registry = registry();
    let source = compile_context(math_source(), &function_registry).unwrap();

    assert_eq!(source.get_functions().len(), 2);
    assert_eq!(source.get_structs().len(), 1);
    let add = source.get_function(&path(&[("Math", true), ("Add", true)])).unwrap();
    assert_eq!(add.get_inputs(), &vec![IRDataType::Int, IRDataType::Int]);
    assert_eq!(add.get_output(), &IRDataType::Int);
    assert_eq!(add.get_statements().len(), 1);
    assert_eq!(
        add.get_statements()[0].get_function(),
        &IRFuncCall::External(String::from("Add"))
    );
    assert_eq!(
        add.get_statements()[0].get_inputs(),
        &vec![IRNodeInput::FunctionParam(0), IRNodeInput::FunctionParam(1)]
    );
    assert!(source.get_function(&path(&[("Math", true), ("Multiply", true)])).is_some());
    assert!(source.get_function(&path(&[("Math", true), ("Mul", true)])).is_none());
    let point = source
        .get_struct(&path(&[("Math", true), ("Vector", true), ("Point", true)]))
        .unwrap();
    assert_eq!(point.get_field("x"), Some(&IRDataType::Float));
    assert_eq!(point.get_field("y"), Some(&IRDataType::Float));
    assert_eq!(point.get_field("z"), None);
}

#[test]
fn accessibility_counts_what_encloses_the_innermost_hidden_element() {
    assert_eq!(accessibility_of(&path(&[])), 0);
    assert_eq!(accessibility_of(&path(&[("A", true), ("B", true)])), 0);
    assert_eq!(accessibility_of(&path(&[("A", false), ("B", true)])), 0);
    assert_eq!(accessibility_of(&path(&[("A", false), ("B", false), ("C", true)])), 1);
    assert_eq!(accessibility_of(&path(&[("A", true), ("B", true), ("C", false)])), 2);
    for parent in [path(&[("A", true), ("B", false)]), path(&[("A", false), ("B", true)])] {
        for exported in [true, false] {
            let mut child = parent.clone();
            child.push(IRPathElement { identifier: String::from("C"), exported });
            assert!(accessibility_of(&child) >= accessibility_of(&parent));
        }
    }
}

#[test]
fn exports_are_visible_to_cousins_and_hidden_elements_only_inside_their_parent() {
    // In A, the module B is hidden; so is what it exports.
    let in_hidden_module = path(&[("A", true), ("B", false), ("F", true)]);
    // In A.B, the function G is hidden.
    let hidden = path(&[("A", true), ("B", true), ("G", false)]);
    let exported = path(&[("A", true), ("B", true), ("F", true)]);
    let sibling = path(&[("A", true), ("B", true), ("H", true)]);
    let cousin = path(&[("A", true), ("C", true), ("H", true)]);
    let stranger = path(&[("X", true), ("H", true)]);
    let inside = path(&[("A", true), ("B", true), ("G", false), ("I", true)]);
    assert!(can_access(&sibling, &exported));
    assert!(can_access(&cousin, &exported));
    assert!(can_access(&stranger, &exported));
    assert!(can_access(&sibling, &in_hidden_module));
    assert!(can_access(&cousin, &in_hidden_module));
    assert!(!can_access(&stranger, &in_hidden_module));
    assert!(can_access(&sibling, &hidden));
    assert!(!can_access(&cousin, &hidden));
    assert!(!can_access(&stranger, &hidden));
    assert!(can_access(&inside, &hidden));
    assert!(can_access(&hidden, &hidden));
    assert!(!can_access(&path(&[("A", true)]), &hidden));
    assert_eq!(match_path_accessibility(&sibling, &exported), 2);
    assert_eq!(match_path_accessibility(&cousin, &exported), 1);
    assert_eq!(match_path_accessibility(&stranger, &exported), 0);
    assert_eq!(match_path_accessibility(&exported, &exported), 3);
}

#[test]
fn assignments_are_ordered_so_that_writers_come_first() {
    let assignments = vec![
        assign("out", call("Add", true, vec![var("x"), lit(1)])),
        assign("y", lit(7)),
        assign("x", call("Add", true, vec![var("a"), var("y")])),
    ];
    let params = vec![arg("a", "Int")];
    assert_eq!(order_assignments(&assignments, &params), Ok(vec![1, 2, 0]));
    let independent = vec![assign("p", lit(1)), assign("q", lit(2)), assign("r", lit(3))];
    assert_eq!(order_assignments(&independent, &params), Ok(vec![0, 1, 2]));
    let x = VariableNode { position: at(0, 0), name: String::from("x") };
    assert!(expression_contains_variable(&assignments[0].expression, &x));
    assert!(!expression_contains_variable(&assignments[1].expression, &x));
    let inner = ExpressionNode::InnerVariable(InnerVariableNode {
        position: at(0, 0),
        path: vec![String::from("x"), String::from("field")],
    });
    assert!(expression_contains_variable(&inner, &x));
}

#[test]
fn circular_assignments_are_rejected() {
    let assignments = vec![
        assign("ok", lit(1)),
        assign("a", call("Add", true, vec![var("b"), lit(1)])),
        assign("b", call("Add", true, vec![var("a"), lit(1)])),
    ];
    assert_eq!(order_assignments(&assignments, &vec![]), Err(1));
    let f = function("F", true, vec![], vec![], assignments);
    let source = ContextNode { modules: vec![module("M", true, vec![f])] };
    let error = compile_context(source, &registry()).unwrap_err();
    assert_eq!(error.get_source(), &IRError::CircularDependency(String::from("a")));
    assert_eq!(error.get_position(), at(5, 6));
    assert_eq!(error.to_text(), "Error: The assignment of 'a' depends on itself, at 5:6");
    let shadowed = vec![assign("a", call("Add", true, vec![var("a"), lit(1)]))];
    assert_eq!(order_assignments(&shadowed, &vec![arg("a", "Int")]), Ok(vec![0]));
    assert_eq!(order_assignments(&shadowed, &vec![]), Err(0));
}

#[test]
fn statements_come_in_post_order_and_refer_backwards() {
    // out = Add(x, 1); x = Add(a, Mul(a, 2))
    let f = function(
        "F",
        true,
        vec![arg("a", "Int")],
        vec![arg("out", "Int")],
        vec![
            assign("out", call("Add", true, vec![var("x"), lit(1)])),
            assign("x", call("Add", true, vec![var("a"), call("Mul", true, vec![var("a"), lit(2)])])),
        ],
    );
    let source = ContextNode { modules: vec![module("M", true, vec![f])] };
    let program = compile_context(source, &registry()).unwrap();
    let statements = program.get_functions()[0].get_statements();
    let calls: Vec<&IRFuncCall> = statements.iter().map(|s| s.get_function()).collect();
    assert_eq!(
        calls,
        vec![
            &IRFuncCall::IntConstant(2),
            &IRFuncCall::External(String::from("Mul")),
            &IRFuncCall::External(String::from("Add")),
            &IRFuncCall::IntConstant(1),
            &IRFuncCall::External(String::from("Add")),
        ]
    );
    assert_eq!(
        statements[1].get_inputs(),
        &vec![IRNodeInput::FunctionParam(0), IRNodeInput::HiddenNode(0)]
    );
    assert_eq!(
        statements[2].get_inputs(),
        &vec![IRNodeInput::FunctionParam(0), IRNodeInput::HiddenNode(1)]
    );
    assert_eq!(
        statements[4].get_inputs(),
        &vec![IRNodeInput::HiddenNode(2), IRNodeInput::HiddenNode(3)]
    );
    for (i, statement) in statements.iter().enumerate() {
        for input in statement.get_inputs() {
            if let IRNodeInput::HiddenNode(j) = input {
                assert!((*j as usize) < i);
            }
        }
        assert_eq!(statement.get_output(), &IRDataType::Int);
    }
}

#[test]
fn unknown_names_are_reported_where_they_stand() {
    let f = function("F", true, vec![], vec![], vec![assign("x", var("nowhere"))]);
    let source = ContextNode { modules: vec![module("M", true, vec![f])] };
    let error = compile_context(source, &registry()).unwrap_err();
    assert_eq!(
        error,
        CompilerError::new(at(9, 9), IRError::UnknownIdentifier(String::from("nowhere")))
    );
    assert_eq!(
        error.to_text(),
        "Error: Cannot find element 'nowhere' within the current scope, at 9:9"
    );
    let g = function("G", true, vec![], vec![], vec![assign("x", call("Sub", true, vec![]))]);
    let source = ContextNode { modules: vec![module("M", true, vec![g])] };
    let error = compile_context(source, &registry()).unwrap_err();
    assert_eq!(
        error,
        CompilerError::new(at(3, 4), IRError::UnknownIdentifier(String::from("Sub")))
    );
}

#[test]
fn duplicate_fields_and_inner_variables_are_rejected() {
    let twice = StructNode {
        position: at(1, 1),
        name: String::from("S"),
        export: true,
        fields: ArgumentListNode {
            position: at(1, 1),
            arguments: vec![
                arg("x", "Int"),
                ArgumentNode { position: at(4, 2), name: String::from("x"), dtype: String::from("Int") },
            ],
        },
    };
    let mut m = module("M", true, vec![]);
    m.structs.push(twice);
    let error = compile_context(ContextNode { modules: vec![m] }, &registry()).unwrap_err();
    assert_eq!(
        error,
        CompilerError::new(at(4, 2), IRError::IdentifierAlreadyExists(String::from("x")))
    );
    assert_eq!(
        error.to_text(),
        "Error: An element with the name 'x' already exists, at 4:2"
    );
    let inner = ExpressionNode::InnerVariable(InnerVariableNode {
        position: at(8, 1),
        path: vec![String::from("p"), String::from("x")],
    });
    let f = function("F", true, vec![arg("p", "Point")], vec![], vec![assign("x", inner)]);
    let error = compile_context(
        ContextNode { modules: vec![module("M", true, vec![f])] },
        &registry(),
    )
    .unwrap_err();
    assert_eq!(error, CompilerError::new(at(8, 1), IRError::UnsupportedExpression));
}

#[test]
fn literals_become_constant_calls() {
    let f = function(
        "F",
        true,
        vec![],
        vec![arg("a", "Int"), arg("b", "Bool")],
        vec![
            assign("i", lit(-3)),
            assign(
                "f",
                ExpressionNode::FloatLiteral(FloatLiteralNode {
                    position: at(0, 0),
                    value: 2.5f64.to_bits(),
                }),
            ),
            assign(
                "s",
                ExpressionNode::StringLiteral(StringLiteralNode {
                    position: at(0, 0),
                    value: String::from("hi"),
                }),
            ),
            assign(
                "b",
                ExpressionNode::BoolLiteral(BoolLiteralNode { position: at(0, 0), value: true }),
            ),
        ],
    );
    let program =
        compile_context(ContextNode { modules: vec![module("M", true, vec![f])] }, &registry())
            .unwrap();
    let function = &program.get_functions()[0];
    assert_eq!(
        function.get_output(),
        &IRDataType::Tuple(vec![IRDataType::Int, IRDataType::Bool])
    );
    let statements = function.get_statements();
    assert_eq!(statements[0], IRNode::new(IRFuncCall::IntConstant(-3), vec![], IRDataType::Int));
    assert_eq!(
        statements[1],
        IRNode::new(IRFuncCall::FloatConstant(2.5f64.to_bits()), vec![], IRDataType::Float)
    );
    assert_eq!(
        statements[2],
        IRNode::new(IRFuncCall::StringConstant(String::from("hi")), vec![], IRDataType::String)
    );
    assert_eq!(statements[3], IRNode::new(IRFuncCall::BoolConstant(true), vec![], IRDataType::Bool));
}

fn two_functions() -> ContextNode {
    // Func1(in) = { x = Func2(in, Add(1, 2)); out = Add(x, 1) }
    // Func2(a, b) = { x1 = Add(a, b); x2 = Add(a, x1); c = Add(b, x2) }
    let func1 = function(
        "Func1",
        false,
        vec![arg("in", "Int")],
        vec![arg("out", "Int")],
        vec![
            assign(
                "x",
                call("Func2", false, vec![var("in"), call("Add", true, vec![lit(1), lit(2)])]),
            ),
            assign("out", call("Add", true, vec![var("x"), lit(1)])),
        ],
    );
    let func2 = function(
        "Func2",
        false,
        vec![arg("a", "Int"), arg("b", "Int")],
        vec![arg("c", "Int")],
        vec![
            assign("x1", call("Add", true, vec![var("a"), var("b")])),
            assign("x2", call("Add", true, vec![var("a"), var("x1")])),
            assign("c", call("Add", true, vec![var("b"), var("x2")])),
        ],
    );
    ContextNode { modules: vec![module("MainModule", false, vec![func1, func2])] }
}

#[test]
fn calls_of_siblings_are_bound_by_index() {
    let program = compile_context(two_functions(), &registry()).unwrap();
    let func1 = &program.get_functions()[0];
    assert_eq!(func1.accessability(), 1);
    let statements = func1.get_statements();
    assert_eq!(statements.len(), 6);
    assert_eq!(statements[3].get_function(), &IRFuncCall::Internal(1));
    assert_eq!(
        statements[3].get_inputs(),
        &vec![IRNodeInput::FunctionParam(0), IRNodeInput::HiddenNode(2)]
    );
    assert_eq!(statements[3].get_output(), &IRDataType::Unknown);
    assert_eq!(
        statements[5].get_inputs(),
        &vec![IRNodeInput::HiddenNode(3), IRNodeInput::HiddenNode(4)]
    );
}

#[test]
fn the_closest_function_wins_a_call_and_ties_are_ambiguous() {
    let caller = |name: &str, callee: &str| {
        function(name, true, vec![], vec![], vec![assign("x", call(callee, false, vec![]))])
    };
    let leaf = |name: &str, export: bool| function(name, export, vec![], vec![], vec![]);
    // M { A { T } ; T ; C calls T } : from M.C, M.T (prefix 1, rest 1) beats M.A.T (rest 2).
    let mut a = leaf("A", true);
    a.functions.push(leaf("T", true));
    let m = module("M", true, vec![a, leaf("T", true), caller("C", "T")]);
    let program = compile_context(ContextNode { modules: vec![m] }, &registry()).unwrap();
    let names: Vec<String> = program
        .get_functions()
        .iter()
        .map(|f| f.path().iter().map(|e| e.identifier.clone()).collect::<Vec<_>>().join("."))
        .collect();
    assert_eq!(names, vec!["M.A.T", "M.A", "M.T", "M.C"]);
    assert_eq!(
        program.get_functions()[3].get_statements()[0].get_function(),
        &IRFuncCall::Internal(2)
    );
    // Two functions of the same path answer equally well.
    let m = module("M", true, vec![leaf("T", true), leaf("T", true), caller("C", "T")]);
    let error = compile_context(ContextNode { modules: vec![m] }, &registry()).unwrap_err();
    assert_eq!(error, CompilerError::new(at(2, 5), IRError::AmbiguousCall(String::from("T"))));
    // A hidden function of another module does not answer; the call stays unbound.
    let other = module("N", true, vec![leaf("T", false)]);
    let m = module("M", true, vec![caller("C", "T")]);
    let program = compile_context(ContextNode { modules: vec![other, m] }, &registry()).unwrap();
    assert_eq!(
        program.get_functions()[1].get_statements()[0].get_function(),
        &IRFuncCall::Unresolved(String::from("T"))
    );
    assert_eq!(
        bytecode_from_ir(program, &registry()).unwrap_err(),
        AssemblyError::UnresolvedCall(String::from("T"))
    );
}

#[test]
fn assembling_interns_constants_and_host_functions() {
    let program = compile_context(two_functions(), &registry()).unwrap();
    let bytecode = bytecode_from_ir(program, &registry()).unwrap();
    let constants: Vec<Data> = bytecode.get_constants().iter().map(|c| (**c).clone()).collect();
    assert_eq!(constants, vec![Data::Int(1), Data::Int(2)]);
    assert_eq!(bytecode.get_external_functions().len(), 1);
    assert_eq!(bytecode.get_external_functions()[0].get_function_name(), "Add");
    assert_eq!(bytecode.get_external_functions()[0].get_function_exec(), &VertexFunction { id: 10 });
    assert_eq!(bytecode.get_internal_functions().len(), 2);
    let func1 = bytecode.get_internal_functions()[0].get_operations();
    let calls: Vec<FunctionCall> = func1.iter().map(|op| *op.get_function()).collect();
    assert_eq!(
        calls,
        vec![
            FunctionCall::Constant(0),
            FunctionCall::Constant(1),
            FunctionCall::External(0),
            FunctionCall::Internal(1),
            FunctionCall::Constant(0),
            FunctionCall::External(0),
        ]
    );
    assert_eq!(func1[3].get_inputs(), &vec![OperationInput::Param(0), OperationInput::Hidden(2)]);
    for function in bytecode.get_internal_functions() {
        for (i, op) in function.get_operations().iter().enumerate() {
            for input in op.get_inputs() {
                if let OperationInput::Hidden(j) = input {
                    assert!(*j < i);
                }
            }
        }
    }
}

#[test]
fn assembling_fails_on_host_functions_that_are_not_registered() {
    let program = compile_context(math_source(), &registry()).unwrap();
    let empty = FunctionRegistry::new();
    assert_eq!(
        bytecode_from_ir(program, &empty).unwrap_err(),
        AssemblyError::UnknownExternal(String::from("Add"))
    );
    assert_eq!(
        AssemblyError::UnknownExternal(String::from("Add")).to_text(),
        "Unknown function: Add"
    );
}
