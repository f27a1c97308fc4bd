use std::sync::Arc;
use vertex_lang::compiler::ast_to_ir::compile_context;
use vertex_lang::compiler::bytecode::bytecode_from_ir;
use vertex_lang::compiler::ir_datatype::IRDataType;
use vertex_lang::compiler::nodes::{
    ArgumentListNode, ArgumentNode, AssignmentNode, ContextNode, ExpressionListNode,
    ExpressionNode, FunctionCallNode, FunctionNode, IntLiteralNode, ModuleNode, NodePosition,
    VariableNode,
};
use vertex_lang::data::value::Data;
use vertex_lang::registry::function::{FuncMeta, FunctionRegistry, VertexFunction};
use vertex_lang::runtime::bytecode::{
    ExternalFunction, FunctionCall, InternalFunction, Operation, OperationInput, VertexBytecode,
};
use vertex_lang::runtime::machine::VmError;
use vertex_lang::runtime::virtual_machine::{Execution, Tick, VirtualMachine};

const ADD: VertexFunction = VertexFunction { id: 0 };
const MUL: VertexFunction = VertexFunction { id: 1 };

fn arithmetic(function: VertexFunction, inputs: &Vec<Arc<Data>>) -> Data {
    match (&*inputs[0], &*inputs[1]) {
        (Data::Int(a), Data::Int(b)) if function == ADD => Data::Int(a + b),
        (Data::Int(a), Data::Int(b)) if function == MUL => Data::Int(a * b),
        _ => Data::Error(String::from("unexpected data type")),
    }
}

fn position() -> NodePosition {
    NodePosition { line: 0, col: 0 }
}

fn arg(name: &str) -> ArgumentNode {
    ArgumentNode { position: position(), name: name.to_string(), dtype: String::from("Int") }
}

fn var(name: &str) -> ExpressionNode {
    ExpressionNode::Variable(VariableNode { position: position(), name: name.to_string() })
}

fn lit(value: i64) -> ExpressionNode {
    ExpressionNode::IntLiteral(IntLiteralNode { position: position(), value })
}

fn call(name: &str, external: bool, arguments: Vec<ExpressionNode>) -> ExpressionNode {
    ExpressionNode::FunctionCall(FunctionCallNode {
        position: position(),
        function_name: name.to_string(),
        serial: false,
        external,
        arguments: ExpressionListNode { position: position(), expressions: arguments },
    })
}

fn assign(name: &str, expression: ExpressionNode) -> AssignmentNode {
    AssignmentNode {
        position: position(),
        variable: Some(VariableNode { position: position(), name: name.to_string() }),
        expression,
    }
}

fn function(
    name: &str,
    params: Vec<ArgumentNode>,
    returns: Vec<ArgumentNode>,
    assignments: Vec<AssignmentNode>,
) -> FunctionNode {
    FunctionNode {
        position: position(),
        name: name.to_string(),
        export: false,
        serial: false,
        params: ArgumentListNode { position: position(), arguments: params },
        returns: ArgumentListNode { position: position(), arguments: returns },
        functions: vec![],
        structs: vec![],
        assignments,
    }
}

fn registry() -> FunctionRegistry {
    let mut registry = FunctionRegistry::new();
    for (name, func) in [("Add", ADD), ("Mul", MUL)] {
        registry
            .register(
                FuncMeta::new(
                    name.to_string(),
                    func,
                    vec![IRDataType::Int, IRDataType::Int],
                    IRDataType::Int,
                )
                .unwrap(),
            )
            .unwrap();
    }
    registry
}

fn compile(functions: Vec<FunctionNode>) -> VertexBytecode {
    let source = ContextNode {
        modules: vec![ModuleNode {
            position: position(),
            name: String::from("MainModule"),
            export: false,
            modules: vec![],
            functions,
            structs: vec![],
        }],
    };
    let registry = registry();
    let ir = compile_context(source, &registry).unwrap();
    bytecode_from_ir(ir, &registry).unwrap()
}

fn hello_world() -> VertexBytecode {
    // Func1 = function { params = (in: Int); return = (out: Int)
    //     x = Func2(in, extern Add(1, 2)); out = extern Add(x, 1) }
    // Func2 = function { params = (a: Int, b: Int); return = (c: Int)
    //     x1 = extern Add(a, b); x2 = extern Add(a, x1); c = extern Add(b, x2) }
    compile(vec![
        function(
            "Func1",
            vec![arg("in")],
            vec![arg("out")],
            vec![
                assign(
                    "x",
                    call("Func2", false, vec![var("in"), call("Add", true, vec![lit(1), lit(2)])]),
                ),
                assign("out", call("Add", true, vec![var("x"), lit(1)])),
            ],
        ),
        function(
            "Func2",
            vec![arg("a"), arg("b")],
            vec![arg("c")],
            vec![
                assign("x1", call("Add", true, vec![var("a"), var("b")])),
                assign("x2", call("Add", true, vec![var("a"), var("x1")])),
                assign("c", call("Add", true, vec![var("b"), var("x2")])),
            ],
        ),
    ])
}

#[test]
fn vm_hello_world() {
    let vm = VirtualMachine::new(hello_world());
    let res = vm.execute(0, vec![Data::Int(5)], &arithmetic, 1000).unwrap();
    // Func2(5, 3) = 3 + (5 + (5 + 3)) = 16, and Func1(5) = 16 + 1.
    assert_eq!(*res, Data::Int(17));
}

#[test]
fn repeated_executions_give_the_same_value() {
    let vm = VirtualMachine::new(hello_world());
    let first = vm.execute(0, vec![Data::Int(5)], &arithmetic, 1000);
    let second = vm.execute(0, vec![Data::Int(5)], &arithmetic, 1000);
    assert_eq!(first, second);
    assert_eq!(vm.execute(1, vec![Data::Int(5), Data::Int(3)], &arithmetic, 1000), Ok(Arc::new(Data::Int(16))));
}

#[test]
fn a_function_that_only_calls_another_gives_the_same_value() {
    // F(a, b) = Add(a, Mul(a, b)); G(a, b) = F(a, b)
    let bytecode = compile(vec![
        function(
            "F",
            vec![arg("a"), arg("b")],
            vec![arg("r")],
            vec![assign(
                "r",
                call("Add", true, vec![var("a"), call("Mul", true, vec![var("a"), var("b")])]),
            )],
        ),
        function(
            "G",
            vec![arg("a"), arg("b")],
            vec![arg("r")],
            vec![assign("r", call("F", false, vec![var("a"), var("b")]))],
        ),
    ]);
    let vm = VirtualMachine::new(bytecode);
    for (a, b) in [(0, 0), (2, 3), (-4, 7), (100, -1)] {
        let inputs = vec![Data::Int(a), Data::Int(b)];
        let f = vm.execute(0, inputs.clone(), &arithmetic, 1000).unwrap();
        let g = vm.execute(1, inputs, &arithmetic, 1000).unwrap();
        assert_eq!(*f, Data::Int(a + a * b));
        assert_eq!(f, g);
    }
}

fn by_hand(functions: Vec<Vec<Operation>>, constants: Vec<Data>) -> VertexBytecode {
    let mut bytecode = VertexBytecode::new();
    bytecode.add_external_function(ExternalFunction::new(String::from("Add"), ADD));
    for constant in constants {
        bytecode.add_constant(constant);
    }
    for operations in functions {
        let mut function = InternalFunction::new();
        for operation in operations {
            function.add_operation(operation);
        }
        bytecode.add_internal_function(function);
    }
    bytecode
}

#[test]
fn a_function_whose_last_operation_is_a_constant_gives_the_constant() {
    let bytecode = by_hand(
        vec![vec![Operation::new(FunctionCall::Constant(0), vec![])]],
        vec![Data::String(String::from("hi"))],
    );
    let vm = VirtualMachine::new(bytecode);
    assert_eq!(
        vm.execute(0, vec![], &arithmetic, 10),
        Ok(Arc::new(Data::String(String::from("hi"))))
    );
}

#[test]
fn faults_of_an_execution() {
    let add = |inputs| Operation::new(FunctionCall::External(0), inputs);
    let cases = vec![
        (vec![Operation::new(FunctionCall::Internal(9), vec![])], VmError::UnknownFunction(9)),
        (vec![Operation::new(FunctionCall::External(3), vec![])], VmError::UnknownExternal(3)),
        (vec![Operation::new(FunctionCall::Constant(1), vec![])], VmError::UnknownConstant(1)),
        (vec![add(vec![OperationInput::Param(0)])], VmError::UnknownParam(0)),
        (vec![add(vec![OperationInput::Hidden(0)])], VmError::UnknownOperation(0)),
        (vec![], VmError::EmptyFunction(0)),
    ];
    for (operations, fault) in cases {
        let vm = VirtualMachine::new(by_hand(vec![operations], vec![Data::Int(1)]));
        assert_eq!(vm.execute(0, vec![], &arithmetic, 10), Err(fault));
    }
    let vm = VirtualMachine::new(by_hand(vec![], vec![]));
    assert_eq!(vm.execute(0, vec![], &arithmetic, 10), Err(VmError::UnknownFunction(0)));
    // A function that calls itself never ends.
    let recursive = by_hand(vec![vec![Operation::new(FunctionCall::Internal(0), vec![])]], vec![]);
    let vm = VirtualMachine::new(recursive);
    assert_eq!(vm.execute(0, vec![], &arithmetic, 50), Err(VmError::StepLimit));
    assert_eq!(vm.execute(0, vec![], &arithmetic, 0), Err(VmError::StepLimit));
}

#[test]
fn an_execution_can_be_driven_step_by_step() {
    // F(a) = Add(a, 1)
    let bytecode = by_hand(
        vec![vec![
            Operation::new(FunctionCall::Constant(0), vec![]),
            Operation::new(
                FunctionCall::External(0),
                vec![OperationInput::Param(0), OperationInput::Hidden(0)],
            ),
        ]],
        vec![Data::Int(1)],
    );
    let vm = VirtualMachine::new(bytecode);
    let (mut execution, root): (Execution, usize) = vm.start(4, 0, &vec![Data::Int(41)]).unwrap();
    assert_eq!(root, 1);
    assert!(execution.value(root).is_none());
    assert_eq!(execution.value(0), Some(Arc::new(Data::Int(41))));
    assert!(execution.has_ready());
    // The job of the root expands the function and hibernates.
    match execution.tick(vm.get_bytecode()).unwrap() {
        Tick::Ran { notified } => assert!(notified.is_empty()),
        _ => panic!("the expansion was expected"),
    }
    assert_eq!(execution.node_count(), 4);
    // The host function is to be called next.
    let (job, function, inputs) = match execution.tick(vm.get_bytecode()).unwrap() {
        Tick::Call { job, function, inputs } => (job, function, inputs),
        _ => panic!("a call was expected"),
    };
    assert_eq!(job.get_scheduler_uid(), 4);
    assert_eq!(function, ADD);
    assert_eq!(inputs, vec![Arc::new(Data::Int(41)), Arc::new(Data::Int(1))]);
    assert!(matches!(execution.tick(vm.get_bytecode()).unwrap(), Tick::Idle));
    assert!(execution.value(root).is_none());
    let out = arithmetic(function, &inputs);
    assert_eq!(execution.complete_call(job, out), Ok(vec![]));
    assert_eq!(execution.complete_call(job, Data::Null), Err(VmError::Stalled));
    // The copy runs last; its end ends the hibernating job of the root.
    assert!(matches!(execution.tick(vm.get_bytecode()).unwrap(), Tick::Ran { .. }));
    assert_eq!(execution.value(root), Some(Arc::new(Data::Int(42))));
    assert!(!execution.has_ready());
}

#[test]
fn a_job_left_behind_can_fail_the_outer_call() {
    // F(x): the third operation expands a function without operations, but
    // only after the value of F is there. G(x) = F(x) has to run that job
    // before it can hand the value on.
    let add = |inputs| Operation::new(FunctionCall::External(0), inputs);
    let f = vec![
        add(vec![OperationInput::Param(0), OperationInput::Param(0)]),
        add(vec![OperationInput::Hidden(0), OperationInput::Hidden(0)]),
        Operation::new(FunctionCall::Internal(2), vec![OperationInput::Hidden(1)]),
        add(vec![OperationInput::Param(0), OperationInput::Param(0)]),
    ];
    let g = vec![Operation::new(FunctionCall::Internal(0), vec![OperationInput::Param(0)])];
    let vm = VirtualMachine::new(by_hand(vec![f, g, vec![]], vec![]));
    assert_eq!(vm.execute(0, vec![Data::Int(21)], &arithmetic, 100), Ok(Arc::new(Data::Int(42))));
    assert_eq!(
        vm.execute(1, vec![Data::Int(21)], &arithmetic, 100),
        Err(VmError::EmptyFunction(2))
    );
}

#[test]
fn an_outer_call_takes_two_jobs_more() {
    // F(a, b) = Add(a, b) takes three jobs: the call, the sum and the copy.
    let add = |inputs| Operation::new(FunctionCall::External(0), inputs);
    let f = vec![add(vec![OperationInput::Param(0), OperationInput::Param(1)])];
    let g = vec![Operation::new(
        FunctionCall::Internal(0),
        vec![OperationInput::Param(0), OperationInput::Param(1)],
    )];
    let vm = VirtualMachine::new(by_hand(vec![f, g], vec![]));
    let inputs = || vec![Data::Int(3), Data::Int(4)];
    assert_eq!(vm.execute(0, inputs(), &arithmetic, 2), Err(VmError::StepLimit));
    assert_eq!(vm.execute(0, inputs(), &arithmetic, 3), Ok(Arc::new(Data::Int(7))));
    assert_eq!(vm.execute(1, inputs(), &arithmetic, 4), Err(VmError::StepLimit));
    assert_eq!(vm.execute(1, inputs(), &arithmetic, 5), Ok(Arc::new(Data::Int(7))));
}
