use vertex_lang::bytecode::error::{
    runtime_error_text, BytecodeError, InvalidBytecodeError, UnknownConstError, UnknownOpError,
    VtRuntimeError,
};
use vertex_lang::bytecode::ops::{Constant, Op};
use vertex_lang::bytecode::reader::Bytecode;
use vertex_lang::bytecode::util::{
    read_bool, read_f64, read_i64, read_str, read_u32, write_bool, write_f64, write_i64,
    write_str, write_u32,
};
use vertex_lang::bytecode::vm::{checked_pow, ExecError, Node, VM};

#[test]
fn bytecode_err() {
    let e: Box<dyn VtRuntimeError> = Box::new(UnknownOpError(0x07));

    let mes: String = runtime_error_text(&*e);
    assert_eq!(mes, "Vertex runtime error!\nUnknown bytecode operation: 0x07");
}

fn simple_add_bytes() -> Vec<u8> {
    vec![
        0x56, 0x25, 0x14, 0xAF, // Magic number
        0x00, 0x00, 0x00, 0x02, // Const Count
        0x00, 0x00, 0x00, 0x04, // Op Count
        // Constants
        0x01, 0x00, 0x00, 0x00, 0x00, 0x00, 0x00, 0x00, 0x17, // Int(23)
        0x01, 0xFF, 0xFF, 0xFF, 0xFF, 0xFF, 0xFF, 0xFF, 0xED, // Int(-19)
        // Ops
        0x01, 0x00, 0x00, 0x00, 0x00, // Load const 0
        0x01, 0x00, 0x00, 0x00, 0x01, // Load const 1
        0x03, // Add
        0x02, // Return
    ]
}

#[test]
fn read_simple_add() {
    let bytes = simple_add_bytes();

    let bytecode = Bytecode::from_bytes(&bytes).unwrap();
    assert_eq!(
        bytecode,
        Bytecode::new(
            vec![Op::Constant(0), Op::Constant(1), Op::IntAdd, Op::Return],
            vec![Constant::Int(23), Constant::Int(-19)],
        )
    );
}

#[test]
fn exec_simple_add() {
    let bytes = simple_add_bytes();

    let bytecode = Bytecode::from_bytes(&bytes).unwrap();
    let vm = VM::new(&bytecode);
    let answer = vm.exec(0).unwrap();

    assert_eq!(answer, Node::Int(4));
}

#[test]
fn func_call() {
    let bytes = vec![
        0x56, 0x25, 0x14, 0xAF, // Magic number
        0x00, 0x00, 0x00, 0x03, // Const Count
        0x00, 0x00, 0x00, 0x0E, // Op Count
        // Constants
        0x01, 0x00, 0x00, 0x00, 0x00, 0x00, 0x00, 0x00, 0x01, // Int(1)
        0x01, 0x00, 0x00, 0x00, 0x00, 0x00, 0x00, 0x00, 0x02, // Int(2)
        0x01, 0x00, 0x00, 0x00, 0x00, 0x00, 0x00, 0x00, 0x03, // Int(3)
        // Ops
        // Add Function
        0x0A, 0x00, 0x00, 0x00, 0x02, // Copy int from 2 units back as arg
        0x0A, 0x00, 0x00, 0x00, 0x02, // Copy int from 2 units back as arg
        0x03, // Add
        0x02, // Return
        // Mul Function
        0x0A, 0x00, 0x00, 0x00, 0x02, // Copy int from 2 units back as arg
        0x0A, 0x00, 0x00, 0x00, 0x02, // Copy int from 2 units back as arg
        0x05, // Mul
        0x02, // Return
        // Main Function
        0x01, 0x00, 0x00, 0x00, 0x00, // Load const 0
        0x01, 0x00, 0x00, 0x00, 0x01, // Load const 1
        0x09, 0x00, 0x00, 0x00, 0x04, // Jump to instruction 4 (Mul Func)
        0x01, 0x00, 0x00, 0x00, 0x02, // Load const 2
        0x09, 0x00, 0x00, 0x00, 0x00, // Jump to instruction 0 (Add Func)
        0x02, // Return
    ];

    let bytecode = Bytecode::from_bytes(&bytes).unwrap();
    let vm = VM::new(&bytecode);
    let answer = vm.exec(8).unwrap();

    assert_eq!(answer, Node::Int(5));
}

#[test]
fn error_messages_of_each_kind() {
    assert_eq!(UnknownOpError(0xfe).get_message(), "Unknown bytecode operation: 0xfe");
    assert_eq!(UnknownConstError(0x0a).get_message(), "Unknown bytecode const type: 0x0a");
    assert_eq!(InvalidBytecodeError(String::from("broken")).get_message(), "broken");
    assert_eq!(
        runtime_error_text(&BytecodeError::UnknownConst(UnknownConstError(0))),
        "Vertex runtime error!\nUnknown bytecode const type: 0x00"
    );
    assert_eq!(
        ExecError::StackUnderflow { ip: 1203 }.get_message(),
        "Stack underflow at instruction 1203"
    );
    assert_eq!(ExecError::Overflow { ip: 0 }.get_message(), "Integer overflow at instruction 0");
    assert_eq!(ExecError::EndOfProgram.get_message(), "EOF reached before function end");
}

#[test]
fn integers_round_trip_big_endian() {
    assert_eq!(write_u32(0x0102_0304), vec![1, 2, 3, 4]);
    assert_eq!(read_u32(&[9, 1, 2, 3, 4], 1).unwrap(), 0x0102_0304);
    assert_eq!(write_i64(-19), vec![0xFF, 0xFF, 0xFF, 0xFF, 0xFF, 0xFF, 0xFF, 0xED]);
    assert_eq!(read_i64(&write_i64(i64::MIN), 0).unwrap(), i64::MIN);
    assert_eq!(read_i64(&write_i64(i64::MAX), 0).unwrap(), i64::MAX);
    assert_eq!(read_i64(&write_i64(-1), 0).unwrap(), -1);
    let bits = 1.5f64.to_bits();
    assert_eq!(write_f64(bits), 1.5f64.to_be_bytes().to_vec());
    assert_eq!(f64::from_bits(read_f64(&write_f64(bits), 0).unwrap()), 1.5);
}

#[test]
fn reads_past_the_end_fail() {
    assert_eq!(read_u32(&[1, 2, 3], 0).unwrap_err().0, "Unexpected EOF while parsing u32");
    assert_eq!(read_u32(&[1, 2, 3, 4], 1).unwrap_err().0, "Unexpected EOF while parsing u32");
    assert_eq!(read_u32(&[1, 2, 3, 4], usize::MAX).unwrap_err().0, "Unexpected EOF while parsing u32");
    assert_eq!(read_i64(&[0; 7], 0).unwrap_err().0, "Unexpected EOF while parsing i64");
    assert_eq!(read_f64(&[0; 8], 1).unwrap_err().0, "Unexpected EOF while parsing f64");
    assert_eq!(read_bool(&[], 0).unwrap_err().0, "Unexpected EOF while parsing bool");
    assert_eq!(read_str(&[0, 0, 0, 2, 65], 0).unwrap_err().0, "Unexpected EOF while parsing str");
    assert_eq!(read_str(&[0, 0, 0, 1, 0xFF], 0).unwrap_err().0, "Cannot parse string literal");
}

#[test]
fn strings_and_booleans_round_trip() {
    assert_eq!(write_str("hé"), vec![0, 0, 0, 3, b'h', 0xC3, 0xA9]);
    assert_eq!(read_str(&write_str("hé"), 0).unwrap(), "hé");
    assert_eq!(read_str(&write_str(""), 0).unwrap(), "");
    assert_eq!(write_bool(true), vec![1]);
    assert_eq!(write_bool(false), vec![0]);
    assert!(read_bool(&[0x02], 0).unwrap());
    assert!(!read_bool(&[0x00], 0).unwrap());
}

#[test]
fn every_operation_round_trips() {
    let ops = vec![
        Op::NoOp,
        Op::Constant(7),
        Op::Return,
        Op::IntAdd,
        Op::IntSub,
        Op::IntMul,
        Op::IntDiv,
        Op::IntMod,
        Op::IntPow,
        Op::Jump(0x0102_0304),
        Op::Copy(2),
    ];
    let tags: Vec<u8> = ops.iter().map(|op| op.as_bytes()[0]).collect();
    assert_eq!(tags, (0u8..=0x0A).collect::<Vec<u8>>());
    for op in ops {
        let bytes = op.as_bytes();
        assert_eq!(Op::from_bytes(&bytes, 0).unwrap(), (op, bytes.len()));
    }
    assert_eq!(Op::Jump(0x0102_0304).as_bytes(), vec![0x09, 1, 2, 3, 4]);
}

#[test]
fn every_constant_round_trips() {
    let constants = vec![
        Constant::Int(-5),
        Constant::Float(2.25f64.to_bits()),
        Constant::String(String::from("hi there")),
        Constant::Bool(true),
    ];
    for c in constants {
        let bytes = c.as_bytes();
        assert_eq!(Constant::from_bytes(&bytes, 0).unwrap(), (c, bytes.len()));
    }
    assert_eq!(Constant::Bool(false).as_bytes(), vec![0x04, 0x00]);
    assert_eq!(
        Constant::from_bytes(&[0x04, 0x09], 0).unwrap(),
        (Constant::Bool(true), 2)
    );
}

#[test]
fn unknown_tags_are_fatal() {
    match Op::from_bytes(&[0x0B], 0) {
        Err(BytecodeError::UnknownOp(e)) => assert_eq!(e.0, 0x0B),
        other => panic!("unexpected: {:?}", other),
    }
    match Constant::from_bytes(&[0x00], 0) {
        Err(BytecodeError::UnknownConst(e)) => assert_eq!(e.0, 0x00),
        other => panic!("unexpected: {:?}", other),
    }
    match Op::from_bytes(&[0x01, 0, 0], 0) {
        Err(BytecodeError::Invalid(e)) => assert_eq!(e.0, "Unexpected EOF while parsing u32"),
        other => panic!("unexpected: {:?}", other),
    }
    match Op::from_bytes(&[], 0) {
        Err(BytecodeError::Invalid(e)) => assert_eq!(e.0, "Unexpected EOF while parsing op"),
        other => panic!("unexpected: {:?}", other),
    }
}

#[test]
fn corrupt_headers_are_rejected() {
    match Bytecode::from_bytes(&[0x56, 0x25, 0x14, 0xAE, 0, 0, 0, 0, 0, 0, 0, 0]) {
        Err(BytecodeError::Invalid(e)) => assert_eq!(e.0, "Invalid bytecode header"),
        other => panic!("unexpected: {:?}", other),
    }
    match Bytecode::from_bytes(&[0x56, 0x25, 0x14, 0xAF, 0, 0, 0, 0]) {
        Err(BytecodeError::Invalid(e)) => assert_eq!(e.0, "Unexpected EOF while parsing u32"),
        other => panic!("unexpected: {:?}", other),
    }
    match Bytecode::from_bytes(&[0x56, 0x25, 0x14, 0xAF, 0, 0, 0, 1, 0, 0, 0, 0]) {
        Err(BytecodeError::Invalid(e)) => assert_eq!(e.0, "Unexpected EOF while parsing const"),
        other => panic!("unexpected: {:?}", other),
    }
    let empty = Bytecode::from_bytes(&[0x56, 0x25, 0x14, 0xAF, 0, 0, 0, 0, 0, 0, 0, 0]).unwrap();
    assert_eq!(empty, Bytecode::new(vec![], vec![]));
}

fn run(ops: Vec<Op>, constants: Vec<Constant>) -> Result<Node, ExecError> {
    let code = Bytecode::new(ops, constants);
    VM::new(&code).exec(0)
}

#[test]
fn arithmetic_takes_the_top_of_the_stack_as_left_operand() {
    let consts = || vec![Constant::Int(7), Constant::Int(2)];
    let prog = |op: Op| vec![Op::Constant(1), Op::Constant(0), op, Op::Return];
    assert_eq!(run(prog(Op::IntSub), consts()), Ok(Node::Int(5)));
    assert_eq!(run(prog(Op::IntMul), consts()), Ok(Node::Int(14)));
    assert_eq!(run(prog(Op::IntDiv), consts()), Ok(Node::Int(3)));
    assert_eq!(run(prog(Op::IntMod), consts()), Ok(Node::Int(1)));
    assert_eq!(run(prog(Op::IntPow), consts()), Ok(Node::Int(49)));
    let negative = || vec![Constant::Int(-7), Constant::Int(2)];
    assert_eq!(run(prog(Op::IntDiv), negative()), Ok(Node::Int(-3)));
    assert_eq!(run(prog(Op::IntMod), negative()), Ok(Node::Int(-1)));
}

#[test]
fn arithmetic_traps() {
    let prog = |op: Op| vec![Op::Constant(1), Op::Constant(0), op, Op::Return];
    let big = || vec![Constant::Int(i64::MAX), Constant::Int(1)];
    assert_eq!(run(prog(Op::IntAdd), big()), Err(ExecError::Overflow { ip: 2 }));
    let zero = || vec![Constant::Int(1), Constant::Int(0)];
    assert_eq!(run(prog(Op::IntDiv), zero()), Err(ExecError::DivisionByZero { ip: 2 }));
    assert_eq!(run(prog(Op::IntMod), zero()), Err(ExecError::DivisionByZero { ip: 2 }));
    let min = || vec![Constant::Int(i64::MIN), Constant::Int(-1)];
    assert_eq!(run(prog(Op::IntDiv), min()), Err(ExecError::Overflow { ip: 2 }));
    assert_eq!(run(prog(Op::IntMod), min()), Err(ExecError::Overflow { ip: 2 }));
    let neg = || vec![Constant::Int(2), Constant::Int(-1)];
    assert_eq!(run(prog(Op::IntPow), neg()), Err(ExecError::NegativeExponent { ip: 2 }));
    let pow = || vec![Constant::Int(2), Constant::Int(63)];
    assert_eq!(run(prog(Op::IntPow), pow()), Err(ExecError::Overflow { ip: 2 }));
}

#[test]
fn powers() {
    assert_eq!(checked_pow(2, 62), Some(1 << 62));
    assert_eq!(checked_pow(-2, 63), Some(i64::MIN));
    assert_eq!(checked_pow(-2, 64), None);
    assert_eq!(checked_pow(0, 0), Some(1));
    assert_eq!(checked_pow(0, 5), Some(0));
    assert_eq!(checked_pow(1, u64::MAX), Some(1));
    assert_eq!(checked_pow(-1, u64::MAX), Some(-1));
    assert_eq!(checked_pow(-1, 1 << 40), Some(1));
    assert_eq!(checked_pow(3, 4), Some(81));
}

#[test]
fn runtime_failures() {
    assert_eq!(run(vec![Op::Return], vec![]), Err(ExecError::StackUnderflow { ip: 0 }));
    assert_eq!(run(vec![Op::IntAdd], vec![]), Err(ExecError::StackUnderflow { ip: 0 }));
    assert_eq!(
        run(vec![Op::Constant(0), Op::IntAdd], vec![Constant::Int(1)]),
        Err(ExecError::StackUnderflow { ip: 1 })
    );
    assert_eq!(
        run(
            vec![Op::Constant(0), Op::Constant(1), Op::IntAdd],
            vec![Constant::Int(1), Constant::Bool(true)]
        ),
        Err(ExecError::TypeMismatch { ip: 2 })
    );
    assert_eq!(run(vec![Op::Jump(1)], vec![]), Err(ExecError::JumpOutOfRange { target: 1, ip: 0 }));
    assert_eq!(run(vec![Op::Copy(0)], vec![]), Err(ExecError::CopyOutOfRange { offset: 0, ip: 0 }));
    assert_eq!(
        run(vec![Op::Constant(0)], vec![]),
        Err(ExecError::ConstantOutOfRange { index: 0, ip: 0 })
    );
    assert_eq!(run(vec![Op::NoOp], vec![]), Err(ExecError::EndOfProgram));
    assert_eq!(run(vec![], vec![]), Err(ExecError::EndOfProgram));
}

#[test]
fn endless_programs_stop_at_the_step_limit() {
    let code = Bytecode::new(vec![Op::Jump(0)], vec![]);
    assert_eq!(VM::new(&code).exec_bounded(0, 1000), Err(ExecError::StepLimit));
    let code = Bytecode::new(vec![Op::Constant(0), Op::Return], vec![Constant::Int(1)]);
    assert_eq!(VM::new(&code).exec_bounded(0, 1), Err(ExecError::StepLimit));
    assert_eq!(VM::new(&code).exec_bounded(0, 2), Ok(Node::Int(1)));
}

#[test]
fn copies_and_strings() {
    let consts = vec![Constant::String(String::from("a")), Constant::Float(5)];
    let ops = vec![Op::Constant(0), Op::Constant(1), Op::Copy(1), Op::Return];
    assert_eq!(run(ops, consts), Ok(Node::String(String::from("a"))));
}
