//! The interpreter of stack-machine programs.

use crate::bytecode::error::VtRuntimeError;
use crate::bytecode::ops::{Constant, ConstantView, Op};
use crate::bytecode::reader::{constant_views, Bytecode, BytecodeView};
use crate::text::{decimal_text, push_decimal};
use vstd::prelude::*;

verus! {

/// A value on the stack of the machine.
///
/// A float is held as its IEEE-754 bit pattern.
#[derive(Debug, Clone, PartialEq, Eq)]
pub enum Node {
    /// A 64-bit signed integer.
    Int(i64),
    /// The bit pattern of a 64-bit float.
    Float(u64),
    /// A UTF-8 string.
    String(String),
    /// A boolean.
    Bool(bool),
    /// The instruction to go on with after a call returns.
    FuncPtr(usize),
}

/// A stack value as a mathematical value.
pub enum NodeView {
    /// A 64-bit signed integer.
    Int(i64),
    /// The bit pattern of a 64-bit float.
    Float(u64),
    /// A string, as its characters.
    String(Seq<char>),
    /// A boolean.
    Bool(bool),
    /// The instruction to go on with after a call returns.
    FuncPtr(usize),
}

impl View for Node {
    type V = NodeView;

    open spec fn view(&self) -> NodeView {
        match self {
            Node::Int(v) => NodeView::Int(*v),
            Node::Float(v) => NodeView::Float(*v),
            Node::String(v) => NodeView::String(v@),
            Node::Bool(v) => NodeView::Bool(*v),
            Node::FuncPtr(v) => NodeView::FuncPtr(*v),
        }
    }
}

impl Node {
    /// A copy of this value.
    pub fn duplicate(&self) -> (n: Node)
        ensures
            n@ == self@,
    {
        match self {
            Node::Int(v) => Node::Int(*v),
            Node::Float(v) => Node::Float(*v),
            Node::String(v) => Node::String(v.clone()),
            Node::Bool(v) => Node::Bool(*v),
            Node::FuncPtr(v) => Node::FuncPtr(*v),
        }
    }

    /// The stack value that loading a constant gives.
    pub fn from_constant(c: &Constant) -> (n: Node)
        ensures
            n@ == node_of_constant(c@),
    {
        match c {
            Constant::Int(v) => Node::Int(*v),
            Constant::Float(v) => Node::Float(*v),
            Constant::String(v) => Node::String(v.clone()),
            Constant::Bool(v) => Node::Bool(*v),
        }
    }
}

/// Why a run of the machine stopped without a result.
#[derive(Debug, Clone, Copy, PartialEq, Eq)]
pub enum ExecError {
    /// The instruction pointer left the program before a final return.
    EndOfProgram,
    /// An operation needed more values than the stack held.
    StackUnderflow { ip: usize },
    /// An arithmetic operation met a value that is no integer.
    TypeMismatch { ip: usize },
    /// The result of an arithmetic operation does not fit 64 bits.
    Overflow { ip: usize },
    /// A division or remainder by zero.
    DivisionByZero { ip: usize },
    /// A power with a negative exponent.
    NegativeExponent { ip: usize },
    /// A jump to an instruction that the program does not have.
    JumpOutOfRange { target: usize, ip: usize },
    /// A copy from below the bottom of the stack.
    CopyOutOfRange { offset: u32, ip: usize },
    /// A load of a constant that the pool does not have.
    ConstantOutOfRange { index: usize, ip: usize },
    /// The run took more steps than it was allowed.
    StepLimit,
}

/// The text that names a kind of failure, before the instruction index.
pub open spec fn exec_error_prefix(e: ExecError) -> Seq<char> {
    match e {
        ExecError::EndOfProgram => "EOF reached before function end"@,
        ExecError::StackUnderflow { .. } => "Stack underflow at instruction "@,
        ExecError::TypeMismatch { .. } => "Unexpected data type at instruction "@,
        ExecError::Overflow { .. } => "Integer overflow at instruction "@,
        ExecError::DivisionByZero { .. } => "Division by zero at instruction "@,
        ExecError::NegativeExponent { .. } => "Negative exponent at instruction "@,
        ExecError::JumpOutOfRange { .. } => "Tried to jump out of range at instruction "@,
        ExecError::CopyOutOfRange { .. } => "Tried to copy value from outside of stack at instruction "@,
        ExecError::ConstantOutOfRange { .. } => "Unknown constant at instruction "@,
        ExecError::StepLimit => "Step limit reached"@,
    }
}

/// The instruction at which a failure happened, where it has one.
pub open spec fn exec_error_ip(e: ExecError) -> Option<usize> {
    match e {
        ExecError::EndOfProgram => None,
        ExecError::StackUnderflow { ip } => Some(ip),
        ExecError::TypeMismatch { ip } => Some(ip),
        ExecError::Overflow { ip } => Some(ip),
        ExecError::DivisionByZero { ip } => Some(ip),
        ExecError::NegativeExponent { ip } => Some(ip),
        ExecError::JumpOutOfRange { ip, .. } => Some(ip),
        ExecError::CopyOutOfRange { ip, .. } => Some(ip),
        ExecError::ConstantOutOfRange { ip, .. } => Some(ip),
        ExecError::StepLimit => None,
    }
}

impl ExecError {
    /// The text that names this kind of failure.
    fn prefix(&self) -> (s: &'static str)
        ensures
            s@ == exec_error_prefix(*self),
    {
        match self {
            ExecError::EndOfProgram => "EOF reached before function end",
            ExecError::StackUnderflow { .. } => "Stack underflow at instruction ",
            ExecError::TypeMismatch { .. } => "Unexpected data type at instruction ",
            ExecError::Overflow { .. } => "Integer overflow at instruction ",
            ExecError::DivisionByZero { .. } => "Division by zero at instruction ",
            ExecError::NegativeExponent { .. } => "Negative exponent at instruction ",
            ExecError::JumpOutOfRange { .. } => "Tried to jump out of range at instruction ",
            ExecError::CopyOutOfRange { .. } => "Tried to copy value from outside of stack at instruction ",
            ExecError::ConstantOutOfRange { .. } => "Unknown constant at instruction ",
            ExecError::StepLimit => "Step limit reached",
        }
    }

    /// The instruction at which this failure happened, where it has one.
    pub fn instruction(&self) -> (ip: Option<usize>)
        ensures
            ip == exec_error_ip(*self),
    {
        match self {
            ExecError::EndOfProgram => None,
            ExecError::StackUnderflow { ip } => Some(*ip),
            ExecError::TypeMismatch { ip } => Some(*ip),
            ExecError::Overflow { ip } => Some(*ip),
            ExecError::DivisionByZero { ip } => Some(*ip),
            ExecError::NegativeExponent { ip } => Some(*ip),
            ExecError::JumpOutOfRange { ip, .. } => Some(*ip),
            ExecError::CopyOutOfRange { ip, .. } => Some(*ip),
            ExecError::ConstantOutOfRange { ip, .. } => Some(*ip),
            ExecError::StepLimit => None,
        }
    }
}

impl VtRuntimeError for ExecError {
    open spec fn message(&self) -> Seq<char> {
        match exec_error_ip(*self) {
            Some(ip) => exec_error_prefix(*self) + decimal_text(ip as nat),
            None => exec_error_prefix(*self),
        }
    }

    fn get_message(&self) -> (s: String) {
        let mut out = String::from_str(self.prefix());
        match self.instruction() {
            Some(ip) => {
                push_decimal(&mut out, ip);
            },
            None => {},
        }
        out
    }
}

/// The stack value that loading a constant gives.
pub open spec fn node_of_constant(c: ConstantView) -> NodeView {
    match c {
        ConstantView::Int(v) => NodeView::Int(v),
        ConstantView::Float(v) => NodeView::Float(v),
        ConstantView::String(v) => NodeView::String(v),
        ConstantView::Bool(v) => NodeView::Bool(v),
    }
}

/// The views of the values of a stack, bottom first.
pub open spec fn node_views(stack: Seq<Node>) -> Seq<NodeView> {
    Seq::new(stack.len(), |i: int| stack[i]@)
}

/// `b` to the power `e`.
pub open spec fn int_pow(b: int, e: nat) -> int
    decreases e,
{
    if e == 0 {
        1
    } else {
        b * int_pow(b, (e - 1) as nat)
    }
}

/// Whether a number fits a 64-bit signed integer.
pub open spec fn fits_i64(v: int) -> bool {
    i64::MIN <= v <= i64::MAX
}

/// The result of an arithmetic instruction at `ip` on two integers, where
/// `lhs` was on top of the stack and `rhs` below it. Overflow and division by
/// zero are failures; division truncates toward zero and the remainder has
/// the sign of `lhs`.
pub open spec fn arithmetic(op: Op, lhs: i64, rhs: i64, ip: usize) -> Result<i64, ExecError> {
    match op {
        Op::IntAdd => match lhs.checked_add(rhs) {
            Some(v) => Ok(v),
            None => Err(ExecError::Overflow { ip }),
        },
        Op::IntSub => match lhs.checked_sub(rhs) {
            Some(v) => Ok(v),
            None => Err(ExecError::Overflow { ip }),
        },
        Op::IntMul => match lhs.checked_mul(rhs) {
            Some(v) => Ok(v),
            None => Err(ExecError::Overflow { ip }),
        },
        Op::IntDiv => if rhs == 0 {
            Err(ExecError::DivisionByZero { ip })
        } else {
            match lhs.checked_div(rhs) {
                Some(v) => Ok(v),
                None => Err(ExecError::Overflow { ip }),
            }
        },
        Op::IntMod => if rhs == 0 {
            Err(ExecError::DivisionByZero { ip })
        } else {
            match lhs.checked_rem(rhs) {
                Some(v) => Ok(v),
                None => Err(ExecError::Overflow { ip }),
            }
        },
        _ => if rhs < 0 {
            Err(ExecError::NegativeExponent { ip })
        } else if fits_i64(int_pow(lhs as int, rhs as nat)) {
            Ok(int_pow(lhs as int, rhs as nat) as i64)
        } else {
            Err(ExecError::Overflow { ip })
        },
    }
}

/// Whether an operation is one of the six arithmetic ones.
pub open spec fn is_arithmetic(op: Op) -> bool {
    op is IntAdd || op is IntSub || op is IntMul || op is IntDiv || op is IntMod || op is IntPow
}

/// The index of the topmost return address on a stack, if it holds one.
pub open spec fn top_frame(stack: Seq<NodeView>) -> Option<int>
    decreases stack.len(),
{
    if stack.len() == 0 {
        None
    } else if stack.last() is FuncPtr {
        Some(stack.len() - 1)
    } else {
        top_frame(stack.drop_last())
    }
}

/// What one instruction does.
pub enum Step {
    /// The machine goes on at an instruction with a new stack.
    Next(int, Seq<NodeView>),
    /// The run ends with a result.
    Done(NodeView),
    /// The run ends with a failure.
    Fault(ExecError),
}

/// What the instruction at `ip` does to `stack`.
pub open spec fn step(code: BytecodeView, ip: int, stack: Seq<NodeView>) -> Step {
    if ip < 0 || ip >= code.instructions.len() {
        Step::Fault(ExecError::EndOfProgram)
    } else {
        let op = code.instructions[ip];
        let at = ip as usize;
        match op {
            Op::NoOp => Step::Next(ip + 1, stack),
            Op::Constant(index) => if index < code.constants.len() {
                Step::Next(ip + 1, stack.push(node_of_constant(code.constants[index as int])))
            } else {
                Step::Fault(ExecError::ConstantOutOfRange { index, ip: at })
            },
            Op::Return => if stack.len() == 0 {
                Step::Fault(ExecError::StackUnderflow { ip: at })
            } else {
                let below = stack.drop_last();
                match top_frame(below) {
                    Some(k) => Step::Next(
                        below[k]->FuncPtr_0 as int,
                        below.subrange(0, k).push(stack.last()),
                    ),
                    None => Step::Done(stack.last()),
                }
            },
            Op::Jump(target) => if target >= code.instructions.len() {
                Step::Fault(ExecError::JumpOutOfRange { target, ip: at })
            } else {
                Step::Next(target as int, stack.push(NodeView::FuncPtr((ip + 1) as usize)))
            },
            Op::Copy(offset) => if offset as int >= stack.len() {
                Step::Fault(ExecError::CopyOutOfRange { offset, ip: at })
            } else {
                Step::Next(ip + 1, stack.push(stack[stack.len() - 1 - offset as int]))
            },
            _ => if stack.len() < 2 {
                Step::Fault(ExecError::StackUnderflow { ip: at })
            } else {
                let lhs = stack[stack.len() - 1];
                let rhs = stack[stack.len() - 2];
                let below = stack.subrange(0, stack.len() - 2);
                match (lhs, rhs) {
                    (NodeView::Int(l), NodeView::Int(r)) => match arithmetic(op, l, r, at) {
                        Ok(v) => Step::Next(ip + 1, below.push(NodeView::Int(v))),
                        Err(e) => Step::Fault(e),
                    },
                    _ => Step::Fault(ExecError::TypeMismatch { ip: at }),
                }
            },
        }
    }
}

/// The outcome of a run that starts at `ip` with `stack` and may take at most
/// `fuel` steps.
pub open spec fn run(code: BytecodeView, ip: int, stack: Seq<NodeView>, fuel: nat) -> Result<
    NodeView,
    ExecError,
>
    decreases fuel,
{
    if fuel == 0 {
        Err(ExecError::StepLimit)
    } else {
        match step(code, ip, stack) {
            Step::Next(ip2, stack2) => run(code, ip2, stack2, (fuel - 1) as nat),
            Step::Done(v) => Ok(v),
            Step::Fault(e) => Err(e),
        }
    }
}

/// Whether an executable result is the given outcome.
pub open spec fn outcome_is(r: Result<Node, ExecError>, expected: Result<NodeView, ExecError>) -> bool {
    match r {
        Ok(v) => expected == Ok::<NodeView, ExecError>(v@),
        Err(e) => expected == Err::<NodeView, ExecError>(e),
    }
}

/// Powers of zero, one and minus one.
proof fn lemma_pow_small(b: int, e: nat)
    requires
        -1 <= b <= 1,
    ensures
        b == 0 && e > 0 ==> int_pow(b, e) == 0,
        b == 1 ==> int_pow(b, e) == 1,
        b == -1 ==> int_pow(b, e) == (if e % 2 == 0 { 1int } else { -1int }),
    decreases e,
{
    if e > 0 {
        lemma_pow_small(b, (e - 1) as nat);
    }
}

/// The absolute value of a number.
pub open spec fn abs(v: int) -> int {
    if v < 0 {
        -v
    } else {
        v
    }
}

/// From a base of absolute value two or more, a higher power is at least
/// twice as large in absolute value, and no power is zero.
proof fn lemma_pow_grows(b: int, lo: nat, hi: nat)
    requires
        abs(b) >= 2,
        lo < hi,
    ensures
        abs(int_pow(b, hi)) >= 2 * abs(int_pow(b, lo)),
        abs(int_pow(b, lo)) >= 1,
    decreases hi,
{
    lemma_pow_nonzero(b, lo);
    let prev = int_pow(b, (hi - 1) as nat);
    assert(int_pow(b, hi) == b * prev);
    lemma_pow_nonzero(b, (hi - 1) as nat);
    assert(abs(b * prev) >= 2 * abs(prev)) by (nonlinear_arith)
        requires
            abs(b) >= 2,
    ;
    if lo < hi - 1 {
        lemma_pow_grows(b, lo, (hi - 1) as nat);
    }
}

/// No power of a base of absolute value two or more is zero.
proof fn lemma_pow_nonzero(b: int, e: nat)
    requires
        abs(b) >= 2,
    ensures
        abs(int_pow(b, e)) >= 1,
    decreases e,
{
    if e > 0 {
        lemma_pow_nonzero(b, (e - 1) as nat);
        let prev = int_pow(b, (e - 1) as nat);
        assert(abs(b * prev) >= 1) by (nonlinear_arith)
            requires
                abs(b) >= 2,
                abs(prev) >= 1,
        ;
    }
}

/// `base` to the power `exp`, if it fits 64 bits.
pub fn checked_pow(base: i64, exp: u64) -> (r: Option<i64>)
    ensures
        r == (if fits_i64(int_pow(base as int, exp as nat)) {
            Some(int_pow(base as int, exp as nat) as i64)
        } else {
            None
        }),
{
    if exp == 0 {
        return Some(1);
    }
    if base == 0 || base == 1 || base == -1 {
        proof {
            lemma_pow_small(base as int, exp as nat);
        }
        if base == -1 && exp % 2 == 1 {
            return Some(-1);
        }
        if base == 0 {
            return Some(0);
        }
        return Some(1);
    }
    let mut acc: i64 = 1;
    let mut i: u64 = 0;
    while i < exp
        invariant
            i <= exp,
            abs(base as int) >= 2,
            acc == int_pow(base as int, i as nat),
        decreases exp - i,
    {
        match acc.checked_mul(base) {
            Some(v) => {
                assert(int_pow(base as int, (i + 1) as nat) == base * int_pow(
                    base as int,
                    i as nat,
                ));
                assert(acc * base == base * acc) by (nonlinear_arith);
                acc = v;
            },
            None => {
                proof {
                    let next = int_pow(base as int, (i + 1) as nat);
                    assert(next == base * int_pow(base as int, i as nat));
                    assert(acc * base == base * acc) by (nonlinear_arith);
                    assert(!fits_i64(next));
                    if i + 1 < exp {
                        lemma_pow_grows(base as int, (i + 1) as nat, exp as nat);
                    }
                }
                return None;
            },
        }
        i += 1;
    }
    Some(acc)
}

/// What one instruction did, in executable form; the new stack is left in
/// the machine's stack.
enum Progress {
    /// Go on at this instruction.
    Next(usize),
    /// The run ended with this result.
    Done(Node),
    /// The run ended with this failure.
    Fault(ExecError),
}

/// Pushing a value on a stack pushes its view on the stack's view.
proof fn lemma_views_push(stack: Seq<Node>, n: Node)
    ensures
        node_views(stack.push(n)) == node_views(stack).push(n@),
{
    assert(node_views(stack.push(n)) =~= node_views(stack).push(n@));
}

/// Dropping values from the top of a stack drops them from its view.
proof fn lemma_views_prefix(stack: Seq<Node>, k: int)
    requires
        0 <= k <= stack.len(),
    ensures
        node_views(stack.subrange(0, k)) == node_views(stack).subrange(0, k),
{
    assert(node_views(stack.subrange(0, k)) =~= node_views(stack).subrange(0, k));
}

/// A stack machine over one program.
#[derive(Debug)]
pub struct VM<'a> {
    bytecode: &'a Bytecode,
}

/// The greatest number of steps that `VM::exec` takes.
pub const STEP_LIMIT: u64 = 0xFFFF_FFFF_FFFF_FFFF;

impl<'a> VM<'a> {
    /// A machine for the given program.
    pub fn new(bytecode: &'a Bytecode) -> (vm: Self)
        ensures
            vm.program() == bytecode@,
    {
        VM { bytecode }
    }

    /// The program of this machine.
    pub closed spec fn program(&self) -> BytecodeView {
        self.bytecode@
    }

    /// Computes an arithmetic instruction on two integers.
    fn compute(op: &Op, lhs: i64, rhs: i64, ip: usize) -> (r: Result<i64, ExecError>)
        requires
            is_arithmetic(*op),
        ensures
            r == arithmetic(*op, lhs, rhs, ip),
    {
        match op {
            Op::IntAdd => match lhs.checked_add(rhs) {
                Some(v) => Ok(v),
                None => Err(ExecError::Overflow { ip }),
            },
            Op::IntSub => match lhs.checked_sub(rhs) {
                Some(v) => Ok(v),
                None => Err(ExecError::Overflow { ip }),
            },
            Op::IntMul => match lhs.checked_mul(rhs) {
                Some(v) => Ok(v),
                None => Err(ExecError::Overflow { ip }),
            },
            Op::IntDiv => if rhs == 0 {
                Err(ExecError::DivisionByZero { ip })
            } else {
                match lhs.checked_div(rhs) {
                    Some(v) => Ok(v),
                    None => Err(ExecError::Overflow { ip }),
                }
            },
            Op::IntMod => if rhs == 0 {
                Err(ExecError::DivisionByZero { ip })
            } else {
                match lhs.checked_rem(rhs) {
                    Some(v) => Ok(v),
                    None => Err(ExecError::Overflow { ip }),
                }
            },
            _ => if rhs < 0 {
                Err(ExecError::NegativeExponent { ip })
            } else {
                match checked_pow(lhs, rhs as u64) {
                    Some(v) => Ok(v),
                    None => Err(ExecError::Overflow { ip }),
                }
            },
        }
    }

    /// Pops the stack down to the topmost return address, and says where it
    /// points; empties the stack where it holds none.
    fn unwind(stack: &mut Vec<Node>) -> (target: Option<usize>)
        ensures
            match top_frame(node_views(old(stack)@)) {
                Some(k) => {
                    &&& target == Some(node_views(old(stack)@)[k]->FuncPtr_0)
                    &&& final(stack)@ == old(stack)@.subrange(0, k)
                },
                None => target is None,
            },
    {
        loop
            invariant
                stack@.len() <= old(stack)@.len(),
                stack@ == old(stack)@.subrange(0, stack@.len() as int),
                top_frame(node_views(old(stack)@)) == top_frame(node_views(stack@)),
            decreases stack@.len(),
        {
            let ghost before = stack@;
            match stack.pop() {
                Some(Node::FuncPtr(ptr)) => {
                    proof {
                        assert(node_views(before).last() == before.last()@);
                    }
                    return Some(ptr);
                },
                Some(_) => {
                    proof {
                        assert(node_views(before).last() == before.last()@);
                        lemma_views_prefix(before, before.len() - 1);
                        assert(before.subrange(0, before.len() - 1) == stack@);
                        assert(node_views(before).drop_last() == node_views(stack@));
                        assert(stack@ =~= old(stack)@.subrange(0, stack@.len() as int));
                    }
                },
                None => {
                    return None;
                },
            }
        }
    }

    /// Performs the instruction at `ip` on `stack`.
    fn step(&self, ip: usize, stack: &mut Vec<Node>) -> (p: Progress)
        ensures
            match p {
                Progress::Next(ip2) => step(self.program(), ip as int, node_views(old(stack)@))
                    == Step::Next(ip2 as int, node_views(final(stack)@)),
                Progress::Done(v) => step(self.program(), ip as int, node_views(old(stack)@))
                    == Step::Done(v@),
                Progress::Fault(e) => step(self.program(), ip as int, node_views(old(stack)@))
                    == Step::Fault(e),
            },
    {
        let ops = self.bytecode.get_instructions();
        let constants = self.bytecode.get_constants();
        let ghost views = node_views(stack@);
        if ip >= ops.len() {
            return Progress::Fault(ExecError::EndOfProgram);
        }
        match &ops[ip] {
            Op::NoOp => Progress::Next(ip + 1),
            Op::Constant(index) => {
                if *index < constants.len() {
                    let value = Node::from_constant(&constants[*index]);
                    proof {
                        lemma_views_push(stack@, value);
                        assert(constant_views(constants@)[*index as int] == constants@[*index as int]@);
                    }
                    stack.push(value);
                    Progress::Next(ip + 1)
                } else {
                    Progress::Fault(ExecError::ConstantOutOfRange { index: *index, ip })
                }
            },
            Op::Return => match stack.pop() {
                Some(value) => {
                    proof {
                        lemma_views_prefix(old(stack)@, old(stack)@.len() - 1);
                        assert(old(stack)@.subrange(0, old(stack)@.len() - 1) == stack@);
                        assert(views.drop_last() == node_views(stack@));
                        assert(views.last() == value@);
                    }
                    let ghost below = stack@;
                    match Self::unwind(stack) {
                        Some(target) => {
                            proof {
                                let k = top_frame(node_views(below))->Some_0;
                                lemma_top_frame_in_range(node_views(below));
                                lemma_views_prefix(below, k);
                                lemma_views_push(stack@, value);
                            }
                            stack.push(value);
                            Progress::Next(target)
                        },
                        None => Progress::Done(value),
                    }
                },
                None => Progress::Fault(ExecError::StackUnderflow { ip }),
            },
            Op::Jump(target) => {
                if *target >= ops.len() {
                    Progress::Fault(ExecError::JumpOutOfRange { target: *target, ip })
                } else {
                    proof {
                        lemma_views_push(stack@, Node::FuncPtr((ip + 1) as usize));
                    }
                    stack.push(Node::FuncPtr(ip + 1));
                    Progress::Next(*target)
                }
            },
            Op::Copy(offset) => {
                if *offset as usize >= stack.len() {
                    Progress::Fault(ExecError::CopyOutOfRange { offset: *offset, ip })
                } else {
                    let value = stack[stack.len() - 1 - *offset as usize].duplicate();
                    proof {
                        lemma_views_push(stack@, value);
                    }
                    stack.push(value);
                    Progress::Next(ip + 1)
                }
            },
            op => {
                assert(is_arithmetic(*op));
                if stack.len() < 2 {
                    return Progress::Fault(ExecError::StackUnderflow { ip });
                }
                let a = stack.pop();
                let b = stack.pop();
                proof {
                    lemma_views_prefix(old(stack)@, old(stack)@.len() - 2);
                    assert(old(stack)@.subrange(0, old(stack)@.len() - 2) =~= stack@);
                }
                match (a, b) {
                    (Some(Node::Int(lhs)), Some(Node::Int(rhs))) => {
                        match Self::compute(op, lhs, rhs, ip) {
                            Ok(v) => {
                                proof {
                                    lemma_views_push(stack@, Node::Int(v));
                                }
                                stack.push(Node::Int(v));
                                Progress::Next(ip + 1)
                            },
                            Err(e) => Progress::Fault(e),
                        }
                    },
                    _ => Progress::Fault(ExecError::TypeMismatch { ip }),
                }
            },
        }
    }

    /// Runs the program from the instruction at `pos` on an empty stack, for
    /// at most `max_steps` instructions.
    pub fn exec_bounded(&self, pos: usize, max_steps: u64) -> (r: Result<Node, ExecError>)
        ensures
            outcome_is(r, run(self.program(), pos as int, Seq::empty(), max_steps as nat)),
    {
        let mut stack: Vec<Node> = Vec::new();
        let mut ip = pos;
        let mut left = max_steps;
        let ghost goal = run(self.program(), pos as int, Seq::empty(), max_steps as nat);
        assert(node_views(stack@) =~= Seq::<NodeView>::empty());
        while left > 0
            invariant
                goal == run(self.program(), pos as int, Seq::empty(), max_steps as nat),
                goal == run(self.program(), ip as int, node_views(stack@), left as nat),
            decreases left,
        {
            match self.step(ip, &mut stack) {
                Progress::Next(next) => {
                    ip = next;
                },
                Progress::Done(v) => {
                    return Ok(v);
                },
                Progress::Fault(e) => {
                    return Err(e);
                },
            }
            left -= 1;
        }
        Err(ExecError::StepLimit)
    }

    /// Runs the program from the instruction at `pos` on an empty stack.
    pub fn exec(&self, pos: usize) -> (r: Result<Node, ExecError>)
        ensures
            outcome_is(r, run(self.program(), pos as int, Seq::empty(), STEP_LIMIT as nat)),
    {
        self.exec_bounded(pos, STEP_LIMIT)
    }
}

/// The topmost return address, where there is one, is an index of the stack
/// at which a return address lies.
proof fn lemma_top_frame_in_range(stack: Seq<NodeView>)
    ensures
        top_frame(stack) matches Some(k) ==> 0 <= k < stack.len() && stack[k] is FuncPtr,
    decreases stack.len(),
{
    if stack.len() > 0 && !(stack.last() is FuncPtr) {
        lemma_top_frame_in_range(stack.drop_last());
    }
}

} // verus!
