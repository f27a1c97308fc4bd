//! Operations and constants of a stack-machine program, and their encoding.

use crate::bytecode::error::{
    invalid, BytecodeError, DecodeFault, InvalidBytecodeError, UnknownConstError, UnknownOpError,
};
use crate::bytecode::util::{
    bool_byte, i64_from_be, i64_to_be, in_bounds, read_bool, read_f64, read_i64, read_str,
    read_u32, str_in_bounds, str_payload, str_to_be, u32_from_be, u32_to_be, u64_from_be,
    u64_to_be, write_bool, write_f64, write_i64, write_str, write_u32,
};
use vstd::prelude::*;
use vstd::utf8::{decode_utf8, encode_utf8, valid_utf8};

verus! {

/// A value of the constant pool.
///
/// A float is held as its IEEE-754 bit pattern, so that equality is equality
/// of patterns.
#[derive(Debug, Clone, PartialEq, Eq)]
pub enum Constant {
    /// A 64-bit signed integer.
    Int(i64),
    /// The bit pattern of a 64-bit float.
    Float(u64),
    /// A UTF-8 string.
    String(String),
    /// A boolean.
    Bool(bool),
}

/// A constant as a mathematical value.
pub enum ConstantView {
    /// A 64-bit signed integer.
    Int(i64),
    /// The bit pattern of a 64-bit float.
    Float(u64),
    /// A string, as its characters.
    String(Seq<char>),
    /// A boolean.
    Bool(bool),
}

impl View for Constant {
    type V = ConstantView;

    open spec fn view(&self) -> ConstantView {
        match self {
            Constant::Int(v) => ConstantView::Int(*v),
            Constant::Float(v) => ConstantView::Float(*v),
            Constant::String(v) => ConstantView::String(v@),
            Constant::Bool(v) => ConstantView::Bool(*v),
        }
    }
}

/// One instruction of the stack machine.
#[derive(Debug, Clone, PartialEq, Eq)]
pub enum Op {
    /// Does nothing.
    NoOp,
    /// Pushes the constant at the given index of the pool.
    Constant(usize),
    /// Returns the top of the stack to the caller.
    Return,
    /// Integer addition.
    IntAdd,
    /// Integer subtraction.
    IntSub,
    /// Integer multiplication.
    IntMul,
    /// Integer division.
    IntDiv,
    /// Integer remainder.
    IntMod,
    /// Integer power.
    IntPow,
    /// Calls the code at the given instruction index.
    Jump(usize),
    /// Pushes a copy of the value at the given distance below the top.
    Copy(u32),
}

/// The 32-bit field that holds an index: its low 32 bits.
pub open spec fn index_field(i: usize) -> u32 {
    (i as int % 0x1_0000_0000) as u32
}

/// The bytes that encode an operation.
pub open spec fn op_bytes(op: Op) -> Seq<u8> {
    match op {
        Op::NoOp => seq![0x00u8],
        Op::Constant(i) => seq![0x01u8] + u32_to_be(index_field(i)),
        Op::Return => seq![0x02u8],
        Op::IntAdd => seq![0x03u8],
        Op::IntSub => seq![0x04u8],
        Op::IntMul => seq![0x05u8],
        Op::IntDiv => seq![0x06u8],
        Op::IntMod => seq![0x07u8],
        Op::IntPow => seq![0x08u8],
        Op::Jump(i) => seq![0x09u8] + u32_to_be(index_field(i)),
        Op::Copy(n) => seq![0x0Au8] + u32_to_be(n),
    }
}

/// The 32-bit operand that follows the tag at `index`, or the failure of
/// reading it.
pub open spec fn operand_at(bytes: Seq<u8>, index: int) -> Result<u32, DecodeFault> {
    if in_bounds(bytes, index + 1, 4) {
        Ok(u32_from_be(bytes.subrange(index + 1, index + 5)))
    } else {
        Err(DecodeFault::Invalid("Unexpected EOF while parsing u32"@))
    }
}

/// The operation encoded at `index` and the number of bytes it takes, or the
/// failure of decoding it.
pub open spec fn decode_op(bytes: Seq<u8>, index: int) -> Result<(Op, usize), DecodeFault> {
    if index < 0 || index >= bytes.len() {
        Err(DecodeFault::Invalid("Unexpected EOF while parsing op"@))
    } else {
        let tag = bytes[index];
        if tag == 0x00 {
            Ok((Op::NoOp, 1usize))
        } else if tag == 0x01 {
            match operand_at(bytes, index) {
                Ok(n) => Ok((Op::Constant(n as usize), 5usize)),
                Err(e) => Err(e),
            }
        } else if tag == 0x02 {
            Ok((Op::Return, 1usize))
        } else if tag == 0x03 {
            Ok((Op::IntAdd, 1usize))
        } else if tag == 0x04 {
            Ok((Op::IntSub, 1usize))
        } else if tag == 0x05 {
            Ok((Op::IntMul, 1usize))
        } else if tag == 0x06 {
            Ok((Op::IntDiv, 1usize))
        } else if tag == 0x07 {
            Ok((Op::IntMod, 1usize))
        } else if tag == 0x08 {
            Ok((Op::IntPow, 1usize))
        } else if tag == 0x09 {
            match operand_at(bytes, index) {
                Ok(n) => Ok((Op::Jump(n as usize), 5usize)),
                Err(e) => Err(e),
            }
        } else if tag == 0x0A {
            match operand_at(bytes, index) {
                Ok(n) => Ok((Op::Copy(n), 5usize)),
                Err(e) => Err(e),
            }
        } else {
            Err(DecodeFault::UnknownOp(tag))
        }
    }
}

/// Whether an executable result of decoding is the one that the format
/// defines.
pub open spec fn op_result_is(
    r: Result<(Op, usize), BytecodeError>,
    expected: Result<(Op, usize), DecodeFault>,
) -> bool {
    match r {
        Ok(v) => expected == Ok::<(Op, usize), DecodeFault>(v),
        Err(e) => expected == Err::<(Op, usize), DecodeFault>(e@),
    }
}

/// Puts a tag byte in front of encoded bytes.
fn with_tag(tag: u8, body: Vec<u8>) -> (out: Vec<u8>)
    ensures
        out@ == seq![tag] + body@,
{
    let mut out: Vec<u8> = vec![tag];
    let mut body = body;
    out.append(&mut body);
    out
}

/// Reads the 32-bit operand of the operation whose tag is at `index`.
fn read_operand(bytes: &[u8], index: usize) -> (r: Result<u32, BytecodeError>)
    requires
        index < bytes@.len(),
    ensures
        match r {
            Ok(n) => operand_at(bytes@, index as int) == Ok::<u32, DecodeFault>(n),
            Err(e) => operand_at(bytes@, index as int) == Err::<u32, DecodeFault>(e@),
        },
{
    let len = bytes.len();
    assert(index < len);
    match read_u32(bytes, index + 1) {
        Ok(n) => Ok(n),
        Err(e) => Err(BytecodeError::Invalid(e)),
    }
}

impl Op {
    /// Encodes this operation.
    pub fn as_bytes(&self) -> (out: Vec<u8>)
        ensures
            out@ == op_bytes(*self),
    {
        match self {
            Op::NoOp => vec![0x00u8],
            Op::Constant(b) => with_tag(0x01, write_u32((*b as u64 % 0x1_0000_0000) as u32)),
            Op::Return => vec![0x02u8],
            Op::IntAdd => vec![0x03u8],
            Op::IntSub => vec![0x04u8],
            Op::IntMul => vec![0x05u8],
            Op::IntDiv => vec![0x06u8],
            Op::IntMod => vec![0x07u8],
            Op::IntPow => vec![0x08u8],
            Op::Jump(b) => with_tag(0x09, write_u32((*b as u64 % 0x1_0000_0000) as u32)),
            Op::Copy(b) => with_tag(0x0A, write_u32(*b)),
        }
    }

    /// Decodes the operation at `index`, and says how many bytes it took.
    pub fn from_bytes(bytes: &[u8], index: usize) -> (r: Result<(Op, usize), BytecodeError>)
        ensures
            op_result_is(r, decode_op(bytes@, index as int)),
    {
        if index >= bytes.len() {
            return Err(invalid("Unexpected EOF while parsing op"));
        }
        let tag = bytes[index];
        if tag == 0x00 {
            Ok((Op::NoOp, 1))
        } else if tag == 0x01 {
            match read_operand(bytes, index) {
                Ok(n) => Ok((Op::Constant(n as usize), 5)),
                Err(e) => Err(e),
            }
        } else if tag == 0x02 {
            Ok((Op::Return, 1))
        } else if tag == 0x03 {
            Ok((Op::IntAdd, 1))
        } else if tag == 0x04 {
            Ok((Op::IntSub, 1))
        } else if tag == 0x05 {
            Ok((Op::IntMul, 1))
        } else if tag == 0x06 {
            Ok((Op::IntDiv, 1))
        } else if tag == 0x07 {
            Ok((Op::IntMod, 1))
        } else if tag == 0x08 {
            Ok((Op::IntPow, 1))
        } else if tag == 0x09 {
            match read_operand(bytes, index) {
                Ok(n) => Ok((Op::Jump(n as usize), 5)),
                Err(e) => Err(e),
            }
        } else if tag == 0x0A {
            match read_operand(bytes, index) {
                Ok(n) => Ok((Op::Copy(n), 5)),
                Err(e) => Err(e),
            }
        } else {
            Err(BytecodeError::UnknownOp(UnknownOpError(tag)))
        }
    }
}

/// The bytes that encode a constant.
pub open spec fn constant_bytes(c: ConstantView) -> Seq<u8> {
    match c {
        ConstantView::Int(v) => seq![0x01u8] + i64_to_be(v),
        ConstantView::Float(v) => seq![0x02u8] + u64_to_be(v),
        ConstantView::String(v) => seq![0x03u8] + str_to_be(v),
        ConstantView::Bool(v) => seq![0x04u8, bool_byte(v)],
    }
}

/// The constant encoded at `index` and the number of bytes it takes, or the
/// failure of decoding it.
pub open spec fn decode_constant(bytes: Seq<u8>, index: int) -> Result<
    (ConstantView, usize),
    DecodeFault,
> {
    if index < 0 || index >= bytes.len() {
        Err(DecodeFault::Invalid("Unexpected EOF while parsing const"@))
    } else {
        let tag = bytes[index];
        if tag == 0x01 {
            if in_bounds(bytes, index + 1, 8) {
                Ok((ConstantView::Int(i64_from_be(bytes.subrange(index + 1, index + 9))), 9usize))
            } else {
                Err(DecodeFault::Invalid("Unexpected EOF while parsing i64"@))
            }
        } else if tag == 0x02 {
            if in_bounds(bytes, index + 1, 8) {
                Ok((ConstantView::Float(u64_from_be(bytes.subrange(index + 1, index + 9))), 9usize))
            } else {
                Err(DecodeFault::Invalid("Unexpected EOF while parsing f64"@))
            }
        } else if tag == 0x03 {
            if !in_bounds(bytes, index + 1, 4) {
                Err(DecodeFault::Invalid("Unexpected EOF while parsing u32"@))
            } else if !str_in_bounds(bytes, index + 1) {
                Err(DecodeFault::Invalid("Unexpected EOF while parsing str"@))
            } else if !valid_utf8(str_payload(bytes, index + 1)) {
                Err(DecodeFault::Invalid("Cannot parse string literal"@))
            } else {
                Ok(
                    (
                        ConstantView::String(decode_utf8(str_payload(bytes, index + 1))),
                        (str_payload(bytes, index + 1).len() + 5) as usize,
                    ),
                )
            }
        } else if tag == 0x04 {
            if in_bounds(bytes, index + 1, 1) {
                Ok((ConstantView::Bool(bytes[index + 1] != 0), 2usize))
            } else {
                Err(DecodeFault::Invalid("Unexpected EOF while parsing bool"@))
            }
        } else {
            Err(DecodeFault::UnknownConst(tag))
        }
    }
}

/// Whether an executable result of decoding is the one that the format
/// defines.
pub open spec fn constant_result_is(
    r: Result<(Constant, usize), BytecodeError>,
    expected: Result<(ConstantView, usize), DecodeFault>,
) -> bool {
    match r {
        Ok(v) => expected == Ok::<(ConstantView, usize), DecodeFault>((v.0@, v.1)),
        Err(e) => expected == Err::<(ConstantView, usize), DecodeFault>(e@),
    }
}

impl Constant {
    /// Whether this constant can be written: a string's length has to fit
    /// the 32-bit length field.
    pub open spec fn encodable(&self) -> bool {
        self matches Constant::String(s) ==> encode_utf8(s@).len() <= u32::MAX
    }

    /// Encodes this constant.
    pub fn as_bytes(&self) -> (out: Vec<u8>)
        requires
            self.encodable(),
        ensures
            out@ == constant_bytes(self@),
    {
        match self {
            Constant::Int(v) => with_tag(0x01, write_i64(*v)),
            Constant::Float(v) => with_tag(0x02, write_f64(*v)),
            Constant::String(v) => with_tag(0x03, write_str(v.as_str())),
            Constant::Bool(v) => {
                let out = with_tag(0x04, write_bool(*v));
                assert(out@ =~= constant_bytes(self@));
                out
            },
        }
    }

    /// Decodes the constant at `index`, and says how many bytes it took.
    pub fn from_bytes(bytes: &[u8], index: usize) -> (r: Result<(Constant, usize), BytecodeError>)
        ensures
            constant_result_is(r, decode_constant(bytes@, index as int)),
    {
        if index >= bytes.len() {
            return Err(invalid("Unexpected EOF while parsing const"));
        }
        let tag = bytes[index];
        if tag == 0x01 {
            match read_i64(bytes, index + 1) {
                Ok(n) => Ok((Constant::Int(n), 9)),
                Err(e) => Err(BytecodeError::Invalid(e)),
            }
        } else if tag == 0x02 {
            match read_f64(bytes, index + 1) {
                Ok(n) => Ok((Constant::Float(n), 9)),
                Err(e) => Err(BytecodeError::Invalid(e)),
            }
        } else if tag == 0x03 {
            match read_str(bytes, index + 1) {
                Ok(s) => {
                    proof {
                        vstd::utf8::decode_utf8_encode_utf8(str_payload(bytes@, index + 1));
                    }
                    let byte_count = s.as_str().len() + 5;
                    Ok((Constant::String(s), byte_count))
                },
                Err(e) => Err(BytecodeError::Invalid(e)),
            }
        } else if tag == 0x04 {
            match read_bool(bytes, index + 1) {
                Ok(b) => Ok((Constant::Bool(b), 2)),
                Err(e) => Err(BytecodeError::Invalid(e)),
            }
        } else {
            Err(BytecodeError::UnknownConst(UnknownConstError(tag)))
        }
    }
}

} // verus!

verus! {

/// Decoding what `op_bytes` wrote gives the operation again, provided its
/// index fits the 32-bit field.
pub proof fn lemma_op_round_trip(op: Op)
    requires
        op matches Op::Constant(i) ==> i <= u32::MAX,
        op matches Op::Jump(i) ==> i <= u32::MAX,
    ensures
        decode_op(op_bytes(op), 0) == Ok::<(Op, usize), DecodeFault>(
            (op, op_bytes(op).len() as usize),
        ),
{
    match op {
        Op::Constant(i) => {
            crate::bytecode::util::lemma_u32_round_trip(index_field(i));
            assert(op_bytes(op).subrange(1, 5) =~= u32_to_be(index_field(i)));
        },
        Op::Jump(i) => {
            crate::bytecode::util::lemma_u32_round_trip(index_field(i));
            assert(op_bytes(op).subrange(1, 5) =~= u32_to_be(index_field(i)));
        },
        Op::Copy(n) => {
            crate::bytecode::util::lemma_u32_round_trip(n);
            assert(op_bytes(op).subrange(1, 5) =~= u32_to_be(n));
        },
        _ => {},
    }
}

/// A constant that decodes at `index` lies inside the buffer.
pub proof fn lemma_constant_in_bounds(bytes: Seq<u8>, index: int)
    requires
        bytes.len() <= usize::MAX,
    ensures
        decode_constant(bytes, index) matches Ok(v) ==> 0 < v.1 && index + v.1 <= bytes.len(),
{
}

/// An operation that decodes at `index` lies inside the buffer.
pub proof fn lemma_op_in_bounds(bytes: Seq<u8>, index: int)
    requires
        bytes.len() <= usize::MAX,
    ensures
        decode_op(bytes, index) matches Ok(v) ==> 0 < v.1 && index + v.1 <= bytes.len(),
{
}

} // verus!
