//! A whole stack-machine program and its file format.

use crate::bytecode::error::{invalid, BytecodeError, DecodeFault, InvalidBytecodeError};
use crate::bytecode::ops::{
    constant_result_is, decode_constant, decode_op, lemma_constant_in_bounds, lemma_op_in_bounds,
    op_result_is, Constant, ConstantView, Op,
};
use crate::bytecode::util::{in_bounds, read_u32, u32_from_be};
use vstd::prelude::*;

verus! {

/// The number that every program file starts with.
pub const MAGIC_NUMBER: u32 = 0x5625_14AF;

/// The number of bytes of the header: the magic number and two counts.
pub const HEADER_LEN: usize = 12;

/// A program of the stack machine: its instructions and its constant pool.
#[derive(Debug, PartialEq, Eq)]
pub struct Bytecode {
    instructions: Vec<Op>,
    constants: Vec<Constant>,
}

/// A program as a mathematical value.
pub struct BytecodeView {
    /// The instructions, in order.
    pub instructions: Seq<Op>,
    /// The constant pool, in order.
    pub constants: Seq<ConstantView>,
}

impl View for Bytecode {
    type V = BytecodeView;

    closed spec fn view(&self) -> BytecodeView {
        BytecodeView {
            instructions: self.instructions@,
            constants: Seq::new(self.constants@.len(), |i: int| self.constants@[i]@),
        }
    }
}

/// The views of a sequence of constants.
pub open spec fn constant_views(cs: Seq<Constant>) -> Seq<ConstantView> {
    Seq::new(cs.len(), |i: int| cs[i]@)
}

/// The result of decoding a run of items: the items and the index after
/// the last of them.
pub type Decoded<T> = Result<(Seq<T>, int), DecodeFault>;

/// Puts already decoded items in front of a result.
pub open spec fn after<T>(done: Seq<T>, rest: Decoded<T>) -> Decoded<T> {
    match rest {
        Ok(v) => Ok((done + v.0, v.1)),
        Err(e) => Err(e),
    }
}

/// The `count` constants encoded from `index` on.
pub open spec fn decode_constants(bytes: Seq<u8>, index: int, count: nat) -> Decoded<ConstantView>
    decreases count,
{
    if count == 0 {
        Ok((Seq::empty(), index))
    } else {
        match decode_constant(bytes, index) {
            Ok(v) => after(seq![v.0], decode_constants(bytes, index + v.1, (count - 1) as nat)),
            Err(e) => Err(e),
        }
    }
}

/// The `count` operations encoded from `index` on.
pub open spec fn decode_ops(bytes: Seq<u8>, index: int, count: nat) -> Decoded<Op>
    decreases count,
{
    if count == 0 {
        Ok((Seq::empty(), index))
    } else {
        match decode_op(bytes, index) {
            Ok(v) => after(seq![v.0], decode_ops(bytes, index + v.1, (count - 1) as nat)),
            Err(e) => Err(e),
        }
    }
}

/// The program that a file holds: the header, then the constants, then the
/// operations. Bytes after the last operation are not looked at.
pub open spec fn decode_bytecode(bytes: Seq<u8>) -> Result<BytecodeView, DecodeFault> {
    if !in_bounds(bytes, 0, 4) {
        Err(DecodeFault::Invalid("Unexpected EOF while parsing u32"@))
    } else if u32_from_be(bytes.subrange(0, 4)) != MAGIC_NUMBER {
        Err(DecodeFault::Invalid("Invalid bytecode header"@))
    } else if !in_bounds(bytes, 4, 8) {
        Err(DecodeFault::Invalid("Unexpected EOF while parsing u32"@))
    } else {
        let const_count = u32_from_be(bytes.subrange(4, 8)) as nat;
        let op_count = u32_from_be(bytes.subrange(8, 12)) as nat;
        match decode_constants(bytes, 12, const_count) {
            Err(e) => Err(e),
            Ok(cs) => match decode_ops(bytes, cs.1, op_count) {
                Err(e) => Err(e),
                Ok(ops) => Ok(BytecodeView { instructions: ops.0, constants: cs.0 }),
            },
        }
    }
}

/// The two counts of a header.
struct BytecodeHeader {
    const_count: usize,
    op_count: usize,
}

impl Bytecode {
    /// A program made of the given instructions and constants.
    pub fn new(instructions: Vec<Op>, constants: Vec<Constant>) -> (b: Bytecode)
        ensures
            b@.instructions == instructions@,
            b@.constants == constant_views(constants@),
    {
        Bytecode { instructions, constants }
    }

    /// The instructions of this program.
    pub fn get_instructions(&self) -> (ops: &Vec<Op>)
        ensures
            ops@ == self@.instructions,
    {
        &self.instructions
    }

    /// The constant pool of this program.
    pub fn get_constants(&self) -> (cs: &Vec<Constant>)
        ensures
            constant_views(cs@) == self@.constants,
    {
        &self.constants
    }

    /// Reads the header: the magic number and the two counts.
    fn read_header(bytes: &[u8]) -> (r: Result<BytecodeHeader, InvalidBytecodeError>)
        ensures
            match r {
                Ok(h) => {
                    &&& in_bounds(bytes@, 0, 12)
                    &&& u32_from_be(bytes@.subrange(0, 4)) == MAGIC_NUMBER
                    &&& h.const_count == u32_from_be(bytes@.subrange(4, 8))
                    &&& h.op_count == u32_from_be(bytes@.subrange(8, 12))
                },
                Err(e) => decode_bytecode(bytes@) == Err::<BytecodeView, DecodeFault>(
                    DecodeFault::Invalid(e.0@),
                ),
            },
    {
        let magic = match read_u32(bytes, 0) {
            Ok(n) => n,
            Err(e) => {
                return Err(e);
            },
        };
        if magic != MAGIC_NUMBER {
            return Err(InvalidBytecodeError(String::from_str("Invalid bytecode header")));
        }
        let const_count = match read_u32(bytes, 4) {
            Ok(n) => n as usize,
            Err(e) => {
                return Err(e);
            },
        };
        let op_count = match read_u32(bytes, 8) {
            Ok(n) => n as usize,
            Err(e) => {
                return Err(e);
            },
        };
        Ok(BytecodeHeader { const_count, op_count })
    }

    /// Decodes a program file.
    pub fn from_bytes(bytes: &[u8]) -> (r: Result<Bytecode, BytecodeError>)
        ensures
            match r {
                Ok(b) => decode_bytecode(bytes@) == Ok::<BytecodeView, DecodeFault>(b@),
                Err(e) => decode_bytecode(bytes@) == Err::<BytecodeView, DecodeFault>(e@),
            },
    {
        let header = match Self::read_header(bytes) {
            Ok(v) => v,
            Err(e) => {
                return Err(BytecodeError::Invalid(e));
            },
        };
        let mut cons: Vec<Constant> = Vec::new();
        let mut ops: Vec<Op> = Vec::new();
        let mut index: usize = 12;
        let total = bytes.len();
        assert(constant_views(cons@) =~= Seq::<ConstantView>::empty());
        let ghost all_constants = decode_constants(bytes@, 12, header.const_count as nat);

        let mut i: usize = 0;
        while i < header.const_count
            invariant
                i <= header.const_count,
                index <= bytes@.len(),
                bytes@.len() <= usize::MAX,
                in_bounds(bytes@, 0, 12),
                u32_from_be(bytes@.subrange(0, 4)) == MAGIC_NUMBER,
                header.const_count == u32_from_be(bytes@.subrange(4, 8)),
                header.op_count == u32_from_be(bytes@.subrange(8, 12)),
                all_constants == decode_constants(bytes@, 12, header.const_count as nat),
                all_constants == after(
                    constant_views(cons@),
                    decode_constants(bytes@, index as int, (header.const_count - i) as nat),
                ),
            decreases header.const_count - i,
        {
            let ghost before = constant_views(cons@);
            proof {
                lemma_constant_in_bounds(bytes@, index as int);
            }
            let (constant, byte_count) = match Constant::from_bytes(bytes, index) {
                Ok(v) => v,
                Err(e) => {
                    return Err(e);
                },
            };
            cons.push(constant);
            index += byte_count;
            i += 1;
            proof {
                let rest = decode_constants(
                    bytes@,
                    index as int,
                    (header.const_count - i) as nat,
                );
                assert(constant_views(cons@) =~= before + seq![constant@]);
                match rest {
                    Ok(v) => {
                        assert(before + (seq![constant@] + v.0) =~= constant_views(cons@) + v.0);
                    },
                    Err(_) => {},
                }
            }
        }
        assert(all_constants == Ok::<(Seq<ConstantView>, int), DecodeFault>(
            (constant_views(cons@), index as int),
        )) by {
            assert(constant_views(cons@) + Seq::<ConstantView>::empty() =~= constant_views(cons@));
        }

        let ghost all_ops = decode_ops(bytes@, index as int, header.op_count as nat);
        let ghost ops_start = index;
        let mut j: usize = 0;
        while j < header.op_count
            invariant
                j <= header.op_count,
                index <= bytes@.len(),
                bytes@.len() <= usize::MAX,
                in_bounds(bytes@, 0, 12),
                u32_from_be(bytes@.subrange(0, 4)) == MAGIC_NUMBER,
                header.const_count == u32_from_be(bytes@.subrange(4, 8)),
                header.op_count == u32_from_be(bytes@.subrange(8, 12)),
                decode_constants(bytes@, 12, header.const_count as nat) == Ok::<
                    (Seq<ConstantView>, int),
                    DecodeFault,
                >((constant_views(cons@), ops_start as int)),
                all_ops == decode_ops(bytes@, ops_start as int, header.op_count as nat),
                all_ops == after(
                    ops@,
                    decode_ops(bytes@, index as int, (header.op_count - j) as nat),
                ),
            decreases header.op_count - j,
        {
            let ghost before = ops@;
            proof {
                lemma_op_in_bounds(bytes@, index as int);
            }
            let (op, len) = match Op::from_bytes(bytes, index) {
                Ok(v) => v,
                Err(e) => {
                    return Err(e);
                },
            };
            ops.push(op);
            index += len;
            j += 1;
            proof {
                let rest = decode_ops(bytes@, index as int, (header.op_count - j) as nat);
                match rest {
                    Ok(v) => {
                        assert(before + (seq![op] + v.0) =~= ops@ + v.0);
                    },
                    Err(_) => {},
                }
            }
        }
        assert(all_ops == Ok::<(Seq<Op>, int), DecodeFault>((ops@, index as int))) by {
            assert(ops@ + Seq::<Op>::empty() =~= ops@);
        }
        let b = Bytecode { instructions: ops, constants: cons };
        assert(b@.constants =~= constant_views(cons@));
        Ok(b)
    }
}

} // verus!
