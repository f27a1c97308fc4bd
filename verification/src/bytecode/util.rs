//! Big-endian primitives of the program file format.

use crate::bytecode::error::InvalidBytecodeError;
use vstd::prelude::*;
use vstd::slice::*;
use vstd::string::*;
use vstd::utf8::*;

verus! {

/// The number that four bytes spell, most significant byte first.
pub open spec fn u32_from_be(s: Seq<u8>) -> u32
    recommends
        s.len() == 4,
{
    (s[0] as int * 0x100_0000 + s[1] as int * 0x1_0000 + s[2] as int * 0x100 + s[3] as int) as u32
}

/// The four bytes of a number, most significant byte first.
pub open spec fn u32_to_be(n: u32) -> Seq<u8> {
    seq![
        (n as int / 0x100_0000) as u8,
        (n as int / 0x1_0000 % 0x100) as u8,
        (n as int / 0x100 % 0x100) as u8,
        (n as int % 0x100) as u8,
    ]
}

/// The unsigned number that eight bytes spell, most significant byte first.
pub open spec fn u64_from_be(s: Seq<u8>) -> u64
    recommends
        s.len() == 8,
{
    (u32_from_be(s.subrange(0, 4)) as int * 0x1_0000_0000 + u32_from_be(s.subrange(4, 8)) as int) as u64
}

/// The eight bytes of an unsigned number, most significant byte first.
pub open spec fn u64_to_be(n: u64) -> Seq<u8> {
    u32_to_be((n as int / 0x1_0000_0000) as u32) + u32_to_be((n as int % 0x1_0000_0000) as u32)
}

/// The signed number whose two's complement pattern is `n`.
pub open spec fn i64_of_pattern(n: u64) -> i64 {
    if n >= 0x8000_0000_0000_0000 {
        (n as int - 0x1_0000_0000_0000_0000) as i64
    } else {
        n as i64
    }
}

/// The two's complement pattern of a signed number.
pub open spec fn pattern_of_i64(n: i64) -> u64 {
    if n < 0 {
        (n as int + 0x1_0000_0000_0000_0000) as u64
    } else {
        n as u64
    }
}

/// The signed number that eight bytes spell, most significant byte first.
pub open spec fn i64_from_be(s: Seq<u8>) -> i64
    recommends
        s.len() == 8,
{
    i64_of_pattern(u64_from_be(s))
}

/// The eight bytes of a signed number, most significant byte first.
pub open spec fn i64_to_be(n: i64) -> Seq<u8> {
    u64_to_be(pattern_of_i64(n))
}

/// The single byte that stands for a boolean.
pub open spec fn bool_byte(b: bool) -> u8 {
    if b {
        1u8
    } else {
        0u8
    }
}

/// A string as the file holds it: the byte length in four bytes, then the
/// UTF-8 bytes.
pub open spec fn str_to_be(s: Seq<char>) -> Seq<u8> {
    u32_to_be(encode_utf8(s).len() as u32) + encode_utf8(s)
}

/// Whether `width` bytes can be read at `index`.
pub open spec fn in_bounds(bytes: Seq<u8>, index: int, width: int) -> bool {
    index + width <= bytes.len()
}

/// Reading back what `u32_to_be` wrote gives the number again.
pub proof fn lemma_u32_round_trip(n: u32)
    ensures
        u32_to_be(n).len() == 4,
        u32_from_be(u32_to_be(n)) == n,
{
}

/// Reading back what `u64_to_be` wrote gives the number again.
pub proof fn lemma_u64_round_trip(n: u64)
    ensures
        u64_to_be(n).len() == 8,
        u64_from_be(u64_to_be(n)) == n,
{
    let hi = (n as int / 0x1_0000_0000) as u32;
    let lo = (n as int % 0x1_0000_0000) as u32;
    lemma_u32_round_trip(hi);
    lemma_u32_round_trip(lo);
    assert(u64_to_be(n).subrange(0, 4) =~= u32_to_be(hi));
    assert(u64_to_be(n).subrange(4, 8) =~= u32_to_be(lo));
}

/// Reading back what `i64_to_be` wrote gives the number again.
pub proof fn lemma_i64_round_trip(n: i64)
    ensures
        i64_to_be(n).len() == 8,
        i64_from_be(i64_to_be(n)) == n,
{
    lemma_u64_round_trip(pattern_of_i64(n));
}

/// `String::from_utf8` of std: it succeeds exactly on well-formed UTF-8 and
/// then gives the text that the bytes encode.
#[verifier::external_body]
fn string_from_utf8(bytes: Vec<u8>) -> (r: Option<String>)
    ensures
        r is Some <==> valid_utf8(bytes@),
        r matches Some(s) ==> s@ == decode_utf8(bytes@),
{
    match String::from_utf8(bytes) {
        Ok(s) => Some(s),
        Err(_) => None,
    }
}

/// Reads a big-endian `u32` at `index`.
pub fn read_u32(bytes: &[u8], index: usize) -> (r: Result<u32, InvalidBytecodeError>)
    ensures
        r is Ok <==> in_bounds(bytes@, index as int, 4),
        r matches Ok(n) ==> n == u32_from_be(bytes@.subrange(index as int, index + 4)),
        r matches Err(e) ==> e.0@ == "Unexpected EOF while parsing u32"@,
{
    if bytes.len() < 4 || index > bytes.len() - 4 {
        return Err(InvalidBytecodeError(String::from_str("Unexpected EOF while parsing u32")));
    }
    let b0: u32 = bytes[index] as u32;
    let b1: u32 = bytes[index + 1] as u32;
    let b2: u32 = bytes[index + 2] as u32;
    let b3: u32 = bytes[index + 3] as u32;
    Ok(b0 * 0x100_0000 + b1 * 0x1_0000 + b2 * 0x100 + b3)
}

/// Reads eight bytes at `index` as a big-endian unsigned number.
pub fn read_u64(bytes: &[u8], index: usize) -> (r: Option<u64>)
    ensures
        r is Some <==> in_bounds(bytes@, index as int, 8),
        r matches Some(n) ==> n == u64_from_be(bytes@.subrange(index as int, index + 8)),
{
    if bytes.len() < 8 || index > bytes.len() - 8 {
        return None;
    }
    let ghost s = bytes@.subrange(index as int, index + 8);
    let hi = read_u32(bytes, index);
    let lo = read_u32(bytes, index + 4);
    match (hi, lo) {
        (Ok(hi), Ok(lo)) => {
            assert(s.subrange(0, 4) =~= bytes@.subrange(index as int, index + 4));
            assert(s.subrange(4, 8) =~= bytes@.subrange(index + 4, index + 8));
            Some((hi as u64) * 0x1_0000_0000 + (lo as u64))
        },
        _ => None,
    }
}

/// Reads a big-endian `i64` at `index`.
pub fn read_i64(bytes: &[u8], index: usize) -> (r: Result<i64, InvalidBytecodeError>)
    ensures
        r is Ok <==> in_bounds(bytes@, index as int, 8),
        r matches Ok(n) ==> n == i64_from_be(bytes@.subrange(index as int, index + 8)),
        r matches Err(e) ==> e.0@ == "Unexpected EOF while parsing i64"@,
{
    match read_u64(bytes, index) {
        Some(n) => {
            if n >= 0x8000_0000_0000_0000 {
                let low: i64 = (n - 0x8000_0000_0000_0000) as i64;
                Ok(low + i64::MIN)
            } else {
                Ok(n as i64)
            }
        },
        None => Err(InvalidBytecodeError(String::from_str("Unexpected EOF while parsing i64"))),
    }
}

/// Reads the bit pattern of a big-endian IEEE-754 double at `index`.
pub fn read_f64(bytes: &[u8], index: usize) -> (r: Result<u64, InvalidBytecodeError>)
    ensures
        r is Ok <==> in_bounds(bytes@, index as int, 8),
        r matches Ok(n) ==> n == u64_from_be(bytes@.subrange(index as int, index + 8)),
        r matches Err(e) ==> e.0@ == "Unexpected EOF while parsing f64"@,
{
    match read_u64(bytes, index) {
        Some(n) => Ok(n),
        None => Err(InvalidBytecodeError(String::from_str("Unexpected EOF while parsing f64"))),
    }
}

/// The bytes of the string that starts at `index`, after its length field.
pub open spec fn str_payload(bytes: Seq<u8>, index: int) -> Seq<u8> {
    let len = u32_from_be(bytes.subrange(index, index + 4)) as int;
    bytes.subrange(index + 4, index + 4 + len)
}

/// Whether a whole length-prefixed string can be read at `index`.
pub open spec fn str_in_bounds(bytes: Seq<u8>, index: int) -> bool {
    &&& in_bounds(bytes, index, 4)
    &&& in_bounds(bytes, index, 4 + u32_from_be(bytes.subrange(index, index + 4)) as int)
}

/// Reads a length-prefixed UTF-8 string at `index`.
pub fn read_str(bytes: &[u8], index: usize) -> (r: Result<String, InvalidBytecodeError>)
    ensures
        r is Ok <==> str_in_bounds(bytes@, index as int) && valid_utf8(
            str_payload(bytes@, index as int),
        ),
        r matches Ok(s) ==> s@ == decode_utf8(str_payload(bytes@, index as int)),
        r matches Err(e) ==> e.0@ == (if !in_bounds(bytes@, index as int, 4) {
            "Unexpected EOF while parsing u32"@
        } else if !str_in_bounds(bytes@, index as int) {
            "Unexpected EOF while parsing str"@
        } else {
            "Cannot parse string literal"@
        }),
{
    let length = match read_u32(bytes, index) {
        Ok(n) => n as usize,
        Err(e) => {
            return Err(e);
        },
    };
    if bytes.len() - index - 4 < length {
        return Err(InvalidBytecodeError(String::from_str("Unexpected EOF while parsing str")));
    }
    let payload = slice_to_vec(slice_subrange(bytes, index + 4, index + 4 + length));
    match string_from_utf8(payload) {
        Some(s) => Ok(s),
        None => Err(InvalidBytecodeError(String::from_str("Cannot parse string literal"))),
    }
}

/// Reads a boolean at `index`: zero is false, anything else is true.
pub fn read_bool(bytes: &[u8], index: usize) -> (r: Result<bool, InvalidBytecodeError>)
    ensures
        r is Ok <==> in_bounds(bytes@, index as int, 1),
        r matches Ok(b) ==> b == (bytes@[index as int] != 0),
        r matches Err(e) ==> e.0@ == "Unexpected EOF while parsing bool"@,
{
    if index >= bytes.len() {
        return Err(InvalidBytecodeError(String::from_str("Unexpected EOF while parsing bool")));
    }
    Ok(bytes[index] != 0)
}

/// Writes a `u32`, most significant byte first.
pub fn write_u32(n: u32) -> (out: Vec<u8>)
    ensures
        out@ == u32_to_be(n),
{
    let out = vec![
        (n / 0x100_0000) as u8,
        (n / 0x1_0000 % 0x100) as u8,
        (n / 0x100 % 0x100) as u8,
        (n % 0x100) as u8,
    ];
    assert(out@ =~= u32_to_be(n));
    out
}

/// Writes an unsigned 64-bit number, most significant byte first.
pub fn write_u64(n: u64) -> (out: Vec<u8>)
    ensures
        out@ == u64_to_be(n),
{
    let mut out = write_u32((n / 0x1_0000_0000) as u32);
    let mut low = write_u32((n % 0x1_0000_0000) as u32);
    out.append(&mut low);
    out
}

/// Writes an `i64`, most significant byte first.
pub fn write_i64(n: i64) -> (out: Vec<u8>)
    ensures
        out@ == i64_to_be(n),
{
    if n < 0 {
        let low: u64 = (n - i64::MIN) as u64;
        write_u64(low + 0x8000_0000_0000_0000)
    } else {
        write_u64(n as u64)
    }
}

/// Writes the bit pattern of an IEEE-754 double, most significant byte first.
pub fn write_f64(bits: u64) -> (out: Vec<u8>)
    ensures
        out@ == u64_to_be(bits),
{
    write_u64(bits)
}

/// Writes a string as its byte length and its UTF-8 bytes.
pub fn write_str(s: &str) -> (out: Vec<u8>)
    requires
        encode_utf8(s@).len() <= u32::MAX,
    ensures
        out@ == str_to_be(s@),
{
    let mut out = write_u32(s.len() as u32);
    let mut body = slice_to_vec(s.as_bytes());
    out.append(&mut body);
    out
}

/// Writes a boolean as one byte.
pub fn write_bool(b: bool) -> (out: Vec<u8>)
    ensures
        out@ == seq![bool_byte(b)],
{
    if b {
        vec![0x01u8]
    } else {
        vec![0x00u8]
    }
}

} // verus!
