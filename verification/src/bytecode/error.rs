//! Failures of reading and running a stack-machine program.

use crate::text::{hex_byte_text, push_hex_byte};
use vstd::prelude::*;
use vstd::string::*;

verus! {

/// A failure that can be shown to the user as text.
pub trait VtRuntimeError {
    /// The message of this failure.
    spec fn message(&self) -> Seq<char>;

    /// Builds the message of this failure.
    fn get_message(&self) -> (s: String)
        ensures
            s@ == self.message(),
    ;
}

/// The full text shown for a failure: a fixed heading, then its message.
pub open spec fn runtime_error_text_of(message: Seq<char>) -> Seq<char> {
    "Vertex runtime error!\n"@ + message
}

/// Builds the full text shown for a failure.
pub fn runtime_error_text<E: VtRuntimeError + ?Sized>(e: &E) -> (s: String)
    ensures
        s@ == runtime_error_text_of(e.message()),
{
    let mut out = String::from_str("Vertex runtime error!\n");
    let m = e.get_message();
    out.append(m.as_str());
    out
}

/// An operation tag that the format does not define.
#[derive(Debug, Clone)]
pub struct UnknownOpError(pub u8);

impl VtRuntimeError for UnknownOpError {
    open spec fn message(&self) -> Seq<char> {
        "Unknown bytecode operation: 0x"@ + hex_byte_text(self.0)
    }

    fn get_message(&self) -> (s: String) {
        let mut out = String::from_str("Unknown bytecode operation: 0x");
        push_hex_byte(&mut out, self.0);
        out
    }
}

/// A constant tag that the format does not define.
#[derive(Debug, Clone)]
pub struct UnknownConstError(pub u8);

impl VtRuntimeError for UnknownConstError {
    open spec fn message(&self) -> Seq<char> {
        "Unknown bytecode const type: 0x"@ + hex_byte_text(self.0)
    }

    fn get_message(&self) -> (s: String) {
        let mut out = String::from_str("Unknown bytecode const type: 0x");
        push_hex_byte(&mut out, self.0);
        out
    }
}

/// A program that is cut short or otherwise malformed, with the reason.
#[derive(Debug, Clone)]
pub struct InvalidBytecodeError(pub String);

impl VtRuntimeError for InvalidBytecodeError {
    open spec fn message(&self) -> Seq<char> {
        self.0@
    }

    fn get_message(&self) -> (s: String) {
        self.0.clone()
    }
}

} // verus!

verus! {

/// What went wrong while decoding a program, as a mathematical value.
pub enum DecodeFault {
    /// An operation tag that the format does not define.
    UnknownOp(u8),
    /// A constant tag that the format does not define.
    UnknownConst(u8),
    /// A malformed program, with the reason.
    Invalid(Seq<char>),
}

/// Any failure of decoding a program.
#[derive(Debug, Clone)]
pub enum BytecodeError {
    /// An operation tag that the format does not define.
    UnknownOp(UnknownOpError),
    /// A constant tag that the format does not define.
    UnknownConst(UnknownConstError),
    /// A malformed program.
    Invalid(InvalidBytecodeError),
}

impl View for BytecodeError {
    type V = DecodeFault;

    open spec fn view(&self) -> DecodeFault {
        match self {
            BytecodeError::UnknownOp(e) => DecodeFault::UnknownOp(e.0),
            BytecodeError::UnknownConst(e) => DecodeFault::UnknownConst(e.0),
            BytecodeError::Invalid(e) => DecodeFault::Invalid(e.0@),
        }
    }
}

impl VtRuntimeError for BytecodeError {
    open spec fn message(&self) -> Seq<char> {
        match self {
            BytecodeError::UnknownOp(e) => e.message(),
            BytecodeError::UnknownConst(e) => e.message(),
            BytecodeError::Invalid(e) => e.message(),
        }
    }

    fn get_message(&self) -> (s: String) {
        match self {
            BytecodeError::UnknownOp(e) => e.get_message(),
            BytecodeError::UnknownConst(e) => e.get_message(),
            BytecodeError::Invalid(e) => e.get_message(),
        }
    }
}

/// A malformed-program failure with the given reason.
pub fn invalid(reason: &str) -> (e: BytecodeError)
    ensures
        e@ == DecodeFault::Invalid(reason@),
{
    BytecodeError::Invalid(InvalidBytecodeError(String::from_str(reason)))
}

} // verus!
