//! Failures of building the intermediate representation.

use crate::compiler::nodes::NodePosition;
use crate::text::{decimal_text, push_decimal};
use vstd::prelude::*;

verus! {

/// What went wrong while building the intermediate representation.
#[derive(Debug, Clone, PartialEq, Eq)]
pub enum IRError {
    /// A second element with a name that is already taken.
    IdentifierAlreadyExists(String),
    /// A name that nothing in scope carries.
    UnknownIdentifier(String),
    /// Assignments that depend on each other in a circle; the name is that
    /// of the first variable that could not be ordered.
    CircularDependency(String),
    /// A call that several functions answer equally well.
    AmbiguousCall(String),
    /// A kind of expression that has no representation.
    UnsupportedExpression,
    /// More statements, parameters or levels of nesting than an index can count.
    LimitExceeded,
}

/// A failure of building the intermediate representation, as a
/// mathematical value.
pub enum IRErrorView {
    /// A second element with a name that is already taken.
    IdentifierAlreadyExists(Seq<char>),
    /// A name that nothing in scope carries.
    UnknownIdentifier(Seq<char>),
    /// Assignments that depend on each other in a circle.
    CircularDependency(Seq<char>),
    /// A call that several functions answer equally well.
    AmbiguousCall(Seq<char>),
    /// A kind of expression that has no representation.
    UnsupportedExpression,
    /// More statements, parameters or levels of nesting than an index can count.
    LimitExceeded,
}

impl View for IRError {
    type V = IRErrorView;

    open spec fn view(&self) -> IRErrorView {
        match self {
            IRError::IdentifierAlreadyExists(n) => IRErrorView::IdentifierAlreadyExists(n@),
            IRError::UnknownIdentifier(n) => IRErrorView::UnknownIdentifier(n@),
            IRError::CircularDependency(n) => IRErrorView::CircularDependency(n@),
            IRError::AmbiguousCall(n) => IRErrorView::AmbiguousCall(n@),
            IRError::UnsupportedExpression => IRErrorView::UnsupportedExpression,
            IRError::LimitExceeded => IRErrorView::LimitExceeded,
        }
    }
}

/// The text of a failure.
pub open spec fn ir_error_text(e: IRErrorView) -> Seq<char> {
    match e {
        IRErrorView::IdentifierAlreadyExists(n) => "An element with the name '"@ + n
            + "' already exists"@,
        IRErrorView::UnknownIdentifier(n) => "Cannot find element '"@ + n
            + "' within the current scope"@,
        IRErrorView::CircularDependency(n) => "The assignment of '"@ + n
            + "' depends on itself"@,
        IRErrorView::AmbiguousCall(n) => "The call of '"@ + n + "' is ambiguous"@,
        IRErrorView::UnsupportedExpression => "This kind of expression is not supported"@,
        IRErrorView::LimitExceeded => "Too many statements, parameters or levels of nesting"@,
    }
}

/// A text between a head and a tail.
fn wrapped(head: &str, name: &String, tail: &str) -> (s: String)
    ensures
        s@ == head@ + name@ + tail@,
{
    let mut out = String::from_str(head);
    out.append(name.as_str());
    out.append(tail);
    out
}

impl IRError {
    /// The text of this failure.
    pub fn to_text(&self) -> (s: String)
        ensures
            s@ == ir_error_text(self@),
    {
        match self {
            IRError::IdentifierAlreadyExists(n) => wrapped(
                "An element with the name '",
                n,
                "' already exists",
            ),
            IRError::UnknownIdentifier(n) => wrapped(
                "Cannot find element '",
                n,
                "' within the current scope",
            ),
            IRError::CircularDependency(n) => wrapped(
                "The assignment of '",
                n,
                "' depends on itself",
            ),
            IRError::AmbiguousCall(n) => wrapped("The call of '", n, "' is ambiguous"),
            IRError::UnsupportedExpression => String::from_str(
                "This kind of expression is not supported",
            ),
            IRError::LimitExceeded => String::from_str("Too many statements, parameters or levels of nesting"),
        }
    }
}

/// A failure of compiling, with the place in the source text.
#[derive(Debug, Clone, PartialEq, Eq)]
pub struct CompilerError {
    source: IRError,
    position: NodePosition,
}

/// A failure of compiling, as a mathematical value.
pub struct CompileFault {
    /// What went wrong.
    pub source: IRErrorView,
    /// Where it went wrong.
    pub position: NodePosition,
}

impl View for CompilerError {
    type V = CompileFault;

    closed spec fn view(&self) -> CompileFault {
        CompileFault { source: self.source@, position: self.position }
    }
}

/// The text of a failure of compiling.
pub open spec fn compile_fault_text(e: CompileFault) -> Seq<char> {
    "Error: "@ + ir_error_text(e.source) + ", at "@ + decimal_text(e.position.line as nat) + ":"@
        + decimal_text(e.position.col as nat)
}

impl CompilerError {
    /// A failure at the given place.
    pub fn new(position: NodePosition, source: IRError) -> (e: Self)
        ensures
            e@ == (CompileFault { source: source@, position }),
    {
        CompilerError { source, position }
    }

    /// What went wrong.
    pub fn get_source(&self) -> (source: &IRError)
        ensures
            source@ == self@.source,
    {
        &self.source
    }

    /// Where it went wrong.
    pub fn get_position(&self) -> (position: NodePosition)
        ensures
            position == self@.position,
    {
        self.position
    }

    /// The text of this failure.
    pub fn to_text(&self) -> (s: String)
        ensures
            s@ == compile_fault_text(self@),
    {
        let mut out = String::from_str("Error: ");
        let inner = self.source.to_text();
        out.append(inner.as_str());
        out.append(", at ");
        push_decimal(&mut out, self.position.line);
        out.append(":");
        push_decimal(&mut out, self.position.col);
        out
    }
}

} // verus!
