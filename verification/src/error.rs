//! Typed errors reported by compilation and witness generation.

use vstd::prelude::*;

use crate::ast::Span;

verus! {

#[derive(Clone, Copy, PartialEq, Eq, Structural, Debug)]
pub enum ErrorKind {
    /// The module declares no entry function.
    NoMainFunction,
    /// An entry-function argument carries an attribute other than the
    /// public marker.
    InvalidAttribute,
    /// An argument or return type has a shape the writer does not support.
    UnsupportedType,
    /// The entry function declares a return type but its body returns
    /// nothing.
    MissingReturn,
    /// The entry function returns a value but declares no return type.
    UnexpectedReturn,
    /// A declared private input never appears in any constraint row.
    PrivateInputNotUsed,
    /// A cell variable ended up in no constraint row although it is not a
    /// private input: an internal inconsistency of the writer, unrecoverable
    /// for its caller.  Sessions driven by this crate's compilation entry
    /// are proved never to report it.
    DanglingVariable,
    /// A wiring class with fewer than two members was handed to the
    /// cycle-closing step: an internal logic error in the caller.
    InvalidWiring,
    /// An input sequence handed to witness generation does not match the
    /// declared public or private input width.
    MissingInput,
}

/// An error together with the span of the program text it arose from.
#[derive(Clone, Copy, PartialEq, Eq, Structural, Debug)]
pub struct Error {
    pub kind: ErrorKind,
    pub span: Span,
}

impl Error {
    pub fn new(kind: ErrorKind, span: Span) -> (e: Error)
        ensures
            e.kind == kind,
            e.span == span,
    {
        Error { kind, span }
    }
}

} // verus!
