//! Diagnostics reported by the checks of this crate.

use vstd::prelude::*;
use crate::ast::Span;

verus! {

/// Diagnostic codes.
#[derive(Debug, Clone, Copy, PartialEq, Eq, Structural)]
pub enum ErrorCode {
    /// Two types that must agree do not.
    E0001,
    /// A generic type alias is given the wrong number of type arguments,
    /// or an operator operands of types it does not take.
    E0002,
    /// A type variable would have to contain itself.
    E0003,
    /// A struct name that no declaration gives.
    E0005,
    /// A variant name that no sum type declares.
    E0006,
    /// A variant pattern with the wrong number of fields.
    E0007,
    /// A match does not cover every value of its scrutinee.
    E0010,
    /// A literal pattern against a type that it cannot match.
    E0011,
    /// `?` applied to a value that is no outcome, or outside a function
    /// that returns one.
    E0012,
    /// A method call that more than one declaration could serve.
    E0014,
    /// A struct pattern or field access names a field the struct does not
    /// have.
    E0015,
    /// A field access on a type without fields.
    E0016,
    /// A generic bound names no trait, or a type does not satisfy it.
    E0403,
    /// A bounded type parameter whose type cannot be inferred.
    E0404,
    /// The alternatives of an or-pattern bind different names.
    E0504,
    /// Two imported modules export different declarations under one name.
    M0303,
    /// A callee needs effects that the caller does not declare.
    F0001,
    /// An unknown effect, trait or effect operation.
    F0002,
    /// A realization-shape budget is exceeded.
    B0101,
    /// A budget names a field that is not a shape measure.
    B0102,
    /// A function with a zero recursion budget recurses.
    B0201,
    /// A function leaves more holes than its budget allows.
    B0202,
}

/// A diagnostic: its code, message and, where known, source span.
#[derive(Debug, PartialEq, Eq)]
pub struct TypeError {
    pub code: ErrorCode,
    pub message: String,
    pub span: Option<Span>,
}

/// What a diagnostic says: its code and message.
pub open spec fn diag(e: TypeError) -> (ErrorCode, Seq<char>) {
    (e.code, e.message@)
}

/// What each diagnostic of a list says, in order.
pub open spec fn diags(s: Seq<TypeError>) -> Seq<(ErrorCode, Seq<char>)> {
    s.map_values(|e: TypeError| diag(e))
}

impl TypeError {
    pub fn new(code: ErrorCode, message: String) -> (r: Self)
        ensures
            r == (TypeError { code, message, span: None }),
    {
        TypeError { code, message, span: None }
    }

    pub fn with_span(code: ErrorCode, message: String, span: Span) -> (r: Self)
        ensures
            r == (TypeError { code, message, span: Some(span) }),
    {
        TypeError { code, message, span: Some(span) }
    }
}

} // verus!
