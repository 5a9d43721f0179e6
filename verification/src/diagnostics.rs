//! Diagnostics as the caller sees them.
//!
//! Each diagnostic carries a severity, a primary source span, a
//! human-readable message, and optional secondary spans with their own
//! labels. Diagnostics are rendered from the elaborator's structured errors
//! in discovery order.

use vstd::prelude::*;
use vstd::string::StringExecFns;

use crate::delaborate::delaborate_term;
use crate::elaborate::ElabError;
use crate::span::Span;

verus! {

/// How severe a diagnostic is.
#[derive(Debug, Clone, Copy, PartialEq, Eq, Structural)]
pub enum Severity {
    Error,
    Warning,
}

/// A rendered diagnostic.
#[derive(Debug)]
pub struct Diagnostic {
    pub severity: Severity,
    pub span: Span,
    pub message: String,
    pub secondary: Vec<(Span, String)>,
}

/// The primary span of an elaboration error.
pub open spec fn spec_error_span(e: &ElabError) -> Span {
    match e {
        ElabError::UnboundName { span, .. } => *span,
        ElabError::TypeMismatch { span, .. } => *span,
        ElabError::ExpectedFormat { span, .. } => *span,
        ElabError::ExpectedType { span, .. } => *span,
        ElabError::LiteralOutOfRange { span } => *span,
        ElabError::DuplicateField { second, .. } => *second,
        ElabError::DuplicateDefinition { second, .. } => *second,
        ElabError::InvalidApplication { span } => *span,
        ElabError::KindHasNoType { span } => *span,
    }
}

/// Renders an elaboration error as a diagnostic. Every elaboration error has
/// severity `Error` and a non-empty message naming the offence; its primary
/// span points at the offending term, and a duplicate field or definition
/// carries the first occurrence as a secondary span with a note, while every
/// other diagnostic has no secondary span.
pub fn to_diagnostic(e: &ElabError) -> (r: Diagnostic)
    ensures
        r.severity == Severity::Error,
        r.span == spec_error_span(e),
        r.message@.len() > 0,
        match e {
            ElabError::UnboundName { name, .. } => r.message@ == "cannot find `"@ + name@
                + "` in this scope"@ && r.secondary@.len() == 0,
            ElabError::LiteralOutOfRange { .. } => r.message@
                == "literal out of range for its type"@ && r.secondary@.len() == 0,
            ElabError::DuplicateField { label, first, .. } => r.message@ == "duplicate field `"@
                + label@ + "`"@ && r.secondary@.len() == 1 && r.secondary@[0].0 == *first
                && r.secondary@[0].1@ == "first declared here"@,
            ElabError::DuplicateDefinition { name, first, .. } => r.message@ == "the name `"@
                + name@ + "` is defined more than once"@ && r.secondary@.len() == 1
                && r.secondary@[0].0 == *first && r.secondary@[0].1@ == "first defined here"@,
            ElabError::InvalidApplication { .. } => r.message@
                == "only the `Array` primitive takes arguments, a length and an element format"@
                && r.secondary@.len() == 0,
            ElabError::KindHasNoType { .. } => r.message@
                == "`Kind` has no type and can stand only where `Kind` is expected"@
                && r.secondary@.len() == 0,
            _ => r.secondary@.len() == 0,
        },
{
    proof {
        reveal_strlit("cannot find `");
        reveal_strlit("literal out of range for its type");
        reveal_strlit("duplicate field `");
        reveal_strlit("the name `");
        reveal_strlit("only the `Array` primitive takes arguments, a length and an element format");
        reveal_strlit("`Kind` has no type and can stand only where `Kind` is expected");
        reveal_strlit("type mismatch: expected `");
        reveal_strlit("expected a format, found a term of type `");
        reveal_strlit("expected a type, found a term of type `");
    }
    match e {
        ElabError::UnboundName { span, name } => {
            let mut message = String::new();
            message.append("cannot find `");
            message.append(name.as_str());
            message.append("` in this scope");
            Diagnostic { severity: Severity::Error, span: *span, message, secondary: Vec::new() }
        },
        ElabError::TypeMismatch { span, expected, found } => {
            let mut message = String::new();
            message.append("type mismatch: expected `");
            message = message.concat(delaborate_term(expected).doc().as_str());
            message.append("`, found `");
            message = message.concat(delaborate_term(found).doc().as_str());
            message.append("`");
            Diagnostic { severity: Severity::Error, span: *span, message, secondary: Vec::new() }
        },
        ElabError::ExpectedFormat { span, found } => {
            let mut message = String::new();
            message.append("expected a format, found a term of type `");
            message = message.concat(delaborate_term(found).doc().as_str());
            message.append("`");
            Diagnostic { severity: Severity::Error, span: *span, message, secondary: Vec::new() }
        },
        ElabError::ExpectedType { span, found } => {
            let mut message = String::new();
            message.append("expected a type, found a term of type `");
            message = message.concat(delaborate_term(found).doc().as_str());
            message.append("`");
            Diagnostic { severity: Severity::Error, span: *span, message, secondary: Vec::new() }
        },
        ElabError::LiteralOutOfRange { span } => {
            let mut message = String::new();
            message.append("literal out of range for its type");
            Diagnostic { severity: Severity::Error, span: *span, message, secondary: Vec::new() }
        },
        ElabError::DuplicateField { label, first, second } => {
            let mut message = String::new();
            message.append("duplicate field `");
            message.append(label.as_str());
            message.append("`");
            let mut secondary: Vec<(Span, String)> = Vec::new();
            let mut note = String::new();
            note.append("first declared here");
            secondary.push((*first, note));
            Diagnostic { severity: Severity::Error, span: *second, message, secondary }
        },
        ElabError::DuplicateDefinition { name, first, second } => {
            let mut message = String::new();
            message.append("the name `");
            message.append(name.as_str());
            message.append("` is defined more than once");
            let mut secondary: Vec<(Span, String)> = Vec::new();
            let mut note = String::new();
            note.append("first defined here");
            secondary.push((*first, note));
            Diagnostic { severity: Severity::Error, span: *second, message, secondary }
        },
        ElabError::InvalidApplication { span } => {
            let mut message = String::new();
            message.append("only the `Array` primitive takes arguments, a length and an element format");
            Diagnostic { severity: Severity::Error, span: *span, message, secondary: Vec::new() }
        },
        ElabError::KindHasNoType { span } => {
            let mut message = String::new();
            message.append("`Kind` has no type and can stand only where `Kind` is expected");
            Diagnostic { severity: Severity::Error, span: *span, message, secondary: Vec::new() }
        },
    }
}

} // verus!
