//! Typed failures produced during prose conversion.

use vstd::prelude::*;
use vstd::string::StringExecFns;
use crate::span::Span;

verus! {

/// Stable semantic category of a prose-conversion failure.
pub enum ProseErrorKind {
    /// The expression of the named prose hint is invalid.
    InvalidHintExpression(String),
    /// An alteration hint is invalid.
    Alteration,
    /// A field hint is invalid.
    Field,
    /// An input hint operation failed.
    Input,
    /// A result, return or rule application stands at dispatch level.
    InvalidDispatchTier,
    /// A rule group stands in a group body.
    InvalidGroupTier,
}

/// How a failure category is described in messages.
pub open spec fn prose_kind_text(k: ProseErrorKind) -> Seq<char> {
    match k {
        ProseErrorKind::InvalidHintExpression(h) => "invalid expression for prose hint `"@ + h@ + "`"@,
        ProseErrorKind::Alteration => "alteration hint is invalid"@,
        ProseErrorKind::Field => "field hint is invalid"@,
        ProseErrorKind::Input => "input hint operation failed"@,
        ProseErrorKind::InvalidDispatchTier => "a result, return, or rule application cannot appear at dispatch level"@,
        ProseErrorKind::InvalidGroupTier => "a rule group cannot appear in a group body"@,
    }
}

impl ProseErrorKind {
    /// The description of the category, as messages print it.
    pub fn text(&self) -> (s: String)
        ensures
            s@ == prose_kind_text(*self),
    {
        match self {
            ProseErrorKind::InvalidHintExpression(h) => {
                let mut s = String::from_str("invalid expression for prose hint `");
                s.append(h.as_str());
                s.append("`");
                s
            },
            ProseErrorKind::Alteration => String::from_str("alteration hint is invalid"),
            ProseErrorKind::Field => String::from_str("field hint is invalid"),
            ProseErrorKind::Input => String::from_str("input hint operation failed"),
            ProseErrorKind::InvalidDispatchTier => String::from_str("a result, return, or rule application cannot appear at dispatch level"),
            ProseErrorKind::InvalidGroupTier => String::from_str("a rule group cannot appear in a group body"),
        }
    }
}

/// A prose-conversion failure paired with its source span.
pub struct ProseError {
    pub kind: ProseErrorKind,
    pub span: Span,
}

impl ProseError {
    pub fn new(kind: ProseErrorKind, span: Span) -> (e: ProseError)
        ensures
            e.kind == kind,
            e.span == span,
    {
        ProseError { kind, span }
    }
}

} // verus!
