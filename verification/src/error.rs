//! The errors that type checking reports.
use vstd::prelude::*;
use crate::span::{Span, SpannedItem};
use crate::text::{debug_quoted, nat_text, push_debug_quoted, push_str, push_usize};

verus! {

pub enum TypeConstraintError {
    UnificationFailure(String, String),
    FailedToSatisfy(String, String),
    ArgumentCountMismatch { function: String, expected: usize, got: usize },
    Internal(String),
}

/// The value of a [`TypeConstraintError`], with texts as sequences of characters.
pub enum ErrorModel {
    UnificationFailure(Seq<char>, Seq<char>),
    FailedToSatisfy(Seq<char>, Seq<char>),
    ArgumentCountMismatch { function: Seq<char>, expected: usize, got: usize },
    Internal(Seq<char>),
}

impl View for TypeConstraintError {
    type V = ErrorModel;

    open spec fn view(&self) -> ErrorModel {
        match self {
            TypeConstraintError::UnificationFailure(a, b) => ErrorModel::UnificationFailure(a@, b@),
            TypeConstraintError::FailedToSatisfy(a, b) => ErrorModel::FailedToSatisfy(a@, b@),
            TypeConstraintError::ArgumentCountMismatch { function, expected, got } => ErrorModel::ArgumentCountMismatch {
                function: function@,
                expected: *expected,
                got: *got,
            },
            TypeConstraintError::Internal(s) => ErrorModel::Internal(s@),
        }
    }
}

pub type TypeError = SpannedItem<TypeConstraintError>;

/// A reported error: what went wrong and where.
pub open spec fn error_model(e: TypeError) -> (ErrorModel, Span) {
    (e.0@, e.1)
}

/// The reported errors, in the order they were reported.
pub open spec fn error_models(es: Seq<TypeError>) -> Seq<(ErrorModel, Span)> {
    Seq::new(es.len(), |i: int| error_model(es[i]))
}

/// How `Debug` prints a source span.
pub open spec fn span_debug(s: Span) -> Seq<char> {
    "Span { source: SourceId("@ + nat_text(s.source.0 as nat) + "), span: SourceSpan { offset: SourceOffset("@
        + nat_text(s.span.offset as nat) + "), length: "@ + nat_text(s.span.length as nat) + " } }"@
}

/// How `Debug` prints an error.
pub open spec fn error_debug(e: ErrorModel) -> Seq<char> {
    match e {
        ErrorModel::UnificationFailure(a, b) => "UnificationFailure("@ + a + ", "@ + b + ")"@,
        ErrorModel::FailedToSatisfy(a, b) => "FailedToSatisfy("@ + debug_quoted(a) + ", "@ + debug_quoted(b) + ")"@,
        ErrorModel::ArgumentCountMismatch { function, expected, got } => "ArgumentCountMismatch { function: "@
            + debug_quoted(function) + ", expected: "@ + nat_text(expected as nat) + ", got: "@ + nat_text(
            got as nat,
        ) + " }"@,
        ErrorModel::Internal(s) => "Internal("@ + debug_quoted(s) + ")"@,
    }
}

/// How `Debug` prints a reported error with its span.
pub open spec fn spanned_error_debug(e: (ErrorModel, Span)) -> Seq<char> {
    "SpannedItem "@ + error_debug(e.0) + " ["@ + span_debug(e.1) + "]"@
}

/// Appends how `Debug` prints a span to `buf`.
pub fn push_span_debug(buf: &mut String, s: Span)
    ensures
        final(buf)@ == old(buf)@ + span_debug(s),
{
    push_str(buf, "Span { source: SourceId(");
    push_usize(buf, s.source.0);
    push_str(buf, "), span: SourceSpan { offset: SourceOffset(");
    push_usize(buf, s.span.offset);
    push_str(buf, "), length: ");
    push_usize(buf, s.span.length);
    push_str(buf, " } }");
    assert(final(buf)@ =~= old(buf)@ + span_debug(s));
}

impl TypeConstraintError {
    /// Appends how `Debug` prints the error to `buf`.
    pub fn push_debug(&self, buf: &mut String)
        ensures
            final(buf)@ == old(buf)@ + error_debug(self@),
    {
        match self {
            TypeConstraintError::UnificationFailure(a, b) => {
                push_str(buf, "UnificationFailure(");
                push_str(buf, a.as_str());
                push_str(buf, ", ");
                push_str(buf, b.as_str());
                push_str(buf, ")");
            },
            TypeConstraintError::FailedToSatisfy(a, b) => {
                push_str(buf, "FailedToSatisfy(");
                push_debug_quoted(buf, a.as_str());
                push_str(buf, ", ");
                push_debug_quoted(buf, b.as_str());
                push_str(buf, ")");
            },
            TypeConstraintError::ArgumentCountMismatch { function, expected, got } => {
                push_str(buf, "ArgumentCountMismatch { function: ");
                push_debug_quoted(buf, function.as_str());
                push_str(buf, ", expected: ");
                push_usize(buf, *expected);
                push_str(buf, ", got: ");
                push_usize(buf, *got);
                push_str(buf, " }");
            },
            TypeConstraintError::Internal(s) => {
                push_str(buf, "Internal(");
                push_debug_quoted(buf, s.as_str());
                push_str(buf, ")");
            },
        }
        assert(final(buf)@ =~= old(buf)@ + error_debug(self@));
    }
}

/// Appends how `Debug` prints a reported error with its span to `buf`.
pub fn push_spanned_error_debug(buf: &mut String, e: &TypeError)
    ensures
        final(buf)@ == old(buf)@ + spanned_error_debug(error_model(*e)),
{
    push_str(buf, "SpannedItem ");
    e.0.push_debug(buf);
    push_str(buf, " [");
    push_span_debug(buf, e.1);
    push_str(buf, "]");
    assert(final(buf)@ =~= old(buf)@ + spanned_error_debug(error_model(*e)));
}


impl TypeConstraintError {
    /// A copy of the error.
    pub fn copy(&self) -> (r: TypeConstraintError)
        ensures
            r@ == self@,
    {
        match self {
            TypeConstraintError::UnificationFailure(a, b) => TypeConstraintError::UnificationFailure(a.clone(), b.clone()),
            TypeConstraintError::FailedToSatisfy(a, b) => TypeConstraintError::FailedToSatisfy(a.clone(), b.clone()),
            TypeConstraintError::ArgumentCountMismatch { function, expected, got } => {
                TypeConstraintError::ArgumentCountMismatch { function: function.clone(), expected: *expected, got: *got }
            },
            TypeConstraintError::Internal(s) => TypeConstraintError::Internal(s.clone()),
        }
    }
}

/// A copy of a list of reported errors.
pub fn copy_errors(es: &Vec<TypeError>) -> (r: Vec<TypeError>)
    ensures
        error_models(r@) == error_models(es@),
{
    let mut out: Vec<TypeError> = Vec::new();
    let mut i: usize = 0;
    while i < es.len()
        invariant
            i <= es@.len(),
            out@.len() == i,
            forall|j: int| 0 <= j < i ==> error_model(#[trigger] out@[j]) == error_model(es@[j]),
        decreases es@.len() - i,
    {
        out.push(SpannedItem(es[i].0.copy(), es[i].1));
        i += 1;
    }
    assert(error_models(out@) =~= error_models(es@));
    out
}

} // verus!
