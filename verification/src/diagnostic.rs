//! Diagnostics: a message and the place it points at.

use vstd::prelude::*;
use vstd::string::StringExecFns;
use proc_macro2::Span;
use crate::span::call_site;

verus! {

/// One reported violation.
#[derive(Debug)]
pub struct Diagnostic {
    pub message: String,
    pub span: Span,
}

/// A diagnostic as a value of the model: its message as a sequence of
/// characters.
pub struct DiagnosticView {
    pub message: Seq<char>,
    pub span: Span,
}

impl View for Diagnostic {
    type V = DiagnosticView;

    open spec fn view(&self) -> DiagnosticView {
        DiagnosticView { message: self.message@, span: self.span }
    }
}

/// The views of a list of diagnostics, one by one.
pub open spec fn diagnostic_views(list: Seq<Diagnostic>) -> Seq<DiagnosticView> {
    list.map_values(|d: Diagnostic| d@)
}

/// The diagnostics are the usage error alone, whatever place it points at.
pub open spec fn usage_error(reported: Seq<DiagnosticView>) -> bool {
    reported.len() == 1 && reported[0] == DiagnosticView::usage(reported[0].span)
}

impl DiagnosticView {
    /// `current` was written after `earlier` but sorts before it.
    pub open spec fn out_of_order(current: Seq<char>, earlier: Seq<char>, span: Span) -> Self {
        DiagnosticView { message: current + " should sort before "@ + earlier, span }
    }

    /// A pattern whose shape has no comparison key.
    pub open spec fn unsupported(span: Span) -> Self {
        DiagnosticView { message: "unsupported by sorted-check"@, span }
    }

    /// A second wildcard arm.
    pub open spec fn multiple_wildcards(span: Span) -> Self {
        DiagnosticView { message: "multiple wildcard patterns are not supported"@, span }
    }

    /// A wildcard arm that is not the last arm.
    pub open spec fn wildcard_not_last(span: Span) -> Self {
        DiagnosticView { message: "the wildcard pattern `_` must be last"@, span }
    }

    /// A check applied to an item of the wrong kind.
    pub open spec fn usage(span: Span) -> Self {
        DiagnosticView { message: "expected enum or match expression"@, span }
    }
}

impl Diagnostic {
    /// `current` was written after `earlier` but sorts before it.
    pub fn out_of_order(current: &str, earlier: &str, span: Span) -> (d: Diagnostic)
        ensures
            d@ == DiagnosticView::out_of_order(current@, earlier@, span),
    {
        let mut message: String = String::from_str(current);
        message.append(" should sort before ");
        message.append(earlier);
        Diagnostic { message, span }
    }

    /// A pattern whose shape has no comparison key.
    pub fn unsupported(span: Span) -> (d: Diagnostic)
        ensures
            d@ == DiagnosticView::unsupported(span),
    {
        Diagnostic { message: String::from_str("unsupported by sorted-check"), span }
    }

    /// A second wildcard arm.
    pub fn multiple_wildcards(span: Span) -> (d: Diagnostic)
        ensures
            d@ == DiagnosticView::multiple_wildcards(span),
    {
        Diagnostic {
            message: String::from_str("multiple wildcard patterns are not supported"),
            span,
        }
    }

    /// A wildcard arm that is not the last arm.
    pub fn wildcard_not_last(span: Span) -> (d: Diagnostic)
        ensures
            d@ == DiagnosticView::wildcard_not_last(span),
    {
        Diagnostic { message: String::from_str("the wildcard pattern `_` must be last"), span }
    }

    /// A check applied to an item of the wrong kind, reported at `span`.
    pub fn usage_at(span: Span) -> (d: Diagnostic)
        ensures
            d@ == DiagnosticView::usage(span),
    {
        Diagnostic { message: String::from_str("expected enum or match expression"), span }
    }

    /// A check applied to an item of the wrong kind, reported at the place of
    /// the invocation, whichever that is.
    pub fn usage() -> (d: Diagnostic)
        ensures
            d@ == DiagnosticView::usage(d@.span),
    {
        Diagnostic::usage_at(call_site())
    }
}

} // verus!
