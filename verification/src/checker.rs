//! The raw diagnostic tree that a checker emits: a root message with a
//! level, an optional code, a list of spans, and nested child
//! diagnostics.  Spans carry 1-based line/column bounds and an optional
//! macro-expansion record tracing them back to an invocation site.

use vstd::prelude::*;

verus! {

#[derive(Clone, Copy, Debug, PartialEq, Eq, Structural)]
pub enum DiagnosticLevel {
    Ice,
    Error,
    Warning,
    Note,
    Help,
    Unknown,
}

#[derive(Clone, Copy, Debug, PartialEq, Eq, Structural)]
pub enum Applicability {
    MachineApplicable,
    MaybeIncorrect,
    HasPlaceholders,
    Unspecified,
}

#[derive(Debug)]
pub struct DiagnosticCode {
    pub code: String,
    pub explanation: Option<String>,
}

#[derive(Debug)]
pub struct DiagnosticSpan {
    pub file_name: String,
    /// 1-based, inclusive.
    pub line_start: u64,
    /// 1-based, inclusive.
    pub line_end: u64,
    /// 1-based, character offset.
    pub column_start: u64,
    /// 1-based, character offset.
    pub column_end: u64,
    pub is_primary: bool,
    pub label: Option<String>,
    pub suggested_replacement: Option<String>,
    pub suggestion_applicability: Option<Applicability>,
    pub expansion: Option<Box<DiagnosticSpanMacroExpansion>>,
}

#[derive(Debug)]
pub struct DiagnosticSpanMacroExpansion {
    /// The span of the macro invocation that produced the frame above.
    pub span: DiagnosticSpan,
    pub macro_decl_name: String,
    pub def_site_span: Option<DiagnosticSpan>,
}

#[derive(Debug)]
pub struct Diagnostic {
    pub message: String,
    pub code: Option<DiagnosticCode>,
    pub level: DiagnosticLevel,
    pub spans: Vec<DiagnosticSpan>,
    pub children: Vec<Diagnostic>,
}

/// Line and column bounds are 1-based, on this span and on every span of
/// its expansion chain.
pub open spec fn span_wf(s: DiagnosticSpan) -> bool
    decreases s,
{
    &&& 1 <= s.line_start
    &&& 1 <= s.line_end
    &&& 1 <= s.column_start
    &&& 1 <= s.column_end
    &&& (s.expansion matches Some(e) ==> expansion_wf(*e))
}

pub open spec fn expansion_wf(e: DiagnosticSpanMacroExpansion) -> bool
    decreases e,
{
    &&& span_wf(e.span)
    &&& (e.def_site_span matches Some(d) ==> span_wf(d))
}

pub open spec fn spans_wf(spans: Seq<DiagnosticSpan>) -> bool {
    forall|i: int| 0 <= i < spans.len() ==> span_wf(#[trigger] spans[i])
}

/// Every span of the diagnostic and of its children is well formed.
pub open spec fn diagnostic_wf(d: Diagnostic) -> bool
    decreases d,
{
    &&& spans_wf(d.spans@)
    &&& (forall|i: int|
        0 <= i < d.children@.len() ==> diagnostic_wf(#[trigger] d.children@[i]))
}

} // verus!
