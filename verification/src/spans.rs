//! The span resolver: converts a raw span into a protocol location,
//! unwinding macro-expansion chains to the originating call site.

use vstd::prelude::*;
use crate::checker::{expansion_wf, span_wf, DiagnosticSpan, DiagnosticSpanMacroExpansion};
use crate::lsp::{DiagnosticRelatedInformation, DiagnosticRelatedInformationV, Location, LocationV,
    Position, Range};
use crate::text::{join_path, spec_join_path};
use crate::uri::{spec_file_ref, url_from_path_with_drive_lowercasing, MapError};

verus! {

/// A synthetic macro frame: a pseudo-file name delimited by angle
/// brackets, standing for generated code with no on-disk location.
pub open spec fn spec_is_from_macro(file_name: Seq<char>) -> bool {
    &&& file_name.len() > 0
    &&& file_name[0] == '<'
    &&& file_name[file_name.len() - 1] == '>'
}

/// Check whether a file name is a synthetic macro frame.
pub fn is_from_macro(file_name: &str) -> (r: bool)
    ensures
        r == spec_is_from_macro(file_name@),
{
    let n = file_name.unicode_len();
    if n == 0 {
        return false;
    }
    let first = file_name.get_char(0);
    let last = file_name.get_char(n - 1);
    first == '<' && last == '>'
}

/// The zero-based half-open range of a span: one subtracted from each
/// 1-based bound.
pub open spec fn spec_naive_range(span: DiagnosticSpan) -> Range
    recommends
        span_wf(span),
{
    Range {
        start: Position {
            line: (span.line_start - 1) as u64,
            character: (span.column_start - 1) as u64,
        },
        end: Position {
            line: (span.line_end - 1) as u64,
            character: (span.column_end - 1) as u64,
        },
    }
}

/// A span's own location: the file reference of the workspace root
/// joined with the span's file name, and the converted range.
pub open spec fn spec_naive_location(span: DiagnosticSpan, root: Seq<char>) -> Result<
    LocationV,
    MapError,
> {
    match spec_file_ref(spec_join_path(root, span.file_name@)) {
        Ok(uri) => Ok(LocationV { uri, range: spec_naive_range(span) }),
        Err(e) => Err(e),
    }
}

/// Converts a span to a location without looking at expansion
/// information.
pub fn map_span_to_location_naive(span: &DiagnosticSpan, workspace_root: &str) -> (r: Result<
    Location,
    MapError,
>)
    requires
        span_wf(*span),
    ensures
        r matches Ok(loc) ==> spec_naive_location(*span, workspace_root@) == Ok::<
            LocationV,
            MapError,
        >(loc@),
        r matches Err(e) ==> spec_naive_location(*span, workspace_root@) == Err::<
            LocationV,
            MapError,
        >(e),
{
    let joined = join_path(workspace_root, span.file_name.as_str());
    match url_from_path_with_drive_lowercasing(joined.as_str()) {
        Ok(uri) => Ok(
            Location {
                uri,
                range: Range {
                    start: Position {
                        line: span.line_start - 1,
                        character: span.column_start - 1,
                    },
                    end: Position { line: span.line_end - 1, character: span.column_end - 1 },
                },
            },
        ),
        Err(e) => Err(e),
    }
}

/// The span that a macro-expansion chain resolves to: the innermost
/// call-site span along the chain whose file is not a synthetic macro
/// frame.  A call site lying in a real file is itself resolved further
/// through its own expansion, so a deeper real-file frame — the
/// originating invocation site — takes precedence over an outer one.
pub open spec fn spec_chain_target(e: DiagnosticSpanMacroExpansion) -> Option<DiagnosticSpan>
    decreases e,
{
    let deeper = match e.span.expansion {
        Some(next) => spec_chain_target(*next),
        None => None,
    };
    if deeper is Some {
        deeper
    } else if !spec_is_from_macro(e.span.file_name@) {
        Some(e.span)
    } else {
        None
    }
}

/// Walks a macro-expansion chain to the originating call site: the
/// innermost frame lying in a real file; `Ok(None)` when every frame of
/// the chain is synthetic.
pub fn map_macro_span_to_location(
    span_macro: &DiagnosticSpanMacroExpansion,
    workspace_root: &str,
) -> (r: Result<Option<Location>, MapError>)
    requires
        expansion_wf(*span_macro),
    ensures
        spec_chain_target(*span_macro) is None ==> r == Ok::<Option<Location>, MapError>(None),
        spec_chain_target(*span_macro) matches Some(t) ==> match r {
            Ok(Some(loc)) => spec_naive_location(t, workspace_root@) == Ok::<LocationV, MapError>(
                loc@,
            ),
            Ok(None) => false,
            Err(e) => spec_naive_location(t, workspace_root@) == Err::<LocationV, MapError>(e),
        },
{
    let mut cur: &DiagnosticSpanMacroExpansion = span_macro;
    let mut best: Option<&DiagnosticSpan> = None;
    loop
        invariant
            expansion_wf(*cur),
            (best matches Some(b) ==> span_wf(*b)),
            spec_chain_target(*span_macro) == (match spec_chain_target(*cur) {
                Some(t) => Some(t),
                None => match best {
                    Some(b) => Some(*b),
                    None => None::<DiagnosticSpan>,
                },
            }),
        decreases *cur,
    {
        if !is_from_macro(cur.span.file_name.as_str()) {
            best = Some(&cur.span);
        }
        match &cur.span.expansion {
            Some(next) => {
                cur = &**next;
            },
            None => {
                return match best {
                    None => Ok(None),
                    Some(t) => match map_span_to_location_naive(t, workspace_root) {
                        Ok(loc) => Ok(Some(loc)),
                        Err(e) => Err(e),
                    },
                };
            },
        }
    }
}

/// The call-site spans of a macro-expansion chain, outermost first.
pub open spec fn spec_chain(e: DiagnosticSpanMacroExpansion) -> Seq<DiagnosticSpan>
    decreases e,
{
    seq![e.span] + (match e.span.expansion {
        Some(next) => spec_chain(*next),
        None => Seq::empty(),
    })
}

/// A macro-expansion chain of any depth resolves to the last of its
/// call-site spans lying in a real file — the originating invocation
/// site — never to an intermediate synthetic frame; it resolves to none
/// exactly when every frame of the chain is synthetic.
pub proof fn lemma_chain_target_last_real(e: DiagnosticSpanMacroExpansion)
    ensures
        spec_chain(e).len() > 0,
        spec_chain_target(e) is None <==> (forall|k: int|
            0 <= k < spec_chain(e).len() ==> spec_is_from_macro(
                (#[trigger] spec_chain(e)[k]).file_name@,
            )),
        spec_chain_target(e) matches Some(t) ==> (exists|k: int|
            {
                &&& 0 <= k < spec_chain(e).len()
                &&& spec_chain(e)[k] == t
                &&& !spec_is_from_macro(t.file_name@)
                &&& forall|j: int|
                    k < j < spec_chain(e).len() ==> spec_is_from_macro(
                        (#[trigger] spec_chain(e)[j]).file_name@,
                    )
            }),
    decreases e,
{
    let chain = spec_chain(e);
    assert(chain[0] == e.span);
    match e.span.expansion {
        Some(next) => {
            lemma_chain_target_last_real(*next);
            let rest = spec_chain(*next);
            assert(forall|k: int| 0 <= k < rest.len() ==> #[trigger] chain[k + 1] == rest[k]);
            match spec_chain_target(*next) {
                Some(t) => {
                    let k = choose|k: int|
                        {
                            &&& 0 <= k < rest.len()
                            &&& rest[k] == t
                            &&& !spec_is_from_macro(t.file_name@)
                            &&& forall|j: int|
                                k < j < rest.len() ==> spec_is_from_macro(
                                    (#[trigger] rest[j]).file_name@,
                                )
                        };
                    assert(chain[k + 1] == t);
                    assert forall|j: int| k + 1 < j < chain.len() implies spec_is_from_macro(
                        (#[trigger] chain[j]).file_name@,
                    ) by {
                        assert(chain[j] == rest[j - 1]);
                    }
                },
                None => {
                    // Every deeper frame is synthetic; this frame decides.
                    if !spec_is_from_macro(e.span.file_name@) {
                        assert forall|j: int| 0 < j < chain.len() implies spec_is_from_macro(
                            (#[trigger] chain[j]).file_name@,
                        ) by {
                            assert(chain[j] == rest[j - 1]);
                        }
                    } else {
                        assert forall|k: int| 0 <= k < chain.len() implies spec_is_from_macro(
                            (#[trigger] chain[k]).file_name@,
                        ) by {
                            if k > 0 {
                                assert(chain[k] == rest[k - 1]);
                            }
                        }
                    }
                },
            }
        },
        None => {
            assert(chain =~= seq![e.span]);
        },
    }
}

/// The span whose own location a span resolves to: the chain target
/// where expansion information leads to one, the span itself otherwise.
pub open spec fn spec_resolved_span(span: DiagnosticSpan) -> DiagnosticSpan {
    match span.expansion {
        Some(e) => match spec_chain_target(*e) {
            Some(t) => t,
            None => span,
        },
        None => span,
    }
}

pub open spec fn spec_resolve_location(span: DiagnosticSpan, root: Seq<char>) -> Result<
    LocationV,
    MapError,
> {
    spec_naive_location(spec_resolved_span(span), root)
}

/// Converts a span to a location, resolving the macro-expansion call
/// site where there is one.
pub fn map_span_to_location(span: &DiagnosticSpan, workspace_root: &str) -> (r: Result<
    Location,
    MapError,
>)
    requires
        span_wf(*span),
    ensures
        r matches Ok(loc) ==> spec_resolve_location(*span, workspace_root@) == Ok::<
            LocationV,
            MapError,
        >(loc@),
        r matches Err(e) ==> spec_resolve_location(*span, workspace_root@) == Err::<
            LocationV,
            MapError,
        >(e),
{
    if let Some(expansion) = &span.expansion {
        match map_macro_span_to_location(&**expansion, workspace_root) {
            Ok(Some(loc)) => {
                return Ok(loc);
            },
            Ok(None) => {},
            Err(e) => {
                return Err(e);
            },
        }
    }
    map_span_to_location_naive(span, workspace_root)
}

/// The related information a labelled secondary span contributes:
/// nothing when the span has no label.
pub open spec fn spec_secondary_to_related(span: DiagnosticSpan, root: Seq<char>) -> Result<
    Option<DiagnosticRelatedInformationV>,
    MapError,
> {
    match span.label {
        None => Ok(None),
        Some(label) => match spec_resolve_location(span, root) {
            Ok(loc) => Ok(
                Some(DiagnosticRelatedInformationV { location: loc, message: label@ }),
            ),
            Err(e) => Err(e),
        },
    }
}

/// Converts a labelled secondary span to related information; an
/// unlabelled span contributes nothing.
pub fn map_secondary_span_to_related(span: &DiagnosticSpan, workspace_root: &str) -> (r: Result<
    Option<DiagnosticRelatedInformation>,
    MapError,
>)
    requires
        span_wf(*span),
    ensures
        r matches Ok(o) ==> match o {
            Some(rel) => spec_secondary_to_related(*span, workspace_root@) == Ok::<
                Option<DiagnosticRelatedInformationV>,
                MapError,
            >(Some(rel@)),
            None => spec_secondary_to_related(*span, workspace_root@) == Ok::<
                Option<DiagnosticRelatedInformationV>,
                MapError,
            >(None),
        },
        r matches Err(e) ==> spec_secondary_to_related(*span, workspace_root@) == Err::<
            Option<DiagnosticRelatedInformationV>,
            MapError,
        >(e),
{
    let message = match &span.label {
        None => {
            return Ok(None);
        },
        Some(label) => label.clone(),
    };
    match map_span_to_location(span, workspace_root) {
        Ok(location) => Ok(Some(DiagnosticRelatedInformation { location, message })),
        Err(e) => Err(e),
    }
}

} // verus!
