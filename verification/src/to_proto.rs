//! Translation of one raw checker diagnostic into protocol diagnostics:
//! severity and tag classification, scoped-code splitting, child
//! classification, and aggregation into one diagnostic per primary span.

use vstd::prelude::*;
use crate::checker::{diagnostic_wf, spans_wf, Applicability, Diagnostic, DiagnosticLevel,
    DiagnosticSpan};
use crate::lsp;
use crate::lsp::{CodeAction, CodeActionV, DiagnosticRelatedInformation,
    DiagnosticRelatedInformationV, DiagnosticSeverity, DiagnosticTag, FileChanges, FileChangesV,
    Location, LocationV, TextEdit, TextEditV};
use crate::spans::{is_from_macro, map_secondary_span_to_related, map_span_to_location,
    map_span_to_location_naive, spec_resolve_location};
use crate::text::str_eq;
use crate::uri::MapError;

verus! {

// --- severity ---

pub open spec fn spec_severity_of_level(level: DiagnosticLevel) -> Option<DiagnosticSeverity> {
    match level {
        DiagnosticLevel::Ice => Some(DiagnosticSeverity::Error),
        DiagnosticLevel::Error => Some(DiagnosticSeverity::Error),
        DiagnosticLevel::Warning => Some(DiagnosticSeverity::Warning),
        DiagnosticLevel::Note => Some(DiagnosticSeverity::Information),
        DiagnosticLevel::Help => Some(DiagnosticSeverity::Hint),
        DiagnosticLevel::Unknown => None,
    }
}

/// Converts a checker level to a protocol severity; an unknown level
/// maps to no severity at all.
pub fn map_level_to_severity(val: DiagnosticLevel) -> (r: Option<DiagnosticSeverity>)
    ensures
        r == spec_severity_of_level(val),
{
    match val {
        DiagnosticLevel::Ice => Some(DiagnosticSeverity::Error),
        DiagnosticLevel::Error => Some(DiagnosticSeverity::Error),
        DiagnosticLevel::Warning => Some(DiagnosticSeverity::Warning),
        DiagnosticLevel::Note => Some(DiagnosticSeverity::Information),
        DiagnosticLevel::Help => Some(DiagnosticSeverity::Hint),
        DiagnosticLevel::Unknown => None,
    }
}

// --- the unused / deprecated code checks ---

pub open spec fn spec_unused_code(code: Seq<char>) -> bool {
    ||| code == "dead_code"@
    ||| code == "unknown_lints"@
    ||| code == "unreachable_code"@
    ||| code == "unused_attributes"@
    ||| code == "unused_imports"@
    ||| code == "unused_macros"@
    ||| code == "unused_variables"@
}

pub open spec fn spec_is_unused_or_unnecessary(rd: Diagnostic) -> bool {
    match rd.code {
        Some(c) => spec_unused_code(c.code@),
        None => false,
    }
}

/// Whether the diagnostic's code belongs to the fixed set of
/// unused/unnecessary lints.
pub fn is_unused_or_unnecessary(rd: &Diagnostic) -> (r: bool)
    ensures
        r == spec_is_unused_or_unnecessary(*rd),
{
    match &rd.code {
        Some(c) => {
            let s = c.code.as_str();
            str_eq(s, "dead_code") || str_eq(s, "unknown_lints") || str_eq(s, "unreachable_code")
                || str_eq(s, "unused_attributes") || str_eq(s, "unused_imports") || str_eq(
                s,
                "unused_macros",
            ) || str_eq(s, "unused_variables")
        },
        None => false,
    }
}

pub open spec fn spec_is_deprecated(rd: Diagnostic) -> bool {
    match rd.code {
        Some(c) => c.code@ == "deprecated"@,
        None => false,
    }
}

/// Whether the diagnostic's code is exactly `deprecated`.
pub fn is_deprecated(rd: &Diagnostic) -> (r: bool)
    ensures
        r == spec_is_deprecated(*rd),
{
    match &rd.code {
        Some(c) => str_eq(c.code.as_str(), "deprecated"),
        None => false,
    }
}

// --- scoped-code splitting ---

/// The first position at or after `i` where `"::"` occurs in `s`.
pub open spec fn spec_find_sep(s: Seq<char>, i: int) -> Option<int>
    recommends
        0 <= i,
    decreases s.len() - i,
{
    if i + 2 > s.len() {
        None
    } else if s[i] == ':' && s[i + 1] == ':' {
        Some(i)
    } else {
        spec_find_sep(s, i + 1)
    }
}

fn find_sep_from(s: &str, start: usize) -> (r: Option<usize>)
    requires
        start <= s@.len(),
    ensures
        match r {
            Some(j) => start <= j && j + 2 <= s@.len() && spec_find_sep(s@, start as int) == Some(
                j as int,
            ),
            None => spec_find_sep(s@, start as int) is None,
        },
{
    let n = s.unicode_len();
    let mut i: usize = start;
    while i < n && i + 1 < n
        invariant
            start <= i <= n,
            n == s@.len(),
            spec_find_sep(s@, start as int) == spec_find_sep(s@, i as int),
        decreases n - i,
    {
        if s.get_char(i) == ':' && s.get_char(i + 1) == ':' {
            return Some(i);
        }
        i = i + 1;
    }
    None
}

/// A scoped lint code splits into a source and a code exactly when the
/// splitter `"::"` occurs exactly once.
pub open spec fn spec_scoped_split(code: Seq<char>) -> Option<(Seq<char>, Seq<char>)> {
    match spec_find_sep(code, 0) {
        None => None,
        Some(i) => if spec_find_sep(code, i + 2) is None {
            Some((code.take(i), code.skip(i + 2)))
        } else {
            None
        },
    }
}

/// Splits a scoped lint code such as `tool::lint` into its two parts;
/// `None` when the code is not scoped.
pub fn split_scoped_code(code: &str) -> (r: Option<(String, String)>)
    ensures
        match r {
            Some(parts) => spec_scoped_split(code@) == Some((parts.0@, parts.1@)),
            None => spec_scoped_split(code@) is None,
        },
{
    let n = code.unicode_len();
    match find_sep_from(code, 0) {
        None => None,
        Some(i) => {
            match find_sep_from(code, i + 2) {
                Some(_) => None,
                None => {
                    proof {
                        assert(code@.subrange(0, i as int) =~= code@.take(i as int));
                        assert(code@.subrange(i as int + 2, n as int) =~= code@.skip(i as int + 2));
                    }
                    let head = code.substring_char(0, i).to_owned();
                    let tail = code.substring_char(i + 2, n).to_owned();
                    Some((head, tail))
                },
            }
        },
    }
}

// --- the primary spans of a diagnostic ---

/// The spans flagged `is_primary`, in list order.
pub open spec fn spec_primaries(spans: Seq<DiagnosticSpan>) -> Seq<DiagnosticSpan>
    decreases spans.len(),
{
    if spans.len() == 0 {
        Seq::empty()
    } else {
        let pre = spec_primaries(spans.drop_last());
        if spans.last().is_primary {
            pre.push(spans.last())
        } else {
            pre
        }
    }
}

pub proof fn lemma_primaries_props(spans: Seq<DiagnosticSpan>)
    ensures
        spec_primaries(spans).len() <= spans.len(),
        forall|i: int|
            0 <= i < spec_primaries(spans).len() ==> (#[trigger] spec_primaries(spans)[i]).is_primary
                && exists|j: int| 0 <= j < spans.len() && spans[j] == spec_primaries(spans)[i],
    decreases spans.len(),
{
    if spans.len() > 0 {
        lemma_primaries_props(spans.drop_last());
        assert forall|i: int| 0 <= i < spec_primaries(spans).len() implies (
        #[trigger] spec_primaries(spans)[i]).is_primary && exists|j: int|
            0 <= j < spans.len() && spans[j] == spec_primaries(spans)[i] by {
            let pre = spec_primaries(spans.drop_last());
            if i < pre.len() {
                let j = choose|j: int|
                    0 <= j < spans.drop_last().len() && spans.drop_last()[j] == pre[i];
                assert(spans[j] == spec_primaries(spans)[i]);
            } else {
                assert(spans[spans.len() - 1] == spec_primaries(spans)[i]);
            }
        }
    }
}

// --- child diagnostics ---

/// The three-way classification of a child diagnostic.
#[derive(Debug)]
pub enum MappedRustChildDiagnostic {
    Related(DiagnosticRelatedInformation),
    SuggestedFix(CodeAction),
    MessageLine(String),
}

pub enum MappedRustChildDiagnosticV {
    Related(DiagnosticRelatedInformationV),
    SuggestedFix(CodeActionV),
    MessageLine(Seq<char>),
}

impl View for MappedRustChildDiagnostic {
    type V = MappedRustChildDiagnosticV;

    open spec fn view(&self) -> MappedRustChildDiagnosticV {
        match self {
            MappedRustChildDiagnostic::Related(r) => MappedRustChildDiagnosticV::Related(r@),
            MappedRustChildDiagnostic::SuggestedFix(a) => MappedRustChildDiagnosticV::SuggestedFix(
                a@,
            ),
            MappedRustChildDiagnostic::MessageLine(m) => MappedRustChildDiagnosticV::MessageLine(
                m@,
            ),
        }
    }
}

/// A span that contributes to a quick fix: a machine-applicable
/// suggestion with a present replacement text.
pub open spec fn spec_is_qualifying(s: DiagnosticSpan) -> bool {
    &&& s.suggestion_applicability == Some(Applicability::MachineApplicable)
    &&& s.suggested_replacement is Some
}

/// The position of the entry for `uri` in an encounter-ordered group of
/// per-file changes.
pub open spec fn spec_find_uri(changes: Seq<FileChangesV>, uri: Seq<char>) -> Option<int>
    decreases changes.len(),
{
    if changes.len() == 0 {
        None
    } else if changes[0].uri == uri {
        Some(0)
    } else {
        match spec_find_uri(changes.skip(1), uri) {
            Some(i) => Some(i + 1),
            None => None,
        }
    }
}

pub proof fn lemma_find_uri_props(changes: Seq<FileChangesV>, uri: Seq<char>)
    ensures
        match spec_find_uri(changes, uri) {
            Some(i) => 0 <= i < changes.len() && changes[i].uri == uri && forall|j: int|
                0 <= j < i ==> (#[trigger] changes[j]).uri != uri,
            None => forall|j: int| 0 <= j < changes.len() ==> (#[trigger] changes[j]).uri != uri,
        },
    decreases changes.len(),
{
    if changes.len() > 0 && changes[0].uri != uri {
        lemma_find_uri_props(changes.skip(1), uri);
        assert(forall|j: int|
            1 <= j < changes.len() ==> #[trigger] changes[j] == changes.skip(1)[j - 1]);
    }
}

/// One text replacement appended under its file reference: to the
/// existing entry for that file, or as a new entry at the end.
pub open spec fn spec_add_edit(
    changes: Seq<FileChangesV>,
    uri: Seq<char>,
    edit: TextEditV,
) -> Seq<FileChangesV> {
    match spec_find_uri(changes, uri) {
        Some(i) => changes.update(
            i,
            FileChangesV { uri: changes[i].uri, edits: changes[i].edits.push(edit) },
        ),
        None => changes.push(FileChangesV { uri, edits: seq![edit] }),
    }
}

fn add_edit(changes: &mut Vec<FileChanges>, uri: String, edit: TextEdit)
    ensures
        final(changes)@.map_values(|c: FileChanges| c@) == spec_add_edit(
            old(changes)@.map_values(|c: FileChanges| c@),
            uri@,
            edit@,
        ),
{
    let ghost old_views = changes@.map_values(|c: FileChanges| c@);
    proof {
        lemma_find_uri_props(old_views, uri@);
    }
    let n = changes.len();
    let mut i: usize = 0;
    while i < n
        invariant
            i <= n,
            n == changes@.len(),
            changes@ == old(changes)@,
            old_views == changes@.map_values(|c: FileChanges| c@),
            forall|j: int| 0 <= j < i ==> (#[trigger] changes@[j])@.uri != uri@,
        decreases n - i,
    {
        if changes[i].uri == uri {
            proof {
                lemma_find_uri_props(old_views, uri@);
                assert(spec_find_uri(old_views, uri@) == Some(i as int)) by {
                    assert(old_views[i as int].uri == uri@);
                    match spec_find_uri(old_views, uri@) {
                        Some(k) => {
                            if k < i {
                                assert(old_views[k] == changes@[k]@);
                            } else if k > i {
                                assert(old_views[i as int].uri != uri@);
                            }
                        },
                        None => {
                            assert(old_views[i as int].uri != uri@);
                        },
                    }
                }
            }
            changes[i].edits.push(edit);
            proof {
                assert(changes@.map_values(|c: FileChanges| c@) =~~= spec_add_edit(
                    old_views,
                    uri@,
                    edit@,
                ));
            }
            return ;
        }
        i = i + 1;
    }
    proof {
        lemma_find_uri_props(old_views, uri@);
        assert(spec_find_uri(old_views, uri@) is None) by {
            match spec_find_uri(old_views, uri@) {
                Some(k) => {
                    assert(old_views[k] == changes@[k]@);
                    assert(changes@[k]@.uri != uri@);
                },
                None => {},
            }
        }
    }
    let mut edits: Vec<TextEdit> = Vec::new();
    edits.push(edit);
    changes.push(FileChanges { uri, edits });
    proof {
        assert(changes@.map_values(|c: FileChanges| c@) =~~= spec_add_edit(
            old_views,
            uri@,
            edit@,
        ));
    }
}

/// The per-file replacement groups contributed by the qualifying spans
/// among a child's primary spans, in encounter order.
pub open spec fn spec_child_changes(spans: Seq<DiagnosticSpan>, root: Seq<char>) -> Result<
    Seq<FileChangesV>,
    MapError,
>
    decreases spans.len(),
{
    if spans.len() == 0 {
        Ok(Seq::empty())
    } else {
        match spec_child_changes(spans.drop_last(), root) {
            Err(e) => Err(e),
            Ok(pre) => {
                let s = spans.last();
                if spec_is_qualifying(s) {
                    match spec_resolve_location(s, root) {
                        Err(e) => Err(e),
                        Ok(loc) => Ok(
                            spec_add_edit(
                                pre,
                                loc.uri,
                                TextEditV { range: loc.range, new_text: s.suggested_replacement->0@ },
                            ),
                        ),
                    }
                } else {
                    Ok(pre)
                }
            },
        }
    }
}

/// The classification of one child diagnostic.  A child without primary
/// spans is a continuation line of the parent message; one with a
/// machine-applicable replacement on a primary span is a quick fix; any
/// other child is related information at its first primary span.
pub open spec fn spec_classify_child(rd: Diagnostic, root: Seq<char>) -> Result<
    MappedRustChildDiagnosticV,
    MapError,
> {
    let prim = spec_primaries(rd.spans@);
    if prim.len() == 0 {
        Ok(MappedRustChildDiagnosticV::MessageLine(rd.message@))
    } else {
        match spec_child_changes(prim, root) {
            Err(e) => Err(e),
            Ok(changes) => if changes.len() == 0 {
                match spec_resolve_location(prim[0], root) {
                    Err(e) => Err(e),
                    Ok(loc) => Ok(
                        MappedRustChildDiagnosticV::Related(
                            DiagnosticRelatedInformationV { location: loc, message: rd.message@ },
                        ),
                    ),
                }
            } else {
                Ok(
                    MappedRustChildDiagnosticV::SuggestedFix(
                        CodeActionV { title: rd.message@, kind: "quickfix"@, changes },
                    ),
                )
            },
        }
    }
}

/// Classifies one child diagnostic.
pub fn map_rust_child_diagnostic(rd: &Diagnostic, workspace_root: &str) -> (r: Result<
    MappedRustChildDiagnostic,
    MapError,
>)
    requires
        spans_wf(rd.spans@),
    ensures
        r matches Ok(c) ==> spec_classify_child(*rd, workspace_root@) == Ok::<
            MappedRustChildDiagnosticV,
            MapError,
        >(c@),
        r matches Err(e) ==> spec_classify_child(*rd, workspace_root@) == Err::<
            MappedRustChildDiagnosticV,
            MapError,
        >(e),
{
    let n = rd.spans.len();

    // Walk the spans once: count the primaries, remember the first, and
    // collect the replacement edits of the qualifying ones.
    let mut primary_count: usize = 0;
    let mut first_primary: usize = n;
    let mut changes: Vec<FileChanges> = Vec::new();
    let mut i: usize = 0;
    proof {
        assert(rd.spans@.take(0) =~= Seq::<DiagnosticSpan>::empty());
        assert(changes@.map_values(|c: FileChanges| c@) =~= Seq::<FileChangesV>::empty());
    }
    while i < n
        invariant
            i <= n,
            n == rd.spans@.len(),
            spans_wf(rd.spans@),
            primary_count <= i,
            primary_count == spec_primaries(rd.spans@.take(i as int)).len(),
            primary_count > 0 ==> first_primary < i && rd.spans@[first_primary as int]
                == spec_primaries(rd.spans@.take(i as int))[0],
            primary_count == 0 ==> first_primary == n,
            spec_child_changes(spec_primaries(rd.spans@.take(i as int)), workspace_root@)
                == Ok::<Seq<FileChangesV>, MapError>(changes@.map_values(|c: FileChanges| c@)),
        decreases n - i,
    {
        let ghost prev_prim = spec_primaries(rd.spans@.take(i as int));
        proof {
            assert(rd.spans@.take(i as int + 1).drop_last() =~= rd.spans@.take(i as int));
            assert(rd.spans@.take(i as int + 1).last() == rd.spans@[i as int]);
            if rd.spans@[i as int].is_primary {
                assert(spec_primaries(rd.spans@.take(i as int + 1)) == prev_prim.push(
                    rd.spans@[i as int],
                ));
                assert(prev_prim.push(rd.spans@[i as int]).drop_last() =~= prev_prim);
            } else {
                assert(spec_primaries(rd.spans@.take(i as int + 1)) == prev_prim);
            }
        }
        let span = &rd.spans[i];
        if span.is_primary {
            if primary_count == 0 {
                first_primary = i;
            }
            primary_count = primary_count + 1;
            match (&span.suggestion_applicability, &span.suggested_replacement) {
                (Some(Applicability::MachineApplicable), Some(replacement)) => {
                    match map_span_to_location(span, workspace_root) {
                        Ok(location) => {
                            let edit = TextEdit {
                                range: location.range,
                                new_text: replacement.clone(),
                            };
                            add_edit(&mut changes, location.uri, edit);
                        },
                        Err(e) => {
                            proof {
                                assert(spec_child_changes(
                                    spec_primaries(rd.spans@.take(i as int + 1)),
                                    workspace_root@,
                                ) == Err::<Seq<FileChangesV>, MapError>(e));
                                lemma_child_changes_err_propagates(
                                    rd.spans@,
                                    i as int + 1,
                                    workspace_root@,
                                    e,
                                );
                            }
                            return Err(e);
                        },
                    }
                },
                _ => {},
            }
        }
        i = i + 1;
    }
    proof {
        assert(rd.spans@.take(n as int) =~= rd.spans@);
    }

    if primary_count == 0 {
        return Ok(MappedRustChildDiagnostic::MessageLine(rd.message.clone()));
    }
    if changes.len() == 0 {
        proof {
            assert(changes@.map_values(|c: FileChanges| c@) =~= Seq::<FileChangesV>::empty());
        }
        return match map_span_to_location(&rd.spans[first_primary], workspace_root) {
            Ok(location) => Ok(
                MappedRustChildDiagnostic::Related(
                    DiagnosticRelatedInformation { location, message: rd.message.clone() },
                ),
            ),
            Err(e) => Err(e),
        };
    }
    Ok(
        MappedRustChildDiagnostic::SuggestedFix(
            CodeAction {
                title: rd.message.clone(),
                kind: String::from_str("quickfix"),
                changes,
            },
        ),
    )
}

// --- aggregation into one diagnostic per primary span ---

/// One translated diagnostic together with its resolved location and
/// the quick fixes of the root it came from.
#[derive(Debug)]
pub struct MappedRustDiagnostic {
    pub location: Location,
    pub diagnostic: lsp::Diagnostic,
    pub fixes: Vec<CodeAction>,
}

#[verifier::ext_equal]
pub struct MappedRustDiagnosticV {
    pub location: LocationV,
    pub diagnostic: lsp::DiagnosticV,
    pub fixes: Seq<CodeActionV>,
}

impl View for MappedRustDiagnostic {
    type V = MappedRustDiagnosticV;

    open spec fn view(&self) -> MappedRustDiagnosticV {
        MappedRustDiagnosticV {
            location: self.location@,
            diagnostic: self.diagnostic@,
            fixes: self.fixes@.map_values(|a: CodeAction| a@),
        }
    }
}

/// The source and code of a diagnostic: the checker's canonical name
/// and the code verbatim, or the two halves of a scoped lint code.
pub open spec fn spec_source_and_code(code: Option<crate::checker::DiagnosticCode>) -> (
    Seq<char>,
    Option<Seq<char>>,
) {
    match code {
        None => ("rustc"@, None),
        Some(c) => match spec_scoped_split(c.code@) {
            Some(parts) => (parts.0, Some(parts.1)),
            None => ("rustc"@, Some(c.code@)),
        },
    }
}

/// The severity after the unused/unnecessary override.
pub open spec fn spec_severity_final(rd: Diagnostic) -> Option<DiagnosticSeverity> {
    if spec_is_unused_or_unnecessary(rd) {
        Some(DiagnosticSeverity::Hint)
    } else {
        spec_severity_of_level(rd.level)
    }
}

/// The tags of a diagnostic: Unnecessary for a code in the unused set,
/// Deprecated for the code `deprecated`; both can be present.
pub open spec fn spec_tags_of(rd: Diagnostic) -> Seq<DiagnosticTag> {
    (if spec_is_unused_or_unnecessary(rd) {
        seq![DiagnosticTag::Unnecessary]
    } else {
        Seq::empty()
    }) + (if spec_is_deprecated(rd) {
        seq![DiagnosticTag::Deprecated]
    } else {
        Seq::empty()
    })
}

/// The related information contributed by the labelled secondary spans,
/// in list order.
pub open spec fn spec_secondary_fold(spans: Seq<DiagnosticSpan>, root: Seq<char>) -> Result<
    Seq<DiagnosticRelatedInformationV>,
    MapError,
>
    decreases spans.len(),
{
    if spans.len() == 0 {
        Ok(Seq::empty())
    } else {
        match spec_secondary_fold(spans.drop_last(), root) {
            Err(e) => Err(e),
            Ok(pre) => {
                let s = spans.last();
                if s.is_primary {
                    Ok(pre)
                } else {
                    match crate::spans::spec_secondary_to_related(s, root) {
                        Err(e) => Err(e),
                        Ok(None) => Ok(pre),
                        Ok(Some(rel)) => Ok(pre.push(rel)),
                    }
                }
            },
        }
    }
}

/// The running state while the children are classified: the accumulated
/// message, the label-suppression flag, and the related information and
/// fixes gathered so far.
#[verifier::ext_equal]
pub struct ChildFoldV {
    pub message: Seq<char>,
    pub needs_primary_span_label: bool,
    pub related: Seq<DiagnosticRelatedInformationV>,
    pub fixes: Seq<CodeActionV>,
}

pub open spec fn spec_child_fold(
    children: Seq<Diagnostic>,
    root: Seq<char>,
    init: ChildFoldV,
) -> Result<ChildFoldV, MapError>
    decreases children.len(),
{
    if children.len() == 0 {
        Ok(init)
    } else {
        match spec_child_fold(children.drop_last(), root, init) {
            Err(e) => Err(e),
            Ok(st) => match spec_classify_child(children.last(), root) {
                Err(e) => Err(e),
                Ok(c) => Ok(
                    match c {
                        MappedRustChildDiagnosticV::Related(rel) => ChildFoldV {
                            related: st.related.push(rel),
                            ..st
                        },
                        MappedRustChildDiagnosticV::SuggestedFix(a) => ChildFoldV {
                            fixes: st.fixes.push(a),
                            ..st
                        },
                        MappedRustChildDiagnosticV::MessageLine(line) => ChildFoldV {
                            message: st.message + seq!['\n'] + line,
                            needs_primary_span_label: false,
                            ..st
                        },
                    },
                ),
            },
        }
    }
}

/// The shared inputs of the per-primary-span emission.
#[verifier::ext_equal]
pub struct EmitInputsV {
    pub severity: Option<DiagnosticSeverity>,
    pub code: Option<Seq<char>>,
    pub source: Seq<char>,
    pub message: Seq<char>,
    pub needs_primary_span_label: bool,
    pub tags: Seq<DiagnosticTag>,
    pub fixes: Seq<CodeActionV>,
}

/// The accumulator of the emission: related information grows by one
/// macro-origin breadcrumb per attributed span, and one diagnostic is
/// emitted per primary span.
#[verifier::ext_equal]
pub struct EmitAccV {
    pub related: Seq<DiagnosticRelatedInformationV>,
    pub out: Seq<MappedRustDiagnosticV>,
}

/// The message of the diagnostic at one primary span: the accumulated
/// message, with the span's label as one more line unless a
/// message-line child suppressed labels.
pub open spec fn spec_message_for_span(inp: EmitInputsV, span: DiagnosticSpan) -> Seq<char> {
    if inp.needs_primary_span_label && span.label is Some {
        inp.message + seq!['\n'] + span.label->0@
    } else {
        inp.message
    }
}

pub open spec fn spec_macro_origin_message() -> Seq<char> {
    "Error originated from macro here"@
}

/// Whether a primary span is attributed one level inside a macro
/// invocation: its own file is real, yet it carries expansion
/// information.
pub open spec fn spec_attributed_inside_macro(span: DiagnosticSpan) -> bool {
    !crate::spans::spec_is_from_macro(span.file_name@) && span.expansion is Some
}

pub open spec fn spec_mk_mapped(
    loc: LocationV,
    inp: EmitInputsV,
    message: Seq<char>,
    related: Seq<DiagnosticRelatedInformationV>,
) -> MappedRustDiagnosticV {
    MappedRustDiagnosticV {
        location: loc,
        diagnostic: lsp::DiagnosticV {
            range: loc.range,
            severity: inp.severity,
            code: inp.code,
            source: Some(inp.source),
            message,
            related_information: if related.len() == 0 {
                None
            } else {
                Some(related)
            },
            tags: if inp.tags.len() == 0 {
                None
            } else {
                Some(inp.tags)
            },
        },
        fixes: inp.fixes,
    }
}

/// The diagnostic emitted at one primary span, and the related list
/// after it (one breadcrumb longer when the span is attributed inside a
/// macro invocation).
pub open spec fn spec_emit_one(
    span: DiagnosticSpan,
    root: Seq<char>,
    inp: EmitInputsV,
    related: Seq<DiagnosticRelatedInformationV>,
) -> Result<(MappedRustDiagnosticV, Seq<DiagnosticRelatedInformationV>), MapError> {
    match crate::spans::spec_resolve_location(span, root) {
        Err(e) => Err(e),
        Ok(loc) => {
            let message = spec_message_for_span(inp, span);
            if spec_attributed_inside_macro(span) {
                match crate::spans::spec_naive_location(span, root) {
                    Err(e) => Err(e),
                    Ok(def_loc) => {
                        let related2 = related.push(
                            DiagnosticRelatedInformationV {
                                location: def_loc,
                                message: spec_macro_origin_message(),
                            },
                        );
                        Ok((spec_mk_mapped(loc, inp, message, related2), related2))
                    },
                }
            } else {
                Ok((spec_mk_mapped(loc, inp, message, related), related))
            }
        },
    }
}

pub open spec fn spec_emit(
    primaries: Seq<DiagnosticSpan>,
    root: Seq<char>,
    inp: EmitInputsV,
    acc: EmitAccV,
) -> Result<EmitAccV, MapError>
    decreases primaries.len(),
{
    if primaries.len() == 0 {
        Ok(acc)
    } else {
        match spec_emit(primaries.drop_last(), root, inp, acc) {
            Err(e) => Err(e),
            Ok(st) => match spec_emit_one(primaries.last(), root, inp, st.related) {
                Err(e) => Err(e),
                Ok(step) => Ok(EmitAccV { related: step.1, out: st.out.push(step.0) }),
            },
        }
    }
}

/// The full translation of one root diagnostic: an empty list when it
/// has no primary span, one diagnostic per primary span otherwise, or
/// the error of the first location that could not be represented.
pub open spec fn spec_map_rust_diagnostic(rd: Diagnostic, root: Seq<char>) -> Result<
    Seq<MappedRustDiagnosticV>,
    MapError,
> {
    let primaries = spec_primaries(rd.spans@);
    if primaries.len() == 0 {
        Ok(Seq::empty())
    } else {
        let source_code = spec_source_and_code(rd.code);
        match spec_secondary_fold(rd.spans@, root) {
            Err(e) => Err(e),
            Ok(rel0) => {
                let init = ChildFoldV {
                    message: rd.message@,
                    needs_primary_span_label: true,
                    related: rel0,
                    fixes: Seq::empty(),
                };
                match spec_child_fold(rd.children@, root, init) {
                    Err(e) => Err(e),
                    Ok(st) => {
                        let inp = EmitInputsV {
                            severity: spec_severity_final(rd),
                            code: source_code.1,
                            source: source_code.0,
                            message: st.message,
                            needs_primary_span_label: st.needs_primary_span_label,
                            tags: spec_tags_of(rd),
                            fixes: st.fixes,
                        };
                        let acc0 = EmitAccV { related: st.related, out: Seq::empty() };
                        match spec_emit(primaries, root, inp, acc0) {
                            Err(e) => Err(e),
                            Ok(acc) => Ok(acc.out),
                        }
                    },
                }
            },
        }
    }
}

/// Once the changes fold hits the failing span, every longer prefix of
/// the span list folds to the same error.
proof fn lemma_child_changes_err_propagates(
    spans: Seq<DiagnosticSpan>,
    i: int,
    root: Seq<char>,
    e: MapError,
)
    requires
        0 <= i <= spans.len(),
        spec_child_changes(spec_primaries(spans.take(i)), root) == Err::<Seq<FileChangesV>, MapError>(
            e,
        ),
    ensures
        spec_child_changes(spec_primaries(spans), root) == Err::<Seq<FileChangesV>, MapError>(e),
    decreases spans.len() - i,
{
    if i < spans.len() {
        assert(spans.take(i + 1).drop_last() =~= spans.take(i));
        assert(spans.take(i + 1).last() == spans[i]);
        let pre = spec_primaries(spans.take(i));
        if spans[i].is_primary {
            assert(spec_primaries(spans.take(i + 1)) == pre.push(spans[i]));
            assert(pre.push(spans[i]).drop_last() =~= pre);
        } else {
            assert(spec_primaries(spans.take(i + 1)) == pre);
        }
        lemma_child_changes_err_propagates(spans, i + 1, root, e);
    } else {
        assert(spans.take(i) =~= spans);
    }
}

/// Once the secondary-span fold hits the failing span, every longer
/// prefix of the span list folds to the same error.
proof fn lemma_secondary_fold_err_propagates(
    spans: Seq<DiagnosticSpan>,
    i: int,
    root: Seq<char>,
    e: MapError,
)
    requires
        0 <= i <= spans.len(),
        spec_secondary_fold(spans.take(i), root) == Err::<Seq<DiagnosticRelatedInformationV>, MapError>(
            e,
        ),
    ensures
        spec_secondary_fold(spans, root) == Err::<Seq<DiagnosticRelatedInformationV>, MapError>(e),
    decreases spans.len() - i,
{
    if i < spans.len() {
        assert(spans.take(i + 1).drop_last() =~= spans.take(i));
        assert(spans.take(i + 1).last() == spans[i]);
        lemma_secondary_fold_err_propagates(spans, i + 1, root, e);
    } else {
        assert(spans.take(i) =~= spans);
    }
}

/// Once the child fold hits the failing child, every longer prefix of
/// the child list folds to the same error.
proof fn lemma_child_fold_err_propagates(
    children: Seq<Diagnostic>,
    i: int,
    root: Seq<char>,
    init: ChildFoldV,
    e: MapError,
)
    requires
        0 <= i <= children.len(),
        spec_child_fold(children.take(i), root, init) == Err::<ChildFoldV, MapError>(e),
    ensures
        spec_child_fold(children, root, init) == Err::<ChildFoldV, MapError>(e),
    decreases children.len() - i,
{
    if i < children.len() {
        assert(children.take(i + 1).drop_last() =~= children.take(i));
        assert(children.take(i + 1).last() == children[i]);
        lemma_child_fold_err_propagates(children, i + 1, root, init, e);
    } else {
        assert(children.take(i) =~= children);
    }
}

/// Once the emission hits the failing primary span, every longer prefix
/// of the span list emits the same error.
proof fn lemma_emit_err_propagates(
    spans: Seq<DiagnosticSpan>,
    i: int,
    root: Seq<char>,
    inp: EmitInputsV,
    acc: EmitAccV,
    e: MapError,
)
    requires
        0 <= i <= spans.len(),
        spec_emit(spec_primaries(spans.take(i)), root, inp, acc) == Err::<EmitAccV, MapError>(e),
    ensures
        spec_emit(spec_primaries(spans), root, inp, acc) == Err::<EmitAccV, MapError>(e),
    decreases spans.len() - i,
{
    if i < spans.len() {
        assert(spans.take(i + 1).drop_last() =~= spans.take(i));
        assert(spans.take(i + 1).last() == spans[i]);
        let pre = spec_primaries(spans.take(i));
        if spans[i].is_primary {
            assert(spec_primaries(spans.take(i + 1)) == pre.push(spans[i]));
            assert(pre.push(spans[i]).drop_last() =~= pre);
        } else {
            assert(spec_primaries(spans.take(i + 1)) == pre);
        }
        lemma_emit_err_propagates(spans, i + 1, root, inp, acc, e);
    } else {
        assert(spans.take(i) =~= spans);
    }
}

// --- what the emission guarantees of every entry ---

/// Every diagnostic the emission appends carries the shared severity,
/// code, source, tags and fixes, and the accumulated message with at
/// most the span's own label appended; and when no primary span is
/// attributed inside a macro invocation, all entries share one
/// related-information list.
proof fn lemma_emit_props(
    primaries: Seq<DiagnosticSpan>,
    root: Seq<char>,
    inp: EmitInputsV,
    acc: EmitAccV,
)
    requires
        spec_emit(primaries, root, inp, acc) is Ok,
    ensures
        ({
            let res = spec_emit(primaries, root, inp, acc)->Ok_0;
            &&& res.out.len() == acc.out.len() + primaries.len()
            &&& (forall|k: int| 0 <= k < acc.out.len() ==> #[trigger] res.out[k] == acc.out[k])
            &&& (forall|k: int|
                acc.out.len() <= k < res.out.len() ==> {
                    let d = (#[trigger] res.out[k]).diagnostic;
                    &&& d.severity == inp.severity
                    &&& d.code == inp.code
                    &&& d.source == Some(inp.source)
                    &&& d.message == spec_message_for_span(inp, primaries[k - acc.out.len()])
                    &&& d.tags == (if inp.tags.len() == 0 {
                        None
                    } else {
                        Some(inp.tags)
                    })
                    &&& res.out[k].fixes == inp.fixes
                })
            &&& (forall|k: int|
                0 <= k < primaries.len() ==> !spec_attributed_inside_macro(
                    #[trigger] primaries[k],
                )) ==> (res.related == acc.related && forall|k: int|
                acc.out.len() <= k < res.out.len()
                    ==> (#[trigger] res.out[k]).diagnostic.related_information == (
                if acc.related.len() == 0 {
                    None
                } else {
                    Some(acc.related)
                }))
        }),
    decreases primaries.len(),
{
    if primaries.len() > 0 {
        lemma_emit_props(primaries.drop_last(), root, inp, acc);
        assert(forall|k: int|
            0 <= k < primaries.drop_last().len() ==> #[trigger] primaries.drop_last()[k]
                == primaries[k]);
    }
}

/// The translation emits exactly one diagnostic per primary span.
pub proof fn lemma_output_count(rd: Diagnostic, root: Seq<char>)
    requires
        spec_map_rust_diagnostic(rd, root) is Ok,
    ensures
        spec_map_rust_diagnostic(rd, root)->Ok_0.len() == spec_primaries(rd.spans@).len(),
{
    let primaries = spec_primaries(rd.spans@);
    if primaries.len() > 0 {
        let source_code = spec_source_and_code(rd.code);
        let rel0 = spec_secondary_fold(rd.spans@, root)->Ok_0;
        let init = ChildFoldV {
            message: rd.message@,
            needs_primary_span_label: true,
            related: rel0,
            fixes: Seq::empty(),
        };
        let st = spec_child_fold(rd.children@, root, init)->Ok_0;
        let inp = EmitInputsV {
            severity: spec_severity_final(rd),
            code: source_code.1,
            source: source_code.0,
            message: st.message,
            needs_primary_span_label: st.needs_primary_span_label,
            tags: spec_tags_of(rd),
            fixes: st.fixes,
        };
        let acc0 = EmitAccV { related: st.related, out: Seq::empty() };
        lemma_emit_props(primaries, root, inp, acc0);
    }
}

/// The inputs that the emission of a diagnostic's primary spans starts
/// from, once the secondary spans and the children are folded in.
pub open spec fn spec_emit_inputs(rd: Diagnostic, root: Seq<char>) -> EmitInputsV
    recommends
        spec_map_rust_diagnostic(rd, root) is Ok,
{
    let source_code = spec_source_and_code(rd.code);
    let rel0 = spec_secondary_fold(rd.spans@, root)->Ok_0;
    let init = ChildFoldV {
        message: rd.message@,
        needs_primary_span_label: true,
        related: rel0,
        fixes: Seq::empty(),
    };
    let st = spec_child_fold(rd.children@, root, init)->Ok_0;
    EmitInputsV {
        severity: spec_severity_final(rd),
        code: source_code.1,
        source: source_code.0,
        message: st.message,
        needs_primary_span_label: st.needs_primary_span_label,
        tags: spec_tags_of(rd),
        fixes: st.fixes,
    }
}

/// Every emitted diagnostic carries the shared severity, code, source,
/// tags and fixes of its root, and the accumulated message with at most
/// the label of its own primary span appended.
pub proof fn lemma_output_shares_root_content(rd: Diagnostic, root: Seq<char>, k: int)
    requires
        spec_map_rust_diagnostic(rd, root) is Ok,
        0 <= k < spec_map_rust_diagnostic(rd, root)->Ok_0.len(),
    ensures
        ({
            let out = spec_map_rust_diagnostic(rd, root)->Ok_0;
            let inp = spec_emit_inputs(rd, root);
            &&& out[k].diagnostic.severity == inp.severity
            &&& out[k].diagnostic.code == inp.code
            &&& out[k].diagnostic.source == Some(inp.source)
            &&& out[k].diagnostic.message == spec_message_for_span(
                inp,
                spec_primaries(rd.spans@)[k],
            )
            &&& out[k].diagnostic.tags == (if inp.tags.len() == 0 {
                None
            } else {
                Some(inp.tags)
            })
            &&& out[k].fixes == inp.fixes
            &&& inp.severity == spec_severity_final(rd)
            &&& inp.tags == spec_tags_of(rd)
        }),
{
    let primaries = spec_primaries(rd.spans@);
    lemma_output_count(rd, root);
    let inp = spec_emit_inputs(rd, root);
    let st = spec_child_fold(
        rd.children@,
        root,
        ChildFoldV {
            message: rd.message@,
            needs_primary_span_label: true,
            related: spec_secondary_fold(rd.spans@, root)->Ok_0,
            fixes: Seq::empty(),
        },
    )->Ok_0;
    let acc0 = EmitAccV { related: st.related, out: Seq::empty() };
    lemma_emit_props(primaries, root, inp, acc0);
}

/// When no span carries macro-expansion information, the emitted
/// diagnostics are identical but for their location and their own
/// label line: severity, code, source, tags, related information and
/// fixes coincide, and equal labels give equal messages.
pub proof fn lemma_no_expansion_uniform_output(rd: Diagnostic, root: Seq<char>, i: int, j: int)
    requires
        forall|k: int| 0 <= k < rd.spans@.len() ==> (#[trigger] rd.spans@[k]).expansion is None,
        spec_map_rust_diagnostic(rd, root) is Ok,
        0 <= i < spec_map_rust_diagnostic(rd, root)->Ok_0.len(),
        0 <= j < spec_map_rust_diagnostic(rd, root)->Ok_0.len(),
    ensures
        ({
            let out = spec_map_rust_diagnostic(rd, root)->Ok_0;
            &&& out[i].diagnostic.severity == out[j].diagnostic.severity
            &&& out[i].diagnostic.code == out[j].diagnostic.code
            &&& out[i].diagnostic.source == out[j].diagnostic.source
            &&& out[i].diagnostic.tags == out[j].diagnostic.tags
            &&& out[i].diagnostic.related_information == out[j].diagnostic.related_information
            &&& out[i].fixes == out[j].fixes
            &&& (spec_primaries(rd.spans@)[i].label == spec_primaries(rd.spans@)[j].label
                ==> out[i].diagnostic.message == out[j].diagnostic.message)
        }),
{
    let primaries = spec_primaries(rd.spans@);
    lemma_output_count(rd, root);
    lemma_primaries_props(rd.spans@);
    let inp = spec_emit_inputs(rd, root);
    let st = spec_child_fold(
        rd.children@,
        root,
        ChildFoldV {
            message: rd.message@,
            needs_primary_span_label: true,
            related: spec_secondary_fold(rd.spans@, root)->Ok_0,
            fixes: Seq::empty(),
        },
    )->Ok_0;
    let acc0 = EmitAccV { related: st.related, out: Seq::empty() };
    assert forall|k: int| 0 <= k < primaries.len() implies !spec_attributed_inside_macro(
        #[trigger] primaries[k],
    ) by {
        let w = choose|w: int| 0 <= w < rd.spans@.len() && rd.spans@[w] == primaries[k];
        assert(rd.spans@[w].expansion is None);
    }
    lemma_emit_props(primaries, root, inp, acc0);
}

/// A code in the unused set forces severity Hint and the Unnecessary
/// tag on every emitted diagnostic, whatever the original level.
pub proof fn lemma_unused_code_forces_hint(rd: Diagnostic, root: Seq<char>, k: int)
    requires
        spec_is_unused_or_unnecessary(rd),
        spec_map_rust_diagnostic(rd, root) is Ok,
        0 <= k < spec_map_rust_diagnostic(rd, root)->Ok_0.len(),
    ensures
        ({
            let out = spec_map_rust_diagnostic(rd, root)->Ok_0;
            &&& out[k].diagnostic.severity == Some(DiagnosticSeverity::Hint)
            &&& (out[k].diagnostic.tags matches Some(t) && t.contains(DiagnosticTag::Unnecessary))
        }),
{
    lemma_output_shares_root_content(rd, root, k);
    assert(spec_tags_of(rd)[0] == DiagnosticTag::Unnecessary);
}

/// The code `deprecated` adds the Deprecated tag; the severity stays
/// what the level mapping and the independent unused check give.
pub proof fn lemma_deprecated_code_tags(rd: Diagnostic, root: Seq<char>, k: int)
    requires
        spec_is_deprecated(rd),
        spec_map_rust_diagnostic(rd, root) is Ok,
        0 <= k < spec_map_rust_diagnostic(rd, root)->Ok_0.len(),
    ensures
        ({
            let out = spec_map_rust_diagnostic(rd, root)->Ok_0;
            &&& (out[k].diagnostic.tags matches Some(t) && t.contains(DiagnosticTag::Deprecated))
            &&& (!spec_is_unused_or_unnecessary(rd) ==> out[k].diagnostic.severity
                == spec_severity_of_level(rd.level))
        }),
{
    lemma_output_shares_root_content(rd, root, k);
    let tags = spec_tags_of(rd);
    assert(tags[tags.len() - 1] == DiagnosticTag::Deprecated);
}

// --- the general grouping law of quick-fix edits ---

/// The qualifying spans of a list, in order.
pub open spec fn spec_qualifying(spans: Seq<DiagnosticSpan>) -> Seq<DiagnosticSpan>
    decreases spans.len(),
{
    if spans.len() == 0 {
        Seq::empty()
    } else {
        let pre = spec_qualifying(spans.drop_last());
        if spec_is_qualifying(spans.last()) {
            pre.push(spans.last())
        } else {
            pre
        }
    }
}

/// The replacement edit a qualifying span contributes: its resolved
/// range with its exact replacement text.
pub open spec fn spec_edit_of(s: DiagnosticSpan, root: Seq<char>) -> TextEditV
    recommends
        spec_resolve_location(s, root) is Ok,
{
    TextEditV {
        range: spec_resolve_location(s, root)->Ok_0.range,
        new_text: s.suggested_replacement->0@,
    }
}

/// The file reference a span's edit falls under.
pub open spec fn spec_uri_of(s: DiagnosticSpan, root: Seq<char>) -> Seq<char>
    recommends
        spec_resolve_location(s, root) is Ok,
{
    spec_resolve_location(s, root)->Ok_0.uri
}

/// The distinct file references of the spans, first encounter first.
pub open spec fn spec_uri_order(spans: Seq<DiagnosticSpan>, root: Seq<char>) -> Seq<Seq<char>>
    decreases spans.len(),
{
    if spans.len() == 0 {
        Seq::empty()
    } else {
        let pre = spec_uri_order(spans.drop_last(), root);
        if pre.contains(spec_uri_of(spans.last(), root)) {
            pre
        } else {
            pre.push(spec_uri_of(spans.last(), root))
        }
    }
}

/// The edits of the spans that fall under one file reference, in
/// encounter order.
pub open spec fn spec_edits_for_uri(
    spans: Seq<DiagnosticSpan>,
    root: Seq<char>,
    uri: Seq<char>,
) -> Seq<TextEditV>
    decreases spans.len(),
{
    if spans.len() == 0 {
        Seq::empty()
    } else {
        let pre = spec_edits_for_uri(spans.drop_last(), root, uri);
        if spec_uri_of(spans.last(), root) == uri {
            pre.push(spec_edit_of(spans.last(), root))
        } else {
            pre
        }
    }
}

/// What the changes fold builds, exactly: one entry per distinct file
/// reference of the qualifying spans, first encounter first, holding
/// their edits in encounter order.
proof fn lemma_child_changes_grouping(spans: Seq<DiagnosticSpan>, root: Seq<char>)
    requires
        spec_child_changes(spans, root) is Ok,
    ensures
        ({
            let changes = spec_child_changes(spans, root)->Ok_0;
            let q = spec_qualifying(spans);
            &&& (forall|k: int|
                0 <= k < q.len() ==> spec_resolve_location(#[trigger] q[k], root) is Ok)
            &&& changes.map_values(|c: FileChangesV| c.uri) == spec_uri_order(q, root)
            &&& (forall|i1: int, i2: int|
                0 <= i1 < i2 < changes.len() ==> (#[trigger] changes[i1]).uri != (
                #[trigger] changes[i2]).uri)
            &&& (forall|i: int|
                0 <= i < changes.len() ==> (#[trigger] changes[i]).edits == spec_edits_for_uri(
                    q,
                    root,
                    changes[i].uri,
                ))
            &&& (forall|u: Seq<char>|
                !spec_uri_order(q, root).contains(u) ==> #[trigger] spec_edits_for_uri(q, root, u)
                    == Seq::<TextEditV>::empty())
        }),
    decreases spans.len(),
{
    let changes = spec_child_changes(spans, root)->Ok_0;
    let q = spec_qualifying(spans);
    if spans.len() == 0 {
        assert forall|u: Seq<char>| !spec_uri_order(q, root).contains(u) implies #[trigger] spec_edits_for_uri(
            q,
            root,
            u,
        ) == Seq::<TextEditV>::empty() by {
            assert(spec_edits_for_uri(q, root, u) =~= Seq::<TextEditV>::empty());
        }
    } else {
        lemma_child_changes_grouping(spans.drop_last(), root);
        let s = spans.last();
        let pre_changes = spec_child_changes(spans.drop_last(), root)->Ok_0;
        let pre_q = spec_qualifying(spans.drop_last());
        if spec_is_qualifying(s) {
            assert(q == pre_q.push(s));
            assert(q.drop_last() =~= pre_q);
            assert(q.last() == s);
            let u = spec_uri_of(s, root);
            let ed = spec_edit_of(s, root);
            assert(changes == spec_add_edit(pre_changes, u, ed));
            lemma_find_uri_props(pre_changes, u);
            match spec_find_uri(pre_changes, u) {
                Some(fi) => {
                    // The file already has an entry: its edit list grows
                    // by one; nothing else moves.
                    assert(pre_changes.map_values(|c: FileChangesV| c.uri)[fi] == u);
                    assert(spec_uri_order(pre_q, root).contains(u));
                    assert(spec_uri_order(q, root) == spec_uri_order(pre_q, root));
                    assert(changes.map_values(|c: FileChangesV| c.uri) =~= pre_changes.map_values(
                        |c: FileChangesV| c.uri,
                    ));
                    assert forall|i: int| 0 <= i < changes.len() implies (
                    #[trigger] changes[i]).edits == spec_edits_for_uri(q, root, changes[i].uri) by {
                        if i == fi {
                            assert(spec_edits_for_uri(q, root, u) == spec_edits_for_uri(
                                pre_q,
                                root,
                                u,
                            ).push(ed));
                        } else {
                            assert(changes[i] == pre_changes[i]);
                            assert(pre_changes[i].uri != u);
                            assert(spec_edits_for_uri(q, root, changes[i].uri)
                                == spec_edits_for_uri(pre_q, root, changes[i].uri));
                        }
                    }
                    assert forall|w: Seq<char>| !spec_uri_order(q, root).contains(w) implies
                    #[trigger] spec_edits_for_uri(q, root, w) == Seq::<TextEditV>::empty() by {
                        assert(w != u);
                        assert(spec_edits_for_uri(q, root, w) == spec_edits_for_uri(
                            pre_q,
                            root,
                            w,
                        ));
                    }
                },
                None => {
                    // A new file: a fresh entry with the one edit goes to
                    // the end.
                    assert(!spec_uri_order(pre_q, root).contains(u)) by {
                        if spec_uri_order(pre_q, root).contains(u) {
                            let w = choose|w: int|
                                0 <= w < spec_uri_order(pre_q, root).len() && spec_uri_order(
                                    pre_q,
                                    root,
                                )[w] == u;
                            assert(pre_changes.map_values(|c: FileChangesV| c.uri)[w] == u);
                            assert(pre_changes[w].uri == u);
                        }
                    }
                    assert(spec_uri_order(q, root) == spec_uri_order(pre_q, root).push(u));
                    assert(changes == pre_changes.push(FileChangesV { uri: u, edits: seq![ed] }));
                    assert(changes.map_values(|c: FileChangesV| c.uri) =~= pre_changes.map_values(
                        |c: FileChangesV| c.uri,
                    ).push(u));
                    assert forall|i1: int, i2: int| 0 <= i1 < i2 < changes.len() implies (
                    #[trigger] changes[i1]).uri != (#[trigger] changes[i2]).uri by {
                        if i2 == changes.len() - 1 {
                            assert(changes[i1] == pre_changes[i1]);
                            assert(pre_changes[i1].uri != u);
                        }
                    }
                    assert forall|i: int| 0 <= i < changes.len() implies (
                    #[trigger] changes[i]).edits == spec_edits_for_uri(q, root, changes[i].uri) by {
                        if i == changes.len() - 1 {
                            assert(spec_edits_for_uri(pre_q, root, u) == Seq::<TextEditV>::empty());
                            assert(spec_edits_for_uri(q, root, u) =~= seq![ed]);
                        } else {
                            assert(changes[i] == pre_changes[i]);
                            assert(pre_changes[i].uri != u);
                            assert(spec_edits_for_uri(q, root, changes[i].uri)
                                == spec_edits_for_uri(pre_q, root, changes[i].uri));
                        }
                    }
                    assert forall|w: Seq<char>| !spec_uri_order(q, root).contains(w) implies
                    #[trigger] spec_edits_for_uri(q, root, w) == Seq::<TextEditV>::empty() by {
                        assert(spec_uri_order(pre_q, root).push(u)[spec_uri_order(
                            pre_q,
                            root,
                        ).len() as int] == u);
                        assert(w != u);
                        assert forall|v: int|
                            0 <= v < spec_uri_order(pre_q, root).len() implies spec_uri_order(
                            q,
                            root,
                        )[v] == #[trigger] spec_uri_order(pre_q, root)[v] by {}
                        assert(!spec_uri_order(pre_q, root).contains(w));
                        assert(spec_edits_for_uri(q, root, w) == spec_edits_for_uri(
                            pre_q,
                            root,
                            w,
                        ));
                    }
                },
            }
        } else {
            assert(q == pre_q);
            assert(changes == pre_changes);
        }
    }
}

/// A child carrying machine-applicable replacements on its primary
/// spans classifies as exactly one quick fix titled with the child's
/// message, whose edit holds exactly one replacement per qualifying
/// span — the exact replacement text at the span's resolved range —
/// grouped under the span's file reference: one entry per distinct
/// file, first encounter first, edits in encounter order within each.
pub proof fn lemma_machine_applicable_spans_group_into_one_fix(child: Diagnostic, root: Seq<char>)
    requires
        spec_qualifying(spec_primaries(child.spans@)).len() > 0,
        spec_classify_child(child, root) is Ok,
    ensures
        ({
            let q = spec_qualifying(spec_primaries(child.spans@));
            let c = spec_classify_child(child, root)->Ok_0;
            &&& c is SuggestedFix
            &&& c->SuggestedFix_0.title == child.message@
            &&& c->SuggestedFix_0.kind == "quickfix"@
            &&& (forall|k: int|
                0 <= k < q.len() ==> spec_resolve_location(#[trigger] q[k], root) is Ok)
            &&& c->SuggestedFix_0.changes.map_values(|fc: FileChangesV| fc.uri) == spec_uri_order(
                q,
                root,
            )
            &&& (forall|i1: int, i2: int|
                0 <= i1 < i2 < c->SuggestedFix_0.changes.len() ==> (
                #[trigger] c->SuggestedFix_0.changes[i1]).uri != (
                #[trigger] c->SuggestedFix_0.changes[i2]).uri)
            &&& (forall|i: int|
                0 <= i < c->SuggestedFix_0.changes.len() ==> (
                #[trigger] c->SuggestedFix_0.changes[i]).edits == spec_edits_for_uri(
                    q,
                    root,
                    c->SuggestedFix_0.changes[i].uri,
                ))
        }),
{
    let prim = spec_primaries(child.spans@);
    let q = spec_qualifying(prim);
    assert(prim.len() > 0) by {
        if prim.len() == 0 {
            assert(q =~= Seq::<DiagnosticSpan>::empty());
        }
    }
    lemma_child_changes_grouping(prim, root);
    let changes = spec_child_changes(prim, root)->Ok_0;
    assert(changes.len() == spec_uri_order(q, root).len());
    assert(spec_uri_order(q, root).len() > 0) by {
        let pre = spec_uri_order(q.drop_last(), root);
        if pre.contains(spec_uri_of(q.last(), root)) {
            let w = choose|w: int| 0 <= w < pre.len() && pre[w] == spec_uri_of(q.last(), root);
        }
    }
}
proof fn lemma_child_changes_no_qualifying(spans: Seq<DiagnosticSpan>, root: Seq<char>)
    requires
        forall|k: int| 0 <= k < spans.len() ==> !spec_is_qualifying(#[trigger] spans[k]),
    ensures
        spec_child_changes(spans, root) == Ok::<Seq<FileChangesV>, MapError>(
            Seq::<FileChangesV>::empty(),
        ),
    decreases spans.len(),
{
    if spans.len() > 0 {
        assert(forall|k: int|
            0 <= k < spans.drop_last().len() ==> #[trigger] spans.drop_last()[k] == spans[k]);
        lemma_child_changes_no_qualifying(spans.drop_last(), root);
    }
}

/// A child whose single primary span carries a machine-applicable
/// replacement classifies as exactly one quick fix: one file entry with
/// one replacement, at the span's resolved location, with the exact
/// replacement text.
pub proof fn lemma_machine_applicable_child_is_fix(child: Diagnostic, root: Seq<char>)
    requires
        spec_primaries(child.spans@).len() == 1,
        spec_is_qualifying(spec_primaries(child.spans@)[0]),
        spec_classify_child(child, root) is Ok,
    ensures
        ({
            let s = spec_primaries(child.spans@)[0];
            let loc = spec_resolve_location(s, root)->Ok_0;
            spec_classify_child(child, root)->Ok_0 == MappedRustChildDiagnosticV::SuggestedFix(
                CodeActionV {
                    title: child.message@,
                    kind: "quickfix"@,
                    changes: seq![
                        FileChangesV {
                            uri: loc.uri,
                            edits: seq![
                                TextEditV {
                                    range: loc.range,
                                    new_text: s.suggested_replacement->0@,
                                },
                            ],
                        },
                    ],
                },
            )
        }),
{
    let prim = spec_primaries(child.spans@);
    let s = prim[0];
    assert(prim.drop_last() =~= Seq::<DiagnosticSpan>::empty());
    assert(prim.last() == s);
    assert(spec_child_changes(Seq::<DiagnosticSpan>::empty(), root) == Ok::<
        Seq<FileChangesV>,
        MapError,
    >(Seq::empty()));
    assert(spec_resolve_location(s, root) is Ok);
    let loc = spec_resolve_location(s, root)->Ok_0;
    let edit = TextEditV { range: loc.range, new_text: s.suggested_replacement->0@ };
    assert(spec_add_edit(Seq::<FileChangesV>::empty(), loc.uri, edit) =~~= seq![
        FileChangesV { uri: loc.uri, edits: seq![edit] },
    ]);
    assert(spec_child_changes(prim, root) == Ok::<Seq<FileChangesV>, MapError>(
        seq![FileChangesV { uri: loc.uri, edits: seq![edit] }],
    ));
}

/// A child with primary spans but no machine-applicable replacement
/// yields related information at its first primary span, never a quick
/// fix.
pub proof fn lemma_no_machine_applicable_child_is_related(child: Diagnostic, root: Seq<char>)
    requires
        spec_primaries(child.spans@).len() > 0,
        forall|k: int|
            0 <= k < spec_primaries(child.spans@).len() ==> !spec_is_qualifying(
                #[trigger] spec_primaries(child.spans@)[k],
            ),
        spec_classify_child(child, root) is Ok,
    ensures
        ({
            let loc = spec_resolve_location(spec_primaries(child.spans@)[0], root)->Ok_0;
            spec_classify_child(child, root)->Ok_0 == MappedRustChildDiagnosticV::Related(
                DiagnosticRelatedInformationV { location: loc, message: child.message@ },
            )
        }),
{
    lemma_child_changes_no_qualifying(spec_primaries(child.spans@), root);
}

// --- view-preserving copies of the shared pieces ---

fn clone_related_vec(v: &Vec<DiagnosticRelatedInformation>) -> (r: Vec<
    DiagnosticRelatedInformation,
>)
    ensures
        r@.map_values(|x: DiagnosticRelatedInformation| x@) == v@.map_values(
            |x: DiagnosticRelatedInformation| x@,
        ),
{
    let mut r: Vec<DiagnosticRelatedInformation> = Vec::new();
    let mut i: usize = 0;
    while i < v.len()
        invariant
            i <= v@.len(),
            r@.len() == i as int,
            forall|j: int| 0 <= j < i ==> (#[trigger] r@[j])@ == v@[j]@,
        decreases v@.len() - i,
    {
        r.push(v[i].clone());
        i = i + 1;
    }
    proof {
        assert(r@.map_values(|x: DiagnosticRelatedInformation| x@) =~= v@.map_values(
            |x: DiagnosticRelatedInformation| x@,
        ));
    }
    r
}

fn clone_fixes_vec(v: &Vec<CodeAction>) -> (r: Vec<CodeAction>)
    ensures
        r@.map_values(|x: CodeAction| x@) == v@.map_values(|x: CodeAction| x@),
{
    let mut r: Vec<CodeAction> = Vec::new();
    let mut i: usize = 0;
    while i < v.len()
        invariant
            i <= v@.len(),
            r@.len() == i as int,
            forall|j: int| 0 <= j < i ==> (#[trigger] r@[j])@ == v@[j]@,
        decreases v@.len() - i,
    {
        r.push(v[i].clone());
        i = i + 1;
    }
    proof {
        assert(r@.map_values(|x: CodeAction| x@) =~= v@.map_values(|x: CodeAction| x@));
    }
    r
}

fn clone_tags_vec(v: &Vec<DiagnosticTag>) -> (r: Vec<DiagnosticTag>)
    ensures
        r@ == v@,
{
    let mut r: Vec<DiagnosticTag> = Vec::new();
    let mut i: usize = 0;
    while i < v.len()
        invariant
            i <= v@.len(),
            r@ == v@.take(i as int),
        decreases v@.len() - i,
    {
        r.push(v[i]);
        i = i + 1;
        proof {
            assert(v@.take(i as int) =~= v@.take(i as int - 1).push(v@[i as int - 1]));
        }
    }
    proof {
        assert(v@.take(v@.len() as int) =~= v@);
    }
    r
}

/// Translates one root diagnostic into protocol diagnostics, one per
/// primary span; a root without primary spans yields an empty list, and
/// a location whose path cannot be represented fails the whole call.
#[verifier::loop_isolation(false)]
#[verifier::rlimit(60)]
pub fn map_rust_diagnostic_to_lsp(rd: &Diagnostic, workspace_root: &str) -> (r: Result<
    Vec<MappedRustDiagnostic>,
    MapError,
>)
    requires
        diagnostic_wf(*rd),
    ensures
        r matches Ok(v) ==> spec_map_rust_diagnostic(*rd, workspace_root@) == Ok::<
            Seq<MappedRustDiagnosticV>,
            MapError,
        >(v@.map_values(|m: MappedRustDiagnostic| m@)),
        r matches Err(e) ==> spec_map_rust_diagnostic(*rd, workspace_root@) == Err::<
            Seq<MappedRustDiagnosticV>,
            MapError,
        >(e),
        spec_primaries(rd.spans@).len() == 0 ==> (r matches Ok(v) && v@.len() == 0),
        r matches Ok(v) ==> v@.len() == spec_primaries(rd.spans@).len(),
{
    let ghost root = workspace_root@;
    let n = rd.spans.len();

    // Count the primary spans: a root without any yields nothing.
    let mut primary_count: usize = 0;
    let mut i: usize = 0;
    proof {
        assert(rd.spans@.take(0) =~= Seq::<DiagnosticSpan>::empty());
    }
    while i < n
        invariant
            i <= n,
            primary_count <= i,
            primary_count == spec_primaries(rd.spans@.take(i as int)).len(),
        decreases n - i,
    {
        proof {
            assert(rd.spans@.take(i as int + 1).drop_last() =~= rd.spans@.take(i as int));
            assert(rd.spans@.take(i as int + 1).last() == rd.spans@[i as int]);
        }
        if rd.spans[i].is_primary {
            primary_count = primary_count + 1;
        }
        i = i + 1;
    }
    proof {
        assert(rd.spans@.take(n as int) =~= rd.spans@);
    }
    if primary_count == 0 {
        let empty: Vec<MappedRustDiagnostic> = Vec::new();
        proof {
            assert(empty@.map_values(|m: MappedRustDiagnostic| m@) =~= Seq::<
                MappedRustDiagnosticV,
            >::empty());
        }
        return Ok(empty);
    }

    // Source and code, splitting a scoped lint code in two.
    let mut source = String::from_str("rustc");
    let mut code: Option<String> = match &rd.code {
        Some(c) => Some(c.code.clone()),
        None => None,
    };
    let scoped = match &code {
        Some(code_val) => split_scoped_code(code_val.as_str()),
        None => None,
    };
    match scoped {
        Some(parts) => {
            source = parts.0;
            code = Some(parts.1);
        },
        None => {},
    }
    let ghost code_view: Option<Seq<char>> = match &code {
        Some(c) => Some(c@),
        None => None,
    };
    proof {
        assert(source@ == spec_source_and_code(rd.code).0);
        assert(code_view == spec_source_and_code(rd.code).1);
    }

    // Labelled secondary spans become related information.
    let mut related_information: Vec<DiagnosticRelatedInformation> = Vec::new();
    let mut i: usize = 0;
    proof {
        assert(related_information@.map_values(|x: DiagnosticRelatedInformation| x@) =~= Seq::<
            DiagnosticRelatedInformationV,
        >::empty());
    }
    while i < n
        invariant
            i <= n,
            spec_secondary_fold(rd.spans@.take(i as int), root) == Ok::<
                Seq<DiagnosticRelatedInformationV>,
                MapError,
            >(related_information@.map_values(|x: DiagnosticRelatedInformation| x@)),
        decreases n - i,
    {
        proof {
            assert(rd.spans@.take(i as int + 1).drop_last() =~= rd.spans@.take(i as int));
            assert(rd.spans@.take(i as int + 1).last() == rd.spans@[i as int]);
        }
        let span = &rd.spans[i];
        if !span.is_primary {
            match map_secondary_span_to_related(span, workspace_root) {
                Ok(Some(related)) => {
                    let ghost before = related_information@.map_values(
                        |x: DiagnosticRelatedInformation| x@,
                    );
                    related_information.push(related);
                    proof {
                        assert(related_information@.map_values(
                            |x: DiagnosticRelatedInformation| x@,
                        ) =~= before.push(related@));
                    }
                },
                Ok(None) => {},
                Err(e) => {
                    proof {
                        lemma_secondary_fold_err_propagates(rd.spans@, i as int + 1, root, e);
                    }
                    return Err(e);
                },
            }
        }
        i = i + 1;
    }
    proof {
        assert(rd.spans@.take(n as int) =~= rd.spans@);
    }
    let ghost rel0 = related_information@.map_values(|x: DiagnosticRelatedInformation| x@);
    let ghost init = ChildFoldV {
        message: rd.message@,
        needs_primary_span_label: true,
        related: rel0,
        fixes: Seq::empty(),
    };

    // Children: related information, quick fixes, or message lines.
    let mut fixes: Vec<CodeAction> = Vec::new();
    let mut message = rd.message.clone();
    let mut needs_primary_span_label = true;
    let mut i: usize = 0;
    proof {
        assert(rd.children@.take(0) =~= Seq::<Diagnostic>::empty());
        assert(fixes@.map_values(|a: CodeAction| a@) =~= Seq::<CodeActionV>::empty());
    }
    while i < rd.children.len()
        invariant
            i <= rd.children@.len(),
            spec_child_fold(rd.children@.take(i as int), root, init) == Ok::<ChildFoldV, MapError>(
                ChildFoldV {
                    message: message@,
                    needs_primary_span_label: needs_primary_span_label,
                    related: related_information@.map_values(
                        |x: DiagnosticRelatedInformation| x@,
                    ),
                    fixes: fixes@.map_values(|a: CodeAction| a@),
                },
            ),
        decreases rd.children@.len() - i,
    {
        proof {
            assert(rd.children@.take(i as int + 1).drop_last() =~= rd.children@.take(i as int));
            assert(rd.children@.take(i as int + 1).last() == rd.children@[i as int]);
            assert(diagnostic_wf(rd.children@[i as int]));
        }
        let child = &rd.children[i];
        match map_rust_child_diagnostic(child, workspace_root) {
            Ok(mapped) => {
                let ghost before = ChildFoldV {
                    message: message@,
                    needs_primary_span_label: needs_primary_span_label,
                    related: related_information@.map_values(
                        |x: DiagnosticRelatedInformation| x@,
                    ),
                    fixes: fixes@.map_values(|a: CodeAction| a@),
                };
                match mapped {
                    MappedRustChildDiagnostic::Related(related) => {
                        related_information.push(related);
                        proof {
                            assert(related_information@.map_values(
                                |x: DiagnosticRelatedInformation| x@,
                            ) =~= before.related.push(related@));
                        }
                    },
                    MappedRustChildDiagnostic::SuggestedFix(code_action) => {
                        fixes.push(code_action);
                        proof {
                            assert(fixes@.map_values(|a: CodeAction| a@) =~= before.fixes.push(
                                code_action@,
                            ));
                        }
                    },
                    MappedRustChildDiagnostic::MessageLine(message_line) => {
                        proof {
                            reveal_strlit("\n");
                            assert("\n"@ =~= seq!['\n']);
                        }
                        message.append("\n");
                        message.append(message_line.as_str());
                        needs_primary_span_label = false;
                        proof {
                            assert(message@ =~= before.message + seq!['\n'] + message_line@);
                        }
                    },
                }
            },
            Err(e) => {
                proof {
                    lemma_child_fold_err_propagates(rd.children@, i as int + 1, root, init, e);
                }
                return Err(e);
            },
        }
        i = i + 1;
    }
    proof {
        assert(rd.children@.take(rd.children@.len() as int) =~= rd.children@);
    }

    // Severity and tags, with the unused override after the level map.
    let mut severity = map_level_to_severity(rd.level);
    let mut tags: Vec<DiagnosticTag> = Vec::new();
    if is_unused_or_unnecessary(rd) {
        severity = Some(DiagnosticSeverity::Hint);
        tags.push(DiagnosticTag::Unnecessary);
    }
    if is_deprecated(rd) {
        tags.push(DiagnosticTag::Deprecated);
    }
    proof {
        assert(tags@ =~= spec_tags_of(*rd));
        assert(severity == spec_severity_final(*rd));
    }

    let ghost inp = EmitInputsV {
        severity: severity,
        code: code_view,
        source: source@,
        message: message@,
        needs_primary_span_label: needs_primary_span_label,
        tags: tags@,
        fixes: fixes@.map_values(|a: CodeAction| a@),
    };
    let ghost acc0 = EmitAccV {
        related: related_information@.map_values(|x: DiagnosticRelatedInformation| x@),
        out: Seq::empty(),
    };

    // One diagnostic per primary span, in list order.
    let mut out: Vec<MappedRustDiagnostic> = Vec::new();
    let mut i: usize = 0;
    proof {
        assert(out@.map_values(|m: MappedRustDiagnostic| m@) =~= Seq::<
            MappedRustDiagnosticV,
        >::empty());
    }
    while i < n
        invariant
            i <= n,
            out@.len() == spec_primaries(rd.spans@.take(i as int)).len(),
            spec_emit(spec_primaries(rd.spans@.take(i as int)), root, inp, acc0) == Ok::<
                EmitAccV,
                MapError,
            >(
                EmitAccV {
                    related: related_information@.map_values(
                        |x: DiagnosticRelatedInformation| x@,
                    ),
                    out: out@.map_values(|m: MappedRustDiagnostic| m@),
                },
            ),
        decreases n - i,
    {
        let ghost prev_prim = spec_primaries(rd.spans@.take(i as int));
        proof {
            assert(rd.spans@.take(i as int + 1).drop_last() =~= rd.spans@.take(i as int));
            assert(rd.spans@.take(i as int + 1).last() == rd.spans@[i as int]);
            if rd.spans@[i as int].is_primary {
                assert(spec_primaries(rd.spans@.take(i as int + 1)) == prev_prim.push(
                    rd.spans@[i as int],
                ));
                assert(prev_prim.push(rd.spans@[i as int]).drop_last() =~= prev_prim);
            } else {
                assert(spec_primaries(rd.spans@.take(i as int + 1)) == prev_prim);
            }
        }
        let span = &rd.spans[i];
        if span.is_primary {
            let location = match map_span_to_location(span, workspace_root) {
                Ok(location) => location,
                Err(e) => {
                    proof {
                        lemma_emit_err_propagates(rd.spans@, i as int + 1, root, inp, acc0, e);
                    }
                    return Err(e);
                },
            };

            let mut span_message = message.clone();
            if needs_primary_span_label {
                match &span.label {
                    Some(primary_span_label) => {
                        proof {
                            reveal_strlit("\n");
                            assert("\n"@ =~= seq!['\n']);
                        }
                        span_message.append("\n");
                        span_message.append(primary_span_label.as_str());
                    },
                    None => {},
                }
            }
            proof {
                assert(span_message@ == spec_message_for_span(inp, rd.spans@[i as int]));
            }

            // A diagnostic attributed one level inside a macro invocation
            // gets a breadcrumb pointing at the invocation's own site.
            if !is_from_macro(span.file_name.as_str()) && span.expansion.is_some() {
                match map_span_to_location_naive(span, workspace_root) {
                    Ok(def_loc) => {
                        let ghost before = related_information@.map_values(
                            |x: DiagnosticRelatedInformation| x@,
                        );
                        related_information.push(
                            DiagnosticRelatedInformation {
                                location: def_loc,
                                message: String::from_str("Error originated from macro here"),
                            },
                        );
                        proof {
                            assert(related_information@.map_values(
                                |x: DiagnosticRelatedInformation| x@,
                            ) =~= before.push(
                                DiagnosticRelatedInformationV {
                                    location: def_loc@,
                                    message: spec_macro_origin_message(),
                                },
                            ));
                        }
                    },
                    Err(e) => {
                        proof {
                            lemma_emit_err_propagates(rd.spans@, i as int + 1, root, inp, acc0, e);
                        }
                        return Err(e);
                    },
                }
            }

            let related_clone: Option<Vec<DiagnosticRelatedInformation>> = if
            related_information.len() == 0 {
                None
            } else {
                Some(clone_related_vec(&related_information))
            };
            let tags_clone: Option<Vec<DiagnosticTag>> = if tags.len() == 0 {
                None
            } else {
                Some(clone_tags_vec(&tags))
            };
            let diagnostic = lsp::Diagnostic {
                range: location.range,
                severity,
                code: match &code {
                    Some(c) => Some(c.clone()),
                    None => None,
                },
                source: Some(source.clone()),
                message: span_message,
                related_information: related_clone,
                tags: tags_clone,
            };
            let ghost before_out = out@.map_values(|m: MappedRustDiagnostic| m@);
            let mapped = MappedRustDiagnostic {
                location,
                diagnostic,
                fixes: clone_fixes_vec(&fixes),
            };
            out.push(mapped);
            proof {
                assert(out@.map_values(|m: MappedRustDiagnostic| m@) =~= before_out.push(
                    out@.last()@,
                ));
                assert(out@.last()@ =~~= spec_emit_one(
                    rd.spans@[i as int],
                    root,
                    inp,
                    spec_emit(prev_prim, root, inp, acc0)->Ok_0.related,
                )->Ok_0.0);
            }
        }
        i = i + 1;
    }
    proof {
        assert(rd.spans@.take(n as int) =~= rd.spans@);
    }
    Ok(out)
}

} // verus!
