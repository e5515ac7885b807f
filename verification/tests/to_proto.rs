use diag_to_proto::checker::{Applicability, Diagnostic, DiagnosticCode, DiagnosticLevel,
    DiagnosticSpan, DiagnosticSpanMacroExpansion};
use diag_to_proto::lsp::DiagnosticSeverity;
use diag_to_proto::lsp::DiagnosticTag;
use diag_to_proto::to_proto::map_rust_diagnostic_to_lsp;
use diag_to_proto::to_proto::split_scoped_code;
use diag_to_proto::uri::MapError;

fn span(
    file: &str,
    line_start: u64,
    column_start: u64,
    line_end: u64,
    column_end: u64,
    is_primary: bool,
) -> DiagnosticSpan {
    DiagnosticSpan {
        file_name: file.to_string(),
        line_start,
        line_end,
        column_start,
        column_end,
        is_primary,
        label: None,
        suggested_replacement: None,
        suggestion_applicability: None,
        expansion: None,
    }
}

fn diag(
    message: &str,
    code: Option<&str>,
    level: DiagnosticLevel,
    spans: Vec<DiagnosticSpan>,
    children: Vec<Diagnostic>,
) -> Diagnostic {
    Diagnostic {
        message: message.to_string(),
        code: code.map(|c| DiagnosticCode { code: c.to_string(), explanation: None }),
        level,
        spans,
        children,
    }
}

#[test]
fn snap_rustc_incompatible_type_for_trait() {
    let mut primary = span("compiler/ty/list_iter.rs", 52, 5, 52, 48, true);
    primary.label = Some("types differ in mutability".to_string());
    let child = diag(
        "expected type `fn(&mut ty::list_iter::ListIterator<'list, M>) -> std::option::Option<&ty::Ref<M>>`\n   found type `fn(&ty::list_iter::ListIterator<'list, M>) -> std::option::Option<&'list ty::Ref<M>>`",
        None,
        DiagnosticLevel::Note,
        vec![],
        vec![],
    );
    let rd = diag(
        "method `next` has an incompatible type for trait",
        Some("E0053"),
        DiagnosticLevel::Error,
        vec![primary],
        vec![child],
    );

    let out = map_rust_diagnostic_to_lsp(&rd, "/test/").unwrap();
    assert_eq!(out.len(), 1);
    let m = &out[0];
    assert_eq!(m.location.uri, "file:///test/compiler/ty/list_iter.rs");
    assert_eq!(m.location.range.start.line, 51);
    assert_eq!(m.location.range.start.character, 4);
    assert_eq!(m.location.range.end.line, 51);
    assert_eq!(m.location.range.end.character, 47);
    assert_eq!(m.diagnostic.severity, Some(DiagnosticSeverity::Error));
    assert_eq!(m.diagnostic.code.as_deref(), Some("E0053"));
    assert_eq!(m.diagnostic.source.as_deref(), Some("rustc"));
    // The spanless child becomes a message line and suppresses the label.
    assert_eq!(
        m.diagnostic.message,
        "method `next` has an incompatible type for trait\nexpected type `fn(&mut ty::list_iter::ListIterator<'list, M>) -> std::option::Option<&ty::Ref<M>>`\n   found type `fn(&ty::list_iter::ListIterator<'list, M>) -> std::option::Option<&'list ty::Ref<M>>`"
    );
    assert!(m.diagnostic.related_information.is_none());
    assert!(m.diagnostic.tags.is_none());
    assert!(m.fixes.is_empty());
}

#[test]
fn snap_rustc_unused_variable() {
    let primary = span("driver/subcommand/repl.rs", 291, 9, 291, 12, true);
    let note = diag(
        "#[warn(unused_variables)] on by default",
        None,
        DiagnosticLevel::Note,
        vec![],
        vec![],
    );
    let mut fix_span = span("driver/subcommand/repl.rs", 291, 9, 291, 12, true);
    fix_span.suggested_replacement = Some("_foo".to_string());
    fix_span.suggestion_applicability = Some(Applicability::MachineApplicable);
    let help = diag(
        "consider prefixing with an underscore",
        None,
        DiagnosticLevel::Help,
        vec![fix_span],
        vec![],
    );
    let rd = diag(
        "unused variable: `foo`",
        Some("unused_variables"),
        DiagnosticLevel::Warning,
        vec![primary],
        vec![note, help],
    );

    let out = map_rust_diagnostic_to_lsp(&rd, "/test/").unwrap();
    assert_eq!(out.len(), 1);
    let m = &out[0];
    assert_eq!(m.location.uri, "file:///test/driver/subcommand/repl.rs");
    assert_eq!(m.location.range.start.line, 290);
    assert_eq!(m.location.range.start.character, 8);
    assert_eq!(m.location.range.end.character, 11);
    // The unused set forces Hint and the Unnecessary tag.
    assert_eq!(m.diagnostic.severity, Some(DiagnosticSeverity::Hint));
    assert_eq!(m.diagnostic.tags.as_deref(), Some(&[DiagnosticTag::Unnecessary][..]));
    assert_eq!(m.diagnostic.code.as_deref(), Some("unused_variables"));
    assert_eq!(
        m.diagnostic.message,
        "unused variable: `foo`\n#[warn(unused_variables)] on by default"
    );
    assert!(m.diagnostic.related_information.is_none());
    assert_eq!(m.fixes.len(), 1);
    let fix = &m.fixes[0];
    assert_eq!(fix.title, "consider prefixing with an underscore");
    assert_eq!(fix.kind, "quickfix");
    assert_eq!(fix.changes.len(), 1);
    assert_eq!(fix.changes[0].uri, "file:///test/driver/subcommand/repl.rs");
    assert_eq!(fix.changes[0].edits.len(), 1);
    assert_eq!(fix.changes[0].edits[0].new_text, "_foo");
    assert_eq!(fix.changes[0].edits[0].range.start.line, 290);
    assert_eq!(fix.changes[0].edits[0].range.start.character, 8);
}

#[test]
fn snap_rustc_wrong_number_of_parameters() {
    let mut secondary = span("compiler/ty/select.rs", 219, 5, 231, 6, false);
    secondary.label = Some("defined here".to_string());
    let mut primary = span("compiler/ty/select.rs", 104, 18, 104, 30, true);
    primary.label = Some("expected 2 parameters".to_string());
    let rd = diag(
        "this function takes 2 parameters but 3 parameters were supplied",
        Some("E0061"),
        DiagnosticLevel::Error,
        vec![secondary, primary],
        vec![],
    );

    let out = map_rust_diagnostic_to_lsp(&rd, "/test/").unwrap();
    assert_eq!(out.len(), 1);
    let m = &out[0];
    assert_eq!(m.location.range.start.line, 103);
    assert_eq!(m.location.range.start.character, 17);
    assert_eq!(m.diagnostic.severity, Some(DiagnosticSeverity::Error));
    assert_eq!(m.diagnostic.code.as_deref(), Some("E0061"));
    // The labelled secondary span becomes related information; the
    // primary label is appended to the message.
    assert_eq!(
        m.diagnostic.message,
        "this function takes 2 parameters but 3 parameters were supplied\nexpected 2 parameters"
    );
    let related = m.diagnostic.related_information.as_ref().unwrap();
    assert_eq!(related.len(), 1);
    assert_eq!(related[0].message, "defined here");
    assert_eq!(related[0].location.uri, "file:///test/compiler/ty/select.rs");
    assert_eq!(related[0].location.range.start.line, 218);
    assert_eq!(related[0].location.range.start.character, 4);
    assert_eq!(related[0].location.range.end.line, 230);
    assert_eq!(related[0].location.range.end.character, 5);
    assert!(m.fixes.is_empty());
}

#[test]
fn snap_clippy_pass_by_ref() {
    let primary = span("compiler/mir/tagset.rs", 42, 24, 42, 29, true);
    let lint_span = span("compiler/lib.rs", 1, 9, 1, 20, true);
    let lint_note = diag(
        "lint level defined here",
        None,
        DiagnosticLevel::Note,
        vec![lint_span],
        vec![],
    );
    let implied_note = diag(
        "#[warn(clippy::trivially_copy_pass_by_ref)] implied by #[warn(clippy::all)]",
        None,
        DiagnosticLevel::Note,
        vec![],
        vec![],
    );
    let info_help = diag(
        "for further information visit https://rust-lang.github.io/rust-clippy/master/index.html#trivially_copy_pass_by_ref",
        None,
        DiagnosticLevel::Help,
        vec![],
        vec![],
    );
    let mut sug_span = span("compiler/mir/tagset.rs", 42, 24, 42, 29, true);
    sug_span.suggested_replacement = Some("self".to_string());
    sug_span.suggestion_applicability = Some(Applicability::Unspecified);
    let sug_help = diag(
        "consider passing by value instead",
        None,
        DiagnosticLevel::Help,
        vec![sug_span],
        vec![],
    );
    let rd = diag(
        "this argument is passed by reference, but would be more efficient if passed by value",
        Some("clippy::trivially_copy_pass_by_ref"),
        DiagnosticLevel::Warning,
        vec![primary],
        vec![lint_note, implied_note, info_help, sug_help],
    );

    let out = map_rust_diagnostic_to_lsp(&rd, "/test/").unwrap();
    assert_eq!(out.len(), 1);
    let m = &out[0];
    // The scoped code splits into source and code.
    assert_eq!(m.diagnostic.source.as_deref(), Some("clippy"));
    assert_eq!(m.diagnostic.code.as_deref(), Some("trivially_copy_pass_by_ref"));
    assert_eq!(m.diagnostic.severity, Some(DiagnosticSeverity::Warning));
    assert_eq!(
        m.diagnostic.message,
        "this argument is passed by reference, but would be more efficient if passed by value\n#[warn(clippy::trivially_copy_pass_by_ref)] implied by #[warn(clippy::all)]\nfor further information visit https://rust-lang.github.io/rust-clippy/master/index.html#trivially_copy_pass_by_ref"
    );
    // A suggestion that is not machine-applicable yields related
    // information, not a fix.
    assert!(m.fixes.is_empty());
    let related = m.diagnostic.related_information.as_ref().unwrap();
    assert_eq!(related.len(), 2);
    assert_eq!(related[0].message, "lint level defined here");
    assert_eq!(related[0].location.uri, "file:///test/compiler/lib.rs");
    assert_eq!(related[0].location.range.start.line, 0);
    assert_eq!(related[0].location.range.start.character, 8);
    assert_eq!(related[1].message, "consider passing by value instead");
    assert_eq!(related[1].location.uri, "file:///test/compiler/mir/tagset.rs");
    assert!(m.diagnostic.tags.is_none());
}

#[test]
fn snap_rustc_mismatched_type() {
    let mut primary = span("runtime/compiler_support.rs", 48, 65, 48, 70, true);
    primary.label = Some("expected usize, found u32".to_string());
    let rd = diag(
        "mismatched types",
        Some("E0308"),
        DiagnosticLevel::Error,
        vec![primary],
        vec![],
    );

    let out = map_rust_diagnostic_to_lsp(&rd, "/test/").unwrap();
    assert_eq!(out.len(), 1);
    let m = &out[0];
    assert_eq!(m.location.uri, "file:///test/runtime/compiler_support.rs");
    assert_eq!(m.location.range.start.line, 47);
    assert_eq!(m.location.range.start.character, 64);
    assert_eq!(m.location.range.end.character, 69);
    assert_eq!(m.diagnostic.severity, Some(DiagnosticSeverity::Error));
    assert_eq!(m.diagnostic.source.as_deref(), Some("rustc"));
    assert_eq!(m.diagnostic.code.as_deref(), Some("E0308"));
    assert_eq!(m.diagnostic.message, "mismatched types\nexpected usize, found u32");
    assert!(m.diagnostic.related_information.is_none());
    assert!(m.fixes.is_empty());
}

#[test]
fn snap_handles_macro_location() {
    let help = diag(
        "the trait `std::cmp::PartialEq<&str>` is not implemented for `{integer}`",
        None,
        DiagnosticLevel::Help,
        vec![],
        vec![],
    );
    let call_site = span("src/main.rs", 2, 5, 2, 27, false);
    let mut primary = span("<::core::macros::assert_eq macros>", 7, 31, 7, 33, true);
    primary.label = Some("no implementation for `{integer} == &str`".to_string());
    primary.expansion = Some(Box::new(DiagnosticSpanMacroExpansion {
        span: call_site,
        macro_decl_name: "assert_eq!".to_string(),
        def_site_span: Some(span("<::core::macros::assert_eq macros>", 1, 1, 36, 6, false)),
    }));
    let rd = diag(
        "can't compare `{integer}` with `&str`",
        Some("E0277"),
        DiagnosticLevel::Error,
        vec![primary],
        vec![help],
    );

    let out = map_rust_diagnostic_to_lsp(&rd, "/test/").unwrap();
    assert_eq!(out.len(), 1);
    let m = &out[0];
    // The location resolves to the macro invocation site, not the
    // synthetic macro frame.
    assert_eq!(m.location.uri, "file:///test/src/main.rs");
    assert_eq!(m.location.range.start.line, 1);
    assert_eq!(m.location.range.start.character, 4);
    assert_eq!(m.location.range.end.character, 26);
    assert_eq!(m.diagnostic.severity, Some(DiagnosticSeverity::Error));
    assert_eq!(m.diagnostic.code.as_deref(), Some("E0277"));
    assert_eq!(
        m.diagnostic.message,
        "can't compare `{integer}` with `&str`\nthe trait `std::cmp::PartialEq<&str>` is not implemented for `{integer}`"
    );
    // The primary span's own file is synthetic, so no macro-origin
    // breadcrumb is added.
    assert!(m.diagnostic.related_information.is_none());
    assert!(m.fixes.is_empty());
}

#[test]
fn snap_macro_compiler_error() {
    let innermost = span("crates/ra_hir_def/src/data.rs", 80, 16, 80, 42, false);
    let mut middle = span("crates/ra_hir_def/src/path.rs", 272, 9, 272, 51, false);
    middle.expansion = Some(Box::new(DiagnosticSpanMacroExpansion {
        span: innermost,
        macro_decl_name: "path!".to_string(),
        def_site_span: Some(span("crates/ra_hir_def/src/path.rs", 270, 1, 277, 2, false)),
    }));
    let mut primary = span("crates/ra_hir_def/src/path.rs", 265, 9, 265, 77, true);
    primary.expansion = Some(Box::new(DiagnosticSpanMacroExpansion {
        span: middle,
        macro_decl_name: "$crate::__known_path!".to_string(),
        def_site_span: Some(span("crates/ra_hir_def/src/path.rs", 254, 1, 267, 2, false)),
    }));
    let rd = diag(
        "Please register your known path in the path module",
        None,
        DiagnosticLevel::Error,
        vec![primary],
        vec![],
    );

    let out = map_rust_diagnostic_to_lsp(&rd, "/test/").unwrap();
    assert_eq!(out.len(), 1);
    let m = &out[0];
    // The chain resolves through the intermediate real-file frame to the
    // innermost call site: the invocation in user code.
    assert_eq!(m.location.uri, "file:///test/crates/ra_hir_def/src/data.rs");
    assert_eq!(m.location.range.start.line, 79);
    assert_eq!(m.location.range.start.character, 15);
    assert_eq!(m.location.range.end.character, 41);
    assert_eq!(m.diagnostic.severity, Some(DiagnosticSeverity::Error));
    assert!(m.diagnostic.code.is_none());
    assert_eq!(m.diagnostic.source.as_deref(), Some("rustc"));
    assert_eq!(m.diagnostic.message, "Please register your known path in the path module");
    // The span's own file is real yet carries expansion info: a
    // macro-origin breadcrumb points at its naive location.
    let related = m.diagnostic.related_information.as_ref().unwrap();
    assert_eq!(related.len(), 1);
    assert_eq!(related[0].message, "Error originated from macro here");
    assert_eq!(related[0].location.uri, "file:///test/crates/ra_hir_def/src/path.rs");
    assert_eq!(related[0].location.range.start.line, 264);
    assert_eq!(related[0].location.range.start.character, 8);
    assert!(m.fixes.is_empty());
}

#[test]
fn snap_multi_line_fix() {
    let mut secondary = span("src/main.rs", 3, 5, 3, 31, false);
    secondary.label = Some("unnecessary let binding".to_string());
    let primary = span("src/main.rs", 4, 5, 4, 6, true);
    let note = diag(
        "`#[warn(clippy::let_and_return)]` on by default",
        None,
        DiagnosticLevel::Note,
        vec![],
        vec![],
    );
    let info = diag(
        "for further information visit https://rust-lang.github.io/rust-clippy/master/index.html#let_and_return",
        None,
        DiagnosticLevel::Help,
        vec![],
        vec![],
    );
    let mut fix_a = span("src/main.rs", 3, 5, 3, 31, true);
    fix_a.suggested_replacement = Some("".to_string());
    fix_a.suggestion_applicability = Some(Applicability::MachineApplicable);
    let mut fix_b = span("src/main.rs", 4, 5, 4, 6, true);
    fix_b.suggested_replacement = Some("(0..10).collect()".to_string());
    fix_b.suggestion_applicability = Some(Applicability::MachineApplicable);
    let help = diag(
        "return the expression directly",
        None,
        DiagnosticLevel::Help,
        vec![fix_a, fix_b],
        vec![],
    );
    let rd = diag(
        "returning the result of a let binding from a block",
        Some("clippy::let_and_return"),
        DiagnosticLevel::Warning,
        vec![secondary, primary],
        vec![note, info, help],
    );

    let out = map_rust_diagnostic_to_lsp(&rd, "/test/").unwrap();
    assert_eq!(out.len(), 1);
    let m = &out[0];
    assert_eq!(m.diagnostic.source.as_deref(), Some("clippy"));
    assert_eq!(m.diagnostic.code.as_deref(), Some("let_and_return"));
    assert_eq!(m.location.range.start.line, 3);
    assert_eq!(m.location.range.start.character, 4);
    assert_eq!(
        m.diagnostic.message,
        "returning the result of a let binding from a block\n`#[warn(clippy::let_and_return)]` on by default\nfor further information visit https://rust-lang.github.io/rust-clippy/master/index.html#let_and_return"
    );
    let related = m.diagnostic.related_information.as_ref().unwrap();
    assert_eq!(related.len(), 1);
    assert_eq!(related[0].message, "unnecessary let binding");
    // Both machine-applicable replacements group under the one file,
    // in encounter order.
    assert_eq!(m.fixes.len(), 1);
    let fix = &m.fixes[0];
    assert_eq!(fix.title, "return the expression directly");
    assert_eq!(fix.changes.len(), 1);
    assert_eq!(fix.changes[0].uri, "file:///test/src/main.rs");
    assert_eq!(fix.changes[0].edits.len(), 2);
    assert_eq!(fix.changes[0].edits[0].new_text, "");
    assert_eq!(fix.changes[0].edits[0].range.start.line, 2);
    assert_eq!(fix.changes[0].edits[0].range.end.character, 30);
    assert_eq!(fix.changes[0].edits[1].new_text, "(0..10).collect()");
    assert_eq!(fix.changes[0].edits[1].range.start.line, 3);
}

#[test]
fn no_primary_spans_yields_empty_output() {
    let mut secondary = span("src/lib.rs", 1, 1, 1, 2, false);
    secondary.label = Some("here".to_string());
    let rd = diag("orphan note", None, DiagnosticLevel::Note, vec![secondary], vec![]);
    let out = map_rust_diagnostic_to_lsp(&rd, "/test/").unwrap();
    assert!(out.is_empty());
}

#[test]
fn one_diagnostic_per_primary_span_with_shared_content() {
    let mut first = span("src/a.rs", 10, 1, 10, 5, true);
    first.label = Some("first label".to_string());
    let second = span("src/b.rs", 20, 3, 20, 7, true);
    let rd = diag(
        "two places at once",
        Some("E0999"),
        DiagnosticLevel::Warning,
        vec![first, second],
        vec![],
    );
    let out = map_rust_diagnostic_to_lsp(&rd, "/test/").unwrap();
    assert_eq!(out.len(), 2);
    assert_eq!(out[0].location.uri, "file:///test/src/a.rs");
    assert_eq!(out[1].location.uri, "file:///test/src/b.rs");
    assert_eq!(out[0].diagnostic.severity, out[1].diagnostic.severity);
    assert_eq!(out[0].diagnostic.code, out[1].diagnostic.code);
    assert_eq!(out[0].diagnostic.source, out[1].diagnostic.source);
    assert_eq!(out[0].diagnostic.message, "two places at once\nfirst label");
    assert_eq!(out[1].diagnostic.message, "two places at once");
}

#[test]
fn deprecated_code_gets_tag_and_keeps_severity() {
    let primary = span("src/lib.rs", 5, 1, 5, 4, true);
    let rd = diag(
        "use of deprecated item",
        Some("deprecated"),
        DiagnosticLevel::Warning,
        vec![primary],
        vec![],
    );
    let out = map_rust_diagnostic_to_lsp(&rd, "/test/").unwrap();
    assert_eq!(out.len(), 1);
    assert_eq!(out[0].diagnostic.severity, Some(DiagnosticSeverity::Warning));
    assert_eq!(out[0].diagnostic.tags.as_deref(), Some(&[DiagnosticTag::Deprecated][..]));
}

#[test]
fn unused_code_forced_to_hint_from_error_level() {
    let primary = span("src/lib.rs", 5, 1, 5, 4, true);
    let rd = diag(
        "unreachable code",
        Some("unreachable_code"),
        DiagnosticLevel::Error,
        vec![primary],
        vec![],
    );
    let out = map_rust_diagnostic_to_lsp(&rd, "/test/").unwrap();
    assert_eq!(out[0].diagnostic.severity, Some(DiagnosticSeverity::Hint));
    assert_eq!(out[0].diagnostic.tags.as_deref(), Some(&[DiagnosticTag::Unnecessary][..]));
}

#[test]
fn deep_macro_chain_resolves_to_real_file() {
    let real = span("src/real.rs", 9, 2, 9, 8, false);
    let mut inner_frame = span("<inner macros>", 3, 1, 3, 5, false);
    inner_frame.expansion = Some(Box::new(DiagnosticSpanMacroExpansion {
        span: real,
        macro_decl_name: "inner!".to_string(),
        def_site_span: None,
    }));
    let mut primary = span("<outer macros>", 1, 1, 1, 4, true);
    primary.expansion = Some(Box::new(DiagnosticSpanMacroExpansion {
        span: inner_frame,
        macro_decl_name: "outer!".to_string(),
        def_site_span: None,
    }));
    let rd = diag("macro trouble", None, DiagnosticLevel::Error, vec![primary], vec![]);
    let out = map_rust_diagnostic_to_lsp(&rd, "/test/").unwrap();
    assert_eq!(out.len(), 1);
    assert_eq!(out[0].location.uri, "file:///test/src/real.rs");
    assert_eq!(out[0].location.range.start.line, 8);
    assert_eq!(out[0].location.range.start.character, 1);
}

#[test]
fn chain_resolves_past_a_real_frame_with_its_own_expansion() {
    let innermost = span("src/user.rs", 30, 2, 30, 9, false);
    let mut middle = span("src/macros.rs", 12, 1, 12, 20, false);
    middle.expansion = Some(Box::new(DiagnosticSpanMacroExpansion {
        span: innermost,
        macro_decl_name: "inner!".to_string(),
        def_site_span: None,
    }));
    let mut primary = span("<generated macros>", 5, 1, 5, 10, true);
    primary.expansion = Some(Box::new(DiagnosticSpanMacroExpansion {
        span: middle,
        macro_decl_name: "outer!".to_string(),
        def_site_span: None,
    }));
    let rd = diag("nested macros", None, DiagnosticLevel::Error, vec![primary], vec![]);
    let out = map_rust_diagnostic_to_lsp(&rd, "/test/").unwrap();
    assert_eq!(out.len(), 1);
    // The middle frame lies in a real file yet carries its own
    // expansion: the innermost call site wins.
    assert_eq!(out[0].location.uri, "file:///test/src/user.rs");
    assert_eq!(out[0].location.range.start.line, 29);
    assert_eq!(out[0].location.range.start.character, 1);
}

#[test]
fn relative_workspace_root_is_unrepresentable() {
    let primary = span("src/lib.rs", 1, 1, 1, 2, true);
    let rd = diag("broken", None, DiagnosticLevel::Error, vec![primary], vec![]);
    let out = map_rust_diagnostic_to_lsp(&rd, "not-absolute");
    assert_eq!(out.unwrap_err(), MapError::UnrepresentablePath);
}

#[test]
fn level_maps_to_severity_and_unknown_to_none() {
    for (level, severity) in [
        (DiagnosticLevel::Ice, Some(DiagnosticSeverity::Error)),
        (DiagnosticLevel::Error, Some(DiagnosticSeverity::Error)),
        (DiagnosticLevel::Warning, Some(DiagnosticSeverity::Warning)),
        (DiagnosticLevel::Note, Some(DiagnosticSeverity::Information)),
        (DiagnosticLevel::Help, Some(DiagnosticSeverity::Hint)),
        (DiagnosticLevel::Unknown, None),
    ] {
        let primary = span("src/lib.rs", 1, 1, 1, 2, true);
        let rd = diag("m", None, level, vec![primary], vec![]);
        let out = map_rust_diagnostic_to_lsp(&rd, "/test/").unwrap();
        assert_eq!(out[0].diagnostic.severity, severity);
    }
}

#[test]
fn scoped_code_splits_only_on_a_single_separator() {
    let (source, code) = split_scoped_code("clippy::trivially_copy_pass_by_ref").unwrap();
    assert_eq!(source, "clippy");
    assert_eq!(code, "trivially_copy_pass_by_ref");
    assert!(split_scoped_code("E0308").is_none());
    assert!(split_scoped_code("a::b::c").is_none());
}
