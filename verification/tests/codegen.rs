use diag_to_proto::codegen::{decide_update, do_extract_comment_blocks, extract_comment_blocks,
    extract_comment_blocks_with_empty_lines, normalize_newlines,
    try_extract_comment_blocks_with_empty_lines, Location, Mode, UpdatePlan};

#[test]
fn normalize_newlines_rewrites_crlf_only() {
    assert_eq!(normalize_newlines("a\r\nb\nc\rd"), "a\nb\nc\rd");
    assert_eq!(normalize_newlines(""), "");
}

#[test]
fn decide_update_keeps_equal_contents_up_to_line_endings() {
    let on_disk = Some("a\r\nb".to_string());
    assert_eq!(decide_update(&on_disk, "a\nb", Mode::Verify), UpdatePlan::Keep);
    assert_eq!(decide_update(&on_disk, "a\nb", Mode::Overwrite), UpdatePlan::Keep);
    assert_eq!(decide_update(&on_disk, "a\nc", Mode::Verify), UpdatePlan::Reject);
    assert_eq!(decide_update(&on_disk, "a\nc", Mode::Overwrite), UpdatePlan::Write);
    assert_eq!(decide_update(&None, "x", Mode::Verify), UpdatePlan::Reject);
    assert_eq!(decide_update(&None, "x", Mode::Overwrite), UpdatePlan::Write);
}

#[test]
fn comment_blocks_group_consecutive_comment_lines() {
    let text = "fn f() {}\n// first block line one\n// first block line two\nfn g() {}\n  // second block\n";
    let blocks = do_extract_comment_blocks(text, false);
    assert_eq!(blocks.len(), 2);
    assert_eq!(blocks[0].0, 2);
    assert_eq!(blocks[0].1, vec!["first block line one", "first block line two"]);
    assert_eq!(blocks[1].0, 5);
    assert_eq!(blocks[1].1, vec!["second block"]);

    let plain = extract_comment_blocks(text);
    assert_eq!(plain.len(), 2);
    assert_eq!(plain[0], vec!["first block line one", "first block line two"]);
}

#[test]
fn comment_blocks_keep_empty_lines_only_when_asked() {
    let text = "// a\n//\n// b\n";
    let without = do_extract_comment_blocks(text, false);
    assert_eq!(without.len(), 2);
    let with = do_extract_comment_blocks(text, true);
    assert_eq!(with.len(), 1);
    assert_eq!(with[0].1, vec!["a", "", "b"]);
}

#[test]
fn tagged_blocks_pick_up_the_tag_line() {
    let text = "x\n// Feature: widgets\n// explains widgets\n\n// untagged\n";
    let blocks = extract_comment_blocks_with_empty_lines("Feature", text);
    assert_eq!(blocks.len(), 1);
    assert_eq!(blocks[0].id, "widgets");
    assert_eq!(blocks[0].line, 2);
    assert_eq!(blocks[0].contents, vec!["explains widgets"]);
}

#[test]
fn try_tagged_blocks_rejects_a_lowercase_or_empty_tag() {
    assert!(try_extract_comment_blocks_with_empty_lines("feature", "// x\n").is_none());
    assert!(try_extract_comment_blocks_with_empty_lines("", "// x\n").is_none());
    let ok = try_extract_comment_blocks_with_empty_lines("Assist", "// Assist: go\n// body\n");
    assert_eq!(ok.unwrap().len(), 1);
}

#[test]
fn location_renders_as_repository_link() {
    let loc = Location::new("/proj/crates/ra_assists/src/lib.rs".to_string(), 42);
    assert_eq!(
        loc.display_string("/proj"),
        "https://github.com/rust-analyzer/rust-analyzer/blob/master/crates/ra_assists/src/lib.rs#L42[lib.rs]"
    );
}

#[test]
fn location_link_ignores_trailing_slashes_in_the_name() {
    let loc = Location::new("/proj/sub/dir/".to_string(), 3);
    assert_eq!(
        loc.display_string("/proj"),
        "https://github.com/rust-analyzer/rust-analyzer/blob/master/sub/dir/#L3[dir]"
    );
}

#[test]
fn location_link_turns_backslashes_into_slashes() {
    let loc = Location::new("/proj/a\\b.rs".to_string(), 7);
    assert_eq!(
        loc.display_string("/proj/"),
        "https://github.com/rust-analyzer/rust-analyzer/blob/master/a/b.rs#L7[a\\b.rs]"
    );
}
