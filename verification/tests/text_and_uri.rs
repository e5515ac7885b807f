use diag_to_proto::text::{join_path, lower_ascii, replace_char, split_lines, trim, trim_start,
    u64_to_dec};
use diag_to_proto::uri::{lower_drive_url, url_from_path_with_drive_lowercasing, MapError};

#[test]
fn url_built_from_an_absolute_path() {
    let url = url_from_path_with_drive_lowercasing("/test/compiler/lib.rs").unwrap();
    assert_eq!(url, "file:///test/compiler/lib.rs");
}

#[test]
fn url_escapes_characters_the_scheme_reserves() {
    let url = url_from_path_with_drive_lowercasing("/test/a b.rs").unwrap();
    assert_eq!(url, "file:///test/a%20b.rs");
}

#[test]
fn relative_path_is_unrepresentable() {
    assert_eq!(
        url_from_path_with_drive_lowercasing("relative/p.rs").unwrap_err(),
        MapError::UnrepresentablePath
    );
}

#[test]
fn drive_path_is_unrepresentable_on_this_platform() {
    // A drive-letter path is not absolute here, so the file-URL
    // conversion itself refuses it.
    assert_eq!(
        url_from_path_with_drive_lowercasing("C:\\Test").unwrap_err(),
        MapError::UnrepresentablePath
    );
}

#[test]
fn drive_lowercasing_touches_only_the_part_before_the_last_colon() {
    assert_eq!(lower_drive_url("file:///C:/Test"), "file:///c:/Test");
    assert_eq!(lower_drive_url("no-colon-here"), "no-colon-here");
}

#[test]
fn join_path_behaves_like_a_path_push() {
    assert_eq!(join_path("/test/", "src/main.rs"), "/test/src/main.rs");
    assert_eq!(join_path("/test", "src/main.rs"), "/test/src/main.rs");
    assert_eq!(join_path("/test", "/absolute.rs"), "/absolute.rs");
    assert_eq!(join_path("", "x.rs"), "x.rs");
}

#[test]
fn text_utilities() {
    assert_eq!(lower_ascii("File:///C:/Ü"), "file:///c:/Ü");
    assert_eq!(replace_char("a\\b\\c", '\\', '/'), "a/b/c");
    assert_eq!(trim_start("  \tx "), "x ");
    assert_eq!(trim(" \u{a0} x \u{2003} "), "x");
    assert_eq!(u64_to_dec(0), "0");
    assert_eq!(u64_to_dec(90210), "90210");
    assert_eq!(split_lines("a\r\nb\nc"), vec!["a", "b", "c"]);
    assert_eq!(split_lines("a\n"), vec!["a"]);
    assert_eq!(split_lines(""), Vec::<String>::new());
}
