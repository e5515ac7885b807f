//! The URI normalizer: builds a canonical file reference from an
//! absolute filesystem path, lower-casing a drive-letter prefix where
//! one is present.

use vstd::prelude::*;
use crate::text::{lower_ascii, rfind_char, spec_lower, spec_rfind};

verus! {

/// Translation fails with this condition when a location's path cannot
/// be expressed as a file reference.
#[derive(Clone, Copy, Debug, PartialEq, Eq, Structural)]
pub enum MapError {
    UnrepresentablePath,
}

pub open spec fn spec_path_absolute(p: Seq<char>) -> bool {
    p.len() > 0 && p[0] == '/'
}

/// The file URL that the `url` crate serializes for a path; a function
/// of the path text alone.
pub uninterp spec fn file_url_of(path: Seq<char>) -> Seq<char>;

/// Relies on `lsp_types::Url::from_file_path` and the `Display`
/// serialization of `Url` (both of the `url` crate): on this platform
/// the conversion succeeds exactly on absolute paths, and the URL text
/// is a function of the path text alone.
#[verifier::external_body]
fn url_string_from_file_path(path: &str) -> (r: Option<String>)
    ensures
        r is Some <==> spec_path_absolute(path@),
        r matches Some(u) ==> u@ == file_url_of(path@),
{
    match lsp_types::Url::from_file_path(path) {
        Ok(u) => Some(u.to_string()),
        Err(_) => None,
    }
}

pub open spec fn spec_is_ascii_alpha(c: char) -> bool {
    let u = c as u32;
    (0x41 <= u && u <= 0x5A) || (0x61 <= u && u <= 0x7A)
}

fn is_ascii_alpha(c: char) -> (r: bool)
    ensures
        r == spec_is_ascii_alpha(c),
{
    let u = c as u32;
    (0x41 <= u && u <= 0x5A) || (0x61 <= u && u <= 0x7A)
}

/// A drive-letter volume component: `X:` at the start of the path, or
/// after a verbatim prefix `\\?\`.
pub open spec fn spec_has_drive_prefix(p: Seq<char>) -> bool {
    ||| (p.len() >= 2 && spec_is_ascii_alpha(p[0]) && p[1] == ':')
    ||| (p.len() >= 6 && p[0] == '\\' && p[1] == '\\' && p[2] == '?' && p[3] == '\\'
        && spec_is_ascii_alpha(p[4]) && p[5] == ':')
}

pub fn has_drive_prefix(p: &str) -> (r: bool)
    ensures
        r == spec_has_drive_prefix(p@),
{
    let n = p.unicode_len();
    if n >= 2 && is_ascii_alpha(p.get_char(0)) && p.get_char(1) == ':' {
        return true;
    }
    n >= 6 && p.get_char(0) == '\\' && p.get_char(1) == '\\' && p.get_char(2) == '?' && p.get_char(
        3,
    ) == '\\' && is_ascii_alpha(p.get_char(4)) && p.get_char(5) == ':'
}

/// The drive-letter normalization applied to a serialized URL: the part
/// before the last colon is ASCII lower-cased; with no colon the text
/// passes through unchanged.
pub open spec fn spec_lower_drive_url(u: Seq<char>) -> Seq<char> {
    match spec_rfind(u, ':') {
        None => u,
        Some(i) => spec_lower(u.take(i)) + seq![':'] + u.skip(i + 1),
    }
}

pub fn lower_drive_url(u: &str) -> (r: String)
    ensures
        r@ == spec_lower_drive_url(u@),
{
    let n = u.unicode_len();
    match rfind_char(u, ':') {
        None => u.to_owned(),
        Some(i) => {
            proof {
                reveal_strlit(":");
                assert(":"@ =~= seq![':']);
                assert(u@.subrange(0, i as int) =~= u@.take(i as int));
                assert(u@.subrange(i as int + 1, n as int) =~= u@.skip(i as int + 1));
            }
            let head = lower_ascii(u.substring_char(0, i));
            let tail = u.substring_char(i + 1, n);
            let r = head.concat(":").concat(tail);
            proof {
                assert(r@ =~= spec_lower(u@.take(i as int)) + seq![':'] + u@.skip(i as int + 1));
            }
            r
        },
    }
}

/// The canonical file reference of a path: its file URL, with the
/// drive-letter prefix lower-cased when the path carries one; absent
/// when the path cannot be represented as a file URL.
pub open spec fn spec_file_ref(path: Seq<char>) -> Result<Seq<char>, MapError> {
    if !spec_path_absolute(path) {
        Err(MapError::UnrepresentablePath)
    } else if spec_has_drive_prefix(path) {
        Ok(spec_lower_drive_url(file_url_of(path)))
    } else {
        Ok(file_url_of(path))
    }
}

/// Builds a file reference from a path, lower-casing a drive letter
/// where the path contains a drive-letter volume component.
pub fn url_from_path_with_drive_lowercasing(path: &str) -> (r: Result<String, MapError>)
    ensures
        r matches Ok(u) ==> spec_file_ref(path@) == Ok::<Seq<char>, MapError>(u@),
        r matches Err(e) ==> spec_file_ref(path@) == Err::<Seq<char>, MapError>(e),
{
    let component_has_windows_drive = has_drive_prefix(path);
    match url_string_from_file_path(path) {
        None => Err(MapError::UnrepresentablePath),
        Some(u) => {
            if component_has_windows_drive {
                Ok(lower_drive_url(u.as_str()))
            } else {
                Ok(u)
            }
        },
    }
}

} // verus!
