//! Helpers for source generation: deciding whether a generated file on
//! disk needs rewriting, extracting comment blocks from source text,
//! and rendering source locations as links.

use vstd::prelude::*;
use crate::text::{replace_char, rfind_char, split_lines, spec_dec, spec_lines, spec_replace_char,
    spec_rfind, spec_starts_with, spec_trim, spec_trim_start, starts_with, str_eq, trim,
    trim_start, push_char, u64_to_dec};

verus! {

#[derive(Debug, PartialEq, Eq, Clone, Copy, Structural)]
pub enum Mode {
    Overwrite,
    Verify,
}

// --- deciding what to do with a generated file ---

/// Line endings normalized: each `"\r\n"` replaced by `"\n"`, leftmost
/// first.
pub open spec fn spec_normalize_newlines(s: Seq<char>) -> Seq<char>
    decreases s.len(),
{
    if s.len() == 0 {
        Seq::empty()
    } else if s.len() >= 2 && s[0] == '\r' && s[1] == '\n' {
        seq!['\n'] + spec_normalize_newlines(s.skip(2))
    } else {
        seq![s[0]] + spec_normalize_newlines(s.skip(1))
    }
}

pub fn normalize_newlines(s: &str) -> (r: String)
    ensures
        r@ == spec_normalize_newlines(s@),
{
    let n = s.unicode_len();
    let mut r = String::new();
    let mut i: usize = 0;
    proof {
        assert(s@.skip(0) =~= s@);
        assert(Seq::<char>::empty() + spec_normalize_newlines(s@) =~= spec_normalize_newlines(s@));
    }
    while i < n
        invariant
            i <= n,
            n == s@.len(),
            spec_normalize_newlines(s@) == r@ + spec_normalize_newlines(s@.skip(i as int)),
        decreases n - i,
    {
        let c = s.get_char(i);
        proof {
            assert(s@.skip(i as int)[0] == s@[i as int]);
            assert(s@.skip(i as int).skip(1) =~= s@.skip(i as int + 1));
        }
        if c == '\r' && i + 1 < n && s.get_char(i + 1) == '\n' {
            proof {
                assert(s@.skip(i as int)[1] == s@[i as int + 1]);
                assert(s@.skip(i as int).skip(2) =~= s@.skip(i as int + 2));
                assert((r@ + seq!['\n']) + spec_normalize_newlines(s@.skip(i as int + 2)) =~= r@ + (
                seq!['\n'] + spec_normalize_newlines(s@.skip(i as int + 2))));
            }
            push_char(&mut r, '\n');
            i = i + 2;
        } else {
            proof {
                assert((r@ + seq![s@[i as int]]) + spec_normalize_newlines(
                    s@.skip(i as int + 1),
                ) =~= r@ + (seq![s@[i as int]] + spec_normalize_newlines(s@.skip(i as int + 1))));
            }
            push_char(&mut r, c);
            i = i + 1;
        }
    }
    proof {
        assert(s@.skip(n as int) =~= Seq::<char>::empty());
        assert(r@ + Seq::<char>::empty() =~= r@);
    }
    r
}

/// What an update of a generated file should do on disk.
#[derive(Debug, PartialEq, Eq, Clone, Copy, Structural)]
pub enum UpdatePlan {
    /// The file already holds the contents, up to line endings.
    Keep,
    /// The file is stale and the mode only verifies: report it.
    Reject,
    /// Write the new contents.
    Write,
}

pub open spec fn spec_update_plan(
    old_contents: Option<Seq<char>>,
    contents: Seq<char>,
    mode: Mode,
) -> UpdatePlan {
    if (old_contents matches Some(t) && spec_normalize_newlines(t) == spec_normalize_newlines(
        contents,
    )) {
        UpdatePlan::Keep
    } else if mode == Mode::Verify {
        UpdatePlan::Reject
    } else {
        UpdatePlan::Write
    }
}

/// Decides whether a generated file needs rewriting, from what is on
/// disk (`None` when it could not be read), the new contents and the
/// mode.
pub fn decide_update(old_contents: &Option<String>, contents: &str, mode: Mode) -> (r: UpdatePlan)
    ensures
        r == spec_update_plan(
            match *old_contents {
                Some(ref t) => Some(t@),
                None => None,
            },
            contents@,
            mode,
        ),
{
    match old_contents {
        Some(t) => {
            let a = normalize_newlines(t.as_str());
            let b = normalize_newlines(contents);
            if str_eq(a.as_str(), b.as_str()) {
                return UpdatePlan::Keep;
            }
        },
        None => {},
    }
    if mode == Mode::Verify {
        UpdatePlan::Reject
    } else {
        UpdatePlan::Write
    }
}

// --- comment blocks ---

pub open spec fn blocks_view(v: Seq<(usize, Vec<String>)>) -> Seq<(int, Seq<Seq<char>>)> {
    v.map_values(|p: (usize, Vec<String>)| (p.0 as int, p.1.deep_view()))
}

/// The comment blocks of a text, walked line by line: maximal runs of
/// lines that start, once trimmed, with `"// "` (their content is what
/// follows), with `"//"` lines kept as empty lines when asked; each
/// block is paired with the line number the surrounding scan attaches
/// to it.
pub open spec fn spec_comment_blocks(
    lines: Seq<Seq<char>>,
    i: int,
    start: int,
    cur: Seq<Seq<char>>,
    allow_empty: bool,
) -> Seq<(int, Seq<Seq<char>>)>
    decreases lines.len() - i,
{
    if !(0 <= i < lines.len()) {
        if cur.len() > 0 {
            seq![(start, cur)]
        } else {
            Seq::empty()
        }
    } else {
        let tl = spec_trim_start(lines[i]);
        if tl == "//"@ && allow_empty {
            spec_comment_blocks(lines, i + 1, start, cur.push(Seq::empty()), allow_empty)
        } else if spec_starts_with(tl, "// "@) {
            spec_comment_blocks(lines, i + 1, start, cur.push(tl.skip(3)), allow_empty)
        } else {
            (if cur.len() > 0 {
                seq![(start, cur)]
            } else {
                Seq::empty()
            }) + spec_comment_blocks(lines, i + 1, i + 2, Seq::empty(), allow_empty)
        }
    }
}

/// Every block the scan produces has at least one line.
proof fn lemma_comment_blocks_nonempty(
    lines: Seq<Seq<char>>,
    i: int,
    start: int,
    cur: Seq<Seq<char>>,
    allow_empty: bool,
)
    ensures
        forall|k: int|
            0 <= k < spec_comment_blocks(lines, i, start, cur, allow_empty).len() ==> (
            #[trigger] spec_comment_blocks(lines, i, start, cur, allow_empty)[k]).1.len() > 0,
    decreases lines.len() - i,
{
    let full = spec_comment_blocks(lines, i, start, cur, allow_empty);
    if 0 <= i < lines.len() {
        let tl = spec_trim_start(lines[i]);
        if tl == "//"@ && allow_empty {
            let nxt = spec_comment_blocks(lines, i + 1, start, cur.push(Seq::empty()), allow_empty);
            lemma_comment_blocks_nonempty(lines, i + 1, start, cur.push(Seq::empty()), allow_empty);
            assert forall|k: int| 0 <= k < full.len() implies (#[trigger] full[k]).1.len() > 0 by {
                assert(full[k] == nxt[k]);
            }
        } else if spec_starts_with(tl, "// "@) {
            let nxt = spec_comment_blocks(lines, i + 1, start, cur.push(tl.skip(3)), allow_empty);
            lemma_comment_blocks_nonempty(lines, i + 1, start, cur.push(tl.skip(3)), allow_empty);
            assert forall|k: int| 0 <= k < full.len() implies (#[trigger] full[k]).1.len() > 0 by {
                assert(full[k] == nxt[k]);
            }
        } else {
            lemma_comment_blocks_nonempty(lines, i + 1, i + 2, Seq::empty(), allow_empty);
            let here = (if cur.len() > 0 {
                seq![(start, cur)]
            } else {
                Seq::<(int, Seq<Seq<char>>)>::empty()
            });
            let rest = spec_comment_blocks(lines, i + 1, i + 2, Seq::empty(), allow_empty);
            assert forall|k: int| 0 <= k < full.len() implies (#[trigger] full[k]).1.len() > 0 by {
                if k >= here.len() {
                    assert(full[k] == rest[k - here.len()]);
                } else {
                    assert(full[k] == here[k]);
                }
            }
        }
    }
}

/// Extracts the comment blocks of a text, each with its attached line
/// number; `allow_blocks_with_empty_lines` keeps bare `"//"` lines as
/// empty lines inside a block.
pub fn do_extract_comment_blocks(
    text: &str,
    allow_blocks_with_empty_lines: bool,
) -> (res: Vec<(usize, Vec<String>)>)
    requires
        text@.len() + 2 < usize::MAX,
    ensures
        blocks_view(res@) == spec_comment_blocks(
            spec_lines(text@),
            0,
            0,
            Seq::empty(),
            allow_blocks_with_empty_lines,
        ),
{
    let lines = split_lines(text);
    let n = lines.len();
    let ghost lv = spec_lines(text@);
    let mut res: Vec<(usize, Vec<String>)> = Vec::new();
    let mut start: usize = 0;
    let mut cur: Vec<String> = Vec::new();
    let mut i: usize = 0;
    proof {
        assert(blocks_view(res@) =~= Seq::<(int, Seq<Seq<char>>)>::empty());
        assert(Seq::<(int, Seq<Seq<char>>)>::empty() + spec_comment_blocks(
            lv,
            0,
            0,
            Seq::empty(),
            allow_blocks_with_empty_lines,
        ) =~= spec_comment_blocks(lv, 0, 0, Seq::empty(), allow_blocks_with_empty_lines));
        assert(cur.deep_view() =~= Seq::<Seq<char>>::empty());
    }
    while i < n
        invariant
            i <= n,
            n == lv.len(),
            n <= text@.len(),
            text@.len() + 2 < usize::MAX,
            lines.deep_view() == lv,
            spec_comment_blocks(lv, 0, 0, Seq::empty(), allow_blocks_with_empty_lines)
                == blocks_view(res@) + spec_comment_blocks(
                lv,
                i as int,
                start as int,
                cur.deep_view(),
                allow_blocks_with_empty_lines,
            ),
        decreases n - i,
    {
        let ghost pre_cur = cur.deep_view();
        proof {
            assert(lines.deep_view()[i as int] == lines@[i as int].deep_view());
        }
        let line = trim_start(lines[i].as_str());
        proof {
            reveal_strlit("//");
            reveal_strlit("// ");
            assert("// "@.len() == 3);
        }
        if allow_blocks_with_empty_lines && str_eq(line, "//") {
            cur.push(String::new());
            proof {
                assert(cur.deep_view() =~= pre_cur.push(Seq::<char>::empty()));
            }
        } else if starts_with(line, "// ") {
            let nl = line.unicode_len();
            let content = line.substring_char(3, nl).to_owned();
            proof {
                assert(content@ =~= spec_trim_start(lv[i as int]).skip(3));
            }
            cur.push(content);
            proof {
                assert(cur.deep_view() =~= pre_cur.push(spec_trim_start(lv[i as int]).skip(3)));
            }
        } else {
            if cur.len() > 0 {
                let ghost pre_res = blocks_view(res@);
                let done = cur;
                cur = Vec::new();
                res.push((start, done));
                proof {
                    assert(cur.deep_view() =~= Seq::<Seq<char>>::empty());
                    assert(blocks_view(res@) =~= pre_res.push(
                        (start as int, pre_cur),
                    ));
                    assert(pre_res + (seq![(start as int, pre_cur)] + spec_comment_blocks(
                        lv,
                        i as int + 1,
                        i as int + 2,
                        Seq::empty(),
                        allow_blocks_with_empty_lines,
                    )) =~= (pre_res + seq![(start as int, pre_cur)]) + spec_comment_blocks(
                        lv,
                        i as int + 1,
                        i as int + 2,
                        Seq::empty(),
                        allow_blocks_with_empty_lines,
                    ));
                }
            } else {
                proof {
                    assert(cur.deep_view() =~= Seq::<Seq<char>>::empty());
                    assert(Seq::<(int, Seq<Seq<char>>)>::empty() + spec_comment_blocks(
                        lv,
                        i as int + 1,
                        i as int + 2,
                        Seq::empty(),
                        allow_blocks_with_empty_lines,
                    ) =~= spec_comment_blocks(
                        lv,
                        i as int + 1,
                        i as int + 2,
                        Seq::empty(),
                        allow_blocks_with_empty_lines,
                    ));
                }
            }
            start = i + 2;
        }
        i = i + 1;
    }
    if cur.len() > 0 {
        let ghost pre_res = blocks_view(res@);
        let ghost pre_cur = cur.deep_view();
        res.push((start, cur));
        proof {
            assert(blocks_view(res@) =~= pre_res.push((start as int, pre_cur)));
            assert(pre_res + seq![(start as int, pre_cur)] =~= blocks_view(res@));
        }
    } else {
        proof {
            assert(blocks_view(res@) + Seq::<(int, Seq<Seq<char>>)>::empty() =~= blocks_view(
                res@,
            ));
        }
    }
    res
}

/// Extracts the comment blocks of a text, without line numbers and
/// without empty lines inside blocks.
pub fn extract_comment_blocks(text: &str) -> (res: Vec<Vec<String>>)
    requires
        text@.len() + 2 < usize::MAX,
    ensures
        res.deep_view() == spec_comment_blocks(
            spec_lines(text@),
            0,
            0,
            Seq::empty(),
            false,
        ).map_values(|p: (int, Seq<Seq<char>>)| p.1),
{
    let mut v = do_extract_comment_blocks(text, false);
    let ghost total = spec_comment_blocks(spec_lines(text@), 0, 0, Seq::empty(), false);
    let mut res: Vec<Vec<String>> = Vec::new();
    proof {
        assert(res.deep_view() =~= Seq::<Seq<Seq<char>>>::empty());
        assert(blocks_view(v@) =~= total);
    }
    while v.len() > 0
        invariant
            res.deep_view() + blocks_view(v@).map_values(|p: (int, Seq<Seq<char>>)| p.1)
                =~= total.map_values(|p: (int, Seq<Seq<char>>)| p.1),
        decreases v.len(),
    {
        let ghost pre_v = blocks_view(v@);
        let ghost pre_res = res.deep_view();
        let p = v.remove(0);
        res.push(p.1);
        proof {
            assert(res.deep_view() =~= pre_res.push(pre_v[0].1));
            assert(blocks_view(v@) =~= pre_v.skip(1));
            assert(pre_res + pre_v.map_values(|p: (int, Seq<Seq<char>>)| p.1) =~= (pre_res.push(
                pre_v[0].1,
            )) + pre_v.skip(1).map_values(|p: (int, Seq<Seq<char>>)| p.1));
        }
    }
    proof {
        assert(blocks_view(v@).map_values(|p: (int, Seq<Seq<char>>)| p.1) =~= Seq::<
            Seq<Seq<char>>,
        >::empty());
        assert(res.deep_view() + Seq::<Seq<Seq<char>>>::empty() =~= res.deep_view());
    }
    res
}

// --- tagged comment blocks ---

/// A comment block introduced by a `Tag:` line: the identifier after
/// the tag, the attached line number, and the remaining lines.
#[derive(Debug)]
pub struct CommentBlock {
    pub id: String,
    pub line: usize,
    pub contents: Vec<String>,
}

#[verifier::ext_equal]
pub struct CommentBlockV {
    pub id: Seq<char>,
    pub line: int,
    pub contents: Seq<Seq<char>>,
}

impl View for CommentBlock {
    type V = CommentBlockV;

    open spec fn view(&self) -> CommentBlockV {
        CommentBlockV {
            id: self.id@,
            line: self.line as int,
            contents: self.contents.deep_view(),
        }
    }
}

/// The blocks whose first line starts with `tag` followed by a colon,
/// keeping the trimmed rest of that line as the identifier and the
/// remaining lines as contents.
pub open spec fn spec_tagged_blocks(
    tag: Seq<char>,
    blocks: Seq<(int, Seq<Seq<char>>)>,
) -> Seq<CommentBlockV>
    decreases blocks.len(),
{
    if blocks.len() == 0 {
        Seq::empty()
    } else {
        let pre = spec_tagged_blocks(tag, blocks.drop_last());
        let b = blocks.last();
        if b.1.len() > 0 && spec_starts_with(b.1[0], tag + seq![':']) {
            pre.push(
                CommentBlockV {
                    id: spec_trim(b.1[0].skip(tag.len() as int + 1)),
                    line: b.0,
                    contents: b.1.skip(1),
                },
            )
        } else {
            pre
        }
    }
}

/// Whether the character has the Uppercase Unicode property; a function
/// of the character alone.
pub uninterp spec fn uppercase_of(c: char) -> bool;

/// Relies on std's `char::is_uppercase`.
#[verifier::external_body]
fn char_is_uppercase(c: char) -> (r: bool)
    ensures
        r == uppercase_of(c),
{
    c.is_uppercase()
}

/// Extracts the comment blocks introduced by a `Tag:` first line.  The
/// tag must begin with an uppercase letter.
pub fn extract_comment_blocks_with_empty_lines(tag: &str, text: &str) -> (res: Vec<CommentBlock>)
    requires
        text@.len() + 2 < usize::MAX,
        tag@.len() > 0,
        uppercase_of(tag@[0]),
    ensures
        res@.map_values(|b: CommentBlock| b@) == spec_tagged_blocks(
            tag@,
            spec_comment_blocks(spec_lines(text@), 0, 0, Seq::empty(), true),
        ),
{
    let ghost all = spec_comment_blocks(spec_lines(text@), 0, 0, Seq::empty(), true);
    proof {
        lemma_comment_blocks_nonempty(spec_lines(text@), 0, 0, Seq::empty(), true);
        reveal_strlit(":");
        assert(":"@ =~= seq![':']);
    }
    let tag_colon = tag.to_owned().concat(":");
    proof {
        assert(tag_colon@ =~= tag@ + seq![':']);
    }
    let tag_len = tag.unicode_len();
    let mut v = do_extract_comment_blocks(text, true);
    let n = v.len();
    let mut res: Vec<CommentBlock> = Vec::new();
    let mut i: usize = 0;
    proof {
        assert(blocks_view(v@) =~= all);
        assert(res@.map_values(|b: CommentBlock| b@) =~= Seq::<CommentBlockV>::empty());
        assert(all.take(0) =~= Seq::<(int, Seq<Seq<char>>)>::empty());
    }
    while i < n
        invariant
            i <= n,
            n == v@.len(),
            blocks_view(v@) == all,
            tag_colon@ == tag@ + seq![':'],
            tag_len == tag@.len(),
            forall|k: int| 0 <= k < all.len() ==> (#[trigger] all[k]).1.len() > 0,
            res@.map_values(|b: CommentBlock| b@) == spec_tagged_blocks(tag@, all.take(i as int)),
        decreases n - i,
    {
        proof {
            assert(all.take(i as int + 1).drop_last() =~= all.take(i as int));
            assert(all.take(i as int + 1).last() == all[i as int]);
            assert(all[i as int] == blocks_view(v@)[i as int]);
            assert(v@[i as int].1.deep_view().len() > 0);
        }
        let line = v[i].0;
        let first = &v[i].1[0];
        proof {
            assert(v@[i as int].1.deep_view()[0] == v@[i as int].1@[0].deep_view());
        }
        if starts_with(first.as_str(), tag_colon.as_str()) {
            let nf = first.unicode_len();
            let id_raw = first.as_str().substring_char(tag_len + 1, nf);
            proof {
                assert(first@.subrange(tag_len as int + 1, nf as int) =~= first@.skip(
                    tag_len as int + 1,
                ));
            }
            let id = trim(id_raw).to_owned();
            let mut contents: Vec<String> = Vec::new();
            let m = v[i].1.len();
            let mut j: usize = 1;
            while j < m
                invariant
                    1 <= j <= m,
                    i < n,
                    n == v@.len(),
                    blocks_view(v@) == all,
                    m == v@[i as int].1@.len(),
                    contents@.len() == j as int - 1,
                    forall|k: int|
                        0 <= k < j - 1 ==> (#[trigger] contents@[k])@ == v@[i as int].1@[k + 1]@,
                decreases m - j,
            {
                contents.push(v[i].1[j].clone());
                j = j + 1;
            }
            proof {
                assert(contents.deep_view() =~= v@[i as int].1.deep_view().skip(1));
            }
            let ghost pre = res@.map_values(|b: CommentBlock| b@);
            let block = CommentBlock { id, line, contents };
            res.push(block);
            proof {
                assert(res@.map_values(|b: CommentBlock| b@) =~= pre.push(res@.last()@));
                assert(res@.last()@ =~~= CommentBlockV {
                    id: spec_trim(all[i as int].1[0].skip(tag@.len() as int + 1)),
                    line: all[i as int].0,
                    contents: all[i as int].1.skip(1),
                });
            }
        }
        i = i + 1;
    }
    proof {
        assert(all.take(n as int) =~= all);
    }
    res
}

/// Like `extract_comment_blocks_with_empty_lines`, for any tag: `None`
/// exactly when the tag is empty or does not begin with an uppercase
/// letter.
pub fn try_extract_comment_blocks_with_empty_lines(tag: &str, text: &str) -> (res: Option<
    Vec<CommentBlock>,
>)
    requires
        text@.len() + 2 < usize::MAX,
    ensures
        res is Some <==> tag@.len() > 0 && uppercase_of(tag@[0]),
        res matches Some(v) ==> v@.map_values(|b: CommentBlock| b@) == spec_tagged_blocks(
            tag@,
            spec_comment_blocks(spec_lines(text@), 0, 0, Seq::empty(), true),
        ),
{
    if tag.unicode_len() == 0 {
        return None;
    }
    if !char_is_uppercase(tag.get_char(0)) {
        return None;
    }
    Some(extract_comment_blocks_with_empty_lines(tag, text))
}

// --- source locations rendered as links ---

/// A file and a line in it.
#[derive(Debug)]
pub struct Location {
    pub file: String,
    pub line: usize,
}

/// The segment of a path after its last `'/'`.
pub open spec fn spec_last_segment(p: Seq<char>) -> Seq<char> {
    match spec_rfind(p, '/') {
        None => p,
        Some(i) => p.skip(i + 1),
    }
}

pub open spec fn spec_strip_trailing_slashes(p: Seq<char>) -> Seq<char>
    decreases p.len(),
{
    if p.len() > 0 && p[p.len() - 1] == '/' {
        spec_strip_trailing_slashes(p.drop_last())
    } else {
        p
    }
}

/// The file name of a path: its last segment, with trailing slashes
/// ignored, as a path library reads it.
pub open spec fn spec_file_name(p: Seq<char>) -> Seq<char> {
    spec_last_segment(spec_strip_trailing_slashes(p))
}

/// Whether stripping `root` from the front of `file` cuts at a path
/// component boundary: the root is empty, is the whole path, ends in a
/// separator, or is followed by one.
pub open spec fn spec_prefix_ends_at_separator(file: Seq<char>, root: Seq<char>) -> bool {
    ||| root.len() == 0
    ||| root.len() == file.len()
    ||| (root.len() > 0 && root[root.len() - 1] == '/')
    ||| (root.len() < file.len() && file[root.len() as int] == '/')
}

/// The link text of a location: the path relative to the project root,
/// with backslashes turned to slashes, under the project's repository
/// URL, with the line number and the file name appended.
pub open spec fn spec_location_link(file: Seq<char>, line: int, project_root: Seq<char>) -> Seq<
    char,
> {
    let rel = file.skip(project_root.len() as int);
    let rel2 = if project_root.len() > 0 && rel.len() > 0 && rel[0] == '/' {
        rel.skip(1)
    } else {
        rel
    };
    "https://github.com/rust-analyzer/rust-analyzer/blob/master/"@ + spec_replace_char(
        rel2,
        '\\',
        '/',
    ) + "#L"@ + spec_dec(line) + "["@ + spec_file_name(file) + "]"@
}

impl Location {
    pub fn new(file: String, line: usize) -> (r: Self)
        ensures
            r.file@ == file@,
            r.line == line,
    {
        Location { file, line }
    }

    /// Renders the location as a link into the project's repository.
    /// The file must lie under the project root with the prefix ending
    /// at a component boundary, and must name a real file: a last
    /// segment that is present and is not `.` or `..` (on those a path
    /// library would not read the name this spells out).
    pub fn display_string(&self, project_root: &str) -> (r: String)
        requires
            spec_starts_with(self.file@, project_root@),
            spec_prefix_ends_at_separator(self.file@, project_root@),
            spec_file_name(self.file@).len() > 0,
            spec_file_name(self.file@) != "."@,
            spec_file_name(self.file@) != ".."@,
        ensures
            r@ == spec_location_link(self.file@, self.line as int, project_root@),
    {
        let nf = self.file.unicode_len();
        let nr = project_root.unicode_len();
        let rel = self.file.as_str().substring_char(nr, nf);
        proof {
            assert(self.file@.subrange(nr as int, nf as int) =~= self.file@.skip(nr as int));
        }
        let nrel = rel.unicode_len();
        let rel2 = if nr > 0 && nrel > 0 && rel.get_char(0) == '/' {
            proof {
                assert(rel@.subrange(1, nrel as int) =~= rel@.skip(1));
            }
            rel.substring_char(1, nrel)
        } else {
            rel
        };
        let path = replace_char(rel2, '\\', '/');

        // The file name: drop trailing slashes, then take what follows
        // the last remaining slash.
        let mut end: usize = nf;
        proof {
            assert(self.file@.take(nf as int) =~= self.file@);
        }
        while end > 0 && self.file.as_str().get_char(end - 1) == '/'
            invariant
                end <= nf,
                nf == self.file@.len(),
                spec_strip_trailing_slashes(self.file@) == spec_strip_trailing_slashes(
                    self.file@.take(end as int),
                ),
            decreases end,
        {
            proof {
                assert(self.file@.take(end as int)[end as int - 1] == self.file@[end as int - 1]);
                assert(self.file@.take(end as int).drop_last() =~= self.file@.take(end as int - 1));
            }
            end = end - 1;
        }
        let stripped = self.file.as_str().substring_char(0, end);
        proof {
            if end > 0 {
                assert(self.file@.take(end as int)[end as int - 1] == self.file@[end as int - 1]);
            }
            assert(spec_strip_trailing_slashes(self.file@.take(end as int)) == self.file@.take(
                end as int,
            ));
            assert(self.file@.subrange(0, end as int) =~= self.file@.take(end as int));
        }
        let name = match rfind_char(stripped, '/') {
            None => stripped,
            Some(i) => {
                proof {
                    assert(stripped@.subrange(i as int + 1, end as int) =~= stripped@.skip(
                        i as int + 1,
                    ));
                }
                stripped.substring_char(i + 1, end)
            },
        };
        let r = String::from_str("https://github.com/rust-analyzer/rust-analyzer/blob/master/")
            .concat(path.as_str()).concat("#L").concat(u64_to_dec(self.line as u64).as_str())
            .concat("[").concat(name).concat("]");
        proof {
            assert(r@ =~= spec_location_link(self.file@, self.line as int, project_root@));
        }
        r
    }
}

} // verus!
