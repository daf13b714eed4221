//! Detects and parses custom TTRPG extensions in markdown.

use vstd::prelude::*;

use crate::ast::{opt_str_v, Image, ImageV, LicenseInfo, LicenseInfoV, LicenseKind};
use crate::licenses::lemma_trim_idempotent;
use crate::text::{
    chars_of, eq_chars, find, find_char_from, find_char_from_exec, find_from_exec,
    is_ascii_whitespace, is_ascii_ws, lemma_find_char_from_bounds, lemma_find_from_bounds,
    lowercase, seqs_of, slice_chars, split, split_exec, starts_with,
    starts_with_exec, ends_with, ends_with_exec, string_of, to_lowercase, trim, trim_chars,
};

verus! {

// ---------------------------------------------------------------------------
// Specifications
// ---------------------------------------------------------------------------

/// `str::strip_prefix`.
pub open spec fn strip_prefix(s: Seq<char>, p: Seq<char>) -> Option<Seq<char>> {
    if starts_with(s, p) {
        Some(s.skip(p.len() as int))
    } else {
        None
    }
}

/// `str::strip_suffix`.
pub open spec fn strip_suffix(s: Seq<char>, p: Seq<char>) -> Option<Seq<char>> {
    if ends_with(s, p) {
        Some(s.take(s.len() - p.len()))
    } else {
        None
    }
}

/// `str::trim_start_matches` with a non-empty string pattern: every leading
/// copy of `p` removed.
pub open spec fn strip_all_prefix(s: Seq<char>, p: Seq<char>) -> Seq<char>
    decreases s.len(),
{
    if p.len() > 0 && starts_with(s, p) {
        strip_all_prefix(s.skip(p.len() as int), p)
    } else {
        s
    }
}

/// A page-break directive, surrounding whitespace aside.
pub open spec fn page_break_spec(html: Seq<char>) -> bool {
    trim(html) == "<!-- pagebreak -->"@ || trim(html) == "<!--pagebreak-->"@
}

/// The column count of a column-layout directive.
pub open spec fn column_layout_spec(html: Seq<char>) -> Option<u8> {
    if trim(html) == "<!-- 1-column -->"@ {
        Some(1)
    } else if trim(html) == "<!-- 2-column -->"@ {
        Some(2)
    } else {
        None
    }
}

/// The license named by an already lower-cased license name.
pub open spec fn license_kind_spec(name: Seq<char>) -> Option<LicenseKind> {
    if name == "ogl-1.0a"@ || name == "ogl1.0a"@ || name == "ogl"@ {
        Some(LicenseKind::Ogl1_0a)
    } else if name == "cc-by-sa-4.0"@ || name == "ccbysa4.0"@ || name == "cc-by-sa"@ {
        Some(LicenseKind::CcBySa4_0)
    } else {
        None
    }
}

/// The text between the quotes of the first `key="..."` in `s`.
pub open spec fn quoted_spec(s: Seq<char>, key: Seq<char>) -> Option<Seq<char>> {
    let needle = key + "=\""@;
    match find(s, needle) {
        Some(i) => {
            let rest = s.skip(i + needle.len());
            match find_char_from(rest, '"', 0) {
                Some(e) => Some(rest.take(e)),
                None => None,
            }
        },
        None => None,
    }
}

/// Index of the first ASCII whitespace character at or after `i`.
pub open spec fn find_ascii_ws_from(s: Seq<char>, i: int) -> Option<int>
    decreases s.len() - i,
{
    if i < 0 || i >= s.len() {
        None
    } else if is_ascii_ws(s[i]) {
        Some(i)
    } else {
        find_ascii_ws_from(s, i + 1)
    }
}

/// The body of an HTML comment `<!-- ... -->`, trimmed.
pub open spec fn comment_body(html: Seq<char>) -> Option<Seq<char>> {
    match strip_prefix(trim(html), "<!--"@) {
        Some(a) => match strip_suffix(a, "-->"@) {
            Some(b) => Some(trim(b)),
            None => None,
        },
        None => None,
    }
}

/// The name and the tail of a license directive's value: split at the first
/// ASCII whitespace character, which belongs to neither part.
pub open spec fn name_and_tail(value: Seq<char>) -> (Seq<char>, Seq<char>) {
    match find_ascii_ws_from(value, 0) {
        Some(k) => (value.take(k), value.skip(k + 1)),
        None => (value, Seq::empty()),
    }
}

/// A license directive: `<!-- license: NAME [attribution="..."] [changes="..."] -->`,
/// with the name compared after lower-casing.
pub open spec fn license_spec(html: Seq<char>) -> Option<(LicenseKind, LicenseInfoV)> {
    match comment_body(html) {
        Some(inner) => match strip_prefix(inner, "license:"@) {
            Some(v) => {
                let (name, tail) = name_and_tail(trim(v));
                match license_kind_spec(lowercase(name)) {
                    Some(kind) => Some(
                        (
                            kind,
                            LicenseInfoV {
                                attribution: quoted_spec(tail, "attribution"@),
                                changes: quoted_spec(tail, "changes"@),
                            },
                        ),
                    ),
                    None => None,
                }
            },
            None => None,
        },
        None => None,
    }
}

pub open spec fn license_result_v(r: Option<(LicenseKind, LicenseInfo)>) -> Option<
    (LicenseKind, LicenseInfoV),
> {
    match r {
        Some((k, info)) => Some(
            (
                k,
                LicenseInfoV {
                    attribution: opt_str_v(info.attribution),
                    changes: opt_str_v(info.changes),
                },
            ),
        ),
        None => None,
    }
}

/// The width given by an image title of the form `width=...`.
pub open spec fn title_width(title: Option<Seq<char>>) -> Option<Seq<char>> {
    match title {
        Some(t) => if starts_with(t, "width="@) {
            Some(strip_all_prefix(t, "width="@))
        } else {
            None
        },
        None => None,
    }
}

/// The width after the attributes `pieces[i..]` are read, `w` before them:
/// the last `width=...` attribute wins.
pub open spec fn attrs_width_from(pieces: Seq<Seq<char>>, i: int, w: Option<Seq<char>>) -> Option<
    Seq<char>,
>
    decreases pieces.len() - i,
{
    if i < 0 || i >= pieces.len() {
        w
    } else {
        let a = trim(pieces[i]);
        attrs_width_from(
            pieces,
            i + 1,
            if starts_with(a, "width="@) {
                Some(a.skip(6))
            } else {
                w
            },
        )
    }
}

/// Image URLs that the attribute reader can slice: where a `{` occurs, it is
/// not the last character and the last character is ASCII.
pub open spec fn image_url_ok(url: Seq<char>) -> bool {
    match find_char_from(url, '{', 0) {
        Some(b) => b + 1 < url.len() && (url[url.len() - 1] as u32) < 0x80,
        None => true,
    }
}

/// The image of `![alt](url "title")`, with `{width=...}` attributes after the
/// path: the path ends before the first `{`, and the attribute list runs to the
/// character before the last one.
pub open spec fn image_spec(alt: Seq<char>, url: Seq<char>, title: Option<Seq<char>>) -> ImageV {
    match find_char_from(url, '{', 0) {
        None => ImageV { alt, path: url, width: title_width(title) },
        Some(b) => ImageV {
            alt,
            path: url.take(b),
            width: attrs_width_from(
                split(url.subrange(b + 1, url.len() - 1), seq![',']),
                0,
                title_width(title),
            ),
        },
    }
}

/// Detect the type of fenced code block
#[derive(Debug, Clone, PartialEq)]
pub enum CodeBlockType {
    StatBlock,
    Boxed,
    Regular(Option<String>),
}

#[verifier::ext_equal]
pub enum CodeBlockTypeV {
    StatBlock,
    Boxed,
    Regular(Option<Seq<char>>),
}

pub open spec fn code_block_type_v(t: CodeBlockType) -> CodeBlockTypeV {
    match t {
        CodeBlockType::StatBlock => CodeBlockTypeV::StatBlock,
        CodeBlockType::Boxed => CodeBlockTypeV::Boxed,
        CodeBlockType::Regular(l) => CodeBlockTypeV::Regular(opt_str_v(l)),
    }
}

/// The block type for an info string that is already trimmed and lower-cased.
pub open spec fn classify_spec(l: Seq<char>) -> CodeBlockTypeV {
    if l == "statblock"@ || l == "stat-block"@ || l == "monster"@ {
        CodeBlockTypeV::StatBlock
    } else if l == "boxed"@ || l == "read-aloud"@ || l == "readaloud"@ {
        CodeBlockTypeV::Boxed
    } else if l.len() == 0 {
        CodeBlockTypeV::Regular(None)
    } else {
        CodeBlockTypeV::Regular(Some(l))
    }
}

/// The block type of a fenced code block's info string.
pub open spec fn detect_spec(info: Seq<char>) -> CodeBlockTypeV {
    classify_spec(lowercase(trim(info)))
}

// ---------------------------------------------------------------------------
// Laws
// ---------------------------------------------------------------------------

/// Whitespace around a directive or a fence's info string changes nothing:
/// page breaks, column switches, license directives and code-block types
/// read the same from the trimmed text.
pub proof fn law_directives_ignore_surrounding_whitespace(s: Seq<char>)
    ensures
        page_break_spec(trim(s)) == page_break_spec(s),
        column_layout_spec(trim(s)) == column_layout_spec(s),
        license_spec(trim(s)) == license_spec(s),
        detect_spec(trim(s)) == detect_spec(s),
{
    lemma_trim_idempotent(s);
}

/// A column directive asks for one column or two, nothing else.
pub proof fn law_column_layout_is_one_or_two(html: Seq<char>)
    ensures
        column_layout_spec(html) matches Some(n) ==> n == 1 || n == 2,
{
}

// ---------------------------------------------------------------------------
// Implementation
// ---------------------------------------------------------------------------

fn eq_lit(v: &Vec<char>, lit: &str) -> (r: bool)
    ensures
        r == (v@ == lit@),
{
    eq_chars(v, &chars_of(lit))
}

/// Check if an HTML comment is a page break directive
pub fn is_page_break(html: &str) -> (r: bool)
    ensures
        r == page_break_spec(html@),
{
    let trimmed = trim_chars(&chars_of(html));
    eq_lit(&trimmed, "<!-- pagebreak -->") || eq_lit(&trimmed, "<!--pagebreak-->")
}

/// Check if an HTML comment is a column layout directive
/// Returns Some(columns) if it's a column directive, None otherwise
pub fn parse_column_layout(html: &str) -> (r: Option<u8>)
    ensures
        r == column_layout_spec(html@),
{
    let trimmed = trim_chars(&chars_of(html));
    if eq_lit(&trimmed, "<!-- 1-column -->") {
        Some(1)
    } else if eq_lit(&trimmed, "<!-- 2-column -->") {
        Some(2)
    } else {
        None
    }
}

/// The license named by an already lower-cased name.
pub fn license_kind_from_name(name: &str) -> (r: Option<LicenseKind>)
    ensures
        r == license_kind_spec(name@),
{
    let n = chars_of(name);
    if eq_lit(&n, "ogl-1.0a") || eq_lit(&n, "ogl1.0a") || eq_lit(&n, "ogl") {
        Some(LicenseKind::Ogl1_0a)
    } else if eq_lit(&n, "cc-by-sa-4.0") || eq_lit(&n, "ccbysa4.0") || eq_lit(&n, "cc-by-sa") {
        Some(LicenseKind::CcBySa4_0)
    } else {
        None
    }
}

pub fn strip_prefix_exec(v: &Vec<char>, p: &str) -> (r: Option<Vec<char>>)
    ensures
        r matches Some(x) ==> strip_prefix(v@, p@) == Some(x@),
        r is None ==> strip_prefix(v@, p@) is None,
{
    let pc = chars_of(p);
    if starts_with_exec(v, &pc) {
        Some(slice_chars(v, pc.len(), v.len()))
    } else {
        None
    }
}

fn strip_suffix_exec(v: &Vec<char>, p: &str) -> (r: Option<Vec<char>>)
    ensures
        r matches Some(x) ==> strip_suffix(v@, p@) == Some(x@),
        r is None ==> strip_suffix(v@, p@) is None,
{
    let pc = chars_of(p);
    if ends_with_exec(v, &pc) {
        Some(slice_chars(v, 0, v.len() - pc.len()))
    } else {
        None
    }
}

fn find_ascii_ws_exec(v: &Vec<char>) -> (r: Option<usize>)
    ensures
        r matches Some(k) ==> find_ascii_ws_from(v@, 0) == Some(k as int) && k < v.len(),
        r is None ==> find_ascii_ws_from(v@, 0) is None,
{
    let mut j: usize = 0;
    while j < v.len()
        invariant
            0 <= j <= v.len(),
            find_ascii_ws_from(v@, 0) == find_ascii_ws_from(v@, j as int),
        decreases v.len() - j,
    {
        if is_ascii_whitespace(v[j]) {
            return Some(j);
        }
        j += 1;
    }
    None
}

/// Check if an HTML comment is a license directive (e.g. `<!-- license: ogl-1.0a -->`
/// or `<!-- license: cc-by-sa-4.0 attribution="X" changes="Y" -->`).
pub fn parse_license(html: &str) -> (r: Option<(LicenseKind, LicenseInfo)>)
    ensures
        license_result_v(r) == license_spec(html@),
{
    let trimmed = trim_chars(&chars_of(html));
    let a = match strip_prefix_exec(&trimmed, "<!--") {
        Some(a) => a,
        None => return None,
    };
    let b = match strip_suffix_exec(&a, "-->") {
        Some(b) => b,
        None => return None,
    };
    let inner = trim_chars(&b);
    let v = match strip_prefix_exec(&inner, "license:") {
        Some(v) => v,
        None => return None,
    };
    let value = trim_chars(&v);
    let (name, tail) = match find_ascii_ws_exec(&value) {
        Some(k) => (slice_chars(&value, 0, k), slice_chars(&value, k + 1, value.len())),
        None => (slice_chars(&value, 0, value.len()), Vec::new()),
    };
    proof {
        assert(value@.subrange(0, value@.len() as int) =~= value@);
        assert(tail@ == name_and_tail(value@).1) by {
            if find_ascii_ws_from(value@, 0) is None {
                assert(tail@ =~= Seq::<char>::empty());
            }
        }
    }
    let lowered = to_lowercase(string_of(name.as_slice()).as_str());
    let kind = match license_kind_from_name(lowered.as_str()) {
        Some(k) => k,
        None => return None,
    };
    let tail_s = string_of(tail.as_slice());
    let info = LicenseInfo {
        attribution: extract_quoted(tail_s.as_str(), "attribution"),
        changes: extract_quoted(tail_s.as_str(), "changes"),
    };
    Some((kind, info))
}

/// Extract a `key="value"` pair from a directive tail; quotes do not nest or escape.
pub fn extract_quoted(s: &str, key: &str) -> (r: Option<String>)
    ensures
        opt_str_v(r) == quoted_spec(s@, key@),
{
    let sv = chars_of(s);
    let mut needle = chars_of(key);
    needle.push('=');
    needle.push('"');
    proof {
        reveal_strlit("=\"");
        assert(needle@ =~= key@ + "=\""@);
    }
    proof {
        lemma_find_from_bounds(sv@, needle@, 0);
    }
    let i = match find_from_exec(&sv, &needle, 0) {
        Some(i) => i,
        None => return None,
    };
    let nl = needle.len();
    assert(i + nl <= sv.len());
    let rest = slice_chars(&sv, i + nl, sv.len());
    proof {
        assert(rest@ =~= sv@.skip(i + needle@.len()));
        lemma_find_char_from_bounds(rest@, '"', 0);
    }
    let e = match find_char_from_exec(&rest, '"', 0) {
        Some(e) => e,
        None => return None,
    };
    let out = slice_chars(&rest, 0, e);
    assert(out@ =~= rest@.take(e as int));
    Some(string_of(out.as_slice()))
}

/// Parse boxed text (read-aloud text)
pub fn parse_boxed_text(content: &str) -> (r: String)
    ensures
        r@ == trim(content@),
{
    string_of(trim_chars(&chars_of(content)).as_slice())
}

fn strip_all_prefix_exec(v: &Vec<char>, p: &Vec<char>) -> (r: Vec<char>)
    requires
        p.len() > 0,
    ensures
        r@ == strip_all_prefix(v@, p@),
{
    let mut i: usize = 0;
    assert(v@.skip(0) =~= v@);
    while i <= v.len() && matches_at_prefix(v, p, i)
        invariant
            0 <= i <= v.len(),
            p.len() > 0,
            strip_all_prefix(v@, p@) == strip_all_prefix(v@.skip(i as int), p@),
        decreases v.len() - i,
    {
        proof {
            assert(v@.skip(i as int).skip(p@.len() as int) =~= v@.skip(i + p@.len()));
        }
        i += p.len();
    }
    slice_chars(v, i, v.len())
}

/// Whether `p` occurs at `i` in `v` (a prefix of `v[i..]`).
fn matches_at_prefix(v: &Vec<char>, p: &Vec<char>, i: usize) -> (r: bool)
    requires
        i <= v.len(),
    ensures
        r == starts_with(v@.skip(i as int), p@),
        r ==> i + p.len() <= v.len(),
{
    let r = crate::text::matches_at_exec(v, p, i);
    proof {
        let s = v@.skip(i as int);
        if r {
            assert(s.subrange(0, p@.len() as int) =~= v@.subrange(i as int, i + p@.len()));
        } else if starts_with(s, p@) {
            assert(s.subrange(0, p@.len() as int) =~= v@.subrange(i as int, i + p@.len()));
        }
    }
    r
}

/// Parse image attributes from markdown image syntax
/// Supports: ![alt](path){width=50%}
pub fn parse_image_attributes(alt: &str, url: &str, title: Option<&str>) -> (r: Image)
    requires
        image_url_ok(url@),
    ensures
        crate::ast::image_v(r) == image_spec(
            alt@,
            url@,
            match title {
                Some(t) => Some(t@),
                None => None,
            },
        ),
{
    let ghost tv: Option<Seq<char>> = match title {
        Some(t) => Some(t@),
        None => None,
    };
    let prefix = chars_of("width=");
    proof {
        reveal_strlit("width=");
    }
    let mut width: Option<Vec<char>> = None;
    if let Some(t) = title {
        let tc = chars_of(t);
        if starts_with_exec(&tc, &prefix) {
            width = Some(strip_all_prefix_exec(&tc, &prefix));
        }
    }
    assert(match width {
        Some(w) => title_width(tv) == Some(w@),
        None => title_width(tv) is None,
    });
    let uc = chars_of(url);
    let mut path = slice_chars(&uc, 0, uc.len());
    assert(path@ =~= uc@);
    if let Some(b) = find_char_from_exec(&uc, '{', 0) {
        path = slice_chars(&uc, 0, b);
        let attrs = slice_chars(&uc, b + 1, uc.len() - 1);
        let mut comma: Vec<char> = Vec::new();
        comma.push(',');
        assert(comma@ =~= seq![',']);
        let pieces = split_exec(&attrs, &comma);
        let ghost ps = seqs_of(pieces@);
        let mut k: usize = 0;
        while k < pieces.len()
            invariant
                0 <= k <= pieces.len(),
                ps == seqs_of(pieces@),
                prefix@ == "width="@,
                prefix@.len() == 6,
                attrs_width_from(ps, 0, title_width(tv)) == attrs_width_from(
                    ps,
                    k as int,
                    match width {
                        Some(w) => Some(w@),
                        None => None,
                    },
                ),
            decreases pieces.len() - k,
        {
            assert(ps[k as int] == pieces@[k as int]@);
            let a = trim_chars(&pieces[k]);
            if starts_with_exec(&a, &prefix) {
                width = Some(slice_chars(&a, 6, a.len()));
            }
            k += 1;
        }
    }
    let alt_s = string_of(chars_of(alt).as_slice());
    let path_s = string_of(path.as_slice());
    let width_s = match width {
        Some(w) => Some(string_of(w.as_slice())),
        None => None,
    };
    Image { alt: alt_s, path: path_s, width: width_s }
}

/// Whether `parse_image_attributes` can read the attribute list of `url`:
/// a `{` must have at least one character after it, and the last character
/// must be a single byte.
pub fn image_attributes_readable(url: &str) -> (r: bool)
    ensures
        r == image_url_ok(url@),
{
    let uc = chars_of(url);
    match find_char_from_exec(&uc, '{', 0) {
        Some(b) => b + 1 < uc.len() && (uc[uc.len() - 1] as u32) < 0x80,
        None => true,
    }
}

/// The block type for an info string that is already trimmed and lower-cased.
pub fn classify_code_block_info(lowered: &str) -> (r: CodeBlockType)
    ensures
        code_block_type_v(r) == classify_spec(lowered@),
{
    let l = chars_of(lowered);
    if eq_lit(&l, "statblock") || eq_lit(&l, "stat-block") || eq_lit(&l, "monster") {
        CodeBlockType::StatBlock
    } else if eq_lit(&l, "boxed") || eq_lit(&l, "read-aloud") || eq_lit(&l, "readaloud") {
        CodeBlockType::Boxed
    } else if l.len() == 0 {
        CodeBlockType::Regular(None)
    } else {
        CodeBlockType::Regular(Some(string_of(l.as_slice())))
    }
}

pub fn detect_code_block_type(info_string: &str) -> (r: CodeBlockType)
    ensures
        code_block_type_v(r) == detect_spec(info_string@),
{
    let trimmed = string_of(trim_chars(&chars_of(info_string)).as_slice());
    let lowered = to_lowercase(trimmed.as_str());
    classify_code_block_info(lowered.as_str())
}

} // verus!
