//! License texts referenced by the `<!-- license: ... -->` directive, and the
//! parser that turns a license body into renderable fragments.

use vstd::prelude::*;

use crate::ast::LicenseKind;
use crate::text::{
    chars_of, find_char_from, is_ws, join, lemma_find_char_from_bounds, lines_from, strip_cr, lemma_ws_back_bounds, lemma_ws_back_unique, lemma_ws_skip_bounds,
    lemma_ws_skip_unique, lines, lines_exec, push_char, push_chars, seqs_of, string_of, trim,
    trim_chars, ws_back, ws_skip,
};

verus! {

/// The body text kept for each license.
pub open spec fn body_text(kind: LicenseKind) -> Seq<char> {
    match kind {
        LicenseKind::Ogl1_0a => OGL_BODY@,
        LicenseKind::CcBySa4_0 => CC_BY_SA_BODY@,
    }
}

pub const OGL_BODY: &'static str =
    "OPEN GAME LICENSE Version 1.0a\n==============================\n\nThe full text of the Open Game License Version 1.0a is published by the Open Gaming Foundation at https://www.opengamingfoundation.org/ogl.html\n\nCopyright 2000, Wizards of the Coast, Inc.\n";

pub const CC_BY_SA_BODY: &'static str =
    "Attribution-ShareAlike 4.0 International\n========================================\n\nThe full legal code of the Creative Commons Attribution-ShareAlike 4.0 International Public License is published at https://creativecommons.org/licenses/by-sa/4.0/legalcode\n";

pub fn body(kind: LicenseKind) -> (r: &'static str)
    ensures
        r@ == body_text(kind),
{
    match kind {
        LicenseKind::Ogl1_0a => OGL_BODY,
        LicenseKind::CcBySa4_0 => CC_BY_SA_BODY,
    }
}

pub enum LicenseFragment {
    /// `===` setext heading, e.g. major section
    Heading2(String),
    /// `---` setext heading, e.g. minor section
    Heading3(String),
    Paragraph(String),
}

/// The model of a fragment.
#[verifier::ext_equal]
pub enum FragmentV {
    Heading2(Seq<char>),
    Heading3(Seq<char>),
    Paragraph(Seq<char>),
}

pub open spec fn fragment_v(f: LicenseFragment) -> FragmentV {
    match f {
        LicenseFragment::Heading2(t) => FragmentV::Heading2(t@),
        LicenseFragment::Heading3(t) => FragmentV::Heading3(t@),
        LicenseFragment::Paragraph(t) => FragmentV::Paragraph(t@),
    }
}

pub open spec fn fragments_v(s: Seq<LicenseFragment>) -> Seq<FragmentV> {
    Seq::new(s.len(), |i: int| fragment_v(s[i]))
}

/// Every character of `s` is `c`.
pub open spec fn all_chars(s: Seq<char>, c: char) -> bool {
    forall|k: int| 0 <= k < s.len() ==> s[k] == c
}

/// At least three characters, each `=` or `-`.
pub open spec fn rule_chars(s: Seq<char>) -> bool {
    s.len() >= 3 && forall|k: int| 0 <= k < s.len() ==> (s[k] == '=' || s[k] == '-')
}

/// A line that is an underline or a standalone separator.
pub open spec fn is_separator_spec(line: Seq<char>) -> bool {
    rule_chars(trim(line))
}

/// Every line trimmed.
pub open spec fn trim_all(ls: Seq<Seq<char>>) -> Seq<Seq<char>> {
    Seq::new(ls.len(), |k: int| trim(ls[k]))
}

/// Where a paragraph that is still being collected at trimmed line `k` ends:
/// at an empty line, a separator line, or a line followed by an underline.
pub open spec fn para_end(ts: Seq<Seq<char>>, k: int) -> int
    decreases ts.len() - k,
{
    if k < 0 || k >= ts.len() {
        ts.len() as int
    } else if ts[k].len() == 0 || rule_chars(ts[k]) {
        k
    } else if k + 1 < ts.len() && rule_chars(ts[k + 1]) {
        k
    } else {
        para_end(ts, k + 1)
    }
}

/// The fragments of the trimmed lines `ts` from line `i` on.
pub open spec fn frags_from(ts: Seq<Seq<char>>, i: int) -> Seq<FragmentV>
    decreases ts.len() - i, 0int,
{
    if i < 0 || i >= ts.len() {
        Seq::empty()
    } else if ts[i].len() == 0 {
        frags_from(ts, i + 1)
    } else if i + 1 < ts.len() && ts[i + 1].len() >= 3 && all_chars(ts[i + 1], '=') {
        seq![FragmentV::Heading2(ts[i])] + frags_from(ts, i + 2)
    } else if i + 1 < ts.len() && ts[i + 1].len() >= 3 && all_chars(ts[i + 1], '-') {
        seq![FragmentV::Heading3(ts[i])] + frags_from(ts, i + 2)
    } else if rule_chars(ts[i]) {
        frags_from(ts, i + 1)
    } else {
        let j = para_end(ts, i + 1);
        if j <= i || j > ts.len() {
            Seq::empty()
        } else {
            seq![FragmentV::Paragraph(join(ts.subrange(i, j), seq![' ']))] + frags_from(ts, j)
        }
    }
}

/// The fragments of a license body: setext headings (a non-empty line over a
/// line of three or more `=` or `-`), standalone separator lines dropped, and
/// the other non-empty lines joined with spaces into paragraphs.
pub open spec fn body_fragments(text: Seq<char>) -> Seq<FragmentV> {
    frags_from(trim_all(lines(text)), 0)
}

pub proof fn lemma_trim_idempotent(s: Seq<char>)
    ensures
        trim(trim(s)) == trim(s),
        trim(s).len() > 0 ==> !is_ws(trim(s)[0]) && !is_ws(trim(s)[trim(s).len() - 1]),
{
    let a = ws_skip(s, 0);
    lemma_ws_skip_bounds(s, 0);
    let u = s.skip(a);
    let b = ws_back(u, u.len() as int);
    lemma_ws_back_bounds(u, u.len() as int);
    let t = u.take(b);
    assert(trim(s) == t);
    if t.len() > 0 {
        assert(t[0] == s[a]);
        assert(!is_ws(t[t.len() - 1]));
        lemma_ws_skip_unique(t, 0, 0);
        assert(t.skip(0) =~= t);
        lemma_ws_back_unique(t, t.len() as int, t.len() as int);
        assert(t.take(t.len() as int) =~= t);
    } else {
        lemma_ws_skip_unique(t, 0, 0);
        assert(t.skip(0) =~= t);
        lemma_ws_back_unique(t, 0, 0);
        assert(t.take(0) =~= t);
    }
}

// ---------------------------------------------------------------------------
// What a fragment's text looks like
// ---------------------------------------------------------------------------

pub open spec fn fragment_text(f: FragmentV) -> Seq<char> {
    match f {
        FragmentV::Heading2(t) => t,
        FragmentV::Heading3(t) => t,
        FragmentV::Paragraph(t) => t,
    }
}

pub open spec fn no_newline(s: Seq<char>) -> bool {
    forall|k: int| 0 <= k < s.len() ==> #[trigger] s[k] != '\n'
}

/// A single-line text with no whitespace at either end.
pub open spec fn edge_clean(t: Seq<char>) -> bool {
    &&& no_newline(t)
    &&& t.len() > 0 ==> !is_ws(t[0]) && !is_ws(t[t.len() - 1])
}

/// A fragment's text is a non-empty, trimmed, single line, and a paragraph
/// is never a separator line.
pub open spec fn clean_fragment(f: FragmentV) -> bool {
    let t = fragment_text(f);
    &&& t.len() > 0
    &&& trim(t) == t
    &&& no_newline(t)
    &&& f is Paragraph ==> !is_separator_spec(t)
}

proof fn lemma_lines_no_newline(s: Seq<char>, i: int)
    requires
        0 <= i,
    ensures
        forall|m: int| 0 <= m < lines_from(s, i).len() ==> no_newline(#[trigger] lines_from(s, i)[m]),
    decreases s.len() - i,
{
    if i < s.len() {
        lemma_find_char_from_bounds(s, '\n', i);
        match find_char_from(s, '\n', i) {
            None => {
                let piece = s.subrange(i, s.len() as int);
                assert(no_newline(piece)) by {
                    assert forall|k: int| 0 <= k < piece.len() implies #[trigger] piece[k] != '\n' by {
                        assert(piece[k] == s[i + k]);
                    }
                }
            },
            Some(k) => {
                lemma_lines_no_newline(s, k + 1);
                let piece = s.subrange(i, k);
                assert(no_newline(piece)) by {
                    assert forall|m: int| 0 <= m < piece.len() implies #[trigger] piece[m] != '\n' by {
                        assert(piece[m] == s[i + m]);
                    }
                }
                let sp = strip_cr(piece);
                assert(no_newline(sp)) by {
                    assert forall|m: int| 0 <= m < sp.len() implies #[trigger] sp[m] != '\n' by {
                        assert(sp[m] == piece[m]);
                    }
                }
                let r = lines_from(s, i);
                let rest = lines_from(s, k + 1);
                assert(r == seq![sp] + rest);
                assert forall|m: int| 0 <= m < r.len() implies no_newline(#[trigger] r[m]) by {
                    if m > 0 {
                        assert(r[m] == rest[m - 1]);
                    }
                }
            },
        }
    }
}

proof fn lemma_trim_edge_clean(s: Seq<char>)
    requires
        no_newline(s),
    ensures
        edge_clean(trim(s)),
{
    lemma_trim_idempotent(s);
    let a = ws_skip(s, 0);
    lemma_ws_skip_bounds(s, 0);
    let u = s.skip(a);
    lemma_ws_back_bounds(u, u.len() as int);
    let t = trim(s);
    assert forall|k: int| 0 <= k < t.len() implies #[trigger] t[k] != '\n' by {
        assert(t[k] == u[k]);
        assert(u[k] == s[a + k]);
    }
}

proof fn lemma_edge_clean_trimmed(t: Seq<char>)
    requires
        edge_clean(t),
        t.len() > 0,
    ensures
        trim(t) == t,
{
    lemma_ws_skip_unique(t, 0, 0);
    assert(t.skip(0) =~= t);
    lemma_ws_back_unique(t, t.len() as int, t.len() as int);
    assert(t.take(t.len() as int) =~= t);
}

proof fn lemma_join_clean(p: Seq<Seq<char>>)
    requires
        p.len() > 0,
        forall|k: int| 0 <= k < p.len() ==> (#[trigger] p[k]).len() > 0 && edge_clean(p[k]),
    ensures
        join(p, seq![' ']).len() > 0,
        edge_clean(join(p, seq![' '])),
        p.len() >= 2 ==> !rule_chars(join(p, seq![' '])),
    decreases p.len(),
{
    if p.len() >= 2 {
        let q = p.drop_last();
        assert forall|k: int| 0 <= k < q.len() implies (#[trigger] q[k]).len() > 0 && edge_clean(q[k]) by {
            assert(q[k] == p[k]);
        }
        lemma_join_clean(q);
        let a = join(q, seq![' ']);
        let b = p.last();
        assert(edge_clean(b)) by {
            assert(b == p[p.len() - 1]);
        }
        let j = a + seq![' '] + b;
        assert(join(p, seq![' ']) == j);
        assert forall|k: int| 0 <= k < j.len() implies #[trigger] j[k] != '\n' by {
            if k < a.len() {
                assert(j[k] == a[k]);
            } else if k == a.len() {
                assert(j[k] == ' ');
            } else {
                assert(j[k] == b[k - a.len() - 1]);
            }
        }
        assert(j[0] == a[0]);
        assert(j[j.len() - 1] == b[b.len() - 1]);
        assert(j[a.len() as int] == ' ');
    } else {
        assert(p[0].len() > 0 && edge_clean(p[0]));
    }
}

proof fn lemma_para_end(ts: Seq<Seq<char>>, k: int)
    requires
        0 <= k <= ts.len(),
    ensures
        k <= para_end(ts, k) <= ts.len(),
        forall|m: int| k <= m < para_end(ts, k) ==> (#[trigger] ts[m]).len() > 0,
    decreases ts.len() - k,
{
    if k < ts.len() && !(ts[k].len() == 0 || rule_chars(ts[k])) && !(k + 1 < ts.len() && rule_chars(
        ts[k + 1],
    )) {
        lemma_para_end(ts, k + 1);
    }
}

proof fn lemma_frags_clean(ts: Seq<Seq<char>>, i: int)
    requires
        0 <= i,
        forall|k: int| 0 <= k < ts.len() ==> edge_clean(#[trigger] ts[k]),
    ensures
        forall|m: int| 0 <= m < frags_from(ts, i).len() ==> clean_fragment(#[trigger] frags_from(ts, i)[m]),
    decreases ts.len() - i,
{
    if i < ts.len() {
        let r = frags_from(ts, i);
        assert(edge_clean(ts[i]));
        if ts[i].len() == 0 {
            lemma_frags_clean(ts, i + 1);
            assert(r == frags_from(ts, i + 1));
        } else if (i + 1 < ts.len() && ts[i + 1].len() >= 3 && all_chars(ts[i + 1], '='))
            || (i + 1 < ts.len() && ts[i + 1].len() >= 3 && all_chars(ts[i + 1], '-')) {
            lemma_frags_clean(ts, i + 2);
            lemma_edge_clean_trimmed(ts[i]);
            let rest = frags_from(ts, i + 2);
            assert(r.len() == rest.len() + 1);
            assert(r.drop_first() == rest);
            assert(clean_fragment(r[0]));
            assert forall|m: int| 0 <= m < r.len() implies clean_fragment(#[trigger] r[m]) by {
                if m > 0 {
                    assert(r[m] == rest[m - 1]);
                }
            }
        } else if rule_chars(ts[i]) {
            lemma_frags_clean(ts, i + 1);
            assert(r == frags_from(ts, i + 1));
        } else {
            lemma_para_end(ts, i + 1);
            let j = para_end(ts, i + 1);
            lemma_frags_clean(ts, j);
            let pieces = ts.subrange(i, j);
            assert forall|k: int| 0 <= k < pieces.len() implies (#[trigger] pieces[k]).len() > 0
                && edge_clean(pieces[k]) by {
                assert(pieces[k] == ts[i + k]);
            }
            lemma_join_clean(pieces);
            let t = join(pieces, seq![' ']);
            lemma_edge_clean_trimmed(t);
            if pieces.len() == 1 {
                assert(t == ts[i]) by {
                    assert(pieces[0] == ts[i]);
                }
            }
            let rest = frags_from(ts, j);
            assert(r == seq![FragmentV::Paragraph(t)] + rest);
            assert(clean_fragment(r[0]));
            assert forall|m: int| 0 <= m < r.len() implies clean_fragment(#[trigger] r[m]) by {
                if m > 0 {
                    assert(r[m] == rest[m - 1]);
                }
            }
        }
    }
}

/// Every fragment of a license body is a non-empty, trimmed, single line of
/// text, and no paragraph is a separator line.
pub proof fn law_license_fragments_are_clean_lines(text: Seq<char>)
    ensures
        forall|m: int|
            0 <= m < body_fragments(text).len() ==> clean_fragment(#[trigger] body_fragments(text)[m]),
{
    let ls = lines(text);
    lemma_lines_no_newline(text, 0);
    let ts = trim_all(ls);
    assert forall|k: int| 0 <= k < ts.len() implies edge_clean(#[trigger] ts[k]) by {
        assert(no_newline(ls[k]));
        lemma_trim_edge_clean(ls[k]);
    }
    lemma_frags_clean(ts, 0);
}

/// Some line of the text, trimmed, is non-empty and not made only of `=` and
/// `-`.
pub open spec fn has_content_line(text: Seq<char>) -> bool {
    exists|k: int|
        0 <= k < lines(text).len() && #[trigger] trim(lines(text)[k]).len() > 0 && !rule_chars(
            trim(lines(text)[k]),
        )
}

proof fn lemma_frags_nonempty(ts: Seq<Seq<char>>, i: int, k: int)
    requires
        0 <= i <= k < ts.len(),
        ts[k].len() > 0,
        !rule_chars(ts[k]),
    ensures
        frags_from(ts, i).len() > 0,
    decreases ts.len() - i,
{
    if ts[i].len() == 0 {
        lemma_frags_nonempty(ts, i + 1, k);
    } else if i + 1 < ts.len() && ts[i + 1].len() >= 3 && all_chars(ts[i + 1], '=') {
    } else if i + 1 < ts.len() && ts[i + 1].len() >= 3 && all_chars(ts[i + 1], '-') {
    } else if rule_chars(ts[i]) {
        lemma_frags_nonempty(ts, i + 1, k);
    } else {
        lemma_para_end(ts, i + 1);
    }
}

/// A license body with a line of content gives at least one fragment.
pub proof fn law_license_content_gives_fragments(text: Seq<char>)
    requires
        has_content_line(text),
    ensures
        body_fragments(text).len() > 0,
{
    let k = choose|k: int|
        0 <= k < lines(text).len() && #[trigger] trim(lines(text)[k]).len() > 0 && !rule_chars(
            trim(lines(text)[k]),
        );
    let ts = trim_all(lines(text));
    assert(ts[k] == trim(lines(text)[k]));
    lemma_frags_nonempty(ts, 0, k);
}

proof fn lemma_first_line_has_content(s: Seq<char>)
    requires
        s.len() > 0,
        !is_ws(s[0]),
        s[0] != '=',
        s[0] != '-',
    ensures
        has_content_line(s),
{
    lemma_find_char_from_bounds(s, '\n', 0);
    let l = lines(s)[0];
    assert(l.len() > 0 && l[0] == s[0]) by {
        match find_char_from(s, '\n', 0) {
            Some(k) => {
                assert(s[0] != '\n');
                assert(l == strip_cr(s.subrange(0, k)));
            },
            None => {},
        }
    }
    lemma_ws_skip_bounds(l, 0);
    assert(ws_skip(l, 0) == 0);
    assert(l.skip(0) =~= l);
    lemma_ws_back_bounds(l, l.len() as int);
    lemma_ws_back_positive(l, l.len() as int);
    let t = trim(l);
    assert(t.len() > 0 && t[0] == s[0]);
    assert(!rule_chars(t));
}

proof fn lemma_ws_back_positive(l: Seq<char>, j: int)
    requires
        1 <= j <= l.len(),
        !is_ws(l[0]),
    ensures
        ws_back(l, j) >= 1,
    decreases j,
{
    if j > 1 && is_ws(l[j - 1]) {
        lemma_ws_back_positive(l, j - 1);
    }
}

/// Each bundled license body has a line of content.
proof fn lemma_bodies_have_content(kind: LicenseKind)
    ensures
        has_content_line(body_text(kind)),
{
    match kind {
        LicenseKind::Ogl1_0a => {
            reveal_strlit(
                "OPEN GAME LICENSE Version 1.0a\n==============================\n\nThe full text of the Open Game License Version 1.0a is published by the Open Gaming Foundation at https://www.opengamingfoundation.org/ogl.html\n\nCopyright 2000, Wizards of the Coast, Inc.\n",
            );
            lemma_first_line_has_content(OGL_BODY@);
        },
        LicenseKind::CcBySa4_0 => {
            reveal_strlit(
                "Attribution-ShareAlike 4.0 International\n========================================\n\nThe full legal code of the Creative Commons Attribution-ShareAlike 4.0 International Public License is published at https://creativecommons.org/licenses/by-sa/4.0/legalcode\n",
            );
            lemma_first_line_has_content(CC_BY_SA_BODY@);
        },
    }
}

/// Parse a license body into renderable fragments.
///
/// Recognizes setext-style headings (a non-empty line followed by a line of
/// `=` or `-` of length >= 3) and drops standalone separator lines. Non-heading
/// lines that are part of the same paragraph are joined with spaces.
pub fn fragments(kind: LicenseKind) -> (r: Vec<LicenseFragment>)
    ensures
        fragments_v(r@) == body_fragments(body_text(kind)),
        r@.len() > 0,
{
    proof {
        lemma_bodies_have_content(kind);
        law_license_content_gives_fragments(body_text(kind));
    }
    let r = parse_body(body(kind));
    assert(fragments_v(r@).len() == r@.len());
    r
}

/// Whether `line`, trimmed, is three or more `=`/`-` characters.
pub fn is_separator(line: &str) -> (r: bool)
    ensures
        r == is_separator_spec(line@),
{
    let t = trim_chars(&chars_of(line));
    rule_chars_exec(&t)
}

fn rule_chars_exec(t: &Vec<char>) -> (r: bool)
    ensures
        r == rule_chars(t@),
{
    if t.len() < 3 {
        return false;
    }
    let mut k: usize = 0;
    while k < t.len()
        invariant
            0 <= k <= t.len(),
            forall|m: int| 0 <= m < k ==> (t@[m] == '=' || t@[m] == '-'),
        decreases t.len() - k,
    {
        if t[k] != '=' && t[k] != '-' {
            return false;
        }
        k += 1;
    }
    true
}

fn all_chars_exec(t: &Vec<char>, c: char) -> (r: bool)
    ensures
        r == all_chars(t@, c),
{
    let mut k: usize = 0;
    while k < t.len()
        invariant
            0 <= k <= t.len(),
            forall|m: int| 0 <= m < k ==> t@[m] == c,
        decreases t.len() - k,
    {
        if t[k] != c {
            return false;
        }
        k += 1;
    }
    true
}

proof fn lemma_join_step(ts: Seq<Seq<char>>, i: int, k: int)
    requires
        0 <= i < k < ts.len(),
    ensures
        join(ts.subrange(i, k + 1), seq![' ']) == join(ts.subrange(i, k), seq![' ']) + seq![' ']
            + ts[k],
{
    let s = ts.subrange(i, k + 1);
    assert(s.drop_last() =~= ts.subrange(i, k));
}

/// Parses a license body (see `body_fragments`).
pub fn parse_body(text: &str) -> (r: Vec<LicenseFragment>)
    ensures
        fragments_v(r@) == body_fragments(text@),
{
    let raw = lines_exec(&chars_of(text));
    let n = raw.len();
    let mut ts: Vec<Vec<char>> = Vec::new();
    let mut m: usize = 0;
    while m < n
        invariant
            n == raw.len(),
            0 <= m <= n,
            seqs_of(raw@) == lines(text@),
            seqs_of(ts@) == trim_all(lines(text@)).take(m as int),
        decreases n - m,
    {
        let t = trim_chars(&raw[m]);
        let ghost before = seqs_of(ts@);
        let ghost old_ts = ts@;
        assert(seqs_of(raw@)[m as int] == raw@[m as int]@);
        assert(trim_all(lines(text@)).len() == n);
        assert(before.len() == m);
        ts.push(t);
        assert forall|k: int| 0 <= k < m + 1 implies #[trigger] seqs_of(ts@)[k] == trim_all(
            lines(text@),
        ).take(m + 1)[k] by {
            if k < m {
                assert(ts@[k] == old_ts[k]);
                assert(before[k] == old_ts[k]@);
            }
        }
        assert(seqs_of(ts@) =~= trim_all(lines(text@)).take(m + 1));
        m += 1;
    }
    let ghost tv = trim_all(lines(text@));
    assert(seqs_of(ts@) =~= tv);
    let mut out: Vec<LicenseFragment> = Vec::new();
    let mut i: usize = 0;
    while i < n
        invariant
            n == ts.len(),
            0 <= i <= n,
            seqs_of(ts@) == tv,
            frags_from(tv, 0) == fragments_v(out@) + frags_from(tv, i as int),
        decreases n - i,
    {
        let ghost before = fragments_v(out@);
        assert(tv[i as int] == ts@[i as int]@) by {
            assert(seqs_of(ts@)[i as int] == ts@[i as int]@);
        }
        if i + 1 < n {
            assert(tv[i + 1] == ts@[i + 1]@) by {
                assert(seqs_of(ts@)[i + 1] == ts@[i + 1]@);
            }
        }
        if ts[i].len() == 0 {
            i += 1;
            continue;
        }
        if i + 1 < n && ts[i + 1].len() >= 3 {
            if all_chars_exec(&ts[i + 1], '=') {
                out.push(LicenseFragment::Heading2(string_of(ts[i].as_slice())));
                assert(fragments_v(out@) =~= before + seq![FragmentV::Heading2(tv[i as int])]);
                i += 2;
                continue;
            }
            if all_chars_exec(&ts[i + 1], '-') {
                out.push(LicenseFragment::Heading3(string_of(ts[i].as_slice())));
                assert(fragments_v(out@) =~= before + seq![FragmentV::Heading3(tv[i as int])]);
                i += 2;
                continue;
            }
        }
        if rule_chars_exec(&ts[i]) {
            i += 1;
            continue;
        }
        let start = i;
        let mut para = String::new();
        push_chars(&mut para, &ts[i]);
        i += 1;
        proof {
            assert(ts@.subrange(start as int, start + 1) =~= seq![ts@[start as int]]);
            assert(tv.subrange(start as int, start + 1) =~= seq![tv[start as int]]);
        }
        while i < n
            invariant
                n == ts.len(),
                start < i <= n,
                seqs_of(ts@) == tv,
                para@ == join(tv.subrange(start as int, i as int), seq![' ']),
                para_end(tv, start + 1) == para_end(tv, i as int),
            ensures
                start < i <= n,
                para@ == join(tv.subrange(start as int, i as int), seq![' ']),
                para_end(tv, start + 1) == i,
            decreases n - i,
        {
            assert(tv[i as int] == ts@[i as int]@) by {
                assert(seqs_of(ts@)[i as int] == ts@[i as int]@);
            }
            if i + 1 < n {
                assert(tv[i + 1] == ts@[i + 1]@) by {
                    assert(seqs_of(ts@)[i + 1] == ts@[i + 1]@);
                }
            }
            if ts[i].len() == 0 || rule_chars_exec(&ts[i]) {
                break;
            }
            if i + 1 < n && rule_chars_exec(&ts[i + 1]) {
                break;
            }
            push_char(&mut para, ' ');
            push_chars(&mut para, &ts[i]);
            proof {
                lemma_join_step(tv, start as int, i as int);
            }
            i += 1;
        }
        out.push(LicenseFragment::Paragraph(para));
        assert(fragments_v(out@) =~= before + seq![
            FragmentV::Paragraph(join(tv.subrange(start as int, i as int), seq![' ']))
        ]);
    }
    out
}

/// The text `title` returns.
pub open spec fn title_text(kind: LicenseKind) -> Seq<char> {
    match kind {
        LicenseKind::Ogl1_0a => "Open Game License v1.0a"@,
        LicenseKind::CcBySa4_0 => "Creative Commons Attribution-ShareAlike 4.0 International"@,
    }
}

pub fn title(kind: LicenseKind) -> (r: &'static str)
    ensures
        r@ == title_text(kind),
{
    match kind {
        LicenseKind::Ogl1_0a => "Open Game License v1.0a",
        LicenseKind::CcBySa4_0 => "Creative Commons Attribution-ShareAlike 4.0 International",
    }
}

/// The text `short_name` returns.
pub open spec fn short_name_text(kind: LicenseKind) -> Seq<char> {
    match kind {
        LicenseKind::Ogl1_0a => "OGL v1.0a"@,
        LicenseKind::CcBySa4_0 => "CC BY-SA 4.0"@,
    }
}

pub fn short_name(kind: LicenseKind) -> (r: &'static str)
    ensures
        r@ == short_name_text(kind),
{
    match kind {
        LicenseKind::Ogl1_0a => "OGL v1.0a",
        LicenseKind::CcBySa4_0 => "CC BY-SA 4.0",
    }
}

/// The text `url` returns.
pub open spec fn url_text(kind: LicenseKind) -> Seq<char> {
    match kind {
        LicenseKind::Ogl1_0a => "https://www.opengamingfoundation.org/ogl.html"@,
        LicenseKind::CcBySa4_0 => "https://creativecommons.org/licenses/by-sa/4.0/"@,
    }
}

pub fn url(kind: LicenseKind) -> (r: &'static str)
    ensures
        r@ == url_text(kind),
{
    match kind {
        LicenseKind::Ogl1_0a => "https://www.opengamingfoundation.org/ogl.html",
        LicenseKind::CcBySa4_0 => "https://creativecommons.org/licenses/by-sa/4.0/",
    }
}

} // verus!
