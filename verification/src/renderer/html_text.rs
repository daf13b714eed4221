//! Character-level pieces of the HTML renderer: escaping, typography, and the
//! inline-markdown converter used for stat-block text.

use vstd::prelude::*;

use crate::text::{
    chars_of, join, lines, lines_exec, push_char, push_str, seqs_of, slice_chars,
    split, split_exec, string_of, trim, trim_chars,
};
use crate::parser::extensions::{strip_prefix, strip_prefix_exec};

verus! {

// ---------------------------------------------------------------------------
// Escaping and typography
// ---------------------------------------------------------------------------

/// The HTML text for one character: `<`, `>`, `&` and `"` as entities.
pub open spec fn esc_char(c: char) -> Seq<char> {
    if c == '<' {
        "&lt;"@
    } else if c == '>' {
        "&gt;"@
    } else if c == '&' {
        "&amp;"@
    } else if c == '"' {
        "&quot;"@
    } else {
        seq![c]
    }
}

/// `s` with every character HTML-escaped.
pub open spec fn escape_spec(s: Seq<char>) -> Seq<char>
    decreases s.len(),
{
    if s.len() == 0 {
        Seq::empty()
    } else {
        escape_spec(s.drop_last()) + esc_char(s.last())
    }
}

/// `->` replaced by `→`, left to right, from position `i` on.
pub open spec fn typo_from(s: Seq<char>, i: int) -> Seq<char>
    decreases s.len() - i,
{
    if i < 0 || i >= s.len() {
        Seq::empty()
    } else if i + 1 < s.len() && s[i] == '-' && s[i + 1] == '>' {
        seq!['\u{2192}'] + typo_from(s, i + 2)
    } else {
        seq![s[i]] + typo_from(s, i + 1)
    }
}

/// `str::replace("->", "→")`.
pub open spec fn typography(s: Seq<char>) -> Seq<char> {
    typo_from(s, 0)
}

proof fn lemma_esc_char_clean(c: char)
    ensures
        forall|i: int|
            0 <= i < esc_char(c).len() ==> #[trigger] esc_char(c)[i] != '<' && esc_char(c)[i]
                != '>' && esc_char(c)[i] != '"',
{
    reveal_strlit("&lt;");
    reveal_strlit("&gt;");
    reveal_strlit("&amp;");
    reveal_strlit("&quot;");
}

/// Escaped text holds no `<`, `>` or `"`: whatever the input, it cannot open
/// or close a tag or an attribute value.
pub proof fn law_escaped_text_has_no_markup(s: Seq<char>)
    ensures
        forall|i: int|
            0 <= i < escape_spec(s).len() ==> #[trigger] escape_spec(s)[i] != '<' && escape_spec(
                s,
            )[i] != '>' && escape_spec(s)[i] != '"',
    decreases s.len(),
{
    if s.len() > 0 {
        law_escaped_text_has_no_markup(s.drop_last());
        lemma_esc_char_clean(s.last());
        let a = escape_spec(s.drop_last());
        let b = esc_char(s.last());
        assert forall|i: int| 0 <= i < (a + b).len() implies #[trigger] (a + b)[i] != '<' && (a
            + b)[i] != '>' && (a + b)[i] != '"' by {
            if i < a.len() {
                assert((a + b)[i] == a[i]);
            } else {
                assert((a + b)[i] == b[i - a.len()]);
            }
        }
    }
}

/// Reading HTML text: `&lt;`, `&gt;`, `&amp;` and `&quot;` stand for their
/// characters, everything else for itself.
pub open spec fn decode_entities(s: Seq<char>) -> Seq<char>
    decreases s.len(),
{
    if s.len() == 0 {
        Seq::empty()
    } else if s.len() >= 4 && s.take(4) == "&lt;"@ {
        seq!['<'] + decode_entities(s.skip(4))
    } else if s.len() >= 4 && s.take(4) == "&gt;"@ {
        seq!['>'] + decode_entities(s.skip(4))
    } else if s.len() >= 5 && s.take(5) == "&amp;"@ {
        seq!['&'] + decode_entities(s.skip(5))
    } else if s.len() >= 6 && s.take(6) == "&quot;"@ {
        seq!['"'] + decode_entities(s.skip(6))
    } else {
        seq![s[0]] + decode_entities(s.skip(1))
    }
}

proof fn lemma_decode_esc_char(c: char, b: Seq<char>)
    ensures
        decode_entities(esc_char(c) + b) == seq![c] + decode_entities(b),
{
    reveal_strlit("&lt;");
    reveal_strlit("&gt;");
    reveal_strlit("&amp;");
    reveal_strlit("&quot;");
    let e = esc_char(c);
    let s = e + b;
    assert(s.skip(e.len() as int) =~= b);
    if c == '<' {
        assert(s.take(4) =~= "&lt;"@);
    } else if c == '>' {
        assert(s.take(4) =~= "&gt;"@);
        assert(s.take(4) != "&lt;"@) by {
            assert(s.take(4)[1] != "&lt;"@[1]);
        }
    } else if c == '&' {
        assert(s.take(5) =~= "&amp;"@);
        assert(s.take(4)[1] == 'a');
        assert(s.take(4) != "&lt;"@ && s.take(4) != "&gt;"@) by {
            assert(s.take(4)[1] != "&lt;"@[1]);
            assert(s.take(4)[1] != "&gt;"@[1]);
        }
    } else if c == '"' {
        assert(s.take(6) =~= "&quot;"@);
        assert(s.take(4)[1] == 'q' && s.take(5)[1] == 'q');
        assert(s.take(4) != "&lt;"@ && s.take(4) != "&gt;"@ && s.take(5) != "&amp;"@) by {
            assert(s.take(4)[1] != "&lt;"@[1]);
            assert(s.take(4)[1] != "&gt;"@[1]);
            assert(s.take(5)[1] != "&amp;"@[1]);
        }
    } else {
        assert(s[0] == c);
        assert(s.len() >= 4 ==> s.take(4)[0] == c && "&lt;"@[0] == '&');
        assert(s.len() >= 4 ==> s.take(4) != "&lt;"@ && s.take(4) != "&gt;"@) by {
            if s.len() >= 4 {
                assert(s.take(4)[0] != "&lt;"@[0]);
                assert(s.take(4)[0] != "&gt;"@[0]);
            }
        }
        assert(s.len() >= 5 ==> s.take(5) != "&amp;"@) by {
            if s.len() >= 5 {
                assert(s.take(5)[0] != "&amp;"@[0]);
            }
        }
        assert(s.len() >= 6 ==> s.take(6) != "&quot;"@) by {
            if s.len() >= 6 {
                assert(s.take(6)[0] != "&quot;"@[0]);
            }
        }
    }
}

proof fn lemma_decode_escaped(t: Seq<char>, b: Seq<char>)
    ensures
        decode_entities(escape_spec(t) + b) == t + decode_entities(b),
    decreases t.len(),
{
    if t.len() > 0 {
        let c = t.last();
        assert(escape_spec(t) + b =~= escape_spec(t.drop_last()) + (esc_char(c) + b));
        lemma_decode_escaped(t.drop_last(), esc_char(c) + b);
        lemma_decode_esc_char(c, b);
        assert(t.drop_last() + (seq![c] + decode_entities(b)) =~= t + decode_entities(b));
    } else {
        assert(escape_spec(t) + b =~= b);
        assert(t + decode_entities(b) =~= decode_entities(b));
    }
}

/// HTML escaping loses nothing: decoding the entities gives the text back.
pub proof fn law_escaped_html_decodes_to_text(s: Seq<char>)
    ensures
        decode_entities(escape_spec(s)) == s,
{
    lemma_decode_escaped(s, Seq::empty());
    assert(escape_spec(s) + Seq::<char>::empty() =~= escape_spec(s));
    assert(s + decode_entities(Seq::<char>::empty()) =~= s);
}

proof fn lemma_typo_from_head(s: Seq<char>, i: int)
    requires
        0 <= i,
    ensures
        typo_from(s, i).len() > 0 ==> i < s.len() && (typo_from(s, i)[0] == '\u{2192}'
            || typo_from(s, i)[0] == s[i]),
        forall|k: int|
            0 <= k && k + 1 < typo_from(s, i).len() ==> !(#[trigger] typo_from(s, i)[k] == '-'
                && typo_from(s, i)[k + 1] == '>'),
    decreases s.len() - i,
{
    if i < s.len() {
        let t = typo_from(s, i);
        if i + 1 < s.len() && s[i] == '-' && s[i + 1] == '>' {
            lemma_typo_from_head(s, i + 2);
            let r = typo_from(s, i + 2);
            assert forall|k: int| 0 <= k && k + 1 < t.len() implies !(#[trigger] t[k] == '-'
                && t[k + 1] == '>') by {
                if k > 0 {
                    assert(t[k] == r[k - 1] && t[k + 1] == r[k]);
                } else {
                    assert(t[0] == '\u{2192}');
                }
            }
        } else {
            lemma_typo_from_head(s, i + 1);
            let r = typo_from(s, i + 1);
            assert forall|k: int| 0 <= k && k + 1 < t.len() implies !(#[trigger] t[k] == '-'
                && t[k + 1] == '>') by {
                if k > 0 {
                    assert(t[k] == r[k - 1] && t[k + 1] == r[k]);
                } else {
                    assert(t[0] == s[i] && t[1] == r[0]);
                }
            }
        }
    }
}

/// After typography no `->` is left: each one became an arrow.
pub proof fn law_typography_leaves_no_ascii_arrow(s: Seq<char>)
    ensures
        forall|k: int|
            0 <= k && k + 1 < typography(s).len() ==> !(#[trigger] typography(s)[k] == '-'
                && typography(s)[k + 1] == '>'),
{
    lemma_typo_from_head(s, 0);
}

/// HTML-escape a single character.
pub fn push_html_char(out: &mut String, c: char)
    ensures
        final(out)@ == old(out)@ + esc_char(c),
{
    if c == '<' {
        push_str(out, "&lt;");
    } else if c == '>' {
        push_str(out, "&gt;");
    } else if c == '&' {
        push_str(out, "&amp;");
    } else if c == '"' {
        push_str(out, "&quot;");
    } else {
        push_char(out, c);
        assert(out@ =~= old(out)@ + seq![c]);
    }
}

/// Appends the HTML-escaped characters of `v`.
pub fn push_escaped(out: &mut String, v: &Vec<char>)
    ensures
        final(out)@ == old(out)@ + escape_spec(v@),
{
    let mut i: usize = 0;
    while i < v.len()
        invariant
            0 <= i <= v.len(),
            out@ == old(out)@ + escape_spec(v@.take(i as int)),
        decreases v.len() - i,
    {
        push_html_char(out, v[i]);
        proof {
            assert(v@.take(i + 1).drop_last() =~= v@.take(i as int));
        }
        i += 1;
        assert(out@ =~= old(out)@ + escape_spec(v@.take(i as int)));
    }
    assert(v@.take(v@.len() as int) =~= v@);
}

pub fn escape_html(text: &str) -> (r: String)
    ensures
        r@ == escape_spec(text@),
{
    let mut out = String::new();
    push_escaped(&mut out, &chars_of(text));
    assert(out@ =~= escape_spec(text@));
    out
}

pub fn typography_chars(v: &Vec<char>) -> (r: Vec<char>)
    ensures
        r@ == typography(v@),
{
    let mut out: Vec<char> = Vec::new();
    let mut i: usize = 0;
    while i < v.len()
        invariant
            0 <= i <= v.len(),
            out@ + typo_from(v@, i as int) == typography(v@),
        decreases v.len() - i,
    {
        let ghost prev = out@;
        if i + 1 < v.len() && v[i] == '-' && v[i + 1] == '>' {
            out.push('\u{2192}');
            assert(out@ + typo_from(v@, i + 2) =~= prev + typo_from(v@, i as int));
            i += 2;
        } else {
            out.push(v[i]);
            assert(out@ + typo_from(v@, i + 1) =~= prev + typo_from(v@, i as int));
            i += 1;
        }
    }
    assert(out@ =~= out@ + typo_from(v@, i as int));
    out
}

/// Typographic substitutions for prose. Run *before* HTML escaping so that
/// `->` is consumed as a unit instead of being split by the `>` escape.
pub fn apply_typography(text: &str) -> (r: String)
    ensures
        r@ == typography(text@),
{
    string_of(typography_chars(&chars_of(text)).as_slice())
}

// ---------------------------------------------------------------------------
// Inline markdown for stat-block text
// ---------------------------------------------------------------------------

/// The next `**` at or after `i`; a backslash hides the character after it.
pub open spec fn fds_from(cs: Seq<char>, i: int) -> Option<int>
    decreases cs.len() - i,
{
    if i < 0 || i + 1 >= cs.len() {
        None
    } else if cs[i] == '\\' {
        fds_from(cs, i + 2)
    } else if cs[i] == '*' && cs[i + 1] == '*' {
        Some(i)
    } else {
        fds_from(cs, i + 1)
    }
}

/// A `*` with no `*` on either side.
pub open spec fn lone_star(cs: Seq<char>, i: int) -> bool {
    cs[i] == '*' && (i == 0 || cs[i - 1] != '*') && (i + 1 >= cs.len() || cs[i + 1] != '*')
}

/// The next lone `*` at or after `i`; a backslash hides the character after it.
pub open spec fn fss_from(cs: Seq<char>, i: int) -> Option<int>
    decreases cs.len() - i,
{
    if i < 0 || i >= cs.len() {
        None
    } else if cs[i] == '\\' && i + 1 < cs.len() {
        fss_from(cs, i + 2)
    } else if lone_star(cs, i) {
        Some(i)
    } else {
        fss_from(cs, i + 1)
    }
}

pub proof fn lemma_fds_bounds(cs: Seq<char>, i: int)
    requires
        0 <= i,
    ensures
        fds_from(cs, i) matches Some(k) ==> i <= k && k + 1 < cs.len(),
    decreases cs.len() - i,
{
    if i + 1 < cs.len() {
        if cs[i] == '\\' {
            lemma_fds_bounds(cs, i + 2);
        } else if !(cs[i] == '*' && cs[i + 1] == '*') {
            lemma_fds_bounds(cs, i + 1);
        }
    }
}

pub proof fn lemma_fss_bounds(cs: Seq<char>, i: int)
    requires
        0 <= i,
    ensures
        fss_from(cs, i) matches Some(k) ==> i <= k < cs.len(),
    decreases cs.len() - i,
{
    if i < cs.len() {
        if cs[i] == '\\' && i + 1 < cs.len() {
            lemma_fss_bounds(cs, i + 2);
        } else if !lone_star(cs, i) {
            lemma_fss_bounds(cs, i + 1);
        }
    }
}

/// Escaped text of a bold or italic span from `i` on: a backslash emits the
/// next character, and every character is HTML-escaped.
pub open spec fn pit_from(cs: Seq<char>, i: int) -> Seq<char>
    decreases cs.len() - i,
{
    if i < 0 || i >= cs.len() {
        Seq::empty()
    } else if cs[i] == '\\' && i + 1 < cs.len() {
        esc_char(cs[i + 1]) + pit_from(cs, i + 2)
    } else {
        esc_char(cs[i]) + pit_from(cs, i + 1)
    }
}

/// The HTML for the characters of `cs` from `i` on: `\X` escapes, `**bold**`,
/// `*italic*` (no nesting), everything else escaped.
pub open spec fn cim_from(cs: Seq<char>, i: int) -> Seq<char>
    decreases cs.len() - i,
{
    if i < 0 || i >= cs.len() {
        Seq::empty()
    } else if cs[i] == '\\' && i + 1 < cs.len() {
        esc_char(cs[i + 1]) + cim_from(cs, i + 2)
    } else if i + 1 < cs.len() && cs[i] == '*' && cs[i + 1] == '*' && fds_from(cs, i + 2) is Some {
        let end = fds_from(cs, i + 2).unwrap();
        if end < i + 2 || end + 2 > cs.len() {
            Seq::empty()
        } else {
            "<strong>"@ + pit_from(cs.subrange(i + 2, end), 0) + "</strong>"@ + cim_from(
                cs,
                end + 2,
            )
        }
    } else if lone_star(cs, i) && fss_from(cs, i + 1) is Some {
        let end = fss_from(cs, i + 1).unwrap();
        if end < i + 1 || end + 1 > cs.len() {
            Seq::empty()
        } else {
            "<em>"@ + pit_from(cs.subrange(i + 1, end), 0) + "</em>"@ + cim_from(cs, end + 1)
        }
    } else {
        esc_char(cs[i]) + cim_from(cs, i + 1)
    }
}

/// Inline markdown of stat-block text converted to HTML, after typography.
pub open spec fn inline_markdown(s: Seq<char>) -> Seq<char> {
    cim_from(typography(s), 0)
}

pub fn find_double_star(chars: &Vec<char>, start: usize) -> (r: Option<usize>)
    ensures
        r matches Some(k) ==> fds_from(chars@, start as int) == Some(k as int),
        r is None ==> fds_from(chars@, start as int) is None,
{
    let mut i = start;
    while i < chars.len() && i + 1 < chars.len()
        invariant
            start <= i,
            fds_from(chars@, start as int) == fds_from(chars@, i as int),
        decreases chars.len() - i,
    {
        if chars[i] == '\\' {
            i += 2;
            continue;
        }
        if chars[i] == '*' && chars[i + 1] == '*' {
            return Some(i);
        }
        i += 1;
    }
    None
}

/// Find the next isolated single `*` — i.e. one with no `*` adjacent on
/// either side. This is what closes an italic span; without the prev-side
/// check, we'd happily match the second `*` of a nearby `**` pair.
pub fn find_single_star(chars: &Vec<char>, start: usize) -> (r: Option<usize>)
    ensures
        r matches Some(k) ==> fss_from(chars@, start as int) == Some(k as int),
        r is None ==> fss_from(chars@, start as int) is None,
{
    let mut i = start;
    while i < chars.len()
        invariant
            start <= i,
            fss_from(chars@, start as int) == fss_from(chars@, i as int),
        decreases chars.len() - i,
    {
        if chars[i] == '\\' && i + 1 < chars.len() {
            i += 2;
            continue;
        }
        let prev_ok = i == 0 || chars[i - 1] != '*';
        let next_ok = i + 1 >= chars.len() || chars[i + 1] != '*';
        if chars[i] == '*' && prev_ok && next_ok {
            return Some(i);
        }
        i += 1;
    }
    None
}

/// Process the inside of a bold/italic span: handles backslash escapes and
/// HTML escapes, but does not recurse into nested emphasis.
pub fn process_inline_text(chars: &Vec<char>) -> (r: String)
    ensures
        r@ == pit_from(chars@, 0),
{
    let mut result = String::new();
    let mut i: usize = 0;
    while i < chars.len()
        invariant
            0 <= i <= chars.len(),
            result@ + pit_from(chars@, i as int) == pit_from(chars@, 0),
        decreases chars.len() - i,
    {
        let ghost prev = result@;
        if chars[i] == '\\' && i + 1 < chars.len() {
            push_html_char(&mut result, chars[i + 1]);
            assert(result@ + pit_from(chars@, i + 2) =~= prev + pit_from(chars@, i as int));
            i += 2;
            continue;
        }
        push_html_char(&mut result, chars[i]);
        assert(result@ + pit_from(chars@, i + 1) =~= prev + pit_from(chars@, i as int));
        i += 1;
    }
    assert(result@ =~= result@ + pit_from(chars@, i as int));
    result
}

pub fn convert_inline_markdown(text: &Vec<char>) -> (r: String)
    ensures
        r@ == inline_markdown(text@),
{
    let chars = typography_chars(text);
    let mut result = String::new();
    let mut i: usize = 0;
    while i < chars.len()
        invariant
            0 <= i <= chars.len(),
            result@ + cim_from(chars@, i as int) == cim_from(chars@, 0),
        decreases chars.len() - i,
    {
        let ghost prev = result@;
        // Backslash escape: \X emits X literally (still HTML-escaped if needed).
        if chars[i] == '\\' && i + 1 < chars.len() {
            push_html_char(&mut result, chars[i + 1]);
            assert(result@ + cim_from(chars@, i + 2) =~= prev + cim_from(chars@, i as int));
            i += 2;
            continue;
        }
        // Check for ** (bold)

        if i + 1 < chars.len() && chars[i] == '*' && chars[i + 1] == '*' {
            proof {
                lemma_fds_bounds(chars@, i + 2);
            }
            if let Some(end) = find_double_star(&chars, i + 2) {
                let inner = slice_chars(&chars, i + 2, end);
                push_str(&mut result, "<strong>");
                let t = process_inline_text(&inner);
                push_str(&mut result, t.as_str());
                push_str(&mut result, "</strong>");
                assert(result@ + cim_from(chars@, end + 2) =~= prev + cim_from(chars@, i as int));
                i = end + 2;
                continue;
            }
        }
        // Check for single * (italic): isolated star, no `*` on either side.

        if chars[i] == '*' && (i == 0 || chars[i - 1] != '*') && (i + 1 >= chars.len() || chars[i
            + 1] != '*') {
            proof {
                lemma_fss_bounds(chars@, i + 1);
            }
            if let Some(end) = find_single_star(&chars, i + 1) {
                let inner = slice_chars(&chars, i + 1, end);
                push_str(&mut result, "<em>");
                let t = process_inline_text(&inner);
                push_str(&mut result, t.as_str());
                push_str(&mut result, "</em>");
                assert(result@ + cim_from(chars@, end + 1) =~= prev + cim_from(chars@, i as int));
                i = end + 1;
                continue;
            }
        }
        push_html_char(&mut result, chars[i]);
        assert(result@ + cim_from(chars@, i + 1) =~= prev + cim_from(chars@, i as int));
        i += 1;
    }
    assert(result@ =~= result@ + cim_from(chars@, i as int));
    result
}

// ---------------------------------------------------------------------------
// Stat-block text
// ---------------------------------------------------------------------------

/// The state of one stat-block chunk while its lines are read.
#[verifier::ext_equal]
pub struct MtState {
    pub block: Seq<char>,
    pub para: Seq<Seq<char>>,
    pub bullets: Seq<Seq<char>>,
    pub in_bullets: bool,
}

pub open spec fn mt_init() -> MtState {
    MtState { block: Seq::empty(), para: Seq::empty(), bullets: Seq::empty(), in_bullets: false }
}

/// `<br>\n` before further text when the block already holds some.
pub open spec fn with_break(block: Seq<char>) -> Seq<char> {
    if block.len() > 0 {
        block + "<br>\n"@
    } else {
        block
    }
}

/// Pending paragraph lines, joined with spaces, converted and appended.
pub open spec fn flush_para(st: MtState) -> MtState {
    if st.para.len() > 0 {
        MtState {
            block: with_break(st.block) + inline_markdown(join(st.para, seq![' '])),
            para: Seq::empty(),
            ..st
        }
    } else {
        st
    }
}

/// The list items of `bs`.
pub open spec fn bullets_html(bs: Seq<Seq<char>>) -> Seq<char>
    decreases bs.len(),
{
    if bs.len() == 0 {
        Seq::empty()
    } else {
        bullets_html(bs.drop_last()) + "<li>"@ + inline_markdown(bs.last()) + "</li>"@
    }
}

/// Pending bullets appended as a `<ul>`.
pub open spec fn flush_bullets(st: MtState) -> MtState {
    if st.bullets.len() > 0 {
        MtState {
            block: st.block + "<ul>"@ + bullets_html(st.bullets) + "</ul>"@,
            bullets: Seq::empty(),
            ..st
        }
    } else {
        st
    }
}

/// The item of a bullet line (`- ` or `* `).
pub open spec fn bullet_of(line: Seq<char>) -> Option<Seq<char>> {
    match strip_prefix(line, "- "@) {
        Some(x) => Some(x),
        None => strip_prefix(line, "* "@),
    }
}

/// The title of a sub-heading line (`#### ` or `### `).
pub open spec fn heading_of(line: Seq<char>) -> Option<Seq<char>> {
    match strip_prefix(line, "#### "@) {
        Some(x) => Some(x),
        None => strip_prefix(line, "### "@),
    }
}

/// Reading one line of a chunk.
pub open spec fn mt_line(st: MtState, raw: Seq<char>) -> MtState {
    let line = trim(raw);
    match bullet_of(line) {
        Some(item) => {
            let st2 = if !st.in_bullets {
                MtState { in_bullets: true, ..flush_para(st) }
            } else {
                st
            };
            MtState { bullets: st2.bullets.push(item), ..st2 }
        },
        None => match heading_of(line) {
            Some(h) => {
                let f = MtState { in_bullets: false, ..flush_bullets(flush_para(st)) };
                MtState {
                    block: with_break(f.block) + "<strong>"@ + escape_spec(h) + "</strong>"@,
                    ..f
                }
            },
            None => if st.in_bullets {
                if st.bullets.len() > 0 {
                    MtState {
                        bullets: st.bullets.update(
                            st.bullets.len() - 1,
                            st.bullets.last() + seq![' '] + line,
                        ),
                        ..st
                    }
                } else {
                    st
                }
            } else {
                MtState { para: st.para.push(line), ..st }
            },
        },
    }
}

/// The state after the first `k` lines of `ls`.
pub open spec fn mt_fold(ls: Seq<Seq<char>>, k: int) -> MtState
    decreases k,
{
    if k <= 0 || k > ls.len() {
        mt_init()
    } else {
        mt_line(mt_fold(ls, k - 1), ls[k - 1])
    }
}

/// The HTML block of one blank-line-separated chunk.
pub open spec fn chunk_block(chunk: Seq<char>) -> Seq<char> {
    let ls = lines(trim(chunk));
    flush_bullets(flush_para(mt_fold(ls, ls.len() as int))).block
}

/// The non-empty blocks of the first `k` chunks.
pub open spec fn md_blocks(chunks: Seq<Seq<char>>, k: int) -> Seq<Seq<char>>
    decreases k,
{
    if k <= 0 || k > chunks.len() {
        Seq::empty()
    } else if chunk_block(chunks[k - 1]).len() > 0 {
        md_blocks(chunks, k - 1).push(chunk_block(chunks[k - 1]))
    } else {
        md_blocks(chunks, k - 1)
    }
}

/// Stat-block text as HTML: chunks split at blank lines, their blocks joined
/// with `<br>\n`.
pub open spec fn markdown_text_html(text: Seq<char>) -> Seq<char> {
    let chunks = split(text, "\n\n"@);
    join(md_blocks(chunks, chunks.len() as int), "<br>\n"@)
}

pub open spec fn mt_view(block: String, para: Seq<Vec<char>>, bullets: Seq<Vec<char>>, in_bullets: bool) -> MtState {
    MtState { block: block@, para: seqs_of(para), bullets: seqs_of(bullets), in_bullets }
}

fn do_flush_para(para_buf: &mut Vec<Vec<char>>, block: &mut String)
    ensures
        final(block)@ == flush_para(mt_view(*old(block), old(para_buf)@, Seq::empty(), false)).block,
        seqs_of(final(para_buf)@) == Seq::<Seq<char>>::empty(),
{
    if para_buf.len() > 0 {
        if !block.as_str().is_empty() {
            push_str(block, "<br>\n");
        }
        proof {
            assert(block@ == with_break(old(block)@)) by {
                if old(block)@.len() == 0 {
                    assert(block@ =~= old(block)@);
                }
            }
        }
        let joined = join_chars(para_buf, ' ');
        let t = convert_inline_markdown(&joined);
        push_str(block, t.as_str());
        *para_buf = Vec::new();
    }
    assert(seqs_of(para_buf@) =~= Seq::<Seq<char>>::empty());
}

fn do_flush_bullets(bullets: &mut Vec<Vec<char>>, block: &mut String)
    ensures
        final(block)@ == flush_bullets(mt_view(*old(block), Seq::empty(), old(bullets)@, false)).block,
        seqs_of(final(bullets)@) == Seq::<Seq<char>>::empty(),
{
    if bullets.len() > 0 {
        push_str(block, "<ul>");
        let ghost start = block@;
        let mut k: usize = 0;
        while k < bullets.len()
            invariant
                0 <= k <= bullets.len(),
                block@ == start + bullets_html(seqs_of(bullets@).take(k as int)),
            decreases bullets.len() - k,
        {
            let ghost prev = block@;
            push_str(block, "<li>");
            let t = convert_inline_markdown(&bullets[k]);
            push_str(block, t.as_str());
            push_str(block, "</li>");
            proof {
                let s = seqs_of(bullets@).take(k + 1);
                assert(s.drop_last() =~= seqs_of(bullets@).take(k as int));
                assert(s.last() == bullets@[k as int]@);
            }
            k += 1;
            assert(block@ =~= start + bullets_html(seqs_of(bullets@).take(k as int)));
        }
        assert(seqs_of(bullets@).take(k as int) =~= seqs_of(bullets@));
        push_str(block, "</ul>");
        *bullets = Vec::new();
    }
    assert(seqs_of(bullets@) =~= Seq::<Seq<char>>::empty());
}

fn mt_line_exec(
    raw: &Vec<char>,
    block: &mut String,
    para: &mut Vec<Vec<char>>,
    bullets: &mut Vec<Vec<char>>,
    in_bullets: &mut bool,
)
    ensures
        mt_view(*final(block), final(para)@, final(bullets)@, *final(in_bullets)) == mt_line(
            mt_view(*old(block), old(para)@, old(bullets)@, *old(in_bullets)),
            raw@,
        ),
{
    let ghost st = mt_view(*block, para@, bullets@, *in_bullets);
    let line = trim_chars(raw);
    let bullet = match strip_prefix_exec(&line, "- ") {
        Some(x) => Some(x),
        None => strip_prefix_exec(&line, "* "),
    };
    let heading = match strip_prefix_exec(&line, "#### ") {
        Some(x) => Some(x),
        None => strip_prefix_exec(&line, "### "),
    };
    assert(match bullet {
        Some(x) => bullet_of(line@) == Some(x@),
        None => bullet_of(line@) is None,
    });
    assert(match heading {
        Some(x) => heading_of(line@) == Some(x@),
        None => heading_of(line@) is None,
    });
    if let Some(item) = bullet {
        if !*in_bullets {
            do_flush_para(para, block);
            *in_bullets = true;
        }
        let ghost mid = bullets@;
        bullets.push(item);
        assert(seqs_of(bullets@) =~= seqs_of(mid).push(item@));
        assert(mt_view(*block, para@, bullets@, *in_bullets) =~= mt_line(st, raw@));
    } else if let Some(h) = heading {
        do_flush_para(para, block);
        do_flush_bullets(bullets, block);
        *in_bullets = false;
        let ghost mid = block@;
        if !block.as_str().is_empty() {
            push_str(block, "<br>\n");
        }
        assert(block@ == with_break(mid)) by {
            if mid.len() == 0 {
                assert(block@ =~= mid);
            }
        }
        push_str(block, "<strong>");
        push_escaped(block, &h);
        push_str(block, "</strong>");
        assert(mt_view(*block, para@, bullets@, *in_bullets) =~= mt_line(st, raw@));
    } else if *in_bullets {
        if bullets.len() > 0 {
            let ghost before = bullets@;
            let mut last = bullets.pop().unwrap();
            assert(last == before.last());
            last.push(' ');
            let ghost l1 = last@;
            assert(l1 =~= before.last()@ + seq![' ']);
            let mut j: usize = 0;
            while j < line.len()
                invariant
                    0 <= j <= line.len(),
                    last@ == l1 + line@.take(j as int),
                decreases line.len() - j,
            {
                last.push(line[j]);
                j += 1;
                assert(last@ =~= l1 + line@.take(j as int));
            }
            assert(line@.take(j as int) =~= line@);
            bullets.push(last);
            assert(bullets@ =~= before.drop_last().push(last));
            assert(seqs_of(before).last() == before.last()@);
            assert(seqs_of(bullets@) =~= seqs_of(before).update(
                before.len() - 1,
                seqs_of(before).last() + seq![' '] + line@,
            ));
        } else {
            assert(seqs_of(bullets@).len() == 0);
        }
        assert(mt_view(*block, para@, bullets@, *in_bullets) =~= mt_line(st, raw@));
    } else {
        let ghost before = para@;
        para.push(line);
        assert(seqs_of(para@) =~= seqs_of(before).push(line@));
        assert(mt_view(*block, para@, bullets@, *in_bullets) =~= mt_line(st, raw@));
    }
}

/// The HTML block of one (trimmed, non-empty) chunk.
fn chunk_block_exec(chunk: &Vec<char>) -> (r: String)
    ensures
        r@ == flush_bullets(flush_para(mt_fold(lines(chunk@), lines(chunk@).len() as int))).block,
{
    let ls = lines_exec(chunk);
    let ghost lv = seqs_of(ls@);
    let mut block = String::new();
    let mut para: Vec<Vec<char>> = Vec::new();
    let mut bullets: Vec<Vec<char>> = Vec::new();
    let mut in_bullets = false;
    let mut j: usize = 0;
    assert(mt_view(block, para@, bullets@, in_bullets) =~= mt_init());
    while j < ls.len()
        invariant
            0 <= j <= ls.len(),
            lv == seqs_of(ls@),
            lv == lines(chunk@),
            mt_view(block, para@, bullets@, in_bullets) == mt_fold(lv, j as int),
        decreases ls.len() - j,
    {
        assert(lv[j as int] == ls@[j as int]@);
        mt_line_exec(&ls[j], &mut block, &mut para, &mut bullets, &mut in_bullets);
        j += 1;
    }
    let ghost st = mt_view(block, para@, bullets@, in_bullets);
    do_flush_para(&mut para, &mut block);
    let ghost st2 = mt_view(block, para@, bullets@, in_bullets);
    assert(st2 =~= flush_para(st));
    do_flush_bullets(&mut bullets, &mut block);
    block
}

/// Convert markdown formatting in stat block text to HTML.
///
/// Single newlines are soft (joined with a space, like a markdown paragraph);
/// blank lines emit a hard line break. Heading-prefixed lines (`### `, `#### `)
/// render as bold sub-headings. Lines starting with `- ` or `* ` become bullet
/// list items grouped into a `<ul>`; lines continuing a bullet without a marker
/// are joined to that bullet's text with a space.
pub fn render_markdown_text(text: &str) -> (r: String)
    ensures
        r@ == markdown_text_html(text@),
{
    let tc = chars_of(text);
    let sep = chars_of("\n\n");
    proof {
        reveal_strlit("\n\n");
    }
    let chunks = split_exec(&tc, &sep);
    let ghost cv = seqs_of(chunks@);
    let mut out = String::new();
    let mut nblocks: usize = 0;
    let mut k: usize = 0;
    while k < chunks.len()
        invariant
            0 <= k <= chunks.len(),
            cv == seqs_of(chunks@),
            cv == split(text@, "\n\n"@),
            nblocks as int == md_blocks(cv, k as int).len(),
            nblocks <= k,
            out@ == join(md_blocks(cv, k as int), "<br>\n"@),
        decreases chunks.len() - k,
    {
        assert(cv[k as int] == chunks@[k as int]@);
        let chunk = trim_chars(&chunks[k]);
        if chunk.len() == 0 {
            proof {
                assert(lines(chunk@) =~= Seq::<Seq<char>>::empty());
                assert(chunk_block(cv[k as int]).len() == 0);
            }
            k += 1;
            continue;
        }
        let block = chunk_block_exec(&chunk);
        if !block.as_str().is_empty() {
            let ghost prev = md_blocks(cv, k as int);
            if nblocks > 0 {
                push_str(&mut out, "<br>\n");
            }
            push_str(&mut out, block.as_str());
            proof {
                let s = md_blocks(cv, k + 1);
                assert(s == prev.push(block@));
                assert(s.drop_last() =~= prev);
                if nblocks == 0 {
                    assert(out@ =~= block@);
                }
            }
            nblocks += 1;
        }
        k += 1;
    }
    out
}

/// `pieces` joined with `sep` between consecutive ones.
pub fn join_chars(pieces: &Vec<Vec<char>>, sep: char) -> (r: Vec<char>)
    ensures
        r@ == join(seqs_of(pieces@), seq![sep]),
{
    let mut out: Vec<char> = Vec::new();
    let mut k: usize = 0;
    while k < pieces.len()
        invariant
            0 <= k <= pieces.len(),
            out@ == join(seqs_of(pieces@).take(k as int), seq![sep]),
        decreases pieces.len() - k,
    {
        let ghost prev = out@;
        if k > 0 {
            out.push(sep);
        }
        let mut j: usize = 0;
        let ghost mid = out@;
        while j < pieces[k].len()
            invariant
                0 <= j <= pieces[k as int].len(),
                k < pieces.len(),
                out@ == mid + pieces[k as int]@.take(j as int),
            decreases pieces[k as int].len() - j,
        {
            out.push(pieces[k][j]);
            j += 1;
            assert(out@ =~= mid + pieces[k as int]@.take(j as int));
        }
        proof {
            assert(pieces[k as int]@.take(j as int) =~= pieces[k as int]@);
            let s = seqs_of(pieces@).take(k + 1);
            assert(s.last() == pieces[k as int]@);
            if k == 0 {
                assert(out@ =~= s[0]);
            } else {
                assert(s.drop_last() =~= seqs_of(pieces@).take(k as int));
                assert(out@ =~= prev + seq![sep] + pieces[k as int]@);
            }
        }
        k += 1;
    }
    assert(seqs_of(pieces@).take(k as int) =~= seqs_of(pieces@));
    out
}

/// A reading state the chunk reader can reach: an open bullet list holds an
/// item.
pub open spec fn mt_wf(st: MtState) -> bool {
    st.in_bullets ==> st.bullets.len() > 0
}

/// Every state reached while reading a chunk's lines has an item in its open
/// bullet list.
pub proof fn law_mt_fold_reachable_states(ls: Seq<Seq<char>>, k: int)
    ensures
        mt_wf(mt_fold(ls, k)),
    decreases k,
{
    if 0 < k <= ls.len() {
        law_mt_fold_reachable_states(ls, k - 1);
    }
}

/// No stat-block text is lost while lines are read: a line that is neither
/// a bullet nor a sub-heading is kept whole, after a space at the end of the
/// item of an open bullet list, or else as a new paragraph line; nothing read
/// before it changes.
pub proof fn law_stat_block_lines_are_kept(st: MtState, raw: Seq<char>)
    requires
        mt_wf(st),
        bullet_of(trim(raw)) is None,
        heading_of(trim(raw)) is None,
    ensures
        ({
            let n = mt_line(st, raw);
            let line = trim(raw);
            &&& n.block == st.block
            &&& n.in_bullets == st.in_bullets
            &&& st.in_bullets ==> {
                &&& n.para == st.para
                &&& n.bullets.len() == st.bullets.len()
                &&& forall|i: int| 0 <= i < st.bullets.len() - 1 ==> n.bullets[i] == st.bullets[i]
                &&& n.bullets.last().len() == st.bullets.last().len() + 1 + line.len()
                &&& n.bullets.last().take(st.bullets.last().len() as int) == st.bullets.last()
                &&& n.bullets.last()[st.bullets.last().len() as int] == ' '
                &&& n.bullets.last().skip(st.bullets.last().len() as int + 1) == line
            }
            &&& !st.in_bullets ==> n.bullets == st.bullets && n.para.len() == st.para.len() + 1
                && n.para.take(st.para.len() as int) == st.para && n.para.last() == line
        }),
{
    let n = mt_line(st, raw);
    let line = trim(raw);
    if st.in_bullets {
        let old_last = st.bullets.last();
        assert(n.bullets.last() == old_last + seq![' '] + line);
        assert(n.bullets.last().take(old_last.len() as int) =~= old_last);
        assert(n.bullets.last().skip(old_last.len() as int + 1) =~= line);
    } else {
        assert(n.para.take(st.para.len() as int) =~= st.para);
    }
}

/// A bullet line adds its item, unchanged, as the last item of the open
/// bullet list, after the items already read.
pub proof fn law_bullet_lines_are_kept(st: MtState, raw: Seq<char>)
    requires
        bullet_of(trim(raw)) is Some,
    ensures
        mt_line(st, raw).in_bullets,
        mt_line(st, raw).bullets.last() == bullet_of(trim(raw)).unwrap(),
        st.in_bullets ==> mt_line(st, raw).bullets.drop_last() == st.bullets,
{
    if st.in_bullets {
        assert(mt_line(st, raw).bullets.drop_last() =~= st.bullets);
    }
}

} // verus!
