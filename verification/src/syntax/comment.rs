//! The comment-embedded mutation grammar.
//!
//! A variation region is a sequence of physical lines: a header line, the
//! base body, any number of variant header lines each followed by a body,
//! and an end-marker line.  Bodies are either active (bare lines) or
//! inactive (wrapped between a `{indent}{comment_begin}{marker}` line and a
//! `{indent}{comment_end}` line).  Every marker line of a region must be
//! newline-terminated.
//!
//! Parsing is specified as a total function of the input text; the parser
//! is proved equal to it, and the round-trip law states that serializing a
//! successful parse reproduces the input bytes exactly.

use vstd::prelude::*;
use vstd::string::StrSliceExecFns;
use vstd::string::StringExecFns;

use crate::code::{ContentView, SpanView};
use crate::languages::Language;
use crate::syntax::lines::{line_text, unlines, LineRec, LineV};
use crate::code::{Span, SpanContent};
use crate::variation::{count_active, BodyView, Variant, VariantBody, VariantView, Variation, VariationView};

verus! {

// ------------------------------------------------------------------
// Character classes and positional scanning
// ------------------------------------------------------------------

/// Horizontal whitespace: what indentation is made of.
pub open spec fn is_ws(c: char) -> bool {
    c == ' ' || c == '\t'
}

/// Identifier characters: ASCII letters, digits and underscore.
pub open spec fn is_ident_char(c: char) -> bool {
    let u = c as u32;
    (97 <= u && u <= 122) || (65 <= u && u <= 90) || (48 <= u && u <= 57) || u == 95
}

/// The first position at or after `i` that is not horizontal whitespace.
pub open spec fn ws_prefix_end(t: Seq<char>, i: int) -> int
    decreases t.len() - i,
{
    if i < 0 || i >= t.len() {
        i
    } else if is_ws(t[i]) {
        ws_prefix_end(t, i + 1)
    } else {
        i
    }
}

/// The first position at or after `i` that is not an identifier character.
pub open spec fn ident_end(t: Seq<char>, i: int) -> int
    decreases t.len() - i,
{
    if i < 0 || i >= t.len() {
        i
    } else if is_ident_char(t[i]) {
        ident_end(t, i + 1)
    } else {
        i
    }
}

pub proof fn lemma_ws_prefix_end(t: Seq<char>, i: int)
    requires
        0 <= i <= t.len(),
    ensures
        i <= ws_prefix_end(t, i) <= t.len(),
        forall|k: int| i <= k < ws_prefix_end(t, i) ==> is_ws(t[k]),
    decreases t.len() - i,
{
    if i < t.len() && is_ws(t[i]) {
        lemma_ws_prefix_end(t, i + 1);
    }
}

pub proof fn lemma_ident_end(t: Seq<char>, i: int)
    requires
        0 <= i <= t.len(),
    ensures
        i <= ident_end(t, i) <= t.len(),
    decreases t.len() - i,
{
    if i < t.len() && is_ident_char(t[i]) {
        lemma_ident_end(t, i + 1);
    }
}

/// `p` occurs in `t` at position `i`.
pub open spec fn starts_with_at(t: Seq<char>, i: int, p: Seq<char>) -> bool {
    0 <= i && i + p.len() <= t.len() && t.subrange(i, i + p.len()) == p
}

fn is_ws_x(c: char) -> (r: bool)
    ensures
        r == is_ws(c),
{
    c == ' ' || c == '\t'
}

fn is_ident_char_x(c: char) -> (r: bool)
    ensures
        r == is_ident_char(c),
{
    let u = c as u32;
    (97 <= u && u <= 122) || (65 <= u && u <= 90) || (48 <= u && u <= 57) || u == 95
}

fn ws_end_x(t: &str, i: usize) -> (r: usize)
    requires
        i <= t@.len(),
    ensures
        r == ws_prefix_end(t@, i as int),
        i <= r <= t@.len(),
{
    let n = t.unicode_len();
    let mut j: usize = i;
    while j < n
        invariant
            i <= j <= n,
            n == t@.len(),
            ws_prefix_end(t@, i as int) == ws_prefix_end(t@, j as int),
        decreases n - j,
    {
        let c = t.get_char(j);
        if !is_ws_x(c) {
            return j;
        }
        j = j + 1;
    }
    j
}

pub(crate) fn ident_end_x(t: &str, i: usize) -> (r: usize)
    requires
        i <= t@.len(),
    ensures
        r == ident_end(t@, i as int),
        i <= r <= t@.len(),
{
    let n = t.unicode_len();
    let mut j: usize = i;
    while j < n
        invariant
            i <= j <= n,
            n == t@.len(),
            ident_end(t@, i as int) == ident_end(t@, j as int),
        decreases n - j,
    {
        let c = t.get_char(j);
        if !is_ident_char_x(c) {
            return j;
        }
        j = j + 1;
    }
    j
}

fn starts_with_at_x(t: &str, i: usize, p: &str) -> (r: bool)
    requires
        i <= t@.len(),
    ensures
        r == starts_with_at(t@, i as int, p@),
{
    let n = t.unicode_len();
    let pl = p.unicode_len();
    if pl > n - i {
        return false;
    }
    let mut k: usize = 0;
    while k < pl
        invariant
            0 <= k <= pl,
            n == t@.len(),
            pl == p@.len(),
            i + pl <= n,
            forall|q: int| 0 <= q < k ==> t@[i + q] == p@[q],
        decreases pl - k,
    {
        if t.get_char(i + k) != p.get_char(k) {
            proof {
                assert(t@.subrange(i as int, i + pl) != p@) by {
                    if t@.subrange(i as int, i + pl) == p@ {
                        assert(t@.subrange(i as int, i + pl)[k as int] == p@[k as int]);
                    }
                }
            }
            return false;
        }
        k = k + 1;
    }
    proof {
        assert(t@.subrange(i as int, i + pl) =~= p@);
    }
    true
}

// ------------------------------------------------------------------
// Line parsers: each recognizes one marker-line shape, deterministically
// ------------------------------------------------------------------

/// `{indent}{comment_begin}{marker}` and nothing else: opens an inactive
/// body.  Returns the indentation.
pub open spec fn spec_parse_body_begin(t: Seq<char>, cb: Seq<char>, m: Seq<char>) -> Option<
    Seq<char>,
> {
    let e = ws_prefix_end(t, 0);
    if starts_with_at(t, e, cb) && starts_with_at(t, e + cb.len(), m) && e + cb.len() + m.len()
        == t.len() {
        Some(t.take(e))
    } else {
        None
    }
}

/// `{indent}{comment_begin} {marker}{comment_end}` and nothing else: the
/// variation end marker.  Returns the indentation.
pub open spec fn spec_parse_vend(
    t: Seq<char>,
    cb: Seq<char>,
    m: Seq<char>,
    ce: Seq<char>,
) -> Option<Seq<char>> {
    let e = ws_prefix_end(t, 0);
    let p1 = e + cb.len();
    let p2 = p1 + 1;
    let p3 = p2 + m.len();
    if starts_with_at(t, e, cb) && starts_with_at(t, p1, seq![' ']) && starts_with_at(t, p2, m)
        && starts_with_at(t, p3, ce) && p3 + ce.len() == t.len() {
        Some(t.take(e))
    } else {
        None
    }
}

/// `{indent}{comment_begin}{marker}{marker} {name} {comment_end}`: a variant
/// header.  Returns the indentation and the variant name.
pub open spec fn spec_parse_variant_header(
    t: Seq<char>,
    cb: Seq<char>,
    m: Seq<char>,
    ce: Seq<char>,
) -> Option<(Seq<char>, Seq<char>)> {
    let e = ws_prefix_end(t, 0);
    let p1 = e + cb.len();
    let p2 = p1 + m.len();
    let p3 = p2 + m.len();
    if starts_with_at(t, e, cb) && starts_with_at(t, p1, m) && starts_with_at(t, p2, m)
        && starts_with_at(t, p3, seq![' ']) {
        let p4 = p3 + 1;
        let ne = ident_end(t, p4);
        if ne > p4 && starts_with_at(t, ne, seq![' ']) && starts_with_at(t, ne + 1, ce) && ne + 1
            + ce.len() == t.len() {
            Some((t.take(e), t.subrange(p4, ne)))
        } else {
            None
        }
    } else {
        None
    }
}

/// The tag list after its opening bracket: identifiers separated by `", "`,
/// closed by `]`.  Returns the tags and the position after the bracket.
pub open spec fn spec_parse_tags(t: Seq<char>, i: int) -> Option<(Seq<Seq<char>>, int)>
    decreases t.len() - i,
{
    if !(0 <= i <= t.len()) {
        None
    } else {
        let e = ident_end(t, i);
        if e <= i {
            None
        } else {
            let tag = t.subrange(i, e);
            if starts_with_at(t, e, seq![']']) {
                Some((seq![tag], e + 1))
            } else if starts_with_at(t, e, seq![',', ' ']) && e + 2 <= t.len() {
                match spec_parse_tags(t, e + 2) {
                    Some((rest, j)) => Some((seq![tag] + rest, j)),
                    None => None,
                }
            } else {
                None
            }
        }
    }
}

/// `{indent}{comment_begin}{marker} [name ][[tags] ]{comment_end}`: a
/// variation header.  Returns the indentation, the optional name, and the
/// tags.
pub open spec fn spec_parse_vheader(
    t: Seq<char>,
    cb: Seq<char>,
    m: Seq<char>,
    ce: Seq<char>,
) -> Option<(Seq<char>, Option<Seq<char>>, Seq<Seq<char>>)> {
    let e = ws_prefix_end(t, 0);
    let p1 = e + cb.len();
    let p2 = p1 + m.len();
    if starts_with_at(t, e, cb) && starts_with_at(t, p1, m) && starts_with_at(t, p2, seq![' ']) {
        let p3 = p2 + 1;
        let ne = ident_end(t, p3);
        if ne > p3 {
            // A name is present; it must be followed by one space.
            if starts_with_at(t, ne, seq![' ']) {
                spec_parse_vheader_tail(t, ne + 1, Some(t.subrange(p3, ne)), ce)
            } else {
                None
            }
        } else {
            spec_parse_vheader_tail(t, p3, None, ce)
        }
    } else {
        None
    }
}

/// The rest of a variation header after the optional name: an optional
/// bracketed tag list followed by one space, then the comment end.
pub open spec fn spec_parse_vheader_tail(
    t: Seq<char>,
    p: int,
    name: Option<Seq<char>>,
    ce: Seq<char>,
) -> Option<(Seq<char>, Option<Seq<char>>, Seq<Seq<char>>)> {
    if starts_with_at(t, p, seq!['[']) {
        match spec_parse_tags(t, p + 1) {
            Some((tags, q)) => {
                if starts_with_at(t, q, seq![' ']) && starts_with_at(t, q + 1, ce) && q + 1
                    + ce.len() == t.len() {
                    Some((t.take(ws_prefix_end(t, 0)), name, tags))
                } else {
                    None
                }
            },
            None => None,
        }
    } else if starts_with_at(t, p, ce) && p + ce.len() == t.len() {
        Some((t.take(ws_prefix_end(t, 0)), name, Seq::empty()))
    } else {
        None
    }
}

// ------------------------------------------------------------------
// Inversion: a recognized line is exactly its rendered form
// ------------------------------------------------------------------

pub proof fn lemma_inv_body_begin(t: Seq<char>, cb: Seq<char>, m: Seq<char>)
    requires
        spec_parse_body_begin(t, cb, m) is Some,
    ensures
        t == spec_parse_body_begin(t, cb, m)->0 + cb + m,
{
    let e = ws_prefix_end(t, 0);
    assert(t =~= t.take(e) + cb + m);
}

pub proof fn lemma_inv_vend(t: Seq<char>, cb: Seq<char>, m: Seq<char>, ce: Seq<char>)
    requires
        spec_parse_vend(t, cb, m, ce) is Some,
    ensures
        t == spec_parse_vend(t, cb, m, ce)->0 + cb + seq![' '] + m + ce,
{
    let e = ws_prefix_end(t, 0);
    assert(t.subrange(e + cb.len(), e + cb.len() + 1) =~= seq![t[e + cb.len()]]);
    assert(t =~= t.take(e) + cb + seq![' '] + m + ce);
}

pub proof fn lemma_inv_variant_header(t: Seq<char>, cb: Seq<char>, m: Seq<char>, ce: Seq<char>)
    requires
        spec_parse_variant_header(t, cb, m, ce) is Some,
    ensures
        ({
            let (ind, name) = spec_parse_variant_header(t, cb, m, ce)->0;
            t == ind + cb + m + m + seq![' '] + name + seq![' '] + ce
        }),
{
    let e = ws_prefix_end(t, 0);
    let p3 = e + cb.len() + m.len() + m.len();
    let ne = ident_end(t, p3 + 1);
    lemma_ws_prefix_end(t, 0);
    lemma_ident_end(t, p3 + 1);
    let (ind, name) = spec_parse_variant_header(t, cb, m, ce)->0;
    assert(t =~= ind + cb + m + m + seq![' '] + name + seq![' '] + ce);
}

/// The tag-list inversion: what was parsed, joined back with `", "` and the
/// closing bracket, is the consumed range.
pub proof fn lemma_inv_tags(t: Seq<char>, i: int)
    requires
        spec_parse_tags(t, i) is Some,
    ensures
        ({
            let (tags, j) = spec_parse_tags(t, i)->0;
            &&& tags.len() >= 1
            &&& i <= j <= t.len()
            &&& t.subrange(i, j) == crate::code::join_comma(tags) + seq![']']
        }),
    decreases t.len() - i,
{
    let e = ident_end(t, i);
    let tag = t.subrange(i, e);
    lemma_ident_end(t, i);
    if starts_with_at(t, e, seq![']']) {
        let (tags, j) = spec_parse_tags(t, i)->0;
        assert(tags == seq![tag]);
        assert(crate::code::join_comma(tags) == tag);
        assert(t.subrange(e, e + 1) =~= seq![t[e]]);
        assert(t[e] == ']') by {
            assert(t.subrange(e, e + 1)[0] == seq![']'][0]);
        }
        assert(t.subrange(i, j) =~= tag + seq![']']);
    } else {
        lemma_inv_tags(t, e + 2);
        let (rest, j) = spec_parse_tags(t, e + 2)->0;
        let (tags, j2) = spec_parse_tags(t, i)->0;
        assert(tags == seq![tag] + rest && j2 == j);
        lemma_join_comma_cons(tag, rest);
        assert(t.subrange(e, e + 2) =~= seq![t[e], t[e + 1]]);
        assert(t[e] == ',' && t[e + 1] == ' ') by {
            assert(t.subrange(e, e + 2)[0] == seq![',', ' '][0]);
            assert(t.subrange(e, e + 2)[1] == seq![',', ' '][1]);
        }
        assert(t.subrange(i, j) =~= tag + seq![',', ' '] + t.subrange(e + 2, j));
        assert(t.subrange(i, j) =~= crate::code::join_comma(tags) + seq![']']);
    }
}

/// Joining a nonempty tail after a head tag inserts one separator.
pub proof fn lemma_join_comma_cons(t0: Seq<char>, rest: Seq<Seq<char>>)
    requires
        rest.len() >= 1,
    ensures
        crate::code::join_comma(seq![t0] + rest) == t0 + seq![',', ' ']
            + crate::code::join_comma(rest),
    decreases rest.len(),
{
    let whole = seq![t0] + rest;
    if rest.len() == 1 {
        assert(whole.drop_last() =~= seq![t0]);
        assert(crate::code::join_comma(seq![t0]) == t0);
        assert(whole.last() == rest[0]);
        assert(crate::code::join_comma(rest) == rest[0]);
        assert(crate::code::join_comma(whole) =~= t0 + seq![',', ' ']
            + crate::code::join_comma(rest));
    } else {
        assert(whole.drop_last() =~= seq![t0] + rest.drop_last());
        lemma_join_comma_cons(t0, rest.drop_last());
        assert(whole.last() == rest.last());
        assert(crate::code::join_comma(whole) =~= t0 + seq![',', ' '] + crate::code::join_comma(
            rest,
        ));
    }
}

/// The variation-header inversion: a recognized header line is exactly the
/// rendered header of what was parsed.
pub proof fn lemma_inv_vheader(t: Seq<char>, cb: Seq<char>, m: Seq<char>, ce: Seq<char>)
    requires
        spec_parse_vheader(t, cb, m, ce) is Some,
    ensures
        ({
            let (ind, name, tags) = spec_parse_vheader(t, cb, m, ce)->0;
            t == ind + cb + m + seq![' '] + crate::code::spec_render_title(name, tags) + ce
        }),
{
    let e = ws_prefix_end(t, 0);
    let p1 = e + cb.len();
    let p2 = p1 + m.len();
    let p3 = p2 + 1;
    let ne = ident_end(t, p3);
    lemma_ws_prefix_end(t, 0);
    lemma_ident_end(t, p3);
    let (ind, name, tags) = spec_parse_vheader(t, cb, m, ce)->0;
    let p = if ne > p3 {
        ne + 1
    } else {
        p3
    };
    let namepart: Seq<char> = match name {
        Some(n) => n + seq![' '],
        None => Seq::empty(),
    };
    if ne > p3 {
        assert(t.subrange(ne, ne + 1) =~= seq![t[ne]]);
        assert(t[ne] == ' ') by {
            assert(t.subrange(ne, ne + 1)[0] == seq![' '][0]);
        }
        assert(t.subrange(p3, p) =~= namepart);
    } else {
        assert(t.subrange(p3, p) =~= namepart);
    }
    if starts_with_at(t, p, seq!['[']) {
        lemma_inv_tags(t, p + 1);
        let (tg, q) = spec_parse_tags(t, p + 1)->0;
        assert(tags == tg);
        assert(t.subrange(p, p + 1) =~= seq![t[p]]);
        assert(t[p] == '[') by {
            assert(t.subrange(p, p + 1)[0] == seq!['['][0]);
        }
        assert(t.subrange(q, q + 1) =~= seq![t[q]]);
        assert(t[q] == ' ') by {
            assert(t.subrange(q, q + 1)[0] == seq![' '][0]);
        }
        assert(t.subrange(p + 1, q) == crate::code::join_comma(tags) + seq![']']);
        assert(t.subrange(p, q + 1) =~= seq![t[p]] + t.subrange(p + 1, q) + seq![t[q]]);
        assert(t.subrange(p, q + 1) =~= seq!['['] + crate::code::join_comma(tags) + seq![']', ' ']);
        assert(crate::code::spec_render_title(name, tags) =~= namepart + (seq!['[']
            + crate::code::join_comma(tags) + seq![']', ' ']));
        assert(t =~= ind + cb + m + seq![' '] + crate::code::spec_render_title(name, tags) + ce);
    } else {
        assert(tags.len() == 0);
        assert(crate::code::spec_render_title(name, tags) =~= namepart);
        assert(t =~= ind + cb + m + seq![' '] + crate::code::spec_render_title(name, tags) + ce);
    }
}

// ------------------------------------------------------------------
// The line machine: grouping lines into spans
// ------------------------------------------------------------------

/// The texts of a line sequence.
pub open spec fn texts_of(ls: Seq<LineV>) -> Seq<Seq<char>> {
    ls.map_values(|l: LineV| l.text)
}

/// The first line at or after `j` that is exactly the body-end marker
/// `{ind}{comment_end}`; every line scanned over must be terminated.
pub open spec fn find_body_end(lines: Seq<LineV>, j: int, ind: Seq<char>, lang: Language) -> Option<
    int,
>
    decreases lines.len() - j,
{
    if !(0 <= j < lines.len()) {
        None
    } else if !lines[j].terminated {
        None
    } else if lines[j].text == ind + lang.spec_comment_end() {
        Some(j)
    } else {
        find_body_end(lines, j + 1, ind, lang)
    }
}

pub proof fn lemma_find_body_end(lines: Seq<LineV>, j: int, ind: Seq<char>, lang: Language)
    requires
        0 <= j,
        find_body_end(lines, j, ind, lang) is Some,
    ensures
        ({
            let k = find_body_end(lines, j, ind, lang)->0;
            &&& j <= k < lines.len()
            &&& lines[k].terminated
            &&& lines[k].text == ind + lang.spec_comment_end()
            &&& forall|q: int| j <= q < k ==> (#[trigger] lines[q]).terminated
        }),
    decreases lines.len() - j,
{
    if lines[j].text == ind + lang.spec_comment_end() {
    } else {
        lemma_find_body_end(lines, j + 1, ind, lang);
    }
}

/// The end of an active body run: the first line at or after `i` that is
/// unterminated, a variant header, or the variation end marker.
pub open spec fn active_end(lines: Seq<LineV>, i: int, lang: Language) -> int
    decreases lines.len() - i,
{
    let cb = lang.spec_comment_begin();
    let m = lang.spec_mutation_marker();
    let ce = lang.spec_comment_end();
    if !(0 <= i < lines.len()) {
        i
    } else if !lines[i].terminated {
        i
    } else if spec_parse_variant_header(lines[i].text, cb, m, ce) is Some {
        i
    } else if spec_parse_vend(lines[i].text, cb, m, ce) is Some {
        i
    } else {
        active_end(lines, i + 1, lang)
    }
}

pub proof fn lemma_active_end(lines: Seq<LineV>, i: int, lang: Language)
    requires
        0 <= i <= lines.len(),
    ensures
        i <= active_end(lines, i, lang) <= lines.len(),
        forall|q: int| i <= q < active_end(lines, i, lang) ==> (#[trigger] lines[q]).terminated,
    decreases lines.len() - i,
{
    let cb = lang.spec_comment_begin();
    let m = lang.spec_mutation_marker();
    let ce = lang.spec_comment_end();
    if 0 <= i < lines.len() && lines[i].terminated && !(spec_parse_variant_header(
        lines[i].text,
        cb,
        m,
        ce,
    ) is Some) && !(spec_parse_vend(lines[i].text, cb, m, ce) is Some) {
        lemma_active_end(lines, i + 1, lang);
    }
}

/// One body, starting at line `i`: inactive if the first line is a body
/// begin marker (scanning to the matching body end), active otherwise
/// (running to the next variant header or end marker).
pub open spec fn spec_parse_body(lines: Seq<LineV>, i: int, lang: Language) -> Option<
    (BodyView, int),
> {
    let cb = lang.spec_comment_begin();
    let m = lang.spec_mutation_marker();
    if 0 <= i < lines.len() && lines[i].terminated && spec_parse_body_begin(lines[i].text, cb, m)
        is Some {
        let ind = spec_parse_body_begin(lines[i].text, cb, m)->0;
        match find_body_end(lines, i + 1, ind, lang) {
            Some(k) => Some(
                (
                    BodyView::InactiveMultiLine {
                        lines: texts_of(lines.subrange(i + 1, k)),
                        indentation: ind,
                    },
                    k + 1,
                ),
            ),
            None => None,
        }
    } else {
        let k = active_end(lines, i, lang);
        if 0 <= i <= lines.len() && i <= k <= lines.len() {
            Some((BodyView::Active { lines: texts_of(lines.subrange(i, k)) }, k))
        } else {
            None
        }
    }
}

/// The variants of a variation: variant headers (with the variation's own
/// indentation) each followed by a body, as many as there are.
pub open spec fn spec_parse_variants(
    lines: Seq<LineV>,
    i: int,
    ind: Seq<char>,
    lang: Language,
) -> Option<(Seq<VariantView>, int)>
    decreases lines.len() - i,
{
    let cb = lang.spec_comment_begin();
    let m = lang.spec_mutation_marker();
    let ce = lang.spec_comment_end();
    if 0 <= i < lines.len() && lines[i].terminated && (match spec_parse_variant_header(
        lines[i].text,
        cb,
        m,
        ce,
    ) {
        Some((hind, _)) => hind == ind,
        None => false,
    }) {
        let (hind, nm) = spec_parse_variant_header(lines[i].text, cb, m, ce)->0;
        match spec_parse_body(lines, i + 1, lang) {
            None => None,
            Some((b, j)) => if i + 1 <= j <= lines.len() {
                match spec_parse_variants(lines, j, ind, lang) {
                    None => None,
                    Some((rest, k)) => Some((seq![VariantView { name: nm, body: b }] + rest, k)),
                }
            } else {
                None
            },
        }
    } else {
        Some((Seq::empty(), i))
    }
}

/// The index of the first active variant.
pub open spec fn first_active(vs: Seq<VariantView>) -> int
    decreases vs.len(),
{
    if vs.len() == 0 {
        0
    } else if vs[0].body.is_active() {
        0
    } else {
        1 + first_active(vs.drop_first())
    }
}

/// `count_active` seen from the head.
pub proof fn lemma_count_active_head(vs: Seq<VariantView>)
    requires
        vs.len() > 0,
    ensures
        count_active(vs) == (if vs[0].body.is_active() {
            1int
        } else {
            0int
        }) + count_active(vs.drop_first()),
    decreases vs.len(),
{
    if vs.len() == 1 {
        assert(vs.drop_last() =~= Seq::<VariantView>::empty());
        assert(vs.drop_first() =~= Seq::<VariantView>::empty());
        assert(count_active(Seq::<VariantView>::empty()) == 0);
    } else {
        lemma_count_active_head(vs.drop_last());
        assert(vs.drop_last()[0] == vs[0]);
        assert(vs.drop_first().drop_last() =~= vs.drop_last().drop_first());
        assert(vs.drop_first().last() == vs.last());
    }
}

/// No active variant when the count is zero.
pub proof fn lemma_count_active_zero(vs: Seq<VariantView>)
    requires
        count_active(vs) == 0,
    ensures
        forall|q: int| 0 <= q < vs.len() ==> !(#[trigger] vs[q]).body.is_active(),
    decreases vs.len(),
{
    if vs.len() > 0 {
        lemma_count_active_head(vs);
        assert(count_active(vs.drop_first()) >= 0) by {
            lemma_count_active_nonneg(vs.drop_first());
        }
        lemma_count_active_zero(vs.drop_first());
        assert forall|q: int| 0 <= q < vs.len() implies !(#[trigger] vs[q]).body.is_active() by {
            if q > 0 {
                assert(vs[q] == vs.drop_first()[q - 1]);
            }
        }
    }
}

pub proof fn lemma_count_active_nonneg(vs: Seq<VariantView>)
    ensures
        count_active(vs) >= 0,
    decreases vs.len(),
{
    if vs.len() > 0 {
        lemma_count_active_nonneg(vs.drop_last());
    }
}

/// With exactly one active variant, `first_active` finds it and nothing
/// else is active.
pub proof fn lemma_count_active_one(vs: Seq<VariantView>)
    requires
        count_active(vs) == 1,
    ensures
        0 <= first_active(vs) < vs.len(),
        vs[first_active(vs)].body.is_active(),
        forall|q: int|
            0 <= q < vs.len() && q != first_active(vs) ==> !(#[trigger] vs[q]).body.is_active(),
    decreases vs.len(),
{
    lemma_count_active_head(vs);
    lemma_count_active_nonneg(vs.drop_first());
    if vs[0].body.is_active() {
        lemma_count_active_zero(vs.drop_first());
        assert forall|q: int|
            0 <= q < vs.len() && q != first_active(vs) implies !(#[trigger] vs[q]).body.is_active() by {
            assert(vs[q] == vs.drop_first()[q - 1]);
        }
    } else {
        lemma_count_active_one(vs.drop_first());
        assert(first_active(vs) == 1 + first_active(vs.drop_first()));
        assert(vs[first_active(vs)] == vs.drop_first()[first_active(vs.drop_first())]);
        assert forall|q: int|
            0 <= q < vs.len() && q != first_active(vs) implies !(#[trigger] vs[q]).body.is_active() by {
            if q > 0 {
                assert(vs[q] == vs.drop_first()[q - 1]);
            }
        }
    }
}

/// One whole variation starting at line `i`: header, base body, variants,
/// end marker, and the exactly-one-active check.
pub open spec fn spec_parse_variation(lines: Seq<LineV>, i: int, lang: Language) -> Option<
    (VariationView, int),
> {
    let cb = lang.spec_comment_begin();
    let m = lang.spec_mutation_marker();
    let ce = lang.spec_comment_end();
    if !(0 <= i < lines.len() && lines[i].terminated) {
        None
    } else {
        match spec_parse_vheader(lines[i].text, cb, m, ce) {
            None => None,
            Some((ind, name, tags)) => match spec_parse_body(lines, i + 1, lang) {
                None => None,
                Some((b, j)) => if i + 1 <= j <= lines.len() {
                    match spec_parse_variants(lines, j, ind, lang) {
                        None => None,
                        Some((vars, k)) => if 0 <= k < lines.len() && lines[k].terminated && (
                        match spec_parse_vend(lines[k].text, cb, m, ce) {
                            Some(ind2) => ind2 == ind,
                            None => false,
                        }) {
                            let base_active = b is Active;
                            let cnt = count_active(vars);
                            if base_active && cnt == 0 {
                                Some(
                                    (
                                        VariationView {
                                            name,
                                            tags,
                                            base: VariantView { name: Seq::empty(), body: b },
                                            variants: vars,
                                            active: 0,
                                            indentation: ind,
                                        },
                                        k + 1,
                                    ),
                                )
                            } else if !base_active && cnt == 1 {
                                Some(
                                    (
                                        VariationView {
                                            name,
                                            tags,
                                            base: VariantView { name: Seq::empty(), body: b },
                                            variants: vars,
                                            active: first_active(vars) + 1,
                                            indentation: ind,
                                        },
                                        k + 1,
                                    ),
                                )
                            } else {
                                None
                            }
                        } else {
                            None
                        },
                    }
                } else {
                    None
                },
            },
        }
    }
}

/// A line that opens a variation: a terminated variation-header line.
pub open spec fn is_variation_start(l: LineV, lang: Language) -> bool {
    l.terminated && spec_parse_vheader(
        l.text,
        lang.spec_comment_begin(),
        lang.spec_mutation_marker(),
        lang.spec_comment_end(),
    ) is Some
}

/// The end of a plain-text run: the first variation start at or after `i`.
pub open spec fn plain_end(lines: Seq<LineV>, i: int, lang: Language) -> int
    decreases lines.len() - i,
{
    if i < 0 {
        i
    } else if i >= lines.len() {
        lines.len() as int
    } else if is_variation_start(lines[i], lang) {
        i
    } else {
        plain_end(lines, i + 1, lang)
    }
}

pub proof fn lemma_plain_end(lines: Seq<LineV>, i: int, lang: Language)
    requires
        0 <= i <= lines.len(),
    ensures
        i <= plain_end(lines, i, lang) <= lines.len(),
        plain_end(lines, i, lang) < lines.len() ==> is_variation_start(
            lines[plain_end(lines, i, lang)],
            lang,
        ),
    decreases lines.len() - i,
{
    if i < lines.len() && !is_variation_start(lines[i], lang) {
        lemma_plain_end(lines, i + 1, lang);
    }
}

/// The whole file from line `i` on: variations where they start, maximal
/// runs of plain text (kept verbatim) between them.  Each span records the
/// 1-indexed line it starts at.
pub open spec fn spec_parse_spans(lines: Seq<LineV>, i: int, lang: Language) -> Option<
    Seq<SpanView>,
>
    decreases lines.len() - i,
{
    if !(0 <= i) {
        None
    } else if i >= lines.len() {
        Some(Seq::empty())
    } else if is_variation_start(lines[i], lang) {
        match spec_parse_variation(lines, i, lang) {
            None => None,
            Some((v, end)) => if i < end <= lines.len() {
                match spec_parse_spans(lines, end, lang) {
                    None => None,
                    Some(rest) => Some(
                        seq![SpanView { line: i + 1, content: ContentView::Variation(v) }] + rest,
                    ),
                }
            } else {
                None
            },
        }
    } else {
        let j = plain_end(lines, i + 1, lang);
        if i < j <= lines.len() {
            match spec_parse_spans(lines, j, lang) {
                None => None,
                Some(rest) => Some(
                    seq![
                        SpanView {
                            line: i + 1,
                            content: ContentView::Line(unlines(lines.subrange(i, j))),
                        },
                    ] + rest,
                ),
            }
        } else {
            None
        }
    }
}

/// The parse of a whole text: its lines, grouped into spans.
pub open spec fn spec_parse_code(s: Seq<char>, lang: Language) -> Option<Seq<SpanView>> {
    spec_parse_spans(crate::syntax::lines::spec_lines(s), 0, lang)
}

// ------------------------------------------------------------------
// The round-trip law: serializing a successful parse reproduces the input
// ------------------------------------------------------------------

proof fn lemma_unlines_single(l: LineV)
    ensures
        unlines(seq![l]) == line_text(l),
{
    assert(seq![l].drop_first() =~= Seq::<LineV>::empty());
    assert(unlines(seq![l].drop_first()).len() == 0);
    assert(unlines(seq![l]) =~= line_text(l));
}

/// For terminated lines, rendering the bare texts is the original text.
proof fn lemma_cat_lines_texts(ls: Seq<LineV>)
    requires
        forall|q: int| 0 <= q < ls.len() ==> (#[trigger] ls[q]).terminated,
    ensures
        crate::code::cat_lines(texts_of(ls)) == unlines(ls),
    decreases ls.len(),
{
    if ls.len() == 0 {
        assert(texts_of(ls) =~= Seq::<Seq<char>>::empty());
        assert(crate::code::cat_lines(texts_of(ls)) =~= unlines(ls));
    } else {
        lemma_cat_lines_texts(ls.drop_last());
        assert(ls =~= ls.drop_last() + seq![ls.last()]);
        crate::syntax::lines::lemma_unlines_add(ls.drop_last(), seq![ls.last()]);
        lemma_unlines_single(ls.last());
        assert(texts_of(ls).drop_last() =~= texts_of(ls.drop_last()));
        assert(texts_of(ls).last() == ls.last().text);
        assert(texts_of(ls).len() == ls.len());
        assert(crate::code::cat_lines(texts_of(ls)) == crate::code::cat_lines(
            texts_of(ls).drop_last(),
        ) + texts_of(ls).last() + crate::code::nl());
        assert(line_text(ls.last()) =~= ls.last().text + crate::code::nl());
        assert(crate::code::cat_lines(texts_of(ls)) =~= unlines(ls));
    }
}

/// A parsed body consumes a well-delimited range and renders back to it.
proof fn lemma_body_rt(lines: Seq<LineV>, i: int, lang: Language)
    requires
        0 <= i <= lines.len(),
        spec_parse_body(lines, i, lang) is Some,
    ensures
        ({
            let (b, j) = spec_parse_body(lines, i, lang)->0;
            &&& i <= j <= lines.len()
            &&& crate::code::spec_render_body(b, lang) == unlines(lines.subrange(i, j))
        }),
{
    let cb = lang.spec_comment_begin();
    let m = lang.spec_mutation_marker();
    let ce = lang.spec_comment_end();
    let (b, j) = spec_parse_body(lines, i, lang)->0;
    if 0 <= i < lines.len() && lines[i].terminated && spec_parse_body_begin(lines[i].text, cb, m)
        is Some {
        let ind = spec_parse_body_begin(lines[i].text, cb, m)->0;
        let k = find_body_end(lines, i + 1, ind, lang)->0;
        lemma_find_body_end(lines, i + 1, ind, lang);
        lemma_inv_body_begin(lines[i].text, cb, m);
        let content = lines.subrange(i + 1, k);
        assert(forall|q: int| 0 <= q < content.len() ==> (#[trigger] content[q]).terminated);
        lemma_cat_lines_texts(content);
        assert(lines.subrange(i, j) =~= seq![lines[i]] + content + seq![lines[k]]);
        crate::syntax::lines::lemma_unlines_add(seq![lines[i]] + content, seq![lines[k]]);
        crate::syntax::lines::lemma_unlines_add(seq![lines[i]], content);
        lemma_unlines_single(lines[i]);
        lemma_unlines_single(lines[k]);
        assert(texts_of(content) =~= texts_of(lines.subrange(i + 1, k)));
        assert(line_text(lines[i]) =~= ind + cb + m + crate::code::nl());
        assert(line_text(lines[k]) =~= ind + ce + crate::code::nl());
        assert(crate::code::spec_render_body(b, lang) =~= unlines(lines.subrange(i, j)));
    } else {
        let k = active_end(lines, i, lang);
        lemma_active_end(lines, i, lang);
        let content = lines.subrange(i, k);
        assert(forall|q: int| 0 <= q < content.len() ==> (#[trigger] content[q]).terminated);
        lemma_cat_lines_texts(content);
        assert(crate::code::spec_render_body(b, lang) =~= unlines(lines.subrange(i, j)));
    }
}

/// Rendering variants, seen from the head.
proof fn lemma_render_variants_cons(
    v: VariantView,
    rest: Seq<VariantView>,
    ind: Seq<char>,
    lang: Language,
)
    ensures
        crate::code::spec_render_variants(seq![v] + rest, ind, lang)
            == crate::code::spec_render_variant_header(v.name, ind, lang)
            + crate::code::spec_render_body(v.body, lang) + crate::code::spec_render_variants(
            rest,
            ind,
            lang,
        ),
    decreases rest.len(),
{
    let whole = seq![v] + rest;
    if rest.len() == 0 {
        assert(whole.drop_last() =~= Seq::<VariantView>::empty());
        assert(crate::code::spec_render_variants(whole.drop_last(), ind, lang).len() == 0);
        assert(whole.last() == v);
        assert(crate::code::spec_render_variants(rest, ind, lang).len() == 0);
        assert(crate::code::spec_render_variants(whole, ind, lang)
            =~= crate::code::spec_render_variant_header(v.name, ind, lang)
            + crate::code::spec_render_body(v.body, lang) + crate::code::spec_render_variants(
            rest,
            ind,
            lang,
        ));
    } else {
        assert(whole.drop_last() =~= seq![v] + rest.drop_last());
        lemma_render_variants_cons(v, rest.drop_last(), ind, lang);
        assert(whole.last() == rest.last());
        assert(crate::code::spec_render_variants(whole, ind, lang)
            =~= crate::code::spec_render_variant_header(v.name, ind, lang)
            + crate::code::spec_render_body(v.body, lang) + crate::code::spec_render_variants(
            rest,
            ind,
            lang,
        ));
    }
}

/// Parsed variants consume a well-delimited range and render back to it.
proof fn lemma_variants_rt(lines: Seq<LineV>, i: int, ind: Seq<char>, lang: Language)
    requires
        0 <= i <= lines.len(),
        spec_parse_variants(lines, i, ind, lang) is Some,
    ensures
        ({
            let (vars, k) = spec_parse_variants(lines, i, ind, lang)->0;
            &&& i <= k <= lines.len()
            &&& crate::code::spec_render_variants(vars, ind, lang) == unlines(
                lines.subrange(i, k),
            )
        }),
    decreases lines.len() - i,
{
    let cb = lang.spec_comment_begin();
    let m = lang.spec_mutation_marker();
    let ce = lang.spec_comment_end();
    let (vars, k) = spec_parse_variants(lines, i, ind, lang)->0;
    if 0 <= i < lines.len() && lines[i].terminated && (match spec_parse_variant_header(
        lines[i].text,
        cb,
        m,
        ce,
    ) {
        Some((hind, _)) => hind == ind,
        None => false,
    }) {
        let (hind, nm) = spec_parse_variant_header(lines[i].text, cb, m, ce)->0;
        let (b, j) = spec_parse_body(lines, i + 1, lang)->0;
        lemma_body_rt(lines, i + 1, lang);
        let (rest, k2) = spec_parse_variants(lines, j, ind, lang)->0;
        lemma_variants_rt(lines, j, ind, lang);
        lemma_inv_variant_header(lines[i].text, cb, m, ce);
        lemma_render_variants_cons(VariantView { name: nm, body: b }, rest, ind, lang);
        assert(lines.subrange(i, k) =~= seq![lines[i]] + lines.subrange(i + 1, j) + lines.subrange(
            j,
            k,
        ));
        crate::syntax::lines::lemma_unlines_add(
            seq![lines[i]] + lines.subrange(i + 1, j),
            lines.subrange(j, k),
        );
        crate::syntax::lines::lemma_unlines_add(seq![lines[i]], lines.subrange(i + 1, j));
        lemma_unlines_single(lines[i]);
        assert(line_text(lines[i]) =~= crate::code::spec_render_variant_header(nm, ind, lang));
        assert(crate::code::spec_render_variants(vars, ind, lang) =~= unlines(
            lines.subrange(i, k),
        ));
    } else {
        assert(lines.subrange(i, i) =~= Seq::<LineV>::empty());
        assert(unlines(lines.subrange(i, k)).len() == 0);
        assert(crate::code::spec_render_variants(vars, ind, lang) =~= unlines(
            lines.subrange(i, k),
        ));
    }
}

/// A parsed variation consumes a well-delimited range, renders back to it,
/// and is well formed.
proof fn lemma_variation_rt(lines: Seq<LineV>, i: int, lang: Language)
    requires
        0 <= i <= lines.len(),
        spec_parse_variation(lines, i, lang) is Some,
    ensures
        ({
            let (v, end) = spec_parse_variation(lines, i, lang)->0;
            &&& i < end <= lines.len()
            &&& crate::code::spec_render_variation(v, lang) == unlines(lines.subrange(i, end))
            &&& v.wf()
        }),
{
    let cb = lang.spec_comment_begin();
    let m = lang.spec_mutation_marker();
    let ce = lang.spec_comment_end();
    let (v, end) = spec_parse_variation(lines, i, lang)->0;
    let (ind, name, tags) = spec_parse_vheader(lines[i].text, cb, m, ce)->0;
    let (b, j) = spec_parse_body(lines, i + 1, lang)->0;
    let (vars, k) = spec_parse_variants(lines, j, ind, lang)->0;
    lemma_body_rt(lines, i + 1, lang);
    lemma_variants_rt(lines, j, ind, lang);
    lemma_variation_rt_render(lines, i, lang);
    // Well-formedness.
    if b is Active {
        lemma_count_active_zero(vars);
    } else {
        lemma_count_active_one(vars);
        assert(first_active(vars) >= 0);
    }
}

/// The rendering part of the variation round trip.
proof fn lemma_variation_rt_render(lines: Seq<LineV>, i: int, lang: Language)
    requires
        0 <= i <= lines.len(),
        spec_parse_variation(lines, i, lang) is Some,
    ensures
        ({
            let (v, end) = spec_parse_variation(lines, i, lang)->0;
            &&& i < end <= lines.len()
            &&& crate::code::spec_render_variation(v, lang) == unlines(lines.subrange(i, end))
        }),
{
    let cb = lang.spec_comment_begin();
    let m = lang.spec_mutation_marker();
    let ce = lang.spec_comment_end();
    let (v, end) = spec_parse_variation(lines, i, lang)->0;
    let (ind, name, tags) = spec_parse_vheader(lines[i].text, cb, m, ce)->0;
    let (b, j) = spec_parse_body(lines, i + 1, lang)->0;
    let (vars, k) = spec_parse_variants(lines, j, ind, lang)->0;
    lemma_body_rt(lines, i + 1, lang);
    lemma_variants_rt(lines, j, ind, lang);
    // The four pieces of the region.
    let pa = seq![lines[i]];
    let pb = lines.subrange(i + 1, j);
    let pc = lines.subrange(j, k);
    let pd = seq![lines[k]];
    assert(lines.subrange(i, end) =~= (pa + pb) + (pc + pd));
    crate::syntax::lines::lemma_unlines_add(pa + pb, pc + pd);
    crate::syntax::lines::lemma_unlines_add(pa, pb);
    crate::syntax::lines::lemma_unlines_add(pc, pd);
    lemma_unlines_single(lines[i]);
    lemma_unlines_single(lines[k]);
    // Header line.
    lemma_inv_vheader(lines[i].text, cb, m, ce);
    assert(line_text(lines[i]) == ind + cb + m + seq![' '] + crate::code::spec_render_title(
        name,
        tags,
    ) + ce + seq!['\n']);
    assert(crate::code::spec_render_vheader(v, lang) == line_text(lines[i]));
    // End-marker line.
    lemma_inv_vend(lines[k].text, cb, m, ce);
    assert(line_text(lines[k]) == ind + cb + seq![' '] + m + ce + seq!['\n']);
    assert(crate::code::spec_render_vend(ind, lang) == line_text(lines[k]));
    // Compose.
    assert(unlines(lines.subrange(i, end)) == (line_text(lines[i]) + unlines(pb)) + (unlines(pc)
        + line_text(lines[k])));
    assert(crate::code::spec_render_variation(v, lang) =~= (line_text(lines[i]) + unlines(pb)) + (
    unlines(pc) + line_text(lines[k])));
}

/// Rendering spans, seen from the head.
proof fn lemma_render_spans_cons(s: SpanView, rest: Seq<SpanView>, lang: Language)
    ensures
        crate::code::spec_render_spans(seq![s] + rest, lang) == crate::code::spec_render_span(
            s,
            lang,
        ) + crate::code::spec_render_spans(rest, lang),
    decreases rest.len(),
{
    let whole = seq![s] + rest;
    if rest.len() == 0 {
        assert(whole.drop_last() =~= Seq::<SpanView>::empty());
        assert(crate::code::spec_render_spans(whole.drop_last(), lang).len() == 0);
        assert(whole.last() == s);
        assert(crate::code::spec_render_spans(rest, lang).len() == 0);
        assert(crate::code::spec_render_spans(whole, lang) =~= crate::code::spec_render_span(
            s,
            lang,
        ) + crate::code::spec_render_spans(rest, lang));
    } else {
        assert(whole.drop_last() =~= seq![s] + rest.drop_last());
        lemma_render_spans_cons(s, rest.drop_last(), lang);
        assert(whole.last() == rest.last());
        assert(crate::code::spec_render_spans(whole, lang) =~= crate::code::spec_render_span(
            s,
            lang,
        ) + crate::code::spec_render_spans(rest, lang));
    }
}

/// Every variation span in a span sequence is well formed.
pub open spec fn spans_wf(spans: Seq<SpanView>) -> bool {
    forall|q: int|
        0 <= q < spans.len() && (#[trigger] spans[q]).content is Variation
            ==> spans[q].content->Variation_0.wf()
}

/// Parsed spans render back to the text they consumed, and every parsed
/// variation is well formed.
#[verifier::rlimit(60)]
proof fn lemma_spans_rt(lines: Seq<LineV>, i: int, lang: Language)
    requires
        0 <= i <= lines.len(),
        spec_parse_spans(lines, i, lang) is Some,
    ensures
        ({
            let spans = spec_parse_spans(lines, i, lang)->0;
            &&& crate::code::spec_render_spans(spans, lang) == unlines(
                lines.subrange(i, lines.len() as int),
            )
            &&& spans_wf(spans)
        }),
    decreases lines.len() - i,
{
    let spans = spec_parse_spans(lines, i, lang)->0;
    if i >= lines.len() {
        assert(lines.subrange(i, lines.len() as int) =~= Seq::<LineV>::empty());
        assert(crate::code::spec_render_spans(spans, lang) =~= unlines(
            lines.subrange(i, lines.len() as int),
        ));
    } else if is_variation_start(lines[i], lang) {
        let (v, end) = spec_parse_variation(lines, i, lang)->0;
        let rest = spec_parse_spans(lines, end, lang)->0;
        lemma_variation_rt(lines, i, lang);
        lemma_spans_rt(lines, end, lang);
        let s = SpanView { line: i + 1, content: ContentView::Variation(v) };
        lemma_render_spans_cons(s, rest, lang);
        assert(lines.subrange(i, lines.len() as int) =~= lines.subrange(i, end) + lines.subrange(
            end,
            lines.len() as int,
        ));
        crate::syntax::lines::lemma_unlines_add(
            lines.subrange(i, end),
            lines.subrange(end, lines.len() as int),
        );
        assert(crate::code::spec_render_spans(spans, lang) =~= unlines(
            lines.subrange(i, lines.len() as int),
        ));
        assert forall|q: int|
            0 <= q < spans.len() && (#[trigger] spans[q]).content is Variation implies
            spans[q].content->Variation_0.wf() by {
            if q > 0 {
                assert(spans[q] == rest[q - 1]);
            }
        }
    } else {
        let j = plain_end(lines, i + 1, lang);
        let rest = spec_parse_spans(lines, j, lang)->0;
        lemma_spans_rt(lines, j, lang);
        let s = SpanView { line: i + 1, content: ContentView::Line(unlines(lines.subrange(i, j))) };
        lemma_render_spans_cons(s, rest, lang);
        assert(lines.subrange(i, lines.len() as int) =~= lines.subrange(i, j) + lines.subrange(
            j,
            lines.len() as int,
        ));
        crate::syntax::lines::lemma_unlines_add(
            lines.subrange(i, j),
            lines.subrange(j, lines.len() as int),
        );
        assert(crate::code::spec_render_spans(spans, lang) =~= unlines(
            lines.subrange(i, lines.len() as int),
        ));
        assert forall|q: int|
            0 <= q < spans.len() && (#[trigger] spans[q]).content is Variation implies
            spans[q].content->Variation_0.wf() by {
            assert(spans[q] == rest[q - 1]);
        }
    }
}

/// No two plain-text spans stand next to each other: adjacent plain
/// segments are merged into one span.
pub open spec fn spans_coalesced(spans: Seq<SpanView>) -> bool {
    forall|q: int|
        0 <= q < spans.len() - 1 ==> !((#[trigger] spans[q]).content is Line && spans[q
            + 1].content is Line)
}

/// The parse merges adjacent plain text: a plain run extends to the next
/// variation, so a plain span is always followed by a variation span.
proof fn lemma_spans_coalesced(lines: Seq<LineV>, i: int, lang: Language)
    requires
        0 <= i <= lines.len(),
        spec_parse_spans(lines, i, lang) is Some,
    ensures
        ({
            let spans = spec_parse_spans(lines, i, lang)->0;
            &&& spans_coalesced(spans)
            &&& (i < lines.len() && is_variation_start(lines[i], lang) && spans.len() > 0
                ==> spans[0].content is Variation)
        }),
    decreases lines.len() - i,
{
    let spans = spec_parse_spans(lines, i, lang)->0;
    if i >= lines.len() {
    } else if is_variation_start(lines[i], lang) {
        let (v, end) = spec_parse_variation(lines, i, lang)->0;
        let rest = spec_parse_spans(lines, end, lang)->0;
        lemma_spans_coalesced(lines, end, lang);
        assert forall|q: int|
            0 <= q < spans.len() - 1 implies !((#[trigger] spans[q]).content is Line && spans[q
            + 1].content is Line) by {
            if q > 0 {
                assert(spans[q] == rest[q - 1]);
                assert(spans[q + 1] == rest[q]);
            }
        }
    } else {
        let j = plain_end(lines, i + 1, lang);
        let rest = spec_parse_spans(lines, j, lang)->0;
        lemma_plain_end(lines, i + 1, lang);
        lemma_spans_coalesced(lines, j, lang);
        assert forall|q: int|
            0 <= q < spans.len() - 1 implies !((#[trigger] spans[q]).content is Line && spans[q
            + 1].content is Line) by {
            if q == 0 {
                if rest.len() > 0 {
                    assert(spans[1] == rest[0]);
                    if j < lines.len() {
                        assert(rest[0].content is Variation);
                    } else {
                        assert(rest.len() == 0);
                    }
                }
            } else {
                assert(spans[q] == rest[q - 1]);
                assert(spans[q + 1] == rest[q]);
            }
        }
    }
}

/// The round-trip law: any text the grammar accepts is reproduced exactly,
/// byte for byte, by serializing the parse; and every parsed variation has
/// exactly one active body.
pub proof fn lemma_parse_round_trip(s: Seq<char>, lang: Language)
    requires
        spec_parse_code(s, lang) is Some,
    ensures
        crate::code::spec_render_spans(spec_parse_code(s, lang)->0, lang) == s,
        spans_wf(spec_parse_code(s, lang)->0),
        spans_coalesced(spec_parse_code(s, lang)->0),
{
    let lines = crate::syntax::lines::spec_lines(s);
    crate::syntax::lines::lemma_lines_unlines(s);
    lemma_spans_rt(lines, 0, lang);
    lemma_spans_coalesced(lines, 0, lang);
    assert(lines.subrange(0, lines.len() as int) =~= lines);
}

/// The structural round-trip law: parsing what a successful parse
/// serializes to gives the same span sequence back.
pub proof fn lemma_structural_round_trip(s: Seq<char>, lang: Language)
    requires
        spec_parse_code(s, lang) is Some,
    ensures
        spec_parse_code(
            crate::code::spec_render_spans(spec_parse_code(s, lang)->0, lang),
            lang,
        ) == spec_parse_code(s, lang),
{
    lemma_parse_round_trip(s, lang);
}

// ------------------------------------------------------------------
// The executable parser
// ------------------------------------------------------------------

/// The three marker strings of a language profile, precomputed.
struct Marks {
    cb: String,
    m: String,
    ce: String,
}

/// The marker strings are those of the language.
spec fn marks_for(mk: &Marks, lang: Language) -> bool {
    &&& mk.cb@ == lang.spec_comment_begin()
    &&& mk.m@ == lang.spec_mutation_marker()
    &&& mk.ce@ == lang.spec_comment_end()
}

fn make_marks(lang: &Language) -> (r: Marks)
    ensures
        marks_for(&r, *lang),
{
    let mut m = String::new();
    m.append(lang.mutation_marker());
    Marks { cb: lang.comment_begin(), m, ce: lang.comment_end() }
}

fn parse_body_begin_x(t: &str, mk: &Marks, Ghost(lang): Ghost<Language>) -> (r: Option<String>)
    requires
        marks_for(mk, lang),
    ensures
        match r {
            Some(ind) => spec_parse_body_begin(
                t@,
                lang.spec_comment_begin(),
                lang.spec_mutation_marker(),
            ) == Some(ind@),
            None => spec_parse_body_begin(
                t@,
                lang.spec_comment_begin(),
                lang.spec_mutation_marker(),
            ) is None,
        },
{
    let n = t.unicode_len();
    let e = ws_end_x(t, 0);
    if !starts_with_at_x(t, e, mk.cb.as_str()) {
        return None;
    }
    let p1 = e + mk.cb.as_str().unicode_len();
    if !starts_with_at_x(t, p1, mk.m.as_str()) {
        return None;
    }
    let p2 = p1 + mk.m.as_str().unicode_len();
    if p2 != n {
        return None;
    }
    let ind = String::from_str(t.substring_char(0, e));
    proof {
        assert(ind@ =~= t@.take(e as int));
    }
    Some(ind)
}

fn parse_vend_x(t: &str, mk: &Marks, Ghost(lang): Ghost<Language>) -> (r: Option<String>)
    requires
        marks_for(mk, lang),
    ensures
        ({
            let sp = spec_parse_vend(
                t@,
                lang.spec_comment_begin(),
                lang.spec_mutation_marker(),
                lang.spec_comment_end(),
            );
            match r {
                Some(ind) => sp == Some(ind@),
                None => sp is None,
            }
        }),
{
    proof {
        reveal_strlit(" ");
        assert(" "@ =~= seq![' ']);
    }
    let n = t.unicode_len();
    let e = ws_end_x(t, 0);
    if !starts_with_at_x(t, e, mk.cb.as_str()) {
        return None;
    }
    let p1 = e + mk.cb.as_str().unicode_len();
    if !starts_with_at_x(t, p1, " ") {
        return None;
    }
    let p2 = p1 + 1;
    if !starts_with_at_x(t, p2, mk.m.as_str()) {
        return None;
    }
    let p3 = p2 + mk.m.as_str().unicode_len();
    if !starts_with_at_x(t, p3, mk.ce.as_str()) {
        return None;
    }
    if p3 + mk.ce.as_str().unicode_len() != n {
        return None;
    }
    let ind = String::from_str(t.substring_char(0, e));
    proof {
        assert(ind@ =~= t@.take(e as int));
    }
    Some(ind)
}

fn parse_variant_header_x(t: &str, mk: &Marks, Ghost(lang): Ghost<Language>) -> (r: Option<
    (String, String),
>)
    requires
        marks_for(mk, lang),
    ensures
        ({
            let sp = spec_parse_variant_header(
                t@,
                lang.spec_comment_begin(),
                lang.spec_mutation_marker(),
                lang.spec_comment_end(),
            );
            match r {
                Some(p) => sp == Some((p.0@, p.1@)),
                None => sp is None,
            }
        }),
{
    proof {
        reveal_strlit(" ");
        assert(" "@ =~= seq![' ']);
    }
    let n = t.unicode_len();
    let e = ws_end_x(t, 0);
    if !starts_with_at_x(t, e, mk.cb.as_str()) {
        return None;
    }
    let p1 = e + mk.cb.as_str().unicode_len();
    if !starts_with_at_x(t, p1, mk.m.as_str()) {
        return None;
    }
    let p2 = p1 + mk.m.as_str().unicode_len();
    if !starts_with_at_x(t, p2, mk.m.as_str()) {
        return None;
    }
    let p3 = p2 + mk.m.as_str().unicode_len();
    if !starts_with_at_x(t, p3, " ") {
        return None;
    }
    let p4 = p3 + 1;
    let ne = ident_end_x(t, p4);
    if ne <= p4 {
        return None;
    }
    if !starts_with_at_x(t, ne, " ") {
        return None;
    }
    if !starts_with_at_x(t, ne + 1, mk.ce.as_str()) {
        return None;
    }
    if ne + 1 + mk.ce.as_str().unicode_len() != n {
        return None;
    }
    let ind = String::from_str(t.substring_char(0, e));
    let name = String::from_str(t.substring_char(p4, ne));
    proof {
        assert(ind@ =~= t@.take(e as int));
    }
    Some((ind, name))
}

fn parse_tags_x(t: &str, i: usize) -> (r: Option<(Vec<String>, usize)>)
    requires
        i <= t@.len(),
    ensures
        ({
            let sp = spec_parse_tags(t@, i as int);
            match r {
                Some(p) => sp == Some((p.0.deep_view(), p.1 as int)) && p.1 <= t@.len(),
                None => sp is None,
            }
        }),
    decreases t@.len() - i,
{
    proof {
        reveal_strlit("]");
        assert("]"@ =~= seq![']']);
        reveal_strlit(", ");
        assert(", "@ =~= seq![',', ' ']);
    }
    let n = t.unicode_len();
    let e = ident_end_x(t, i);
    if e <= i {
        return None;
    }
    let tag = String::from_str(t.substring_char(i, e));
    if starts_with_at_x(t, e, "]") {
        let mut v: Vec<String> = Vec::new();
        v.push(tag);
        proof {
            assert(v.deep_view() =~= seq![t@.subrange(i as int, e as int)]);
        }
        Some((v, e + 1))
    } else if starts_with_at_x(t, e, ", ") {
        match parse_tags_x(t, e + 2) {
            Some((rest, j)) => {
                let ghost pre_seq = rest@;
                let ghost pre_dv = rest.deep_view();
                let mut rest = rest;
                rest.insert(0, tag);
                proof {
                    assert(rest@ == pre_seq.insert(0, tag));
                    assert forall|k: int| 0 <= k < rest@.len() implies rest.deep_view()[k] == (
                    seq![t@.subrange(i as int, e as int)] + pre_dv)[k] by {
                        if k > 0 {
                            assert(rest@[k] == pre_seq[k - 1]);
                        }
                    }
                    assert(rest.deep_view() =~= seq![t@.subrange(i as int, e as int)] + pre_dv);
                }
                Some((rest, j))
            },
            None => None,
        }
    } else {
        None
    }
}

fn parse_vheader_x(t: &str, mk: &Marks, Ghost(lang): Ghost<Language>) -> (r: Option<
    (String, Option<String>, Vec<String>),
>)
    requires
        marks_for(mk, lang),
    ensures
        ({
            let sp = spec_parse_vheader(
                t@,
                lang.spec_comment_begin(),
                lang.spec_mutation_marker(),
                lang.spec_comment_end(),
            );
            match r {
                Some(p) => sp == Some((p.0@, p.1.deep_view(), p.2.deep_view())),
                None => sp is None,
            }
        }),
{
    proof {
        reveal_strlit(" ");
        assert(" "@ =~= seq![' ']);
    }
    let n = t.unicode_len();
    let e = ws_end_x(t, 0);
    if !starts_with_at_x(t, e, mk.cb.as_str()) {
        return None;
    }
    let p1 = e + mk.cb.as_str().unicode_len();
    if !starts_with_at_x(t, p1, mk.m.as_str()) {
        return None;
    }
    let p2 = p1 + mk.m.as_str().unicode_len();
    if !starts_with_at_x(t, p2, " ") {
        return None;
    }
    let p3 = p2 + 1;
    let ne = ident_end_x(t, p3);
    if ne > p3 {
        if !starts_with_at_x(t, ne, " ") {
            return None;
        }
        let name = String::from_str(t.substring_char(p3, ne));
        parse_vheader_tail_x(t, ne + 1, e, Some(name), mk, Ghost(lang))
    } else {
        parse_vheader_tail_x(t, p3, e, None, mk, Ghost(lang))
    }
}

fn parse_vheader_tail_x(
    t: &str,
    p: usize,
    e: usize,
    name: Option<String>,
    mk: &Marks,
    Ghost(lang): Ghost<Language>,
) -> (r: Option<(String, Option<String>, Vec<String>)>)
    requires
        marks_for(mk, lang),
        p <= t@.len(),
        e == ws_prefix_end(t@, 0),
        e <= t@.len(),
    ensures
        ({
            let sp = spec_parse_vheader_tail(t@, p as int, name.deep_view(), lang.spec_comment_end());
            match r {
                Some(q) => sp == Some((q.0@, q.1.deep_view(), q.2.deep_view())) && q.1 == name,
                None => sp is None,
            }
        }),
{
    proof {
        reveal_strlit(" ");
        assert(" "@ =~= seq![' ']);
        reveal_strlit("[");
        assert("["@ =~= seq!['[']);
    }
    let n = t.unicode_len();
    if starts_with_at_x(t, p, "[") {
        match parse_tags_x(t, p + 1) {
            Some((tags, q)) => {
                if !starts_with_at_x(t, q, " ") {
                    return None;
                }
                if !starts_with_at_x(t, q + 1, mk.ce.as_str()) {
                    return None;
                }
                if q + 1 + mk.ce.as_str().unicode_len() != n {
                    return None;
                }
                let ind = String::from_str(t.substring_char(0, e));
                proof {
                    assert(ind@ =~= t@.take(e as int));
                }
                Some((ind, name, tags))
            },
            None => None,
        }
    } else if starts_with_at_x(t, p, mk.ce.as_str()) && p + mk.ce.as_str().unicode_len()
        == n {
        let ind = String::from_str(t.substring_char(0, e));
        let tags: Vec<String> = Vec::new();
        proof {
            assert(ind@ =~= t@.take(e as int));
            assert(tags.deep_view() =~= Seq::<Seq<char>>::empty());
        }
        Some((ind, name, tags))
    } else {
        None
    }
}

/// Whether `t` is exactly the concatenation of `a` and `b`.
fn is_cat2(t: &str, a: &str, b: &str) -> (r: bool)
    ensures
        r == (t@ == a@ + b@),
{
    let tn = t.unicode_len();
    let an = a.unicode_len();
    let bn = b.unicode_len();
    if an > tn {
        return false;
    }
    if tn - an != bn {
        return false;
    }
    if !starts_with_at_x(t, 0, a) {
        proof {
            assert(t@ != a@ + b@) by {
                if t@ == a@ + b@ {
                    assert(t@.subrange(0, an as int) =~= a@);
                }
            }
        }
        return false;
    }
    if !starts_with_at_x(t, an, b) {
        proof {
            assert(t@ != a@ + b@) by {
                if t@ == a@ + b@ {
                    assert(t@.subrange(an as int, tn as int) =~= b@);
                }
            }
        }
        return false;
    }
    proof {
        assert(t@ =~= a@ + b@);
    }
    true
}

fn find_body_end_x(
    lines: &Vec<LineRec>,
    j: usize,
    ind: &str,
    mk: &Marks,
    Ghost(lang): Ghost<Language>,
) -> (r: Option<usize>)
    requires
        marks_for(mk, lang),
    ensures
        ({
            let sp = find_body_end(lines.deep_view(), j as int, ind@, lang);
            match r {
                Some(k) => sp == Some(k as int),
                None => sp is None,
            }
        }),
{
    let ghost ll = lines.deep_view();
    let mut q = j;
    while q < lines.len()
        invariant
            j <= q,
            marks_for(mk, lang),
            ll == lines.deep_view(),
            find_body_end(ll, j as int, ind@, lang) == find_body_end(ll, q as int, ind@, lang),
        decreases lines@.len() - q,
    {
        if !lines[q].terminated {
            return None;
        }
        if is_cat2(lines[q].text.as_str(), ind, mk.ce.as_str()) {
            return Some(q);
        }
        q = q + 1;
    }
    None
}

fn active_end_x(lines: &Vec<LineRec>, i: usize, mk: &Marks, Ghost(lang): Ghost<Language>) -> (r:
    usize)
    requires
        marks_for(mk, lang),
        i <= lines@.len(),
    ensures
        r == active_end(lines.deep_view(), i as int, lang),
        i <= r <= lines@.len(),
{
    let ghost ll = lines.deep_view();
    let mut q = i;
    while q < lines.len()
        invariant
            i <= q <= lines@.len(),
            marks_for(mk, lang),
            ll == lines.deep_view(),
            active_end(ll, i as int, lang) == active_end(ll, q as int, lang),
        decreases lines@.len() - q,
    {
        if !lines[q].terminated {
            return q;
        }
        if parse_variant_header_x(lines[q].text.as_str(), mk, Ghost(lang)).is_some() {
            return q;
        }
        if parse_vend_x(lines[q].text.as_str(), mk, Ghost(lang)).is_some() {
            return q;
        }
        q = q + 1;
    }
    q
}

fn plain_end_x(lines: &Vec<LineRec>, i: usize, mk: &Marks, Ghost(lang): Ghost<Language>) -> (r:
    usize)
    requires
        marks_for(mk, lang),
        i <= lines@.len(),
    ensures
        r == plain_end(lines.deep_view(), i as int, lang),
        i <= r <= lines@.len(),
{
    let ghost ll = lines.deep_view();
    let mut q = i;
    while q < lines.len()
        invariant
            i <= q <= lines@.len(),
            marks_for(mk, lang),
            ll == lines.deep_view(),
            plain_end(ll, i as int, lang) == plain_end(ll, q as int, lang),
        decreases lines@.len() - q,
    {
        if lines[q].terminated && parse_vheader_x(lines[q].text.as_str(), mk, Ghost(lang)).is_some() {
            return q;
        }
        q = q + 1;
    }
    q
}

/// Clones the texts of the lines in `[from, to)`.
fn collect_texts(lines: &Vec<LineRec>, from: usize, to: usize) -> (r: Vec<String>)
    requires
        from <= to <= lines@.len(),
    ensures
        r.deep_view() == texts_of(lines.deep_view().subrange(from as int, to as int)),
{
    let mut r: Vec<String> = Vec::new();
    let mut q = from;
    while q < to
        invariant
            from <= q <= to <= lines@.len(),
            r@.len() == q - from,
            forall|k: int| 0 <= k < r@.len() ==> (#[trigger] r@[k])@ == lines@[from + k]@.text,
        decreases to - q,
    {
        let s = lines[q].text.clone();
        r.push(s);
        q = q + 1;
    }
    proof {
        assert forall|k: int|
            0 <= k < r@.len() implies r.deep_view()[k] == texts_of(
            lines.deep_view().subrange(from as int, to as int),
        )[k] by {
            assert(lines.deep_view().subrange(from as int, to as int)[k] == lines.deep_view()[from
                + k]);
            assert(r@[k]@ == lines@[from + k]@.text);
        }
        assert(r.deep_view() =~= texts_of(lines.deep_view().subrange(from as int, to as int)));
    }
    r
}

/// The raw text of the lines in `[from, to)`, newlines included.
fn build_plain_text(lines: &Vec<LineRec>, from: usize, to: usize) -> (r: String)
    requires
        from <= to <= lines@.len(),
    ensures
        r@ == unlines(lines.deep_view().subrange(from as int, to as int)),
{
    let mut out = String::new();
    let mut q = from;
    proof {
        reveal_strlit("\n");
        assert(lines.deep_view().subrange(from as int, from as int) =~= Seq::<LineV>::empty());
    }
    while q < to
        invariant
            from <= q <= to <= lines@.len(),
            out@ == unlines(lines.deep_view().subrange(from as int, q as int)),
        decreases to - q,
    {
        proof {
            reveal_strlit("\n");
            assert(lines.deep_view().subrange(from as int, q as int + 1) =~= lines.deep_view()
                .subrange(from as int, q as int).push(lines.deep_view()[q as int]));
            crate::syntax::lines::lemma_unlines_push(
                lines.deep_view().subrange(from as int, q as int),
                lines.deep_view()[q as int],
            );
        }
        out.append(lines[q].text.as_str());
        if lines[q].terminated {
            out.append("\n");
        }
        proof {
            assert(out@ =~= unlines(lines.deep_view().subrange(from as int, q as int + 1)));
        }
        q = q + 1;
    }
    out
}

fn parse_body_x(
    lines: &Vec<LineRec>,
    i: usize,
    mk: &Marks,
    Ghost(lang): Ghost<Language>,
) -> (r: Option<(VariantBody, usize)>)
    requires
        marks_for(mk, lang),
        i <= lines@.len(),
    ensures
        ({
            let sp = spec_parse_body(lines.deep_view(), i as int, lang);
            match r {
                Some(p) => sp == Some((p.0@, p.1 as int)) && i <= p.1 <= lines@.len(),
                None => sp is None,
            }
        }),
{
    let ghost ll = lines.deep_view();
    if i < lines.len() && lines[i].terminated {
        if let Some(ind) = parse_body_begin_x(lines[i].text.as_str(), mk, Ghost(lang)) {
            return match find_body_end_x(lines, i + 1, ind.as_str(), mk, Ghost(lang)) {
                Some(k) => {
                    proof {
                        lemma_find_body_end(ll, i as int + 1, ind@, lang);
                    }
                    let texts = collect_texts(lines, i + 1, k);
                    Some((VariantBody::InactiveMultiLine { lines: texts, indentation: ind }, k + 1))
                },
                None => None,
            };
        }
    }
    let k = active_end_x(lines, i, mk, Ghost(lang));
    let texts = collect_texts(lines, i, k);
    Some((VariantBody::Active { lines: texts }, k))
}

fn parse_variants_x(
    lines: &Vec<LineRec>,
    i: usize,
    ind: &String,
    mk: &Marks,
    Ghost(lang): Ghost<Language>,
) -> (r: Option<(Vec<Variant>, usize)>)
    requires
        marks_for(mk, lang),
        i <= lines@.len(),
    ensures
        ({
            let sp = spec_parse_variants(lines.deep_view(), i as int, ind@, lang);
            match r {
                Some(p) => sp == Some((p.0.deep_view(), p.1 as int)) && i <= p.1 <= lines@.len(),
                None => sp is None,
            }
        }),
    decreases lines@.len() - i,
{
    let ghost ll = lines.deep_view();
    if i < lines.len() && lines[i].terminated {
        if let Some((hind, nm)) = parse_variant_header_x(lines[i].text.as_str(), mk, Ghost(lang)) {
            if hind == *ind {
                return match parse_body_x(lines, i + 1, mk, Ghost(lang)) {
                    None => None,
                    Some((b, j)) => {
                        match parse_variants_x(lines, j, ind, mk, Ghost(lang)) {
                            None => None,
                            Some((rest, k)) => {
                                let ghost pre_seq = rest@;
                                let ghost pre_dv = rest.deep_view();
                                let mut rest = rest;
                                let v = Variant { name: nm, body: b };
                                rest.insert(0, v);
                                proof {
                                    assert forall|q: int|
                                        0 <= q < rest@.len() implies rest.deep_view()[q] == (
                                    seq![v@] + pre_dv)[q] by {
                                        if q > 0 {
                                            assert(rest@[q] == pre_seq[q - 1]);
                                        }
                                    }
                                    assert(rest.deep_view() =~= seq![v@] + pre_dv);
                                }
                                Some((rest, k))
                            },
                        }
                    },
                };
            }
        }
    }
    let empty: Vec<Variant> = Vec::new();
    proof {
        assert(empty.deep_view() =~= Seq::<VariantView>::empty());
    }
    Some((empty, i))
}

fn parse_variation_x(
    lines: &Vec<LineRec>,
    i: usize,
    mk: &Marks,
    Ghost(lang): Ghost<Language>,
) -> (r: Option<(Variation, usize)>)
    requires
        marks_for(mk, lang),
        i <= lines@.len(),
    ensures
        ({
            let sp = spec_parse_variation(lines.deep_view(), i as int, lang);
            match r {
                Some(p) => sp == Some((p.0@, p.1 as int)) && i < p.1 <= lines@.len(),
                None => sp is None,
            }
        }),
{
    let ghost ll = lines.deep_view();
    if !(i < lines.len() && lines[i].terminated) {
        return None;
    }
    let h = parse_vheader_x(lines[i].text.as_str(), mk, Ghost(lang));
    match h {
        None => None,
        Some((ind, name, tags)) => {
            match parse_body_x(lines, i + 1, mk, Ghost(lang)) {
                None => None,
                Some((b, j)) => {
                    match parse_variants_x(lines, j, &ind, mk, Ghost(lang)) {
                        None => None,
                        Some((vars, k)) => {
                            if !(k < lines.len() && lines[k].terminated) {
                                return None;
                            }
                            let vend = parse_vend_x(lines[k].text.as_str(), mk, Ghost(lang));
                            match vend {
                                None => None,
                                Some(ind2) => {
                                    if !(ind2 == ind) {
                                        return None;
                                    }
                                    let base_active = b.is_active();
                                    let ghost vdv = vars.deep_view();
                                    let mut cnt: usize = 0;
                                    let mut fa: usize = 0;
                                    let mut found = false;
                                    let mut q: usize = 0;
                                    while q < vars.len()
                                        invariant
                                            q <= vars@.len(),
                                            vdv == vars.deep_view(),
                                            cnt <= q,
                                            cnt == count_active(vdv.take(q as int)),
                                            found ==> (fa < q && vdv[fa as int].body.is_active()
                                                && cnt >= 1),
                                            !found ==> cnt == 0,
                                            forall|w: int|
                                                0 <= w < q && (found ==> w < fa) && (!found) ==> !(
                                                #[trigger] vdv[w]).body.is_active(),
                                            found ==> forall|w: int|
                                                0 <= w < fa ==> !(#[trigger] vdv[w]).body.is_active(),
                                        decreases vars@.len() - q,
                                    {
                                        proof {
                                            assert(vdv.take(q as int + 1).drop_last() =~= vdv.take(
                                                q as int,
                                            ));
                                            assert(vdv.take(q as int + 1).last() == vdv[q as int]);
                                        }
                                        if vars[q].is_active() {
                                            if !found {
                                                fa = q;
                                                found = true;
                                            }
                                            cnt = cnt + 1;
                                        }
                                        q = q + 1;
                                    }
                                    proof {
                                        assert(vdv.take(vars@.len() as int) =~= vdv);
                                    }
                                    let active: usize;
                                    if base_active && cnt == 0 {
                                        active = 0;
                                    } else if !base_active && cnt == 1 {
                                        proof {
                                            lemma_count_active_one(vdv);
                                            assert(fa as int == first_active(vdv)) by {
                                                if fa as int != first_active(vdv) {
                                                    assert(!vdv[fa as int].body.is_active());
                                                }
                                            }
                                        }
                                        active = fa + 1;
                                    } else {
                                        return None;
                                    }
                                    let variation = Variation {
                                        name,
                                        tags,
                                        base: Variant { name: String::new(), body: b },
                                        variants: vars,
                                        active,
                                        indentation: ind,
                                    };
                                    proof {
                                        lemma_variation_rt(ll, i as int, lang);
                                        assert(variation@ == (spec_parse_variation(
                                            ll,
                                            i as int,
                                            lang,
                                        )->0).0);
                                    }
                                    Some((variation, k + 1))
                                },
                            }
                        },
                    }
                },
            }
        },
    }
}

fn parse_spans_x(
    lines: &Vec<LineRec>,
    i: usize,
    mk: &Marks,
    Ghost(lang): Ghost<Language>,
) -> (r: Result<Vec<Span>, usize>)
    requires
        marks_for(mk, lang),
        i <= lines@.len(),
    ensures
        ({
            let sp = spec_parse_spans(lines.deep_view(), i as int, lang);
            match r {
                Ok(spans) => sp == Some(spans.deep_view()),
                Err(_) => sp is None,
            }
        }),
    decreases lines@.len() - i,
{
    let ghost ll = lines.deep_view();
    if i >= lines.len() {
        let empty: Vec<Span> = Vec::new();
        proof {
            assert(empty.deep_view() =~= Seq::<SpanView>::empty());
        }
        return Ok(empty);
    }
    let is_start = lines[i].terminated && parse_vheader_x(
        lines[i].text.as_str(),
        mk,
        Ghost(lang),
    ).is_some();
    if is_start {
        match parse_variation_x(lines, i, mk, Ghost(lang)) {
            None => Err(i + 1),
            Some((v, end)) => {
                match parse_spans_x(lines, end, mk, Ghost(lang)) {
                    Err(l) => Err(l),
                    Ok(rest) => {
                        let ghost pre_seq = rest@;
                        let ghost pre_dv = rest.deep_view();
                        let mut rest = rest;
                        let s = Span { line: i + 1, content: SpanContent::Variation(v) };
                        rest.insert(0, s);
                        proof {
                            assert forall|w: int|
                                0 <= w < rest@.len() implies rest.deep_view()[w] == (seq![s@]
                                + pre_dv)[w] by {
                                if w > 0 {
                                    assert(rest@[w] == pre_seq[w - 1]);
                                }
                            }
                            assert(rest.deep_view() =~= seq![s@] + pre_dv);
                        }
                        Ok(rest)
                    },
                }
            },
        }
    } else {
        let j = plain_end_x(lines, i + 1, mk, Ghost(lang));
        let text = build_plain_text(lines, i, j);
        match parse_spans_x(lines, j, mk, Ghost(lang)) {
            Err(l) => Err(l),
            Ok(rest) => {
                let ghost pre_seq = rest@;
                let ghost pre_dv = rest.deep_view();
                let mut rest = rest;
                let s = Span { line: i + 1, content: SpanContent::Line(text) };
                rest.insert(0, s);
                proof {
                    assert forall|w: int|
                        0 <= w < rest@.len() implies rest.deep_view()[w] == (seq![s@] + pre_dv)[w] by {
                        if w > 0 {
                            assert(rest@[w] == pre_seq[w - 1]);
                        }
                    }
                    assert(rest.deep_view() =~= seq![s@] + pre_dv);
                }
                Ok(rest)
            },
        }
    }
}

/// Parses source text into its span sequence under the given language
/// profile.
///
/// The parse is exactly the grammar's decomposition of the text: it
/// succeeds if and only if the grammar accepts the text, and then the spans
/// serialize back to the input byte for byte (the round-trip law), every
/// parsed variation has exactly one active body, and each span carries the
/// 1-indexed line it starts at.  On failure the error carries a line number
/// near the offending region.
pub fn parse_code(input: &str, lang: &Language) -> (r: Result<Vec<Span>, crate::errors::Error>)
    ensures
        match r {
            Ok(spans) => {
                &&& spec_parse_code(input@, *lang) == Some(spans.deep_view())
                &&& crate::code::spec_render_spans(spans.deep_view(), *lang) == input@
                &&& spans_wf(spans.deep_view())
                &&& spans_coalesced(spans.deep_view())
            },
            Err(e) => {
                &&& spec_parse_code(input@, *lang) is None
                &&& e is Grammar
            },
        },
{
    let lines = crate::syntax::lines::split_lines(input);
    let mk = make_marks(lang);
    match parse_spans_x(&lines, 0, &mk, Ghost(*lang)) {
        Ok(spans) => {
            proof {
                lemma_parse_round_trip(input@, *lang);
            }
            Ok(spans)
        },
        Err(l) => Err(crate::errors::Error::Grammar { line: l }),
    }
}

} // verus!
