//! Splitting source text into physical lines, reversibly.
//!
//! A line is the text between two newlines, without the newline itself; only
//! the last line of a file may lack the terminating newline.  Splitting is
//! exactly invertible: `unlines(spec_lines(s)) == s`, and conversely a line
//! sequence of the right shape is the splitting of its own `unlines`.

use vstd::prelude::*;
use vstd::string::StrSliceExecFns;
use vstd::string::StringExecFns;

verus! {

/// Mathematical model of one physical line: its text (newline-free) and
/// whether a newline terminated it.
pub struct LineV {
    pub text: Seq<char>,
    pub terminated: bool,
}

/// One physical line of a file.
#[derive(Debug, Clone, PartialEq)]
pub struct LineRec {
    pub text: String,
    pub terminated: bool,
}

impl View for LineRec {
    type V = LineV;

    open spec fn view(&self) -> LineV {
        LineV { text: self.text@, terminated: self.terminated }
    }
}

impl DeepView for LineRec {
    type V = LineV;

    open spec fn deep_view(&self) -> LineV {
        self.view()
    }
}

/// The views of a sequence of line records.
pub open spec fn lines_view(q: Seq<LineRec>) -> Seq<LineV> {
    Seq::new(q.len(), |i: int| q[i]@)
}

pub proof fn lemma_lines_view_push(q: Seq<LineRec>, l: LineRec)
    ensures
        lines_view(q.push(l)) == lines_view(q).push(l@),
{
    assert(lines_view(q.push(l)) =~= lines_view(q).push(l@));
}

/// The text a line contributes to the file.
pub open spec fn line_text(l: LineV) -> Seq<char> {
    if l.terminated {
        l.text + seq!['\n']
    } else {
        l.text
    }
}

/// The concatenation of the lines back into file text.
pub open spec fn unlines(ls: Seq<LineV>) -> Seq<char>
    decreases ls.len(),
{
    if ls.len() == 0 {
        Seq::empty()
    } else {
        line_text(ls[0]) + unlines(ls.drop_first())
    }
}

pub proof fn lemma_unlines_push(ls: Seq<LineV>, l: LineV)
    ensures
        unlines(ls.push(l)) == unlines(ls) + line_text(l),
    decreases ls.len(),
{
    if ls.len() == 0 {
        assert(ls.push(l).drop_first() =~= Seq::<LineV>::empty());
        assert(unlines(ls.push(l).drop_first()).len() == 0);
        assert(ls.push(l)[0] == l);
        assert(unlines(ls.push(l)) =~= unlines(ls) + line_text(l));
    } else {
        assert(ls.push(l).drop_first() =~= ls.drop_first().push(l));
        lemma_unlines_push(ls.drop_first(), l);
        assert(ls.push(l)[0] == ls[0]);
        assert(unlines(ls.push(l)) =~= unlines(ls) + line_text(l));
    }
}

/// Concatenating line sequences concatenates their text.
pub proof fn lemma_unlines_add(a: Seq<LineV>, b: Seq<LineV>)
    ensures
        unlines(a + b) == unlines(a) + unlines(b),
    decreases a.len(),
{
    if a.len() == 0 {
        assert(a + b =~= b);
        assert(unlines(a + b) =~= unlines(a) + unlines(b));
    } else {
        assert((a + b).drop_first() =~= a.drop_first() + b);
        lemma_unlines_add(a.drop_first(), b);
        assert(unlines(a + b) =~= unlines(a) + unlines(b));
    }
}

/// A line has no newline in it.
pub open spec fn line_clean(l: LineV) -> bool {
    forall|c: int| 0 <= c < l.text.len() ==> l.text[c] != '\n'
}

/// The shape `spec_lines` always produces: newline-free lines, all of them
/// terminated but possibly the last, and no empty unterminated last line.
pub open spec fn lines_wf(ls: Seq<LineV>) -> bool {
    &&& forall|k: int| 0 <= k < ls.len() ==> line_clean(#[trigger] ls[k])
    &&& forall|k: int| 0 <= k < ls.len() - 1 ==> (#[trigger] ls[k]).terminated
    &&& (ls.len() > 0 && !ls.last().terminated ==> ls.last().text.len() > 0)
}

/// The decomposition of text into lines.
pub open spec fn spec_lines(s: Seq<char>) -> Seq<LineV>
    decreases s.len(),
{
    if s.len() == 0 {
        Seq::empty()
    } else if s[0] == '\n' {
        seq![LineV { text: Seq::empty(), terminated: true }] + spec_lines(s.drop_first())
    } else {
        let rest = spec_lines(s.drop_first());
        if rest.len() == 0 {
            seq![LineV { text: seq![s[0]], terminated: false }]
        } else {
            seq![LineV { text: seq![s[0]] + rest[0].text, terminated: rest[0].terminated }]
                + rest.drop_first()
        }
    }
}

/// Splitting after one whole terminated line peels that line off.
proof fn lemma_spec_lines_term(t: Seq<char>, rest: Seq<char>)
    requires
        forall|c: int| 0 <= c < t.len() ==> t[c] != '\n',
    ensures
        spec_lines(t + seq!['\n'] + rest) == seq![LineV { text: t, terminated: true }]
            + spec_lines(rest),
    decreases t.len(),
{
    let s = t + seq!['\n'] + rest;
    if t.len() == 0 {
        assert(s[0] == '\n');
        assert(s.drop_first() =~= rest);
        assert(t =~= Seq::<char>::empty());
        assert(spec_lines(s) == seq![LineV { text: Seq::empty(), terminated: true }] + spec_lines(
            s.drop_first(),
        ));
        assert(spec_lines(s) =~= seq![LineV { text: t, terminated: true }] + spec_lines(rest));
    } else {
        assert(s[0] == t[0]);
        assert(s[0] != '\n');
        assert(s.drop_first() =~= t.drop_first() + seq!['\n'] + rest);
        lemma_spec_lines_term(t.drop_first(), rest);
        let r = spec_lines(s.drop_first());
        assert(r[0] == (LineV { text: t.drop_first(), terminated: true }));
        assert(r.len() > 0);
        assert(seq![s[0]] + r[0].text =~= t);
        assert(r.drop_first() =~= spec_lines(rest));
        assert(spec_lines(s) =~= seq![LineV { text: t, terminated: true }] + spec_lines(rest));
    }
}

/// A nonempty newline-free text is a single unterminated line.
proof fn lemma_spec_lines_noterm(t: Seq<char>)
    requires
        t.len() > 0,
        forall|c: int| 0 <= c < t.len() ==> t[c] != '\n',
    ensures
        spec_lines(t) == seq![LineV { text: t, terminated: false }],
    decreases t.len(),
{
    if t.len() == 1 {
        assert(t.drop_first() =~= Seq::<char>::empty());
        assert(spec_lines(t.drop_first()).len() == 0);
        assert(t[0] != '\n');
        assert(seq![t[0]] =~= t);
        assert(spec_lines(t) == seq![LineV { text: seq![t[0]], terminated: false }]);
        assert(spec_lines(t) =~= seq![LineV { text: t, terminated: false }]);
    } else {
        lemma_spec_lines_noterm(t.drop_first());
        let r = spec_lines(t.drop_first());
        assert(r.len() == 1);
        assert(r[0] == (LineV { text: t.drop_first(), terminated: false }));
        assert(seq![t[0]] + r[0].text =~= t);
        assert(r.drop_first() =~= Seq::<LineV>::empty());
        assert(t[0] != '\n');
        assert(spec_lines(t) == seq![
            LineV { text: seq![t[0]] + r[0].text, terminated: r[0].terminated },
        ] + r.drop_first());
        assert(spec_lines(t) =~= seq![LineV { text: t, terminated: false }]);
    }
}

/// Uniqueness of the decomposition: a well-shaped line sequence is the
/// splitting of its own concatenation.
pub proof fn lemma_unlines_lines(ls: Seq<LineV>)
    requires
        lines_wf(ls),
    ensures
        spec_lines(unlines(ls)) == ls,
    decreases ls.len(),
{
    if ls.len() == 0 {
        assert(unlines(ls).len() == 0);
    } else {
        let first = ls[0];
        let rest = ls.drop_first();
        if first.terminated {
            assert(lines_wf(rest)) by {
                assert(forall|k: int| 0 <= k < rest.len() ==> rest[k] == ls[k + 1]);
            }
            lemma_unlines_lines(rest);
            lemma_spec_lines_term(first.text, unlines(rest));
            assert(unlines(ls) =~= first.text + seq!['\n'] + unlines(rest));
            assert(spec_lines(unlines(ls)) =~= ls);
        } else {
            // An unterminated line is necessarily the last one.
            assert(ls.len() == 1) by {
                if ls.len() > 1 {
                    assert(ls[0].terminated);
                }
            }
            assert(ls.drop_first() =~= Seq::<LineV>::empty());
            assert(unlines(ls.drop_first()).len() == 0);
            assert(unlines(ls) =~= first.text);
            lemma_spec_lines_noterm(first.text);
            assert(spec_lines(unlines(ls)) =~= ls);
        }
    }
}

/// `spec_lines` output is well shaped and concatenates back to the input.
pub proof fn lemma_lines_unlines(s: Seq<char>)
    ensures
        lines_wf(spec_lines(s)),
        unlines(spec_lines(s)) == s,
    decreases s.len(),
{
    if s.len() == 0 {
    } else if s[0] == '\n' {
        lemma_lines_unlines(s.drop_first());
        let ls = spec_lines(s);
        assert(ls.drop_first() =~= spec_lines(s.drop_first()));
        assert(lines_wf(ls)) by {
            assert(forall|k: int|
                1 <= k < ls.len() ==> ls[k] == spec_lines(s.drop_first())[k - 1]);
        }
        assert(unlines(ls) =~= s);
    } else {
        lemma_lines_unlines(s.drop_first());
        let rest = spec_lines(s.drop_first());
        let ls = spec_lines(s);
        if rest.len() == 0 {
            assert(s.drop_first().len() == 0) by {
                if s.drop_first().len() > 0 {
                    assert(spec_lines(s.drop_first()).len() > 0);
                }
            }
            assert(seq![s[0]] =~= s);
            assert(ls == seq![LineV { text: seq![s[0]], terminated: false }]);
            assert(ls.drop_first() =~= Seq::<LineV>::empty());
            assert(unlines(ls.drop_first()).len() == 0);
            assert(unlines(ls) =~= s);
        } else {
            assert(ls.drop_first() =~= rest.drop_first());
            assert(lines_wf(ls)) by {
                assert(forall|k: int| 1 <= k < ls.len() ==> ls[k] == rest[k]);
                assert(forall|k: int| 0 <= k < rest.len() - 1 ==> (#[trigger] rest[k]).terminated);
                if !ls.last().terminated {
                    if ls.len() == 1 {
                        assert(ls.last().text.len() > 0);
                    } else {
                        assert(ls.last() == rest.last());
                    }
                }
            }
            assert(unlines(rest) == line_text(rest[0]) + unlines(rest.drop_first()));
            assert(line_text(ls[0]) =~= seq![s[0]] + line_text(rest[0]));
            assert(unlines(ls) == line_text(ls[0]) + unlines(ls.drop_first()));
            assert(unlines(ls.drop_first()) == unlines(rest.drop_first()));
            assert(unlines(rest) == s.drop_first());
            assert(s =~= seq![s[0]] + s.drop_first());
            assert(unlines(ls) =~= s);
        }
    }
}

/// Splits text into its physical lines.
pub fn split_lines(input: &str) -> (r: Vec<LineRec>)
    ensures
        r.deep_view() == spec_lines(input@),
{
    let n = input.unicode_len();
    let mut r: Vec<LineRec> = Vec::new();
    let mut start: usize = 0;
    let mut i: usize = 0;
    proof {
        reveal_strlit("\n");
    }
    while i < n
        invariant
            start <= i <= n,
            n == input@.len(),
            unlines(lines_view(r@)) == input@.take(start as int),
            forall|k: int| start <= k < i ==> input@[k] != '\n',
            forall|k: int| 0 <= k < r@.len() ==> (#[trigger] lines_view(r@)[k]).terminated,
            forall|k: int| 0 <= k < r@.len() ==> line_clean(#[trigger] lines_view(r@)[k]),
        decreases n - i,
    {
        let c = input.get_char(i);
        if c == '\n' {
            let piece = input.substring_char(start, i);
            let text = String::from_str(piece);
            let ghost pre = r@;
            let ghost new_line = LineV { text: input@.subrange(start as int, i as int), terminated: true };
            r.push(LineRec { text, terminated: true });
            proof {
                lemma_lines_view_push(pre, LineRec { text, terminated: true });
                lemma_unlines_push(lines_view(pre), new_line);
                assert(unlines(lines_view(r@)) =~= input@.take(i as int + 1));
                assert forall|k: int| 0 <= k < r@.len() implies (#[trigger] lines_view(
                    r@,
                )[k]).terminated && line_clean(lines_view(r@)[k]) by {
                    if k < pre.len() {
                        assert(lines_view(r@)[k] == lines_view(pre)[k]);
                    }
                }
            }
            start = i + 1;
        }
        i = i + 1;
    }
    if start < n {
        let piece = input.substring_char(start, n);
        let text = String::from_str(piece);
        let ghost pre = r@;
        let ghost new_line = LineV { text: input@.subrange(start as int, n as int), terminated: false };
        r.push(LineRec { text, terminated: false });
        proof {
            lemma_lines_view_push(pre, LineRec { text, terminated: false });
            lemma_unlines_push(lines_view(pre), new_line);
            assert(unlines(lines_view(r@)) =~= input@);
            assert forall|k: int| 0 <= k < r@.len() implies line_clean(
                #[trigger] lines_view(r@)[k],
            ) by {
                if k < pre.len() {
                    assert(lines_view(r@)[k] == lines_view(pre)[k]);
                }
            }
            assert(lines_wf(lines_view(r@))) by {
                assert(forall|k: int|
                    0 <= k < r@.len() - 1 ==> (#[trigger] lines_view(r@)[k]).terminated);
            }
        }
    } else {
        proof {
            assert(unlines(lines_view(r@)) =~= input@);
            assert(lines_wf(lines_view(r@)));
        }
    }
    proof {
        lemma_unlines_lines(lines_view(r@));
        assert(r.deep_view() =~= lines_view(r@));
    }
    r
}

} // verus!
