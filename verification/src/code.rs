//! Parsed source files: the span sequence and its serializer.
//!
//! A file's content is an ordered sequence of spans, each either a run of
//! plain text (kept verbatim, newlines included) or a variation.  The
//! serializer reconstructs source text; concatenating the serialized spans
//! reproduces the original file byte-for-byte as long as no activation
//! changed (the round-trip law, proved in the parser module).

use vstd::prelude::*;
use vstd::string::StrSliceExecFns;
use vstd::string::StringExecFns;

use crate::errors::Error;
use crate::languages::Language;
use crate::variation::{BodyView, Variant, VariantBody, Variation, VariationView};

verus! {

// ------------------------------------------------------------------
// Rendering, as a mathematical function of the model
// ------------------------------------------------------------------

/// One newline character.
pub open spec fn nl() -> Seq<char> {
    seq!['\n']
}

/// Lines of code, each followed by a newline.
pub open spec fn cat_lines(lines: Seq<Seq<char>>) -> Seq<char>
    decreases lines.len(),
{
    if lines.len() == 0 {
        Seq::empty()
    } else {
        cat_lines(lines.drop_last()) + lines.last() + nl()
    }
}

/// Tag names joined by a comma and a space.
pub open spec fn join_comma(ts: Seq<Seq<char>>) -> Seq<char>
    decreases ts.len(),
{
    if ts.len() == 0 {
        Seq::empty()
    } else if ts.len() == 1 {
        ts[0]
    } else {
        join_comma(ts.drop_last()) + seq![',', ' '] + ts.last()
    }
}

/// The title part of a variation header: the optional name and the optional
/// bracketed tag list, each followed by one space.
pub open spec fn spec_render_title(name: Option<Seq<char>>, tags: Seq<Seq<char>>) -> Seq<char> {
    (match name {
        Some(n) => n + seq![' '],
        None => Seq::empty(),
    }) + (if tags.len() == 0 {
        Seq::<char>::empty()
    } else {
        seq!['['] + join_comma(tags) + seq![']', ' ']
    })
}

/// The variation header line:
/// `{indent}{comment_begin}{marker} {title}{comment_end}\n`.
pub open spec fn spec_render_vheader(v: VariationView, lang: Language) -> Seq<char> {
    v.indentation + lang.spec_comment_begin() + lang.spec_mutation_marker() + seq![' ']
        + spec_render_title(v.name, v.tags) + lang.spec_comment_end() + nl()
}

/// A body in its current rendering: bare lines when active, or the lines
/// wrapped between `{indent}{comment_begin}{marker}` and
/// `{indent}{comment_end}` lines when inactive, using the body's recorded
/// indentation.
pub open spec fn spec_render_body(b: BodyView, lang: Language) -> Seq<char> {
    match b {
        BodyView::Active { lines } => cat_lines(lines),
        BodyView::InactiveMultiLine { lines, indentation } => indentation
            + lang.spec_comment_begin() + lang.spec_mutation_marker() + nl() + cat_lines(lines)
            + indentation + lang.spec_comment_end() + nl(),
        BodyView::InactiveSingleLine { line, indentation } => indentation
            + lang.spec_comment_begin() + lang.spec_mutation_marker() + nl() + cat_lines(
            seq![line],
        ) + indentation + lang.spec_comment_end() + nl(),
    }
}

/// A variant header line:
/// `{indent}{comment_begin}{marker}{marker} {name} {comment_end}\n`.
pub open spec fn spec_render_variant_header(
    name: Seq<char>,
    indent: Seq<char>,
    lang: Language,
) -> Seq<char> {
    indent + lang.spec_comment_begin() + lang.spec_mutation_marker() + lang.spec_mutation_marker()
        + seq![' '] + name + seq![' '] + lang.spec_comment_end() + nl()
}

/// All variants of a variation: each a header line followed by the body.
/// Variant header lines carry the variation's own indentation.
pub open spec fn spec_render_variants(
    vs: Seq<crate::variation::VariantView>,
    indent: Seq<char>,
    lang: Language,
) -> Seq<char>
    decreases vs.len(),
{
    if vs.len() == 0 {
        Seq::empty()
    } else {
        spec_render_variants(vs.drop_last(), indent, lang) + spec_render_variant_header(
            vs.last().name,
            indent,
            lang,
        ) + spec_render_body(vs.last().body, lang)
    }
}

/// The end-marker line: `{indent}{comment_begin} {marker}{comment_end}\n`.
/// Note the asymmetry with the header: the marker stands immediately before
/// the comment end, after one space, so the end marker cannot be misread as
/// another begin marker.
pub open spec fn spec_render_vend(indent: Seq<char>, lang: Language) -> Seq<char> {
    indent + lang.spec_comment_begin() + seq![' '] + lang.spec_mutation_marker()
        + lang.spec_comment_end() + nl()
}

/// A whole variation: header, base body, variants, end marker.
pub open spec fn spec_render_variation(v: VariationView, lang: Language) -> Seq<char> {
    spec_render_vheader(v, lang) + spec_render_body(v.base.body, lang) + spec_render_variants(
        v.variants,
        v.indentation,
        lang,
    ) + spec_render_vend(v.indentation, lang)
}

// ------------------------------------------------------------------
// Spans
// ------------------------------------------------------------------

/// Mathematical model of a span's content.
pub enum ContentView {
    Variation(VariationView),
    Line(Seq<char>),
}

/// Mathematical model of a span.
pub struct SpanView {
    pub line: int,
    pub content: ContentView,
}

/// A span rendered back to text: plain text verbatim, a variation through
/// the grammar.
pub open spec fn spec_render_span(s: SpanView, lang: Language) -> Seq<char> {
    match s.content {
        ContentView::Line(t) => t,
        ContentView::Variation(v) => spec_render_variation(v, lang),
    }
}

/// A span sequence rendered back to text.
pub open spec fn spec_render_spans(ss: Seq<SpanView>, lang: Language) -> Seq<char>
    decreases ss.len(),
{
    if ss.len() == 0 {
        Seq::empty()
    } else {
        spec_render_spans(ss.drop_last(), lang) + spec_render_span(ss.last(), lang)
    }
}

/// The content of a span: a variation, or a run of plain text kept verbatim
/// (newlines included).
#[derive(Debug, Clone, PartialEq)]
pub enum SpanContent {
    Variation(Variation),
    Line(String),
}

impl View for SpanContent {
    type V = ContentView;

    open spec fn view(&self) -> ContentView {
        match self {
            SpanContent::Variation(v) => ContentView::Variation(v@),
            SpanContent::Line(t) => ContentView::Line(t@),
        }
    }
}

impl DeepView for SpanContent {
    type V = ContentView;

    open spec fn deep_view(&self) -> ContentView {
        self.view()
    }
}

/// A span: its content and the 1-indexed line of its first character in the
/// original file.
#[derive(Debug, Clone, PartialEq)]
pub struct Span {
    pub line: usize,
    pub content: SpanContent,
}

impl View for Span {
    type V = SpanView;

    open spec fn view(&self) -> SpanView {
        SpanView { line: self.line as int, content: self.content@ }
    }
}

impl DeepView for Span {
    type V = SpanView;

    open spec fn deep_view(&self) -> SpanView {
        self.view()
    }
}

impl Span {
    /// A plain-text span.
    pub fn constant(content: String, line: usize) -> (r: Span)
        ensures
            r@ == (SpanView { line: line as int, content: ContentView::Line(content@) }),
    {
        Span { line, content: SpanContent::Line(content) }
    }

    /// A variation span.
    pub fn variation(variation: Variation, line: usize) -> (r: Span)
        ensures
            r@ == (SpanView { line: line as int, content: ContentView::Variation(variation@) }),
    {
        Span { line, content: SpanContent::Variation(variation) }
    }
}

// ------------------------------------------------------------------
// Code: a parsed file
// ------------------------------------------------------------------

/// Mathematical model of a parsed file.
pub struct CodeView {
    pub language: Language,
    pub spans: Seq<SpanView>,
    pub path: Seq<char>,
}

/// A parsed file: its language, its span sequence, and the path it came
/// from.
#[derive(Debug)]
pub struct Code {
    pub language: Language,
    pub spans: Vec<Span>,
    pub path: String,
}

impl View for Code {
    type V = CodeView;

    open spec fn view(&self) -> CodeView {
        CodeView {
            language: self.language,
            spans: self.spans.deep_view(),
            path: self.path@,
        }
    }
}

impl Code {
    pub fn new(language: Language, spans: Vec<Span>, path: String) -> (r: Code)
        ensures
            r@ == (CodeView { language, spans: spans.deep_view(), path: path@ }),
    {
        Code { language, spans, path }
    }

    /// Serializes the spans back to source text.
    pub fn to_text(&self) -> (r: String)
        ensures
            r@ == spec_render_spans(self@.spans, self@.language),
    {
        let mut out = String::new();
        let mut i: usize = 0;
        while i < self.spans.len()
            invariant
                i <= self.spans.len(),
                out@ == spec_render_spans(self@.spans.take(i as int), self@.language),
            decreases self.spans.len() - i,
        {
            proof {
                assert(self@.spans.take(i as int + 1).drop_last() =~= self@.spans.take(i as int));
                assert(self@.spans.take(i as int + 1).last() == self@.spans[i as int]);
            }
            match &self.spans[i].content {
                SpanContent::Line(t) => {
                    out.append(t.as_str());
                },
                SpanContent::Variation(v) => {
                    push_variation(&mut out, v, &self.language);
                },
            }
            i = i + 1;
        }
        proof {
            assert(self@.spans.take(self.spans.len() as int) =~= self@.spans);
        }
        out
    }

    /// The names of every variant in the file, in order.
    pub fn get_all_variants(&self) -> (r: Vec<String>)
        ensures
            r.deep_view() == spec_all_variants(self@.spans),
    {
        let mut r: Vec<String> = Vec::new();
        let mut i: usize = 0;
        while i < self.spans.len()
            invariant
                i <= self.spans.len(),
                crate::variation::strs_view(r@) == spec_all_variants(self@.spans.take(i as int)),
            decreases self.spans.len() - i,
        {
            proof {
                assert(self@.spans.take(i as int + 1).drop_last() =~= self@.spans.take(i as int));
                assert(self@.spans.take(i as int + 1).last() == self@.spans[i as int]);
            }
            match &self.spans[i].content {
                SpanContent::Variation(v) => {
                    let ghost before = crate::variation::strs_view(r@);
                    let mut j: usize = 0;
                    while j < v.variants.len()
                        invariant
                            j <= v.variants.len(),
                            crate::variation::strs_view(r@) == before + spec_variant_names(
                                v@.variants.take(j as int),
                            ),
                        decreases v.variants.len() - j,
                    {
                        proof {
                            assert(v@.variants.take(j as int + 1).drop_last() =~= v@.variants.take(
                                j as int,
                            ));
                            assert(v@.variants.take(j as int + 1).last() == v@.variants[j as int]);
                        }
                        let s = v.variants[j].name.clone();
                        let ghost pre = r@;
                        r.push(s);
                        proof {
                            crate::variation::lemma_strs_view_push(pre, s);
                            assert(crate::variation::strs_view(r@) =~= before + spec_variant_names(
                                v@.variants.take(j as int + 1),
                            ));
                        }
                        j = j + 1;
                    }
                    proof {
                        assert(v@.variants.take(v.variants.len() as int) =~= v@.variants);
                        assert(crate::variation::strs_view(r@) =~= spec_all_variants(
                            self@.spans.take(i as int + 1),
                        ));
                    }
                },
                SpanContent::Line(_) => {
                    proof {
                        assert(crate::variation::strs_view(r@) =~= spec_all_variants(
                            self@.spans.take(i as int + 1),
                        ));
                    }
                },
            }
            i = i + 1;
        }
        proof {
            assert(self@.spans.take(self.spans.len() as int) =~= self@.spans);
            assert(r.deep_view() =~= crate::variation::strs_view(r@));
        }
        r
    }

    /// Activates variant `variant_index` (0 is the base) of the variation at
    /// span `variation_index`.  Fails with `IndexOutOfRange` when the span
    /// index does not denote a variation or the variant index is beyond the
    /// variant count, and with `VariantAlreadyActive` when the requested
    /// body is already the active one; the file is unchanged on failure.
    pub fn set_active_variant(&mut self, variation_index: usize, variant_index: usize) -> (r:
        Result<(), Error>)
        ensures
            match r {
                Ok(()) => {
                    &&& spec_activation_target_ok(old(self)@, variation_index, variant_index)
                    &&& !spec_target_already_active(old(self)@, variation_index, variant_index)
                    &&& {
                        let v = old(self)@.spans[variation_index as int].content->Variation_0;
                        final(self)@.spans == old(self)@.spans.update(
                            variation_index as int,
                            SpanView {
                                line: old(self)@.spans[variation_index as int].line,
                                content: ContentView::Variation(
                                    v.spec_activate(variant_index as int),
                                ),
                            },
                        )
                    }
                    &&& final(self)@.language == old(self)@.language
                    &&& final(self)@.path == old(self)@.path
                },
                Err(Error::IndexOutOfRange) => {
                    &&& final(self)@ == old(self)@
                    &&& !spec_activation_target_ok(old(self)@, variation_index, variant_index)
                },
                Err(Error::VariantAlreadyActive) => {
                    &&& final(self)@ == old(self)@
                    &&& spec_activation_target_ok(old(self)@, variation_index, variant_index)
                    &&& spec_target_already_active(old(self)@, variation_index, variant_index)
                },
                Err(_) => false,
            },
    {
        if variation_index >= self.spans.len() {
            return Err(Error::IndexOutOfRange);
        }
        let span = self.spans.remove(variation_index);
        let Span { line, content } = span;
        match content {
            SpanContent::Variation(mut v) => {
                if variant_index > v.variants.len() {
                    self.spans.insert(
                        variation_index,
                        Span { line, content: SpanContent::Variation(v) },
                    );
                    proof {
                        assert(self@.spans =~= old(self)@.spans);
                        assert(self@ =~= old(self)@);
                    }
                    return Err(Error::IndexOutOfRange);
                }
                let already = if variant_index == 0 {
                    v.base.is_active()
                } else {
                    v.variants[variant_index - 1].is_active()
                };
                if already {
                    self.spans.insert(
                        variation_index,
                        Span { line, content: SpanContent::Variation(v) },
                    );
                    proof {
                        assert(self@.spans =~= old(self)@.spans);
                        assert(self@ =~= old(self)@);
                    }
                    return Err(Error::VariantAlreadyActive);
                }
                v.activate_variant(variant_index);
                self.spans.insert(
                    variation_index,
                    Span { line, content: SpanContent::Variation(v) },
                );
                proof {
                    assert(self@.spans =~= old(self)@.spans.update(
                        variation_index as int,
                        SpanView {
                            line: old(self)@.spans[variation_index as int].line,
                            content: ContentView::Variation(
                                old(
                                    self,
                                )@.spans[variation_index as int].content->Variation_0.spec_activate(
                                    variant_index as int,
                                ),
                            ),
                        },
                    ));
                }
                Ok(())
            },
            SpanContent::Line(t) => {
                self.spans.insert(variation_index, Span { line, content: SpanContent::Line(t) });
                proof {
                    assert(self@.spans =~= old(self)@.spans);
                    assert(self@ =~= old(self)@);
                }
                Err(Error::IndexOutOfRange)
            },
        }
    }
}

/// The span index denotes a variation and the variant index is in range
/// (0 is the base, `i + 1` is `variants[i]`).
pub open spec fn spec_activation_target_ok(
    c: CodeView,
    variation_index: usize,
    variant_index: usize,
) -> bool {
    &&& variation_index < c.spans.len()
    &&& c.spans[variation_index as int].content is Variation
    &&& variant_index <= c.spans[variation_index as int].content->Variation_0.variants.len()
}

/// The body selected by the variant index is already in its active
/// rendering.
pub open spec fn spec_target_already_active(
    c: CodeView,
    variation_index: usize,
    variant_index: usize,
) -> bool {
    let v = c.spans[variation_index as int].content->Variation_0;
    if variant_index == 0 {
        v.base.body.is_active()
    } else {
        v.variants[variant_index - 1].body.is_active()
    }
}

/// The names of a variant sequence.
pub open spec fn spec_variant_names(vs: Seq<crate::variation::VariantView>) -> Seq<Seq<char>>
    decreases vs.len(),
{
    if vs.len() == 0 {
        Seq::empty()
    } else {
        spec_variant_names(vs.drop_last()).push(vs.last().name)
    }
}

/// Names line up with the variants, index by index.
pub proof fn lemma_variant_names_index(vs: Seq<crate::variation::VariantView>)
    ensures
        spec_variant_names(vs).len() == vs.len(),
        forall|k: int| 0 <= k < vs.len() ==> #[trigger] spec_variant_names(vs)[k] == vs[k].name,
    decreases vs.len(),
{
    if vs.len() > 0 {
        lemma_variant_names_index(vs.drop_last());
    }
}

/// The names of every variant in a span sequence, in order.
pub open spec fn spec_all_variants(ss: Seq<SpanView>) -> Seq<Seq<char>>
    decreases ss.len(),
{
    if ss.len() == 0 {
        Seq::empty()
    } else {
        spec_all_variants(ss.drop_last()) + (match ss.last().content {
            ContentView::Variation(v) => spec_variant_names(v.variants),
            ContentView::Line(_) => Seq::empty(),
        })
    }
}

// ------------------------------------------------------------------
// Executable rendering
// ------------------------------------------------------------------

/// Appends the lines, each followed by a newline.
fn push_lines(out: &mut String, lines: &Vec<String>)
    ensures
        final(out)@ == old(out)@ + cat_lines(lines.deep_view()),
{
    let ghost base = old(out)@;
    proof {
        reveal_strlit("\n");
        assert(base + cat_lines(lines.deep_view().take(0)) =~= base);
    }
    let mut i: usize = 0;
    while i < lines.len()
        invariant
            i <= lines.len(),
            out@ == base + cat_lines(lines.deep_view().take(i as int)),
        decreases lines.len() - i,
    {
        proof {
            reveal_strlit("\n");
            assert(lines.deep_view().take(i as int + 1).drop_last() =~= lines.deep_view().take(
                i as int,
            ));
            assert(lines.deep_view().take(i as int + 1).last() == lines.deep_view()[i as int]);
        }
        out.append(lines[i].as_str());
        out.append("\n");
        proof {
            assert(out@ =~= base + cat_lines(lines.deep_view().take(i as int + 1)));
        }
        i = i + 1;
    }
    proof {
        assert(lines.deep_view().take(lines.len() as int) =~= lines.deep_view());
    }
}

/// Appends a body in its current rendering.
fn push_body(out: &mut String, body: &VariantBody, lang: &Language)
    ensures
        final(out)@ == old(out)@ + spec_render_body(body@, *lang),
{
    match body {
        VariantBody::Active { lines } => {
            push_lines(out, lines);
        },
        VariantBody::InactiveMultiLine { lines, indentation } => {
            let cb = lang.comment_begin();
            let ce = lang.comment_end();
            out.append(indentation.as_str());
            out.append(cb.as_str());
            out.append(lang.mutation_marker());
            out.append("\n");
            push_lines(out, lines);
            out.append(indentation.as_str());
            out.append(ce.as_str());
            out.append("\n");
            proof {
                reveal_strlit("\n");
                assert(out@ =~= old(out)@ + spec_render_body(body@, *lang));
            }
        },
        VariantBody::InactiveSingleLine { line, indentation } => {
            let cb = lang.comment_begin();
            let ce = lang.comment_end();
            out.append(indentation.as_str());
            out.append(cb.as_str());
            out.append(lang.mutation_marker());
            out.append("\n");
            out.append(line.as_str());
            out.append("\n");
            out.append(indentation.as_str());
            out.append(ce.as_str());
            out.append("\n");
            proof {
                reveal_strlit("\n");
                assert(seq![line@].drop_last() =~= Seq::<Seq<char>>::empty());
                assert(cat_lines(Seq::<Seq<char>>::empty()) == Seq::<char>::empty());
                assert(cat_lines(seq![line@]) =~= line@ + nl());
                assert(out@ =~= old(out)@ + spec_render_body(body@, *lang));
            }
        },
    }
}

/// Appends the title part of a variation header.
fn push_title(out: &mut String, name: &Option<String>, tags: &Vec<String>)
    ensures
        final(out)@ == old(out)@ + spec_render_title(name.deep_view(), tags.deep_view()),
{
    match name {
        Some(n) => {
            out.append(n.as_str());
            out.append(" ");
        },
        None => {},
    }
    let ghost after_name = out@;
    if tags.len() > 0 {
        out.append("[");
        let ghost tbase = out@;
        let mut j: usize = 0;
        while j < tags.len()
            invariant
                j <= tags.len(),
                tags.len() > 0,
                j > 0 ==> out@ == tbase + join_comma(tags.deep_view().take(j as int)),
                j == 0 ==> out@ == tbase,
            decreases tags.len() - j,
        {
            proof {
                reveal_strlit(", ");
                assert(tags.deep_view().take(j as int + 1).drop_last() =~= tags.deep_view().take(
                    j as int,
                ));
                assert(tags.deep_view().take(j as int + 1).last() == tags.deep_view()[j as int]);
            }
            if j > 0 {
                out.append(", ");
            }
            out.append(tags[j].as_str());
            proof {
                if j == 0 {
                    assert(tags.deep_view().take(1).len() == 1);
                    assert(out@ =~= tbase + join_comma(tags.deep_view().take(1)));
                } else {
                    assert(out@ =~= tbase + join_comma(tags.deep_view().take(j as int + 1)));
                }
            }
            j = j + 1;
        }
        out.append("] ");
        proof {
            reveal_strlit(" ");
            reveal_strlit("[");
            reveal_strlit("] ");
            assert(tags.deep_view().take(tags.len() as int) =~= tags.deep_view());
            assert(out@ =~= old(out)@ + spec_render_title(name.deep_view(), tags.deep_view()));
        }
    } else {
        proof {
            reveal_strlit(" ");
            assert(out@ =~= old(out)@ + spec_render_title(name.deep_view(), tags.deep_view()));
        }
    }
}

/// Appends the variation header line.
fn push_vheader(out: &mut String, v: &Variation, lang: &Language)
    ensures
        final(out)@ == old(out)@ + spec_render_vheader(v@, *lang),
{
    let cb = lang.comment_begin();
    let ce = lang.comment_end();
    out.append(v.indentation.as_str());
    out.append(cb.as_str());
    out.append(lang.mutation_marker());
    out.append(" ");
    push_title(out, &v.name, &v.tags);
    out.append(ce.as_str());
    out.append("\n");
    proof {
        reveal_strlit(" ");
        reveal_strlit("\n");
        assert(out@ =~= old(out)@ + spec_render_vheader(v@, *lang));
    }
}

/// Appends a variant header line.
fn push_variant_header(out: &mut String, name: &String, indent: &String, lang: &Language)
    ensures
        final(out)@ == old(out)@ + spec_render_variant_header(name@, indent@, *lang),
{
    let cb = lang.comment_begin();
    let ce = lang.comment_end();
    out.append(indent.as_str());
    out.append(cb.as_str());
    out.append(lang.mutation_marker());
    out.append(lang.mutation_marker());
    out.append(" ");
    out.append(name.as_str());
    out.append(" ");
    out.append(ce.as_str());
    out.append("\n");
    proof {
        reveal_strlit(" ");
        reveal_strlit("\n");
        assert(out@ =~= old(out)@ + spec_render_variant_header(name@, indent@, *lang));
    }
}

/// Appends the end-marker line.
fn push_vend(out: &mut String, indent: &String, lang: &Language)
    ensures
        final(out)@ == old(out)@ + spec_render_vend(indent@, *lang),
{
    let cb = lang.comment_begin();
    let ce = lang.comment_end();
    out.append(indent.as_str());
    out.append(cb.as_str());
    out.append(" ");
    out.append(lang.mutation_marker());
    out.append(ce.as_str());
    out.append("\n");
    proof {
        reveal_strlit(" ");
        reveal_strlit("\n");
        assert(out@ =~= old(out)@ + spec_render_vend(indent@, *lang));
    }
}

/// Appends a whole variation: header, base body, variants, end marker.
fn push_variation(out: &mut String, v: &Variation, lang: &Language)
    ensures
        final(out)@ == old(out)@ + spec_render_variation(v@, *lang),
{
    push_vheader(out, v, lang);
    push_body(out, &v.base.body, lang);
    let ghost after_base = out@;
    let mut i: usize = 0;
    while i < v.variants.len()
        invariant
            i <= v.variants.len(),
            out@ == after_base + spec_render_variants(
                v@.variants.take(i as int),
                v@.indentation,
                *lang,
            ),
        decreases v.variants.len() - i,
    {
        proof {
            assert(v@.variants.take(i as int + 1).drop_last() =~= v@.variants.take(i as int));
            assert(v@.variants.take(i as int + 1).last() == v@.variants[i as int]);
        }
        push_variant_header(out, &v.variants[i].name, &v.indentation, lang);
        push_body(out, &v.variants[i].body, lang);
        proof {
            assert(out@ =~= after_base + spec_render_variants(
                v@.variants.take(i as int + 1),
                v@.indentation,
                *lang,
            ));
        }
        i = i + 1;
    }
    proof {
        assert(v@.variants.take(v.variants.len() as int) =~= v@.variants);
    }
    push_vend(out, &v.indentation, lang);
    proof {
        assert(out@ =~= old(out)@ + spec_render_variation(v@, *lang));
    }
}

/// Repeated activation leaves the serialized form unchanged after the
/// first call, whatever the language profile.
pub proof fn lemma_activate_idempotent_render(v: VariationView, index: int, lang: Language)
    requires
        0 <= index <= v.variants.len(),
    ensures
        spec_render_variation(v.spec_activate(index).spec_activate(index), lang)
            == spec_render_variation(v.spec_activate(index), lang),
{
    crate::variation::lemma_activate_idempotent(v, index);
}

// ------------------------------------------------------------------
// Language detection from a file path
// ------------------------------------------------------------------

/// The position of the last dot in a path, if any.
pub open spec fn last_dot(s: Seq<char>) -> Option<int>
    decreases s.len(),
{
    if s.len() == 0 {
        None
    } else if s.last() == '.' {
        Some(s.len() - 1)
    } else {
        last_dot(s.drop_last())
    }
}

/// The extension a path carries: what follows the last dot, or the whole
/// path when there is none.
pub open spec fn spec_ext_of(s: Seq<char>) -> Seq<char> {
    match last_dot(s) {
        Some(d) => s.subrange(d + 1, s.len() as int),
        None => s,
    }
}

impl Code {
    /// Detects the language of a file from its path's extension.  Fails
    /// with `UnsupportedLanguage` when no profile matches.
    pub fn detect_language(filepath: &str) -> (r: Result<Language, Error>)
        ensures
            ({
                let looked = crate::languages::spec_extension_to_language(
                    spec_ext_of(filepath@),
                    Seq::empty(),
                );
                match r {
                    Ok(l) => looked == Some(l),
                    Err(e) => looked is None && e is UnsupportedLanguage,
                }
            }),
    {
        let n = filepath.unicode_len();
        let mut k: usize = n;
        let mut found = false;
        proof {
            assert(filepath@.take(n as int) =~= filepath@);
        }
        while k > 0 && !found
            invariant
                k <= n,
                n == filepath@.len(),
                !found ==> last_dot(filepath@) == last_dot(filepath@.take(k as int)),
                found ==> k > 0 && last_dot(filepath@) == Some(k as int - 1),
            decreases k, (if found {
                0int
            } else {
                1int
            }),
        {
            let c = filepath.get_char(k - 1);
            proof {
                assert(filepath@.take(k as int).last() == filepath@[k as int - 1]);
                assert(filepath@.take(k as int).drop_last() =~= filepath@.take(k as int - 1));
            }
            if c == '.' {
                found = true;
            } else {
                k = k - 1;
            }
        }
        let ghost customs: Seq<crate::languages::CustomLanguage> = Seq::empty();
        let none_customs: Vec<crate::languages::CustomLanguage> = Vec::new();
        proof {
            assert(none_customs@ =~= customs);
        }
        let ext = if found {
            proof {
                assert(spec_ext_of(filepath@) == filepath@.subrange(k as int, n as int));
            }
            filepath.substring_char(k, n)
        } else {
            proof {
                assert(filepath@.take(0).len() == 0);
                assert(last_dot(filepath@) is None);
            }
            filepath
        };
        match Language::extension_to_language(ext, &none_customs) {
            Some(l) => Ok(l),
            None => Err(Error::UnsupportedLanguage),
        }
    }
}

} // verus!
