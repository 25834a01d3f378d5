//! Projects: a collection of parsed files and the selection orchestration
//! over them.
//!
//! A project owns its files' span sequences.  Selection works by variant
//! name: a name is searched for across all files; the policy for a name
//! that occurs in more than one file is to refuse with an ambiguity error
//! rather than act on the first match.

use vstd::prelude::*;
use vstd::string::StringExecFns;

use crate::algebra::{nm_add, NameMap};
use crate::code::{spec_all_variants, spec_variant_names, Code, CodeView, ContentView, SpanView};
use crate::errors::Error;
use crate::languages::{CustomLanguage, Language};
use crate::variation::strs_view;

verus! {

/// Mathematical model of a project file.
pub struct ProjectFileView {
    pub path: Seq<char>,
    pub code: CodeView,
}

/// One file of a project.
#[derive(Debug)]
pub struct ProjectFile {
    pub path: String,
    pub code: Code,
}

impl View for ProjectFile {
    type V = ProjectFileView;

    open spec fn view(&self) -> ProjectFileView {
        ProjectFileView { path: self.path@, code: self.code@ }
    }
}

impl DeepView for ProjectFile {
    type V = ProjectFileView;

    open spec fn deep_view(&self) -> ProjectFileView {
        self.view()
    }
}

/// Mathematical model of a project.
pub struct ProjectView {
    pub root: Seq<char>,
    pub files: Seq<ProjectFileView>,
}

/// A project: its root path and its parsed files.
#[derive(Debug)]
pub struct Project {
    pub root: String,
    pub files: Vec<ProjectFile>,
}

impl View for Project {
    type V = ProjectView;

    open spec fn view(&self) -> ProjectView {
        ProjectView { root: self.root@, files: self.files.deep_view() }
    }
}

/// Project configuration: the languages to analyze, ignore patterns, and
/// custom language profiles.
#[derive(Debug, Clone, PartialEq)]
pub struct ProjectConfig {
    /// List of languages that should be analyzed for mutations
    pub languages: Vec<Language>,
    /// List of glob strings to ignore
    pub ignore: Vec<String>,
    /// Whether to ignore files based on .gitignore
    pub use_gitignore: bool,
    /// Custom languages outside of the standard set
    pub custom_languages: Vec<CustomLanguage>,
}

impl Default for ProjectConfig {
    /// The default configuration: no languages, no ignore patterns, and
    /// .gitignore respected.
    fn default() -> (r: ProjectConfig)
        ensures
            r.languages@.len() == 0,
            r.ignore@.len() == 0,
            r.use_gitignore == true,
            r.custom_languages@.len() == 0,
    {
        ProjectConfig {
            languages: Vec::new(),
            ignore: Vec::new(),
            use_gitignore: true,
            custom_languages: Vec::new(),
        }
    }
}

// ------------------------------------------------------------------
// Spec-level scans over a project
// ------------------------------------------------------------------

/// The names of the active variants of a span sequence, in order: for each
/// variation whose active index selects a variant (not the base), that
/// variant's name.
pub open spec fn spec_active_in_spans(ss: Seq<SpanView>) -> Seq<Seq<char>>
    decreases ss.len(),
{
    if ss.len() == 0 {
        Seq::empty()
    } else {
        spec_active_in_spans(ss.drop_last()) + (match ss.last().content {
            ContentView::Variation(v) => if 0 < v.active <= v.variants.len() {
                seq![v.variants[v.active - 1].name]
            } else {
                Seq::empty()
            },
            ContentView::Line(_) => Seq::empty(),
        })
    }
}

/// The names of the active variants across the whole project.
pub open spec fn spec_active_variants(fs: Seq<ProjectFileView>) -> Seq<Seq<char>>
    decreases fs.len(),
{
    if fs.len() == 0 {
        Seq::empty()
    } else {
        spec_active_variants(fs.drop_last()) + spec_active_in_spans(fs.last().code.spans)
    }
}

/// The names of all variants across the whole project, in order.
pub open spec fn spec_project_variants(fs: Seq<ProjectFileView>) -> Seq<Seq<char>>
    decreases fs.len(),
{
    if fs.len() == 0 {
        Seq::empty()
    } else {
        spec_project_variants(fs.drop_last()) + spec_all_variants(fs.last().code.spans)
    }
}

/// The tag map after recording one variation's tags.
pub open spec fn tm_of_tags(
    m: Seq<(Seq<char>, Seq<Seq<char>>)>,
    tags: Seq<Seq<char>>,
    name: Seq<char>,
) -> Seq<(Seq<char>, Seq<Seq<char>>)>
    decreases tags.len(),
{
    if tags.len() == 0 {
        m
    } else {
        tm_of_tags(nm_add(m, tags[0], name), tags.drop_first(), name)
    }
}

/// The tag map after one span: a named variation adds its name under each
/// of its tags; anonymous variations cannot be tag-targeted.
pub open spec fn tm_of_span(m: Seq<(Seq<char>, Seq<Seq<char>>)>, s: SpanView) -> Seq<
    (Seq<char>, Seq<Seq<char>>),
> {
    match s.content {
        ContentView::Variation(v) => match v.name {
            Some(n) => tm_of_tags(m, v.tags, n),
            None => m,
        },
        ContentView::Line(_) => m,
    }
}

pub open spec fn tm_of_spans(
    m: Seq<(Seq<char>, Seq<Seq<char>>)>,
    ss: Seq<SpanView>,
    i: int,
) -> Seq<(Seq<char>, Seq<Seq<char>>)>
    decreases ss.len() - i,
{
    if !(0 <= i < ss.len()) {
        m
    } else {
        tm_of_spans(tm_of_span(m, ss[i]), ss, i + 1)
    }
}

pub open spec fn tm_of_files(
    m: Seq<(Seq<char>, Seq<Seq<char>>)>,
    fs: Seq<ProjectFileView>,
    i: int,
) -> Seq<(Seq<char>, Seq<Seq<char>>)>
    decreases fs.len() - i,
{
    if !(0 <= i < fs.len()) {
        m
    } else {
        tm_of_files(tm_of_spans(m, fs[i].code.spans, 0), fs, i + 1)
    }
}

/// The variation map after one variant list.
pub open spec fn vm_of_variants(
    m: Seq<(Seq<char>, Seq<Seq<char>>)>,
    names: Seq<Seq<char>>,
    vname: Seq<char>,
) -> Seq<(Seq<char>, Seq<Seq<char>>)>
    decreases names.len(),
{
    if names.len() == 0 {
        m
    } else {
        vm_of_variants(nm_add(m, vname, names[0]), names.drop_first(), vname)
    }
}

/// The map after ensuring a key exists (with an empty list if new).
pub open spec fn nm_ensure(m: Seq<(Seq<char>, Seq<Seq<char>>)>, key: Seq<char>) -> Seq<
    (Seq<char>, Seq<Seq<char>>),
>
    decreases m.len(),
{
    if m.len() == 0 {
        seq![(key, Seq::<Seq<char>>::empty())]
    } else if m[0].0 == key {
        m
    } else {
        seq![m[0]] + nm_ensure(m.drop_first(), key)
    }
}

/// The variation map after one span: a named variation lists its variants
/// under its own name (even when it has none).
pub open spec fn vm_of_span(m: Seq<(Seq<char>, Seq<Seq<char>>)>, s: SpanView) -> Seq<
    (Seq<char>, Seq<Seq<char>>),
> {
    match s.content {
        ContentView::Variation(v) => match v.name {
            Some(n) => vm_of_variants(nm_ensure(m, n), spec_variant_names(v.variants), n),
            None => m,
        },
        ContentView::Line(_) => m,
    }
}

pub open spec fn vm_of_spans(
    m: Seq<(Seq<char>, Seq<Seq<char>>)>,
    ss: Seq<SpanView>,
    i: int,
) -> Seq<(Seq<char>, Seq<Seq<char>>)>
    decreases ss.len() - i,
{
    if !(0 <= i < ss.len()) {
        m
    } else {
        vm_of_spans(vm_of_span(m, ss[i]), ss, i + 1)
    }
}

pub open spec fn vm_of_files(
    m: Seq<(Seq<char>, Seq<Seq<char>>)>,
    fs: Seq<ProjectFileView>,
    i: int,
) -> Seq<(Seq<char>, Seq<Seq<char>>)>
    decreases fs.len() - i,
{
    if !(0 <= i < fs.len()) {
        m
    } else {
        vm_of_files(vm_of_spans(m, fs[i].code.spans, 0), fs, i + 1)
    }
}

// ------------------------------------------------------------------
// Locating a variant by name
// ------------------------------------------------------------------

/// Whether a span sequence holds a variant of the given name.
pub open spec fn spans_have_variant(ss: Seq<SpanView>, name: Seq<char>) -> bool {
    first_span_with(ss, name, 0) < ss.len()
}

/// The first span that is a variation holding the variant, or the length.
pub open spec fn first_span_with(ss: Seq<SpanView>, name: Seq<char>, i: int) -> int
    decreases ss.len() - i,
{
    if !(0 <= i < ss.len()) {
        ss.len() as int
    } else if (match ss[i].content {
        ContentView::Variation(v) => spec_variant_names(v.variants).contains(name),
        ContentView::Line(_) => false,
    }) {
        i
    } else {
        first_span_with(ss, name, i + 1)
    }
}

/// The first variant with the given name, or the length.
pub open spec fn index_of_name(vs: Seq<crate::variation::VariantView>, name: Seq<char>, i: int) -> int
    decreases vs.len() - i,
{
    if !(0 <= i < vs.len()) {
        vs.len() as int
    } else if vs[i].name == name {
        i
    } else {
        index_of_name(vs, name, i + 1)
    }
}

/// How many files hold a variant of the given name.
pub open spec fn count_files_with(fs: Seq<ProjectFileView>, name: Seq<char>) -> int
    decreases fs.len(),
{
    if fs.len() == 0 {
        0
    } else {
        count_files_with(fs.drop_last(), name) + (if spans_have_variant(
            fs.last().code.spans,
            name,
        ) {
            1int
        } else {
            0int
        })
    }
}

/// The first file that holds the variant, or the length.
pub open spec fn first_file_with(fs: Seq<ProjectFileView>, name: Seq<char>, i: int) -> int
    decreases fs.len() - i,
{
    if !(0 <= i < fs.len()) {
        fs.len() as int
    } else if spans_have_variant(fs[i].code.spans, name) {
        i
    } else {
        first_file_with(fs, name, i + 1)
    }
}

// ------------------------------------------------------------------
// The effect of selection, as a mathematical function
// ------------------------------------------------------------------

/// Whether `set` has exactly one file to act on and the target body is not
/// already active.
pub open spec fn spec_set_changes(p: ProjectView, name: Seq<char>) -> bool {
    let fs = p.files;
    &&& count_files_with(fs, name) == 1
    &&& {
        let fi = first_file_with(fs, name, 0);
        let f = fs[fi];
        let si = first_span_with(f.code.spans, name, 0);
        let v = f.code.spans[si].content->Variation_0;
        let vi = index_of_name(v.variants, name, 0);
        !v.variants[vi].body.is_active()
    }
}

/// `set` succeeds: either nothing holds the name (a no-op), or exactly one
/// file does and the target is not already active.
pub open spec fn spec_set_ok(p: ProjectView, name: Seq<char>) -> bool {
    count_files_with(p.files, name) == 0 || spec_set_changes(p, name)
}

/// The project after `set`: unchanged unless exactly one file holds the
/// name and the target body is inactive, in which case that variation is
/// activated at the variant's index.
pub open spec fn spec_set_project(p: ProjectView, name: Seq<char>) -> ProjectView {
    if !spec_set_changes(p, name) {
        p
    } else {
        let fs = p.files;
        let fi = first_file_with(fs, name, 0);
        let f = fs[fi];
        let si = first_span_with(f.code.spans, name, 0);
        let v = f.code.spans[si].content->Variation_0;
        let vi = index_of_name(v.variants, name, 0);
        ProjectView {
            files: fs.update(
                fi,
                ProjectFileView {
                    path: f.path,
                    code: CodeView {
                        spans: f.code.spans.update(
                            si,
                            SpanView {
                                line: f.code.spans[si].line,
                                content: ContentView::Variation(v.spec_activate(vi + 1)),
                            },
                        ),
                        ..f.code
                    },
                },
            ),
            ..p
        }
    }
}

/// The project after setting each name in order, stopping at the first
/// failure (which leaves the project as it was at that point).
pub open spec fn spec_set_many(p: ProjectView, names: Seq<Seq<char>>) -> ProjectView
    decreases names.len(),
{
    if names.len() == 0 {
        p
    } else if !spec_set_ok(p, names[0]) {
        p
    } else {
        spec_set_many(spec_set_project(p, names[0]), names.drop_first())
    }
}

/// Every step of `set_many` succeeds.
pub open spec fn spec_set_many_ok(p: ProjectView, names: Seq<Seq<char>>) -> bool
    decreases names.len(),
{
    if names.len() == 0 {
        true
    } else {
        spec_set_ok(p, names[0]) && spec_set_many_ok(
            spec_set_project(p, names[0]),
            names.drop_first(),
        )
    }
}

/// A span after a reset to base.
pub open spec fn spec_reset_span(s: SpanView) -> SpanView {
    match s.content {
        ContentView::Variation(v) => SpanView {
            line: s.line,
            content: ContentView::Variation(v.spec_activate(0)),
        },
        ContentView::Line(_) => s,
    }
}

/// A file after a reset to base.
pub open spec fn spec_reset_file(f: ProjectFileView) -> ProjectFileView {
    ProjectFileView {
        path: f.path,
        code: CodeView {
            spans: Seq::new(f.code.spans.len(), |i: int| spec_reset_span(f.code.spans[i])),
            ..f.code
        },
    }
}

// ------------------------------------------------------------------
// Executable lookups
// ------------------------------------------------------------------

/// Whether the variant list holds the name.
fn variants_contain(vars: &Vec<crate::variation::Variant>, name: &str) -> (r: bool)
    ensures
        r == spec_variant_names(vars.deep_view()).contains(name@),
{
    proof {
        crate::code::lemma_variant_names_index(vars.deep_view());
    }
    let mut i: usize = 0;
    while i < vars.len()
        invariant
            i <= vars@.len(),
            spec_variant_names(vars.deep_view()).len() == vars@.len(),
            forall|k: int|
                0 <= k < vars@.len() ==> #[trigger] spec_variant_names(vars.deep_view())[k]
                    == vars.deep_view()[k].name,
            forall|k: int| 0 <= k < i ==> spec_variant_names(vars.deep_view())[k] != name@,
        decreases vars@.len() - i,
    {
        if crate::languages::str_eq_pub(vars[i].name.as_str(), name) {
            proof {
                assert(spec_variant_names(vars.deep_view())[i as int] == name@);
            }
            return true;
        }
        i = i + 1;
    }
    proof {
        assert(!spec_variant_names(vars.deep_view()).contains(name@));
    }
    false
}

/// The index of the first variant with the name.
pub fn index_of_variant_pub(vars: &Vec<crate::variation::Variant>, name: &str) -> (r: usize)
    ensures
        r == index_of_name(vars.deep_view(), name@, 0),
        r <= vars@.len(),
{
    let mut i: usize = 0;
    while i < vars.len()
        invariant
            i <= vars@.len(),
            index_of_name(vars.deep_view(), name@, 0) == index_of_name(
                vars.deep_view(),
                name@,
                i as int,
            ),
        decreases vars@.len() - i,
    {
        if crate::languages::str_eq_pub(vars[i].name.as_str(), name) {
            return i;
        }
        i = i + 1;
    }
    i
}

/// The index of the first variation span holding the variant.
pub fn find_span_with_pub(code: &Code, name: &str) -> (r: usize)
    ensures
        r == first_span_with(code@.spans, name@, 0),
        r <= code.spans@.len(),
{
    let mut i: usize = 0;
    while i < code.spans.len()
        invariant
            i <= code.spans@.len(),
            code@.spans.len() == code.spans@.len(),
            first_span_with(code@.spans, name@, 0) == first_span_with(
                code@.spans,
                name@,
                i as int,
            ),
        decreases code.spans@.len() - i,
    {
        match &code.spans[i].content {
            crate::code::SpanContent::Variation(v) => {
                if variants_contain(&v.variants, name) {
                    return i;
                }
            },
            crate::code::SpanContent::Line(_) => {},
        }
        i = i + 1;
    }
    i
}

/// Whether the file holds a variant of the given name.
pub open spec fn file_has_variant(f: ProjectFileView, name: Seq<char>) -> bool {
    first_span_with(f.code.spans, name, 0) < f.code.spans.len()
}

pub fn code_has_variant_pub(code: &Code, name: &str) -> (r: bool)
    ensures
        r == (first_span_with(code@.spans, name@, 0) < code@.spans.len()),
{
    let si = find_span_with_pub(code, name);
    si < code.spans.len()
}

impl Project {
    /// The names of the active variants in the project, in file and span
    /// order.
    pub fn active_variants(&self) -> (r: Vec<String>)
        ensures
            r.deep_view() == spec_active_variants(self@.files),
    {
        let ghost fs = self@.files;
        let mut r: Vec<String> = Vec::new();
        proof {
            assert(strs_view(r@) =~= spec_active_variants(fs.take(0)));
        }
        let mut i: usize = 0;
        while i < self.files.len()
            invariant
                i <= self.files@.len(),
                fs == self@.files,
                fs.len() == self.files@.len(),
                strs_view(r@) == spec_active_variants(fs.take(i as int)),
            decreases self.files@.len() - i,
        {
            proof {
                assert(fs.take(i as int + 1).drop_last() =~= fs.take(i as int));
                assert(fs.take(i as int + 1).last() == fs[i as int]);
                assert(fs[i as int] == self.files@[i as int]@);
            }
            let ghost ss = fs[i as int].code.spans;
            let ghost file_base = strs_view(r@);
            let file = &self.files[i];
            proof {
                assert(spec_active_in_spans(ss.take(0)).len() == 0);
                assert(file_base =~= file_base + spec_active_in_spans(ss.take(0)));
            }
            let mut j: usize = 0;
            while j < file.code.spans.len()
                invariant
                    j <= file.code.spans@.len(),
                    ss == file@.code.spans,
                    ss.len() == file.code.spans@.len(),
                    strs_view(r@) == file_base + spec_active_in_spans(ss.take(j as int)),
                decreases file.code.spans@.len() - j,
            {
                proof {
                    assert(ss.take(j as int + 1).drop_last() =~= ss.take(j as int));
                    assert(ss.take(j as int + 1).last() == ss[j as int]);
                    assert(ss[j as int] == file.code.spans@[j as int]@);
                }
                match &file.code.spans[j].content {
                    crate::code::SpanContent::Variation(v) => {
                        if v.active != 0 && v.active - 1 < v.variants.len() {
                            let ghost pre = r@;
                            let nm = v.variants[v.active - 1].name.clone();
                            r.push(nm);
                            proof {
                                crate::variation::lemma_strs_view_push(pre, nm);
                                assert(strs_view(r@) =~= file_base + spec_active_in_spans(
                                    ss.take(j as int + 1),
                                ));
                            }
                        } else {
                            proof {
                                assert(strs_view(r@) =~= file_base + spec_active_in_spans(
                                    ss.take(j as int + 1),
                                ));
                            }
                        }
                    },
                    crate::code::SpanContent::Line(_) => {
                        proof {
                            assert(strs_view(r@) =~= file_base + spec_active_in_spans(
                                ss.take(j as int + 1),
                            ));
                        }
                    },
                }
                j = j + 1;
            }
            proof {
                assert(ss.take(file.code.spans@.len() as int) =~= ss);
                assert(strs_view(r@) =~= spec_active_variants(fs.take(i as int + 1)));
            }
            i = i + 1;
        }
        proof {
            assert(fs.take(self.files@.len() as int) =~= fs);
            assert(r.deep_view() =~= strs_view(r@));
        }
        r
    }

    /// Every variant name in the project, in file and span order.
    pub fn all_variants(&self) -> (r: Vec<String>)
        ensures
            r.deep_view() == spec_project_variants(self@.files),
    {
        let ghost fs = self@.files;
        let mut r: Vec<String> = Vec::new();
        proof {
            assert(strs_view(r@) =~= spec_project_variants(fs.take(0)));
        }
        let mut i: usize = 0;
        while i < self.files.len()
            invariant
                i <= self.files@.len(),
                fs == self@.files,
                fs.len() == self.files@.len(),
                strs_view(r@) == spec_project_variants(fs.take(i as int)),
            decreases self.files@.len() - i,
        {
            proof {
                assert(fs.take(i as int + 1).drop_last() =~= fs.take(i as int));
                assert(fs.take(i as int + 1).last() == fs[i as int]);
                assert(fs[i as int] == self.files@[i as int]@);
            }
            let mut file_vars = self.files[i].code.get_all_variants();
            let ghost rpre = r@;
            let ghost fpre = file_vars@;
            let ghost fdv = file_vars.deep_view();
            r.append(&mut file_vars);
            proof {
                assert(r@ == rpre + fpre);
                assert forall|k: int|
                    0 <= k < r@.len() implies strs_view(r@)[k] == (strs_view(rpre) + fdv)[k] by {
                    if k < rpre.len() {
                        assert(r@[k] == rpre[k]);
                    } else {
                        assert(r@[k] == fpre[k - rpre.len()]);
                    }
                }
                assert(strs_view(r@) =~= strs_view(rpre) + fdv);
                assert(strs_view(r@) =~= spec_project_variants(fs.take(i as int + 1)));
            }
            i = i + 1;
        }
        proof {
            assert(fs.take(self.files@.len() as int) =~= fs);
            assert(r.deep_view() =~= strs_view(r@));
        }
        r
    }

    /// The map from each tag to the named variations carrying it.
    pub fn tag_map(&self) -> (r: NameMap)
        ensures
            r@ == tm_of_files(Seq::<(Seq<char>, Seq<Seq<char>>)>::empty(), self@.files, 0),
    {
        let ghost fs = self@.files;
        let ghost target = tm_of_files(Seq::<(Seq<char>, Seq<Seq<char>>)>::empty(), fs, 0);
        let mut m = NameMap::new();
        let mut i: usize = 0;
        while i < self.files.len()
            invariant
                i <= self.files@.len(),
                fs == self@.files,
                fs.len() == self.files@.len(),
                target == tm_of_files(Seq::<(Seq<char>, Seq<Seq<char>>)>::empty(), fs, 0),
                target == tm_of_files(m@, fs, i as int),
            decreases self.files@.len() - i,
        {
            proof {
                assert(fs[i as int] == self.files@[i as int]@);
            }
            let ghost ss = fs[i as int].code.spans;
            let file = &self.files[i];
            let mut j: usize = 0;
            while j < file.code.spans.len()
                invariant
                    j <= file.code.spans@.len(),
                    ss == file@.code.spans,
                    ss.len() == file.code.spans@.len(),
                    i < fs.len(),
                    ss == fs[i as int].code.spans,
                    target == tm_of_files(tm_of_spans(m@, ss, j as int), fs, i as int + 1),
                decreases file.code.spans@.len() - j,
            {
                proof {
                    assert(ss[j as int] == file.code.spans@[j as int]@);
                }
                match &file.code.spans[j].content {
                    crate::code::SpanContent::Variation(v) => {
                        match &v.name {
                            Some(n) => {
                                let ghost mentry = m@;
                                let ghost tagsdv = v@.tags;
                                proof {
                                    assert(tagsdv.skip(0) =~= tagsdv);
                                }
                                let mut k: usize = 0;
                                while k < v.tags.len()
                                    invariant
                                        k <= v.tags@.len(),
                                        tagsdv == v@.tags,
                                        tagsdv.len() == v.tags@.len(),
                                        tm_of_tags(mentry, tagsdv, n@) == tm_of_tags(
                                            m@,
                                            tagsdv.skip(k as int),
                                            n@,
                                        ),
                                    decreases v.tags@.len() - k,
                                {
                                    proof {
                                        assert(tagsdv.skip(k as int)[0] == tagsdv[k as int]);
                                        assert(tagsdv.skip(k as int).drop_first() =~= tagsdv.skip(
                                            k as int + 1,
                                        ));
                                        assert(tagsdv[k as int] == v.tags@[k as int]@);
                                    }
                                    m.add(v.tags[k].as_str(), n.clone());
                                    k = k + 1;
                                }
                                proof {
                                    assert(tagsdv.skip(v.tags@.len() as int).len() == 0);
                                    assert(tm_of_tags(mentry, tagsdv, n@) == m@);
                                    assert(tm_of_span(mentry, ss[j as int]) == m@);
                                }
                            },
                            None => {
                                proof {
                                    assert(tm_of_span(m@, ss[j as int]) == m@);
                                }
                            },
                        }
                    },
                    crate::code::SpanContent::Line(_) => {
                        proof {
                            assert(tm_of_span(m@, ss[j as int]) == m@);
                        }
                    },
                }
                j = j + 1;
            }
            proof {
                assert(tm_of_spans(m@, ss, file.code.spans@.len() as int) == m@);
            }
            i = i + 1;
        }
        proof {
            assert(tm_of_files(m@, fs, self.files@.len() as int) == m@);
        }
        m
    }

    /// The map from each named variation to its variant names.
    pub fn variation_map(&self) -> (r: NameMap)
        ensures
            r@ == vm_of_files(Seq::<(Seq<char>, Seq<Seq<char>>)>::empty(), self@.files, 0),
    {
        let ghost fs = self@.files;
        let ghost target = vm_of_files(Seq::<(Seq<char>, Seq<Seq<char>>)>::empty(), fs, 0);
        let mut m = NameMap::new();
        let mut i: usize = 0;
        while i < self.files.len()
            invariant
                i <= self.files@.len(),
                fs == self@.files,
                fs.len() == self.files@.len(),
                target == vm_of_files(Seq::<(Seq<char>, Seq<Seq<char>>)>::empty(), fs, 0),
                target == vm_of_files(m@, fs, i as int),
            decreases self.files@.len() - i,
        {
            proof {
                assert(fs[i as int] == self.files@[i as int]@);
            }
            let ghost ss = fs[i as int].code.spans;
            let file = &self.files[i];
            let mut j: usize = 0;
            while j < file.code.spans.len()
                invariant
                    j <= file.code.spans@.len(),
                    ss == file@.code.spans,
                    ss.len() == file.code.spans@.len(),
                    i < fs.len(),
                    ss == fs[i as int].code.spans,
                    target == vm_of_files(vm_of_spans(m@, ss, j as int), fs, i as int + 1),
                decreases file.code.spans@.len() - j,
            {
                proof {
                    assert(ss[j as int] == file.code.spans@[j as int]@);
                }
                match &file.code.spans[j].content {
                    crate::code::SpanContent::Variation(v) => {
                        match &v.name {
                            Some(n) => {
                                let ghost mpre = m@;
                                m.ensure(n.as_str());
                                let ghost mentry = m@;
                                let ghost namesdv = spec_variant_names(v@.variants);
                                proof {
                                    crate::code::lemma_variant_names_index(v@.variants);
                                    assert(namesdv.skip(0) =~= namesdv);
                                }
                                let mut k: usize = 0;
                                while k < v.variants.len()
                                    invariant
                                        k <= v.variants@.len(),
                                        namesdv == spec_variant_names(v@.variants),
                                        namesdv.len() == v.variants@.len(),
                                        forall|w: int|
                                            0 <= w < namesdv.len() ==> #[trigger] namesdv[w]
                                                == v@.variants[w].name,
                                        vm_of_variants(mentry, namesdv, n@) == vm_of_variants(
                                            m@,
                                            namesdv.skip(k as int),
                                            n@,
                                        ),
                                    decreases v.variants@.len() - k,
                                {
                                    proof {
                                        assert(namesdv.skip(k as int)[0] == namesdv[k as int]);
                                        assert(namesdv.skip(k as int).drop_first()
                                            =~= namesdv.skip(k as int + 1));
                                        assert(namesdv[k as int] == v.variants@[k as int]@.name);
                                    }
                                    m.add(n.as_str(), v.variants[k].name.clone());
                                    k = k + 1;
                                }
                                proof {
                                    assert(namesdv.skip(v.variants@.len() as int).len() == 0);
                                    assert(vm_of_variants(mentry, namesdv, n@) == m@);
                                    assert(mentry == nm_ensure(mpre, n@));
                                    assert(vm_of_span(mpre, ss[j as int]) == m@);
                                }
                            },
                            None => {
                                proof {
                                    assert(vm_of_span(m@, ss[j as int]) == m@);
                                }
                            },
                        }
                    },
                    crate::code::SpanContent::Line(_) => {
                        proof {
                            assert(vm_of_span(m@, ss[j as int]) == m@);
                        }
                    },
                }
                j = j + 1;
            }
            proof {
                assert(vm_of_spans(m@, ss, file.code.spans@.len() as int) == m@);
            }
            i = i + 1;
        }
        proof {
            assert(vm_of_files(m@, fs, self.files@.len() as int) == m@);
        }
        m
    }

    /// Resets every variation in the project to its base.
    pub fn reset(&mut self)
        ensures
            final(self)@.root == old(self)@.root,
            final(self)@.files.len() == old(self)@.files.len(),
            forall|k: int|
                0 <= k < old(self)@.files.len() ==> #[trigger] final(self)@.files[k]
                    == spec_reset_file(old(self)@.files[k]),
    {
        let ghost fs0 = self@.files;
        let n = self.files.len();
        let mut i: usize = 0;
        while i < n
            invariant
                i <= n,
                n == self.files@.len(),
                fs0.len() == n,
                self@.root == old(self)@.root,
                fs0 == old(self)@.files,
                forall|k: int|
                    0 <= k < i ==> #[trigger] self.files@[k]@ == spec_reset_file(fs0[k]),
                forall|k: int| i <= k < n ==> #[trigger] self.files@[k]@ == fs0[k],
            decreases n - i,
        {
            let mut f = self.files.remove(i);
            let ghost fview = f@;
            let m = f.code.spans.len();
            let mut j: usize = 0;
            while j < m
                invariant
                    j <= m,
                    m == f.code.spans@.len(),
                    fview.code.spans.len() == m,
                    f@.path == fview.path,
                    f@.code.language == fview.code.language,
                    f@.code.path == fview.code.path,
                    forall|w: int|
                        0 <= w < j ==> #[trigger] f.code.spans@[w]@ == spec_reset_span(
                            fview.code.spans[w],
                        ),
                    forall|w: int| j <= w < m ==> #[trigger] f.code.spans@[w]@ == fview.code.spans[w],
                decreases m - j,
            {
                let ghost spans_pre = f.code.spans@;
                let ghost spv = fview.code.spans[j as int];
                let sp = f.code.spans.remove(j);
                proof {
                    assert(sp@ == spv);
                }
                let crate::code::Span { line, content } = sp;
                let new_span = match content {
                    crate::code::SpanContent::Variation(mut v) => {
                        proof {
                            assert(spv.content == ContentView::Variation(v@));
                        }
                        let ghost vpre = v@;
                        v.activate_base();
                        let ns = crate::code::Span {
                            line,
                            content: crate::code::SpanContent::Variation(v),
                        };
                        proof {
                            assert(ns@ == (SpanView {
                                line: spv.line,
                                content: ContentView::Variation(vpre.spec_activate(0)),
                            }));
                            assert(ns@ == spec_reset_span(spv));
                        }
                        ns
                    },
                    crate::code::SpanContent::Line(t) => {
                        let ns = crate::code::Span {
                            line,
                            content: crate::code::SpanContent::Line(t),
                        };
                        proof {
                            assert(ns@ == spec_reset_span(spv));
                        }
                        ns
                    },
                };
                f.code.spans.insert(j, new_span);
                proof {
                    assert(f.code.spans@ =~= spans_pre.update(j as int, new_span));
                    assert(f.code.spans@[j as int]@ == spec_reset_span(fview.code.spans[j as int]));
                    assert forall|w: int| 0 <= w < j implies #[trigger] f.code.spans@[w]@
                        == spec_reset_span(fview.code.spans[w]) by {
                        assert(f.code.spans@[w] == spans_pre[w]);
                    }
                }
                j = j + 1;
            }
            proof {
                assert(f@.code.spans =~= Seq::new(
                    fview.code.spans.len(),
                    |w: int| spec_reset_span(fview.code.spans[w]),
                ));
                assert(f@.code == spec_reset_file(fview).code);
                assert(f@ == spec_reset_file(fview));
                assert(fview == fs0[i as int]);
            }
            let ghost files_pre = self.files@;
            self.files.insert(i, f);
            proof {
                assert forall|k: int| 0 <= k < i + 1 implies #[trigger] self.files@[k]@
                    == spec_reset_file(fs0[k]) by {
                    if k < i as int {
                        assert(self.files@[k] == files_pre[k]);
                    }
                }
            }
            i = i + 1;
        }
    }
}

/// A successful span scan stops at a variation span holding the name.
pub proof fn lemma_first_span_with_props(ss: Seq<SpanView>, name: Seq<char>, i: int)
    requires
        0 <= i <= ss.len(),
    ensures
        i <= first_span_with(ss, name, i) <= ss.len(),
        first_span_with(ss, name, i) < ss.len() ==> ({
            let r = first_span_with(ss, name, i);
            &&& ss[r].content is Variation
            &&& spec_variant_names(ss[r].content->Variation_0.variants).contains(name)
        }),
    decreases ss.len() - i,
{
    if 0 <= i < ss.len() && !(match ss[i].content {
        ContentView::Variation(v) => spec_variant_names(v.variants).contains(name),
        ContentView::Line(_) => false,
    }) {
        lemma_first_span_with_props(ss, name, i + 1);
    }
}

/// A successful file scan stops at a file holding the name.
pub proof fn lemma_first_file_with_props(fs: Seq<ProjectFileView>, name: Seq<char>, i: int)
    requires
        0 <= i <= fs.len(),
    ensures
        i <= first_file_with(fs, name, i) <= fs.len(),
        first_file_with(fs, name, i) < fs.len() ==> spans_have_variant(
            fs[first_file_with(fs, name, i)].code.spans,
            name,
        ),
    decreases fs.len() - i,
{
    if 0 <= i < fs.len() && !spans_have_variant(fs[i].code.spans, name) {
        lemma_first_file_with_props(fs, name, i + 1);
    }
}

/// Locating facts: a successful scan for a name's index finds it.
pub proof fn lemma_index_of_name_props(vs: Seq<crate::variation::VariantView>, name: Seq<char>, i: int)
    requires
        0 <= i <= vs.len(),
    ensures
        i <= index_of_name(vs, name, i) <= vs.len(),
        index_of_name(vs, name, i) < vs.len() ==> vs[index_of_name(vs, name, i)].name == name,
        index_of_name(vs, name, i) == vs.len() ==> forall|k: int|
            i <= k < vs.len() ==> (#[trigger] vs[k]).name != name,
    decreases vs.len() - i,
{
    if i < vs.len() && vs[i].name != name {
        lemma_index_of_name_props(vs, name, i + 1);
    }
}

impl Project {
    /// Activates a variant by name.  The name must occur in exactly one
    /// file of the project: a name found nowhere is a no-op, a name found
    /// in several files is refused as ambiguous, and a variant that is
    /// already active is refused as a no-op activation.
    pub fn set(&mut self, variant: &str) -> (r: Result<(), Error>)
        ensures
            final(self)@ == spec_set_project(old(self)@, variant@),
            match r {
                Ok(()) => spec_set_ok(old(self)@, variant@),
                Err(Error::AmbiguousVariantName { variant: v }) => v@ == variant@
                    && count_files_with(old(self)@.files, variant@) >= 2,
                Err(Error::VariantAlreadyActive) => count_files_with(old(self)@.files, variant@)
                    == 1 && !spec_set_changes(old(self)@, variant@),
                Err(_) => false,
            },
    {
        let ghost fs = self@.files;
        let mut count: usize = 0;
        let mut idx: usize = 0;
        let mut i: usize = 0;
        proof {
            assert(count_files_with(fs.take(0), variant@) == 0);
        }
        while i < self.files.len()
            invariant
                i <= self.files@.len(),
                fs == self@.files,
                fs == old(self)@.files,
                self@ == old(self)@,
                fs.len() == self.files@.len(),
                count <= i,
                count == count_files_with(fs.take(i as int), variant@),
                count == 0 ==> first_file_with(fs, variant@, 0) == first_file_with(
                    fs,
                    variant@,
                    i as int,
                ),
                count > 0 ==> (idx < i && idx == first_file_with(fs, variant@, 0)
                    && spans_have_variant(fs[idx as int].code.spans, variant@)),
            decreases self.files@.len() - i,
        {
            proof {
                assert(fs.take(i as int + 1).drop_last() =~= fs.take(i as int));
                assert(fs.take(i as int + 1).last() == fs[i as int]);
                assert(fs[i as int] == self.files@[i as int]@);
            }
            if code_has_variant_pub(&self.files[i].code, variant) {
                if count == 0 {
                    idx = i;
                }
                count = count + 1;
            }
            i = i + 1;
        }
        proof {
            assert(fs.take(self.files@.len() as int) =~= fs);
            if count == 0 {
                assert(first_file_with(fs, variant@, fs.len() as int) == fs.len());
            }
        }
        if count == 0 {
            return Ok(());
        }
        if count >= 2 {
            let mut vname = String::new();
            vname.append(variant);
            return Err(Error::AmbiguousVariantName { variant: vname });
        }
        // Exactly one file holds the name: activate it there.
        let ghost fview = fs[idx as int];
        let mut f = self.files.remove(idx);
        let si = find_span_with_pub(&f.code, variant);
        match &f.code.spans[si].content {
            crate::code::SpanContent::Variation(v) => {
                proof {
                    lemma_first_span_with_props(fview.code.spans, variant@, 0);
                    assert(spec_variant_names(v@.variants).contains(variant@));
                    crate::code::lemma_variant_names_index(v@.variants);
                    lemma_index_of_name_props(v@.variants, variant@, 0);
                    if index_of_name(v@.variants, variant@, 0) == v@.variants.len() {
                        assert(spec_variant_names(v@.variants).contains(variant@));
                        let w = choose|w: int|
                            0 <= w < spec_variant_names(v@.variants).len()
                                && spec_variant_names(v@.variants)[w] == variant@;
                        assert(v@.variants[w].name == variant@);
                        assert(false);
                    }
                }
                let vi = index_of_variant_pub(&v.variants, variant);
                let nvars = v.variants.len();
                proof {
                    assert(vi < nvars);
                }
                let res = f.code.set_active_variant(si, vi + 1);
                let ghost files_pre = self.files@;
                self.files.insert(idx, f);
                proof {
                    assert forall|k: int|
                        0 <= k < self.files@.len() && k != idx as int implies #[trigger] self.files@[k]@
                        == fs[k] by {
                        if k < idx as int {
                            assert(self.files@[k] == files_pre[k]);
                        } else {
                            assert(self.files@[k] == files_pre[k - 1]);
                        }
                    }
                }
                match res {
                    Ok(()) => {
                        proof {
                            assert(spec_set_changes(old(self)@, variant@));
                            assert(self@.files =~= spec_set_project(old(self)@, variant@).files);
                            assert(self@ == spec_set_project(old(self)@, variant@));
                        }
                        Ok(())
                    },
                    Err(e) => {
                        proof {
                            assert(e is VariantAlreadyActive);
                            assert(!spec_set_changes(old(self)@, variant@));
                            assert(self@.files =~= fs);
                            assert(self@ == old(self)@);
                            assert(spec_set_project(old(self)@, variant@) == old(self)@);
                        }
                        Err(Error::VariantAlreadyActive)
                    },
                }
            },
            crate::code::SpanContent::Line(_) => {
                proof {
                    lemma_first_span_with_props(fview.code.spans, variant@, 0);
                    assert(false);
                }
                Err(Error::IndexOutOfRange)
            },
        }
    }

    /// Activates every variant of a test configuration, in order, stopping
    /// at the first failure.
    pub fn set_many(&mut self, test: &Vec<String>) -> (r: Result<(), Error>)
        ensures
            final(self)@ == spec_set_many(old(self)@, strs_view(test@)),
            r is Ok <==> spec_set_many_ok(old(self)@, strs_view(test@)),
    {
        let ghost names = strs_view(test@);
        let mut i: usize = 0;
        proof {
            assert(names.skip(0) =~= names);
        }
        while i < test.len()
            invariant
                i <= test@.len(),
                names == strs_view(test@),
                names.len() == test@.len(),
                spec_set_many(old(self)@, names) == spec_set_many(self@, names.skip(i as int)),
                spec_set_many_ok(old(self)@, names) == spec_set_many_ok(
                    self@,
                    names.skip(i as int),
                ),
            decreases test@.len() - i,
        {
            proof {
                assert(names.skip(i as int)[0] == names[i as int]);
                assert(names.skip(i as int).drop_first() =~= names.skip(i as int + 1));
                assert(names[i as int] == test@[i as int]@);
            }
            let ghost before = self@;
            match self.set(test[i].as_str()) {
                Ok(()) => {
                    proof {
                        assert(spec_set_ok(before, names[i as int]));
                        assert(self@ == spec_set_project(before, names[i as int]));
                    }
                },
                Err(e) => {
                    proof {
                        assert(!spec_set_ok(before, names[i as int]));
                        assert(self@ == before);
                    }
                    return Err(e);
                },
            }
            i = i + 1;
        }
        proof {
            assert(names.skip(test@.len() as int).len() == 0);
        }
        Ok(())
    }

    /// Plans a test run: refuses unless the project is in its all-base
    /// state, then compiles the selection expression against the project's
    /// tag and variation indices into the list of configurations to test.
    pub fn plan_tests(&self, expr: &str) -> (r: Result<Vec<Vec<String>>, Error>)
        ensures
            ({
                let fs = self@.files;
                let tm = tm_of_files(Seq::<(Seq<char>, Seq<Seq<char>>)>::empty(), fs, 0);
                let vm = vm_of_files(Seq::<(Seq<char>, Seq<Seq<char>>)>::empty(), fs, 0);
                match r {
                    Ok(out) => {
                        &&& spec_active_variants(fs).len() == 0
                        &&& crate::algebra::spec_parse_expr(expr@) is Some
                        &&& {
                            let e = crate::algebra::spec_parse_expr(expr@)->0;
                            &&& crate::algebra::tags_ok(e, tm)
                            &&& out.deep_view() == crate::algebra::spec_sum_of_products(e, tm, vm)
                        }
                    },
                    Err(Error::Precondition) => spec_active_variants(fs).len() > 0,
                    Err(Error::Grammar { .. }) => spec_active_variants(fs).len() == 0
                        && crate::algebra::spec_parse_expr(expr@) is None,
                    Err(Error::TagHasNoMembers { tag }) => {
                        &&& spec_active_variants(fs).len() == 0
                        &&& crate::algebra::spec_parse_expr(expr@) is Some
                        &&& !crate::algebra::tags_ok(crate::algebra::spec_parse_expr(expr@)->0, tm)
                        &&& crate::algebra::bad_tag(
                            crate::algebra::spec_parse_expr(expr@)->0,
                            tm,
                            tag@,
                        )
                    },
                    Err(Error::UnknownVariant { variant }) => {
                        &&& spec_active_variants(fs).len() == 0
                        &&& crate::algebra::spec_parse_expr(expr@) is Some
                        &&& crate::algebra::tags_ok(crate::algebra::spec_parse_expr(expr@)->0, tm)
                        &&& !spec_project_variants(fs).contains(variant@)
                    },
                    Err(_) => false,
                }
            }),
    {
        let active = self.active_variants();
        if active.len() > 0 {
            return Err(Error::Precondition);
        }
        let tag_map = self.tag_map();
        let variation_map = self.variation_map();
        let variant_list = self.all_variants();
        let r = crate::algebra::compute_mutations(expr, &tag_map, &variation_map, &variant_list);
        proof {
            assert(strs_view(variant_list@) =~= variant_list.deep_view());
        }
        r
    }
}

} // verus!
