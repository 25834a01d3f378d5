//! Structured programmatic access to a project's variations.
//!
//! Unlike command-line front ends, these functions return structured data:
//! listings of variations, and the before/after record of each activation
//! change.  Persisting changed files back to disk is the caller's step.

use vstd::prelude::*;
use vstd::string::StringExecFns;

use crate::code::{spec_variant_names, ContentView, SpanView};
use crate::project::{
    first_file_with, first_span_with, index_of_name, lemma_first_span_with_props,
    lemma_index_of_name_props, spec_project_variants, Project, ProjectFileView,
};
use crate::variation::strs_view;

verus! {

/// Mathematical model of a variation listing entry.
pub struct VariationInfoView {
    pub path: Seq<char>,
    pub line: int,
    pub name: Option<Seq<char>>,
    pub variants: Seq<Seq<char>>,
    pub active: int,
    pub tags: Seq<Seq<char>>,
}

/// Information about a variation in the project.
#[derive(Debug, Clone, PartialEq)]
pub struct VariationInfo {
    /// Path to the file containing this variation
    pub path: String,
    /// Line number where the variation starts (1-indexed)
    pub line: usize,
    /// Optional name of the variation
    pub name: Option<String>,
    /// Names of all variants in this variation
    pub variants: Vec<String>,
    /// Index of the currently active variant (0 = base)
    pub active: usize,
    /// Tags associated with this variation
    pub tags: Vec<String>,
}

impl View for VariationInfo {
    type V = VariationInfoView;

    open spec fn view(&self) -> VariationInfoView {
        VariationInfoView {
            path: self.path@,
            line: self.line as int,
            name: self.name.deep_view(),
            variants: self.variants.deep_view(),
            active: self.active as int,
            tags: self.tags.deep_view(),
        }
    }
}

impl DeepView for VariationInfo {
    type V = VariationInfoView;

    open spec fn deep_view(&self) -> VariationInfoView {
        self.view()
    }
}

/// Mathematical model of a set/unset record.
pub struct SetResultView {
    pub file: Seq<char>,
    pub variation: Option<Seq<char>>,
    pub previous_active: int,
    pub new_active: int,
}

/// Result of a set/unset operation.
#[derive(Debug, Clone, PartialEq)]
pub struct SetResult {
    /// Path to the file that was modified
    pub file: String,
    /// Name of the variation that was modified (if named)
    pub variation: Option<String>,
    /// Previous active variant index (0 = base)
    pub previous_active: usize,
    /// New active variant index (0 = base)
    pub new_active: usize,
}

impl View for SetResult {
    type V = SetResultView;

    open spec fn view(&self) -> SetResultView {
        SetResultView {
            file: self.file@,
            variation: self.variation.deep_view(),
            previous_active: self.previous_active as int,
            new_active: self.new_active as int,
        }
    }
}

impl DeepView for SetResult {
    type V = SetResultView;

    open spec fn deep_view(&self) -> SetResultView {
        self.view()
    }
}

/// Error type for API operations.
#[derive(Debug, Clone, PartialEq)]
pub enum ApiError {
    /// The specified variant was not found
    VariantNotFound { variant: String, available: Vec<String> },
    /// The variant is already active
    AlreadyActive { variant: String },
    /// The variant is not the active one, so it cannot be unset
    NotActive { variant: String },
    /// Project error
    ProjectError(String),
    /// IO error
    IoError(String),
}

/// The human-readable rendering of an API error.
pub open spec fn spec_api_message(e: ApiError) -> Seq<char> {
    match e {
        ApiError::VariantNotFound { variant, available } => "variant '"@ + variant@
            + "' not found, available variants: "@ + crate::code::join_comma(
            strs_view(available@),
        ),
        ApiError::AlreadyActive { variant } => "variant '"@ + variant@ + "' is already active"@,
        ApiError::NotActive { variant } => "variant '"@ + variant@ + "' is not active"@,
        ApiError::ProjectError(m) => "project error: "@ + m@,
        ApiError::IoError(m) => "IO error: "@ + m@,
    }
}

impl ApiError {
    /// Renders the error as a message.
    pub fn message(&self) -> (r: String)
        ensures
            r@ == spec_api_message(*self),
    {
        match self {
            ApiError::VariantNotFound { variant, available } => {
                let mut out = String::new();
                out.append("variant '");
                out.append(variant.as_str());
                out.append("' not found, available variants: ");
                let ghost base = out@;
                let mut j: usize = 0;
                while j < available.len()
                    invariant
                        j <= available@.len(),
                        j > 0 ==> out@ == base + crate::code::join_comma(
                            strs_view(available@).take(j as int),
                        ),
                        j == 0 ==> out@ == base,
                    decreases available@.len() - j,
                {
                    proof {
                        assert(strs_view(available@).take(j as int + 1).drop_last() =~= strs_view(
                            available@,
                        ).take(j as int));
                        assert(strs_view(available@).take(j as int + 1).last()
                            == available@[j as int]@);
                        reveal_strlit(", ");
                    }
                    if j > 0 {
                        out.append(", ");
                    }
                    out.append(available[j].as_str());
                    proof {
                        if j == 0 {
                            assert(strs_view(available@).take(1).len() == 1);
                            assert(out@ =~= base + crate::code::join_comma(
                                strs_view(available@).take(1),
                            ));
                        } else {
                            assert(out@ =~= base + crate::code::join_comma(
                                strs_view(available@).take(j as int + 1),
                            ));
                        }
                    }
                    j = j + 1;
                }
                proof {
                    if available@.len() == 0 {
                        assert(crate::code::join_comma(strs_view(available@)).len() == 0);
                        assert(out@ =~= spec_api_message(*self));
                    } else {
                        assert(strs_view(available@).take(available@.len() as int) =~= strs_view(
                            available@,
                        ));
                        assert(out@ =~= spec_api_message(*self));
                    }
                }
                out
            },
            ApiError::AlreadyActive { variant } => {
                let mut out = String::new();
                out.append("variant '");
                out.append(variant.as_str());
                out.append("' is already active");
                proof {
                    assert(out@ =~= spec_api_message(*self));
                }
                out
            },
            ApiError::NotActive { variant } => {
                let mut out = String::new();
                out.append("variant '");
                out.append(variant.as_str());
                out.append("' is not active");
                proof {
                    assert(out@ =~= spec_api_message(*self));
                }
                out
            },
            ApiError::ProjectError(m) => {
                let mut out = String::new();
                out.append("project error: ");
                out.append(m.as_str());
                proof {
                    assert(out@ =~= spec_api_message(*self));
                }
                out
            },
            ApiError::IoError(m) => {
                let mut out = String::new();
                out.append("IO error: ");
                out.append(m.as_str());
                proof {
                    assert(out@ =~= spec_api_message(*self));
                }
                out
            },
        }
    }
}

// ------------------------------------------------------------------
// Listing
// ------------------------------------------------------------------

/// The listing entries a span sequence contributes.
pub open spec fn spec_infos_of_spans(path: Seq<char>, ss: Seq<SpanView>) -> Seq<VariationInfoView>
    decreases ss.len(),
{
    if ss.len() == 0 {
        Seq::empty()
    } else {
        spec_infos_of_spans(path, ss.drop_last()) + (match ss.last().content {
            ContentView::Variation(v) => seq![
                VariationInfoView {
                    path: path,
                    line: ss.last().line,
                    name: v.name,
                    variants: spec_variant_names(v.variants),
                    active: v.active,
                    tags: v.tags,
                },
            ],
            ContentView::Line(_) => Seq::empty(),
        })
    }
}

/// The listing of the whole project, in file and span order.
pub open spec fn spec_list_variations(fs: Seq<ProjectFileView>) -> Seq<VariationInfoView>
    decreases fs.len(),
{
    if fs.len() == 0 {
        Seq::empty()
    } else {
        spec_list_variations(fs.drop_last()) + spec_infos_of_spans(
            fs.last().path,
            fs.last().code.spans,
        )
    }
}

/// Returns all variations in a project with their locations and metadata,
/// in file and span order.
pub fn list_variations(project: &Project) -> (r: Vec<VariationInfo>)
    ensures
        r.deep_view() == spec_list_variations(project@.files),
{
    let ghost fs = project@.files;
    let mut r: Vec<VariationInfo> = Vec::new();
    proof {
        assert(r.deep_view() =~= spec_list_variations(fs.take(0)));
    }
    let mut i: usize = 0;
    while i < project.files.len()
        invariant
            i <= project.files@.len(),
            fs == project@.files,
            fs.len() == project.files@.len(),
            r.deep_view() == spec_list_variations(fs.take(i as int)),
        decreases project.files@.len() - i,
    {
        proof {
            assert(fs.take(i as int + 1).drop_last() =~= fs.take(i as int));
            assert(fs.take(i as int + 1).last() == fs[i as int]);
            assert(fs[i as int] == project.files@[i as int]@);
        }
        let file = &project.files[i];
        let ghost ss = fs[i as int].code.spans;
        let ghost path = fs[i as int].path;
        let ghost file_base = r.deep_view();
        proof {
            assert(spec_infos_of_spans(path, ss.take(0)).len() == 0);
            assert(file_base =~= file_base + spec_infos_of_spans(path, ss.take(0)));
        }
        let mut j: usize = 0;
        while j < file.code.spans.len()
            invariant
                j <= file.code.spans@.len(),
                ss == file@.code.spans,
                path == file@.path,
                ss.len() == file.code.spans@.len(),
                r.deep_view() == file_base + spec_infos_of_spans(path, ss.take(j as int)),
            decreases file.code.spans@.len() - j,
        {
            proof {
                assert(ss.take(j as int + 1).drop_last() =~= ss.take(j as int));
                assert(ss.take(j as int + 1).last() == ss[j as int]);
                assert(ss[j as int] == file.code.spans@[j as int]@);
            }
            match &file.code.spans[j].content {
                crate::code::SpanContent::Variation(v) => {
                    let mut names: Vec<String> = Vec::new();
                    let ghost ndv = spec_variant_names(v@.variants);
                    proof {
                        crate::code::lemma_variant_names_index(v@.variants);
                        assert(strs_view(names@) =~= ndv.take(0));
                    }
                    let mut k: usize = 0;
                    while k < v.variants.len()
                        invariant
                            k <= v.variants@.len(),
                            ndv == spec_variant_names(v@.variants),
                            ndv.len() == v.variants@.len(),
                            forall|w: int|
                                0 <= w < ndv.len() ==> #[trigger] ndv[w] == v@.variants[w].name,
                            strs_view(names@) == ndv.take(k as int),
                        decreases v.variants@.len() - k,
                    {
                        let ghost pre = names@;
                        let nm = v.variants[k].name.clone();
                        names.push(nm);
                        proof {
                            crate::variation::lemma_strs_view_push(pre, nm);
                            assert(strs_view(names@) =~= ndv.take(k as int + 1));
                        }
                        k = k + 1;
                    }
                    proof {
                        assert(ndv.take(v.variants@.len() as int) =~= ndv);
                    }
                    let info = VariationInfo {
                        path: file.path.clone(),
                        line: file.code.spans[j].line,
                        name: match &v.name {
                            Some(n) => Some(n.clone()),
                            None => None,
                        },
                        variants: names,
                        active: v.active,
                        tags: crate::variation::clone_strings(&v.tags),
                    };
                    let ghost pre_seq = r@;
                    let ghost pre_dv = r.deep_view();
                    proof {
                        assert(info.variants.deep_view() =~= strs_view(info.variants@));
                        assert(info.tags.deep_view() =~= strs_view(info.tags@));
                        assert(info.tags.deep_view() =~= v@.tags);
                    }
                    r.push(info);
                    proof {
                        assert forall|w: int|
                            0 <= w < r@.len() implies r.deep_view()[w] == pre_dv.push(info@)[w] by {
                            if w < pre_seq.len() {
                                assert(r@[w] == pre_seq[w]);
                            }
                        }
                        assert(r.deep_view() =~= pre_dv.push(info@));
                        assert(r.deep_view() =~= file_base + spec_infos_of_spans(
                            path,
                            ss.take(j as int + 1),
                        ));
                    }
                },
                crate::code::SpanContent::Line(_) => {
                    proof {
                        assert(r.deep_view() =~= file_base + spec_infos_of_spans(
                            path,
                            ss.take(j as int + 1),
                        ));
                    }
                },
            }
            j = j + 1;
        }
        proof {
            assert(ss.take(file.code.spans@.len() as int) =~= ss);
            assert(r.deep_view() =~= spec_list_variations(fs.take(i as int + 1)));
        }
        i = i + 1;
    }
    proof {
        assert(fs.take(project.files@.len() as int) =~= fs);
    }
    r
}

// ------------------------------------------------------------------
// Activation by name
// ------------------------------------------------------------------

/// The variation the first-match search selects for a name.
pub open spec fn spec_target_variation(
    fs: Seq<ProjectFileView>,
    name: Seq<char>,
) -> crate::variation::VariationView {
    let fi = first_file_with(fs, name, 0);
    let si = first_span_with(fs[fi].code.spans, name, 0);
    fs[fi].code.spans[si].content->Variation_0
}

/// The project after activating index `target` in the variation the search
/// selects.
pub open spec fn spec_api_apply(fs: Seq<ProjectFileView>, name: Seq<char>, target: int) -> Seq<
    ProjectFileView,
> {
    let fi = first_file_with(fs, name, 0);
    let f = fs[fi];
    let si = first_span_with(f.code.spans, name, 0);
    let v = f.code.spans[si].content->Variation_0;
    fs.update(
        fi,
        ProjectFileView {
            path: f.path,
            code: crate::code::CodeView {
                spans: f.code.spans.update(
                    si,
                    SpanView {
                        line: f.code.spans[si].line,
                        content: ContentView::Variation(v.spec_activate(target)),
                    },
                ),
                ..f.code
            },
        },
    )
}

/// Finds the first file holding the variant, with the search's
/// characterization.
fn find_file_with(project: &Project, variant: &str) -> (r: usize)
    ensures
        r == first_file_with(project@.files, variant@, 0),
        r <= project@.files.len(),
{
    let ghost fs = project@.files;
    let mut i: usize = 0;
    while i < project.files.len()
        invariant
            i <= project.files@.len(),
            fs == project@.files,
            fs.len() == project.files@.len(),
            first_file_with(fs, variant@, 0) == first_file_with(fs, variant@, i as int),
        decreases project.files@.len() - i,
    {
        proof {
            assert(fs[i as int] == project.files@[i as int]@);
        }
        if crate::project::code_has_variant_pub(&project.files[i].code, variant) {
            return i;
        }
        i = i + 1;
    }
    i
}

/// Sets a variant as active, returning what was changed.  The name is
/// searched for across the files in order and the first file holding it
/// wins; activating the variant that is already active is refused.
pub fn set_variant(project: &mut Project, variant: &str) -> (r: Result<SetResult, ApiError>)
    ensures
        ({
            let fs = old(project)@.files;
            let fi = first_file_with(fs, variant@, 0);
            match r {
                Err(ApiError::VariantNotFound { variant: vn, available }) => {
                    &&& fi == fs.len()
                    &&& vn@ == variant@
                    &&& strs_view(available@) == spec_project_variants(fs)
                    &&& final(project)@ == old(project)@
                },
                Err(ApiError::AlreadyActive { variant: vn }) => {
                    &&& fi < fs.len()
                    &&& vn@ == variant@
                    &&& {
                        let v = spec_target_variation(fs, variant@);
                        v.active == index_of_name(v.variants, variant@, 0) + 1
                    }
                    &&& final(project)@ == old(project)@
                },
                Err(ApiError::ProjectError(_)) => {
                    &&& fi < fs.len()
                    &&& {
                        let v = spec_target_variation(fs, variant@);
                        let vi = index_of_name(v.variants, variant@, 0);
                        v.active != vi + 1 && v.variants[vi].body.is_active()
                    }
                    &&& final(project)@ == old(project)@
                },
                Ok(sr) => {
                    &&& fi < fs.len()
                    &&& {
                        let v = spec_target_variation(fs, variant@);
                        let vi = index_of_name(v.variants, variant@, 0);
                        &&& v.active != vi + 1
                        &&& !v.variants[vi].body.is_active()
                        &&& final(project)@.files == spec_api_apply(fs, variant@, vi + 1)
                        &&& final(project)@.root == old(project)@.root
                        &&& sr@ == (SetResultView {
                            file: fs[fi].path,
                            variation: v.name,
                            previous_active: v.active,
                            new_active: vi + 1,
                        })
                    }
                },
                Err(_) => false,
            }
        }),
{
    let ghost fs = project@.files;
    let fi = find_file_with(project, variant);
    if fi >= project.files.len() {
        let available = project.all_variants();
        let mut vname = String::new();
        vname.append(variant);
        proof {
            assert(strs_view(available@) =~= available.deep_view());
        }
        return Err(ApiError::VariantNotFound { variant: vname, available });
    }
    let ghost fview = fs[fi as int];
    proof {
        crate::project::lemma_first_file_with_props(fs, variant@, 0);
    }
    let mut f = project.files.remove(fi);
    let si = crate::project::find_span_with_pub(&f.code, variant);
    proof {
        lemma_first_span_with_props(fview.code.spans, variant@, 0);
    }
    match &f.code.spans[si].content {
        crate::code::SpanContent::Variation(v) => {
            proof {
                assert(spec_variant_names(v@.variants).contains(variant@));
                crate::code::lemma_variant_names_index(v@.variants);
                lemma_index_of_name_props(v@.variants, variant@, 0);
                if index_of_name(v@.variants, variant@, 0) == v@.variants.len() {
                    let w = choose|w: int|
                        0 <= w < spec_variant_names(v@.variants).len() && spec_variant_names(
                            v@.variants,
                        )[w] == variant@;
                    assert(v@.variants[w].name == variant@);
                    assert(false);
                }
            }
            let vi = crate::project::index_of_variant_pub(&v.variants, variant);
            let nvars = v.variants.len();
            proof {
                assert(vi < nvars);
            }
            let previous_active = v.active;
            let variation_name = match &v.name {
                Some(n) => Some(n.clone()),
                None => None,
            };
            let file_path = f.path.clone();
            if previous_active == vi + 1 {
                let ghost files_pre = project.files@;
                project.files.insert(fi, f);
                let mut vname = String::new();
                vname.append(variant);
                proof {
                    assert(project@.files =~= fs);
                    assert(project@ =~= old(project)@);
                }
                return Err(ApiError::AlreadyActive { variant: vname });
            }
            let res = f.code.set_active_variant(si, vi + 1);
            let ghost files_pre = project.files@;
            project.files.insert(fi, f);
            proof {
                assert forall|k: int|
                    0 <= k < project.files@.len() && k != fi as int implies #[trigger] project.files@[k]@
                    == fs[k] by {
                    if k < fi as int {
                        assert(project.files@[k] == files_pre[k]);
                    } else {
                        assert(project.files@[k] == files_pre[k - 1]);
                    }
                }
            }
            match res {
                Ok(()) => {
                    proof {
                        assert(project@.files =~= spec_api_apply(fs, variant@, vi + 1 as int));
                    }
                    Ok(
                        SetResult {
                            file: file_path,
                            variation: variation_name,
                            previous_active,
                            new_active: vi + 1,
                        },
                    )
                },
                Err(e) => {
                    proof {
                        assert(e is VariantAlreadyActive);
                        assert(project@.files =~= fs);
                        assert(project@ =~= old(project)@);
                    }
                    Err(ApiError::ProjectError(String::from_str("variant is already active")))
                },
            }
        },
        crate::code::SpanContent::Line(_) => {
            proof {
                assert(false);
            }
            Err(ApiError::ProjectError(String::from_str("not a variation")))
        },
    }
}

/// Unsets a variant, resetting its variation to the base.  The named
/// variant must be the currently active one; unsetting an inactive variant
/// is a no-op error.
pub fn unset_variant(project: &mut Project, variant: &str) -> (r: Result<SetResult, ApiError>)
    ensures
        ({
            let fs = old(project)@.files;
            let fi = first_file_with(fs, variant@, 0);
            match r {
                Err(ApiError::VariantNotFound { variant: vn, available }) => {
                    &&& fi == fs.len()
                    &&& vn@ == variant@
                    &&& strs_view(available@) == spec_project_variants(fs)
                    &&& final(project)@ == old(project)@
                },
                Err(ApiError::NotActive { variant: vn }) => {
                    &&& fi < fs.len()
                    &&& vn@ == variant@
                    &&& {
                        let v = spec_target_variation(fs, variant@);
                        v.active != index_of_name(v.variants, variant@, 0) + 1
                    }
                    &&& final(project)@ == old(project)@
                },
                Err(ApiError::ProjectError(_)) => {
                    &&& fi < fs.len()
                    &&& {
                        let v = spec_target_variation(fs, variant@);
                        v.active == index_of_name(v.variants, variant@, 0) + 1
                            && v.base.body.is_active()
                    }
                    &&& final(project)@ == old(project)@
                },
                Ok(sr) => {
                    &&& fi < fs.len()
                    &&& {
                        let v = spec_target_variation(fs, variant@);
                        let vi = index_of_name(v.variants, variant@, 0);
                        &&& v.active == vi + 1
                        &&& !v.base.body.is_active()
                        &&& final(project)@.files == spec_api_apply(fs, variant@, 0)
                        &&& final(project)@.root == old(project)@.root
                        &&& sr@ == (SetResultView {
                            file: fs[fi].path,
                            variation: v.name,
                            previous_active: v.active,
                            new_active: 0,
                        })
                    }
                },
                Err(_) => false,
            }
        }),
{
    let ghost fs = project@.files;
    let fi = find_file_with(project, variant);
    if fi >= project.files.len() {
        let available = project.all_variants();
        let mut vname = String::new();
        vname.append(variant);
        proof {
            assert(strs_view(available@) =~= available.deep_view());
        }
        return Err(ApiError::VariantNotFound { variant: vname, available });
    }
    let ghost fview = fs[fi as int];
    proof {
        crate::project::lemma_first_file_with_props(fs, variant@, 0);
    }
    let mut f = project.files.remove(fi);
    let si = crate::project::find_span_with_pub(&f.code, variant);
    proof {
        lemma_first_span_with_props(fview.code.spans, variant@, 0);
    }
    match &f.code.spans[si].content {
        crate::code::SpanContent::Variation(v) => {
            proof {
                assert(spec_variant_names(v@.variants).contains(variant@));
                crate::code::lemma_variant_names_index(v@.variants);
                lemma_index_of_name_props(v@.variants, variant@, 0);
                if index_of_name(v@.variants, variant@, 0) == v@.variants.len() {
                    let w = choose|w: int|
                        0 <= w < spec_variant_names(v@.variants).len() && spec_variant_names(
                            v@.variants,
                        )[w] == variant@;
                    assert(v@.variants[w].name == variant@);
                    assert(false);
                }
            }
            let vi = crate::project::index_of_variant_pub(&v.variants, variant);
            let nvars = v.variants.len();
            proof {
                assert(vi < nvars);
            }
            let previous_active = v.active;
            let variation_name = match &v.name {
                Some(n) => Some(n.clone()),
                None => None,
            };
            let file_path = f.path.clone();
            if previous_active != vi + 1 {
                project.files.insert(fi, f);
                let mut vname = String::new();
                vname.append(variant);
                proof {
                    assert(project@.files =~= fs);
                    assert(project@ =~= old(project)@);
                }
                return Err(ApiError::NotActive { variant: vname });
            }
            let res = f.code.set_active_variant(si, 0);
            let ghost files_pre = project.files@;
            project.files.insert(fi, f);
            proof {
                assert forall|k: int|
                    0 <= k < project.files@.len() && k != fi as int implies #[trigger] project.files@[k]@
                    == fs[k] by {
                    if k < fi as int {
                        assert(project.files@[k] == files_pre[k]);
                    } else {
                        assert(project.files@[k] == files_pre[k - 1]);
                    }
                }
            }
            match res {
                Ok(()) => {
                    proof {
                        assert(project@.files =~= spec_api_apply(fs, variant@, 0));
                    }
                    Ok(
                        SetResult {
                            file: file_path,
                            variation: variation_name,
                            previous_active,
                            new_active: 0,
                        },
                    )
                },
                Err(e) => {
                    proof {
                        assert(e is VariantAlreadyActive);
                        assert(project@.files =~= fs);
                        assert(project@ =~= old(project)@);
                    }
                    Err(ApiError::ProjectError(String::from_str("base is already active")))
                },
            }
        },
        crate::code::SpanContent::Line(_) => {
            proof {
                assert(false);
            }
            Err(ApiError::ProjectError(String::from_str("not a variation")))
        },
    }
}

// ------------------------------------------------------------------
// Resetting the whole project
// ------------------------------------------------------------------

/// A span after the conditional reset: variations whose active index
/// selects a variant go back to the base; everything else is untouched.
pub open spec fn spec_cond_reset_span(s: SpanView) -> SpanView {
    match s.content {
        ContentView::Variation(v) => if v.active != 0 {
            SpanView { line: s.line, content: ContentView::Variation(v.spec_activate(0)) }
        } else {
            s
        },
        ContentView::Line(_) => s,
    }
}

/// A file after the conditional reset.
pub open spec fn spec_cond_reset_file(f: ProjectFileView) -> ProjectFileView {
    ProjectFileView {
        path: f.path,
        code: crate::code::CodeView {
            spans: Seq::new(f.code.spans.len(), |i: int| spec_cond_reset_span(f.code.spans[i])),
            ..f.code
        },
    }
}

/// The change records a span sequence contributes to a reset.
pub open spec fn spec_reset_results_of_spans(path: Seq<char>, ss: Seq<SpanView>) -> Seq<
    SetResultView,
>
    decreases ss.len(),
{
    if ss.len() == 0 {
        Seq::empty()
    } else {
        spec_reset_results_of_spans(path, ss.drop_last()) + (match ss.last().content {
            ContentView::Variation(v) => if v.active != 0 {
                seq![
                    SetResultView {
                        file: path,
                        variation: v.name,
                        previous_active: v.active,
                        new_active: 0,
                    },
                ]
            } else {
                Seq::empty()
            },
            ContentView::Line(_) => Seq::empty(),
        })
    }
}

/// The change records of a whole reset, in file and span order.
pub open spec fn spec_reset_results(fs: Seq<ProjectFileView>) -> Seq<SetResultView>
    decreases fs.len(),
{
    if fs.len() == 0 {
        Seq::empty()
    } else {
        spec_reset_results(fs.drop_last()) + spec_reset_results_of_spans(
            fs.last().path,
            fs.last().code.spans,
        )
    }
}

/// Resets every non-base variation in the project to its base, returning
/// the record of each change.
pub fn reset_all(project: &mut Project) -> (r: Result<Vec<SetResult>, ApiError>)
    ensures
        final(project)@.root == old(project)@.root,
        final(project)@.files.len() == old(project)@.files.len(),
        forall|k: int|
            0 <= k < old(project)@.files.len() ==> #[trigger] final(project)@.files[k]
                == spec_cond_reset_file(old(project)@.files[k]),
        match r {
            Ok(results) => results.deep_view() == spec_reset_results(old(project)@.files),
            Err(_) => false,
        },
{
    let ghost fs0 = project@.files;
    let mut results: Vec<SetResult> = Vec::new();
    proof {
        assert(results.deep_view() =~= spec_reset_results(fs0.take(0)));
    }
    let n = project.files.len();
    let mut i: usize = 0;
    while i < n
        invariant
            i <= n,
            n == project.files@.len(),
            fs0.len() == n,
            project@.root == old(project)@.root,
            fs0 == old(project)@.files,
            results.deep_view() == spec_reset_results(fs0.take(i as int)),
            forall|k: int|
                0 <= k < i ==> #[trigger] project.files@[k]@ == spec_cond_reset_file(fs0[k]),
            forall|k: int| i <= k < n ==> #[trigger] project.files@[k]@ == fs0[k],
        decreases n - i,
    {
        proof {
            assert(fs0.take(i as int + 1).drop_last() =~= fs0.take(i as int));
            assert(fs0.take(i as int + 1).last() == fs0[i as int]);
        }
        let mut f = project.files.remove(i);
        let ghost fview = f@;
        let ghost file_base = results.deep_view();
        proof {
            assert(spec_reset_results_of_spans(fview.path, fview.code.spans.take(0)).len() == 0);
            assert(file_base =~= file_base + spec_reset_results_of_spans(
                fview.path,
                fview.code.spans.take(0),
            ));
        }
        let m = f.code.spans.len();
        let mut j: usize = 0;
        while j < m
            invariant
                j <= m,
                m == f.code.spans@.len(),
                fview.code.spans.len() == m,
                f@.path == fview.path,
                f@.code.language == fview.code.language,
                f@.code.path == fview.code.path,
                results.deep_view() == file_base + spec_reset_results_of_spans(
                    fview.path,
                    fview.code.spans.take(j as int),
                ),
                forall|w: int|
                    0 <= w < j ==> #[trigger] f.code.spans@[w]@ == spec_cond_reset_span(
                        fview.code.spans[w],
                    ),
                forall|w: int| j <= w < m ==> #[trigger] f.code.spans@[w]@ == fview.code.spans[w],
            decreases m - j,
        {
            proof {
                assert(fview.code.spans.take(j as int + 1).drop_last() =~= fview.code.spans.take(
                    j as int,
                ));
                assert(fview.code.spans.take(j as int + 1).last() == fview.code.spans[j as int]);
            }
            let ghost spans_pre = f.code.spans@;
            let ghost spv = fview.code.spans[j as int];
            let sp = f.code.spans.remove(j);
            proof {
                assert(sp@ == spv);
            }
            let crate::code::Span { line, content } = sp;
            let new_span = match content {
                crate::code::SpanContent::Variation(mut v) => {
                    proof {
                        assert(spv.content == ContentView::Variation(v@));
                    }
                    if v.active != 0 {
                        let record = SetResult {
                            file: f.path.clone(),
                            variation: match &v.name {
                                Some(nm) => Some(nm.clone()),
                                None => None,
                            },
                            previous_active: v.active,
                            new_active: 0,
                        };
                        let ghost pre_seq = results@;
                        let ghost pre_dv = results.deep_view();
                        proof {
                            assert(record@ == (SetResultView {
                                file: fview.path,
                                variation: spv.content->Variation_0.name,
                                previous_active: spv.content->Variation_0.active,
                                new_active: 0,
                            }));
                        }
                        results.push(record);
                        proof {
                            assert forall|w: int|
                                0 <= w < results@.len() implies results.deep_view()[w]
                                == pre_dv.push(record@)[w] by {
                                if w < pre_seq.len() {
                                    assert(results@[w] == pre_seq[w]);
                                }
                            }
                            assert(results.deep_view() =~= pre_dv.push(record@));
                            assert(results.deep_view() =~= file_base
                                + spec_reset_results_of_spans(
                                fview.path,
                                fview.code.spans.take(j as int + 1),
                            ));
                        }
                        let ghost vpre = v@;
                        v.activate_base();
                        let ns = crate::code::Span {
                            line,
                            content: crate::code::SpanContent::Variation(v),
                        };
                        proof {
                            assert(ns@ == spec_cond_reset_span(spv));
                        }
                        ns
                    } else {
                        let ns = crate::code::Span {
                            line,
                            content: crate::code::SpanContent::Variation(v),
                        };
                        proof {
                            assert(ns@ == spec_cond_reset_span(spv));
                            assert(results.deep_view() =~= file_base
                                + spec_reset_results_of_spans(
                                fview.path,
                                fview.code.spans.take(j as int + 1),
                            ));
                        }
                        ns
                    }
                },
                crate::code::SpanContent::Line(t) => {
                    let ns = crate::code::Span { line, content: crate::code::SpanContent::Line(t) };
                    proof {
                        assert(ns@ == spec_cond_reset_span(spv));
                        assert(results.deep_view() =~= file_base + spec_reset_results_of_spans(
                            fview.path,
                            fview.code.spans.take(j as int + 1),
                        ));
                    }
                    ns
                },
            };
            f.code.spans.insert(j, new_span);
            proof {
                assert(f.code.spans@ =~= spans_pre.update(j as int, new_span));
                assert forall|w: int| 0 <= w < j implies #[trigger] f.code.spans@[w]@
                    == spec_cond_reset_span(fview.code.spans[w]) by {
                    assert(f.code.spans@[w] == spans_pre[w]);
                }
            }
            j = j + 1;
        }
        proof {
            assert(fview.code.spans.take(m as int) =~= fview.code.spans);
            assert(f@.code.spans =~= Seq::new(
                fview.code.spans.len(),
                |w: int| spec_cond_reset_span(fview.code.spans[w]),
            ));
            assert(f@.code == spec_cond_reset_file(fview).code);
            assert(f@ == spec_cond_reset_file(fview));
            assert(fview == fs0[i as int]);
            assert(results.deep_view() =~= spec_reset_results(fs0.take(i as int + 1)));
        }
        let ghost files_pre = project.files@;
        project.files.insert(i, f);
        proof {
            assert forall|k: int| 0 <= k < i + 1 implies #[trigger] project.files@[k]@
                == spec_cond_reset_file(fs0[k]) by {
                if k < i as int {
                    assert(project.files@[k] == files_pre[k]);
                }
            }
        }
        i = i + 1;
    }
    proof {
        assert(fs0.take(n as int) =~= fs0);
    }
    Ok(results)
}

} // verus!
