//! The variation/variant model: the in-memory representation of a parsed
//! mutation region, its activation state machine, and the line accounting.
//!
//! A variation holds one base implementation and a list of named variants;
//! exactly one of them is active (uncommented) at a time.  Each body exists
//! in one of two renderings: active (bare lines) or inactive (wrapped in
//! comment markers, with the indentation of the wrapper recorded so the
//! block round-trips exactly).

use vstd::prelude::*;

verus! {

// ------------------------------------------------------------------
// Ghost model
// ------------------------------------------------------------------

/// Mathematical model of a variant body.
pub enum BodyView {
    InactiveMultiLine { lines: Seq<Seq<char>>, indentation: Seq<char> },
    InactiveSingleLine { line: Seq<char>, indentation: Seq<char> },
    Active { lines: Seq<Seq<char>> },
}

impl BodyView {
    pub open spec fn is_active(self) -> bool {
        self is Active
    }

    /// The raw code lines of the body, in either rendering.
    pub open spec fn lines(self) -> Seq<Seq<char>> {
        match self {
            BodyView::InactiveMultiLine { lines, .. } => lines,
            BodyView::InactiveSingleLine { line, .. } => seq![line],
            BodyView::Active { lines } => lines,
        }
    }

    /// The recorded wrapper indentation, absent for an active body.
    pub open spec fn indentation(self) -> Option<Seq<char>> {
        match self {
            BodyView::InactiveMultiLine { indentation, .. } => Some(indentation),
            BodyView::InactiveSingleLine { indentation, .. } => Some(indentation),
            BodyView::Active { .. } => None,
        }
    }

    /// How many code lines the body contributes.
    pub open spec fn spec_count_lines(self) -> int {
        match self {
            BodyView::InactiveMultiLine { lines, .. } => lines.len() as int,
            BodyView::InactiveSingleLine { .. } => 1,
            BodyView::Active { lines } => lines.len() as int,
        }
    }

    /// The body after activation: the raw lines, bare.  A single-line
    /// inactive body re-attaches its recorded indentation to the line.
    pub open spec fn activated(self) -> BodyView {
        match self {
            BodyView::InactiveMultiLine { lines, .. } => BodyView::Active { lines },
            BodyView::InactiveSingleLine { line, indentation } => BodyView::Active {
                lines: seq![indentation + line],
            },
            BodyView::Active { lines } => BodyView::Active { lines },
        }
    }

    /// The body after deactivation.  An already-inactive body keeps its
    /// recorded indentation; an active one is wrapped with `indentation`
    /// (the enclosing variation's own, per the fallback rule).
    pub open spec fn deactivated(self, indentation: Seq<char>) -> BodyView {
        match self {
            BodyView::Active { lines } => BodyView::InactiveMultiLine { lines, indentation },
            _ => self,
        }
    }
}

/// Mathematical model of a named variant.
pub struct VariantView {
    pub name: Seq<char>,
    pub body: BodyView,
}

/// Mathematical model of a variation.
pub struct VariationView {
    pub name: Option<Seq<char>>,
    pub tags: Seq<Seq<char>>,
    pub base: VariantView,
    pub variants: Seq<VariantView>,
    pub active: int,
    pub indentation: Seq<char>,
}

impl VariationView {
    /// Well-formedness: the `active` index is in range and agrees with the
    /// body renderings — the base is bare exactly when `active == 0`, and
    /// variant `i` is bare exactly when `active == i + 1`.  Hence exactly
    /// one of {base, variants} is active.
    pub open spec fn wf(self) -> bool {
        &&& 0 <= self.active <= self.variants.len()
        &&& (self.base.body.is_active() <==> self.active == 0)
        &&& forall|i: int|
            0 <= i < self.variants.len() ==> (#[trigger] self.variants[i].body.is_active()
                <==> self.active == i + 1)
    }

    /// How many of {base, variants} are in the active rendering.
    pub open spec fn active_count(self) -> int {
        (if self.base.body.is_active() {
            1int
        } else {
            0int
        }) + count_active(self.variants)
    }

    /// The model-level line accounting: one line for the header, the code
    /// lines of the base, one header line plus the code lines for each
    /// variant, and one line for the end marker.
    pub open spec fn spec_count_lines(self) -> int {
        1 + self.base.body.spec_count_lines() + count_variant_lines(self.variants) + 1
    }

    /// The variation after `activate(index)`: absolute reassignment of the
    /// whole state machine, for `0 <= index <= variants.len()`.
    pub open spec fn spec_activate(self, index: int) -> VariationView {
        VariationView {
            active: index,
            base: VariantView {
                body: if index == 0 {
                    self.base.body.activated()
                } else {
                    self.base.body.deactivated(self.indentation)
                },
                ..self.base
            },
            variants: Seq::new(
                self.variants.len(),
                |i: int|
                    VariantView {
                        body: if index == i + 1 {
                            self.variants[i].body.activated()
                        } else {
                            self.variants[i].body.deactivated(self.indentation)
                        },
                        ..self.variants[i]
                    },
            ),
            ..self
        }
    }
}

pub open spec fn count_active(vs: Seq<VariantView>) -> int
    decreases vs.len(),
{
    if vs.len() == 0 {
        0
    } else {
        count_active(vs.drop_last()) + (if vs.last().body.is_active() {
            1int
        } else {
            0int
        })
    }
}

pub open spec fn count_variant_lines(vs: Seq<VariantView>) -> int
    decreases vs.len(),
{
    if vs.len() == 0 {
        0
    } else {
        count_variant_lines(vs.drop_last()) + 1 + vs.last().body.spec_count_lines()
    }
}

// ------------------------------------------------------------------
// Laws of the activation state machine
// ------------------------------------------------------------------

proof fn lemma_count_active_indexed(vs: Seq<VariantView>, k: int)
    requires
        forall|i: int| 0 <= i < vs.len() ==> (#[trigger] vs[i].body.is_active() <==> k == i + 1),
    ensures
        count_active(vs) == if 1 <= k <= vs.len() {
            1int
        } else {
            0int
        },
    decreases vs.len(),
{
    if vs.len() > 0 {
        lemma_count_active_indexed(vs.drop_last(), k);
    }
}

/// Exactly-one-active: a well-formed variation has exactly one of
/// {base, variants} in the active rendering.
pub proof fn lemma_exactly_one_active(v: VariationView)
    requires
        v.wf(),
    ensures
        v.active_count() == 1,
{
    lemma_count_active_indexed(v.variants, v.active);
}

/// Activation establishes well-formedness, whatever the starting state.
pub proof fn lemma_activate_wf(v: VariationView, index: int)
    requires
        0 <= index <= v.variants.len(),
    ensures
        v.spec_activate(index).wf(),
{
}

/// Activation is idempotent at the model level: repeating `activate` with
/// the same index leaves the variation (and hence its serialized form)
/// unchanged after the first call.
pub proof fn lemma_activate_idempotent(v: VariationView, index: int)
    requires
        0 <= index <= v.variants.len(),
    ensures
        v.spec_activate(index).spec_activate(index) == v.spec_activate(index),
{
    let v1 = v.spec_activate(index);
    let v2 = v1.spec_activate(index);
    assert(v2.base == v1.base);
    assert(v2.variants =~= v1.variants);
    assert(v2 =~= v1);
}

// ------------------------------------------------------------------
// Executable model
// ------------------------------------------------------------------

/// The views of a sequence of strings.
pub open spec fn strs_view(q: Seq<String>) -> Seq<Seq<char>> {
    Seq::new(q.len(), |i: int| q[i]@)
}

/// Pushing a string and taking views commute.
pub proof fn lemma_strs_view_push(q: Seq<String>, s: String)
    ensures
        strs_view(q.push(s)) == strs_view(q).push(s@),
{
    assert(strs_view(q.push(s)) =~= strs_view(q).push(s@));
}

/// Clones a vector of strings, keeping its mathematical view.
pub(crate) fn clone_strings(v: &Vec<String>) -> (r: Vec<String>)
    ensures
        r.deep_view() == v.deep_view(),
{
    let mut r: Vec<String> = Vec::new();
    let mut i: usize = 0;
    while i < v.len()
        invariant
            i <= v.len(),
            r@.len() == i,
            forall|k: int| 0 <= k < i as int ==> (#[trigger] r@[k])@ == v@[k]@,
        decreases v.len() - i,
    {
        let s = v[i].clone();
        r.push(s);
        i = i + 1;
    }
    proof {
        assert(r.deep_view() =~= v.deep_view());
    }
    r
}

/// A variant body, in the active (bare lines) or inactive (comment-wrapped)
/// rendering.  Inactive bodies record the indentation of their wrapper
/// markers so that serialization reproduces the original bytes.
#[derive(Debug, Clone, PartialEq)]
pub enum VariantBody {
    InactiveMultiLine { lines: Vec<String>, indentation: String },
    InactiveSingleLine { line: String, indentation: String },
    Active { lines: Vec<String> },
}

impl View for VariantBody {
    type V = BodyView;

    open spec fn view(&self) -> BodyView {
        match self {
            VariantBody::InactiveMultiLine { lines, indentation } => BodyView::InactiveMultiLine {
                lines: lines.deep_view(),
                indentation: indentation@,
            },
            VariantBody::InactiveSingleLine { line, indentation } => BodyView::InactiveSingleLine {
                line: line@,
                indentation: indentation@,
            },
            VariantBody::Active { lines } => BodyView::Active { lines: lines.deep_view() },
        }
    }
}

impl DeepView for VariantBody {
    type V = BodyView;

    open spec fn deep_view(&self) -> BodyView {
        self.view()
    }
}

impl VariantBody {
    /// The raw code lines, in either rendering.
    pub fn lines(&self) -> (r: Vec<String>)
        ensures
            r.deep_view() == self@.lines(),
    {
        match self {
            VariantBody::InactiveMultiLine { lines, .. } => lines.clone(),
            VariantBody::InactiveSingleLine { line, .. } => {
                let mut v: Vec<String> = Vec::new();
                v.push(line.clone());
                proof {
                    assert(v.deep_view() =~= self@.lines());
                }
                v
            },
            VariantBody::Active { lines } => lines.clone(),
        }
    }

    /// How many code lines the body contributes.
    pub fn count_lines(&self) -> (r: usize)
        ensures
            r == self@.spec_count_lines(),
    {
        match self {
            VariantBody::InactiveMultiLine { lines, .. } => lines.len(),
            VariantBody::InactiveSingleLine { .. } => 1,
            VariantBody::Active { lines } => lines.len(),
        }
    }

    /// The recorded wrapper indentation, absent for an active body.
    pub fn indentation(&self) -> (r: Option<String>)
        ensures
            r.deep_view() == self@.indentation(),
    {
        match self {
            VariantBody::InactiveMultiLine { indentation, .. } => Some(indentation.clone()),
            VariantBody::InactiveSingleLine { indentation, .. } => Some(indentation.clone()),
            VariantBody::Active { .. } => None,
        }
    }

    pub fn is_active(&self) -> (r: bool)
        ensures
            r == self@.is_active(),
    {
        match self {
            VariantBody::Active { .. } => true,
            _ => false,
        }
    }
}

/// A named alternative implementation within a variation.
#[derive(Debug, Clone, PartialEq)]
pub struct Variant {
    /// name of the variant
    pub name: String,
    /// code of the variant (as lines)
    pub body: VariantBody,
}

impl View for Variant {
    type V = VariantView;

    open spec fn view(&self) -> VariantView {
        VariantView { name: self.name@, body: self.body@ }
    }
}

impl DeepView for Variant {
    type V = VariantView;

    open spec fn deep_view(&self) -> VariantView {
        self.view()
    }
}

impl Variant {
    pub fn lines(&self) -> (r: Vec<String>)
        ensures
            r.deep_view() == self@.body.lines(),
    {
        self.body.lines()
    }

    pub fn indentation(&self) -> (r: Option<String>)
        ensures
            r.deep_view() == self@.body.indentation(),
    {
        self.body.indentation()
    }

    pub fn is_active(&self) -> (r: bool)
        ensures
            r == self@.body.is_active(),
    {
        self.body.is_active()
    }

    /// Switch the body to its active (bare) rendering.
    pub fn activate(&mut self)
        ensures
            final(self)@ == (VariantView { body: old(self)@.body.activated(), ..old(self)@ }),
    {
        let new_body = match &self.body {
            VariantBody::InactiveMultiLine { lines, .. } => VariantBody::Active {
                lines: clone_strings(lines),
            },
            VariantBody::InactiveSingleLine { line, indentation } => {
                let mut joined = indentation.clone();
                joined.append(line.as_str());
                let mut lines: Vec<String> = Vec::new();
                lines.push(joined);
                proof {
                    assert(lines.deep_view() =~= self@.body.activated().lines());
                }
                VariantBody::Active { lines }
            },
            VariantBody::Active { lines } => VariantBody::Active { lines: clone_strings(lines) },
        };
        self.body = new_body;
        proof {
            assert(self@.body =~~= old(self)@.body.activated());
        }
    }

    /// Switch the body to its inactive (comment-wrapped) rendering.  A body
    /// that was active has no recorded indentation, so the caller supplies
    /// the enclosing variation's indentation as the wrapper indentation; an
    /// already-inactive body is left unchanged.
    pub fn deactivate(&mut self, indentation: &String)
        ensures
            final(self)@ == (VariantView {
                body: old(self)@.body.deactivated(indentation@),
                ..old(self)@
            }),
    {
        let new_body = match &self.body {
            VariantBody::Active { lines } => VariantBody::InactiveMultiLine {
                lines: clone_strings(lines),
                indentation: indentation.clone(),
            },
            VariantBody::InactiveMultiLine { lines, indentation } => {
                VariantBody::InactiveMultiLine {
                    lines: clone_strings(lines),
                    indentation: indentation.clone(),
                }
            },
            VariantBody::InactiveSingleLine { line, indentation } => {
                VariantBody::InactiveSingleLine {
                    line: line.clone(),
                    indentation: indentation.clone(),
                }
            },
        };
        self.body = new_body;
        proof {
            assert(self@.body =~~= old(self)@.body.deactivated(indentation@));
        }
    }
}

/// A marked region of source: one base implementation plus named variants,
/// with `active` selecting the current choice (0 is the base, `i + 1` is
/// `variants[i]`).
#[derive(Debug, Clone, PartialEq)]
pub struct Variation {
    /// name of the variation
    pub name: Option<String>,
    /// tags of the variation
    pub tags: Vec<String>,
    /// base code
    pub base: Variant,
    /// list of variants
    pub variants: Vec<Variant>,
    /// index of the active variant
    pub active: usize,
    /// indentation of the variation
    pub indentation: String,
}

impl View for Variation {
    type V = VariationView;

    open spec fn view(&self) -> VariationView {
        VariationView {
            name: self.name.deep_view(),
            tags: self.tags.deep_view(),
            base: self.base@,
            variants: self.variants.deep_view(),
            active: self.active as int,
            indentation: self.indentation@,
        }
    }
}

impl DeepView for Variation {
    type V = VariationView;

    open spec fn deep_view(&self) -> VariationView {
        self.view()
    }
}

impl Variation {
    /// Activate the base: the base becomes bare, every variant is wrapped.
    pub fn activate_base(&mut self)
        ensures
            final(self)@ == old(self)@.spec_activate(0),
            final(self)@.wf(),
    {
        proof {
            lemma_activate_wf(self@, 0);
        }
        self.active = 0;
        self.base.activate();
        let ghost start = self@;
        let indentation = self.indentation.clone();
        let mut i: usize = 0;
        while i < self.variants.len()
            invariant
                i <= self.variants.len(),
                self.active == 0,
                self.name.deep_view() == start.name,
                self.tags.deep_view() == start.tags,
                self.base@ == start.base,
                self.indentation@ == start.indentation,
                indentation@ == start.indentation,
                self.variants@.len() == start.variants.len(),
                forall|j: int|
                    0 <= j < i ==> (#[trigger] self.variants@[j])@ == (VariantView {
                        body: start.variants[j].body.deactivated(start.indentation),
                        ..start.variants[j]
                    }),
                forall|j: int|
                    i <= j < self.variants@.len() ==> (#[trigger] self.variants@[j])@
                        == start.variants[j],
            decreases self.variants.len() - i,
        {
            let v = &mut self.variants[i];
            v.deactivate(&indentation);
            i = i + 1;
        }
        proof {
            assert(self@.variants =~= old(self)@.spec_activate(0).variants);
            assert(self@ =~= old(self)@.spec_activate(0));
        }
    }

    /// Activate variant `index - 1` (or the base for `index == 0`): that
    /// body becomes bare, the base and every other variant are wrapped.
    /// The reassignment is absolute and unconditional; bounds are the
    /// caller's obligation.
    pub fn activate_variant(&mut self, index: usize)
        requires
            index <= old(self).variants.len(),
        ensures
            final(self)@ == old(self)@.spec_activate(index as int),
            final(self)@.wf(),
    {
        proof {
            lemma_activate_wf(self@, index as int);
        }
        if index == 0 {
            self.activate_base();
            return ;
        }
        self.active = index;
        let target = index - 1;
        let indentation = self.indentation.clone();
        self.base.deactivate(&indentation);
        let ghost start = self@;
        let mut i: usize = 0;
        while i < self.variants.len()
            invariant
                i <= self.variants.len(),
                target < self.variants.len(),
                self.active == start.active,
                self.name.deep_view() == start.name,
                self.tags.deep_view() == start.tags,
                self.base@ == start.base,
                self.indentation@ == start.indentation,
                indentation@ == start.indentation,
                self.variants@.len() == start.variants.len(),
                forall|j: int|
                    0 <= j < i ==> (#[trigger] self.variants@[j])@ == (VariantView {
                        body: if j == target {
                            start.variants[j].body.activated()
                        } else {
                            start.variants[j].body.deactivated(start.indentation)
                        },
                        ..start.variants[j]
                    }),
                forall|j: int|
                    i <= j < self.variants@.len() ==> (#[trigger] self.variants@[j])@
                        == start.variants[j],
            decreases self.variants.len() - i,
        {
            let v = &mut self.variants[i];
            if i == target {
                v.activate();
            } else {
                v.deactivate(&indentation);
            }
            i = i + 1;
        }
        proof {
            assert(self@.variants =~= old(self)@.spec_activate(index as int).variants);
            assert(self@ =~= old(self)@.spec_activate(index as int));
        }
    }

    /// The model-level line accounting for the whole variation: header line,
    /// base code lines, a header line plus code lines per variant, and the
    /// end-marker line.
    pub fn count_lines(&self) -> (r: usize)
        requires
            self@.spec_count_lines() <= usize::MAX,
        ensures
            r == self@.spec_count_lines(),
    {
        proof {
            lemma_count_variant_lines_bounds(self@.variants, 0);
        }
        let mut total: usize = 1 + self.base.body.count_lines();
        let mut i: usize = 0;
        while i < self.variants.len()
            invariant
                i <= self.variants.len(),
                self@.spec_count_lines() <= usize::MAX,
                total == 1 + self@.base.body.spec_count_lines() + count_variant_lines(
                    self@.variants.take(i as int),
                ),
            decreases self.variants.len() - i,
        {
            proof {
                lemma_count_variant_lines_bounds(self@.variants, i as int + 1);
                assert(self@.variants.take(i as int + 1).drop_last() =~= self@.variants.take(
                    i as int,
                ));
                assert(self@.variants.take(i as int + 1).last() == self@.variants[i as int]);
            }
            total = total + 1 + self.variants[i].body.count_lines();
            i = i + 1;
        }
        proof {
            assert(self@.variants.take(self.variants.len() as int) =~= self@.variants);
        }
        total + 1
    }
}

/// Each variant contributes at least one line to the accounting, and any
/// prefix contributes no more than the whole.
proof fn lemma_count_variant_lines_bounds(vs: Seq<VariantView>, i: int)
    requires
        0 <= i <= vs.len(),
    ensures
        count_variant_lines(vs.take(i)) <= count_variant_lines(vs),
        count_variant_lines(vs) >= 0,
    decreases vs.len(),
{
    if vs.len() == 0 {
        assert(vs.take(i) =~= vs);
    } else {
        if i == vs.len() {
            assert(vs.take(i) =~= vs);
            lemma_count_variant_lines_bounds(vs.drop_last(), vs.len() - 1);
        } else {
            lemma_count_variant_lines_bounds(vs.drop_last(), i);
            assert(vs.take(i) =~= vs.drop_last().take(i));
        }
        assert(vs.last().body.spec_count_lines() >= 0);
    }
}

} // verus!
