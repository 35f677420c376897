//! Filters over JSON paths.
//!
//! A filter decides, for the path of the current position, whether the value
//! there is kept (`is_match`) and whether some deeper value could still be
//! kept (`is_subpath`). Field names are matched literally or by a regular
//! expression; array slots by an exact index, a set of indices, or a
//! half-open range.

use vstd::prelude::*;

use crate::json_path::{JsonPath, JsonPathStep, PathStepView};

verus! {

broadcast use vstd::seq::group_seq_axioms, vstd::std_specs::vec::group_vec_axioms;

/// Whether a regular-expression pattern compiles.
pub uninterp spec fn regex_ok(pattern: Seq<char>) -> bool;

/// Whether a compiled pattern matches somewhere inside a text; false for a
/// pattern that does not compile.
pub uninterp spec fn regex_search(pattern: Seq<char>, text: Seq<char>) -> bool;

/// Relies on regex::Regex::new: whether a pattern compiles is a pure
/// function of the pattern text.
#[verifier::external_body]
pub(crate) fn regex_valid(pattern: &str) -> (r: bool)
    ensures
        r == regex_ok(pattern@),
{
    regex::Regex::new(pattern).is_ok()
}

/// Relies on regex::Regex::new and regex::Regex::is_match: whether a pattern
/// matches somewhere inside a text is a pure function of the pattern and the
/// text. A pattern that does not compile matches nothing.
#[verifier::external_body]
pub(crate) fn regex_is_match(pattern: &str, text: &str) -> (r: bool)
    ensures
        r == regex_search(pattern@, text@),
{
    match regex::Regex::new(pattern) {
        Ok(re) => re.is_match(text),
        Err(_) => false,
    }
}

/// How one object-field step is matched: by literal text, or by a regular
/// expression (held as its pattern source, compiled on use).
#[derive(Debug)]
pub enum BranchFilter {
    TextMatch(String),
    RegexMatch(String),
}

/// The model of a branch filter.
pub enum BranchFilterView {
    TextMatch(Seq<char>),
    RegexMatch(Seq<char>),
}

impl View for BranchFilter {
    type V = BranchFilterView;

    open spec fn view(&self) -> BranchFilterView {
        match self {
            BranchFilter::TextMatch(t) => BranchFilterView::TextMatch(t@),
            BranchFilter::RegexMatch(p) => BranchFilterView::RegexMatch(p@),
        }
    }
}

/// Whether a branch filter accepts a field name.
pub open spec fn branch_matches(b: BranchFilterView, name: Seq<char>) -> bool {
    match b {
        BranchFilterView::TextMatch(t) => name == t,
        BranchFilterView::RegexMatch(p) => regex_search(p, name),
    }
}

impl BranchFilter {
    fn is_match(&self, branch_name: &String) -> (r: bool)
        ensures
            r == branch_matches(self@, branch_name@),
    {
        match self {
            BranchFilter::TextMatch(text) => branch_name.eq(text),
            BranchFilter::RegexMatch(pattern) => regex_is_match(
                pattern.as_str(),
                branch_name.as_str(),
            ),
        }
    }
}

/// How one array step is matched: an exact index, one of a set of indices,
/// or a half-open range `[lo, hi)`.
#[derive(Debug)]
pub enum ArrayFilter {
    ExactValue(u64),
    OneOf(Vec<u64>),
    Range(u64, u64),
}

/// The model of an array filter.
pub enum ArrayFilterView {
    ExactValue(u64),
    OneOf(Seq<u64>),
    Range(u64, u64),
}

impl View for ArrayFilter {
    type V = ArrayFilterView;

    open spec fn view(&self) -> ArrayFilterView {
        match self {
            ArrayFilter::ExactValue(v) => ArrayFilterView::ExactValue(*v),
            ArrayFilter::OneOf(vs) => ArrayFilterView::OneOf(vs@),
            ArrayFilter::Range(lo, hi) => ArrayFilterView::Range(*lo, *hi),
        }
    }
}

/// Whether an array filter accepts an index.
pub open spec fn array_matches(a: ArrayFilterView, array_index: u64) -> bool {
    match a {
        ArrayFilterView::ExactValue(v) => array_index == v,
        ArrayFilterView::OneOf(vs) => vs.contains(array_index),
        ArrayFilterView::Range(lo, hi) => lo <= array_index < hi,
    }
}

impl ArrayFilter {
    pub fn is_match(&self, array_index: u64) -> (r: bool)
        ensures
            r == array_matches(self@, array_index),
    {
        match self {
            ArrayFilter::ExactValue(v) => array_index == *v,
            ArrayFilter::OneOf(vs) => {
                let mut k: usize = 0;
                while k < vs.len()
                    invariant
                        k <= vs.len(),
                        self@ == ArrayFilterView::OneOf(vs@),
                        !vs@.take(k as int).contains(array_index),
                    decreases vs.len() - k,
                {
                    if vs[k] == array_index {
                        proof {
                            assert(vs@.contains(array_index));
                        }
                        return true;
                    }
                    k = k + 1;
                    proof {
                        assert forall|i: int| 0 <= i < k implies vs@.take(k as int)[i]
                            != array_index by {
                            if i < k - 1 {
                                assert(vs@.take(k - 1)[i] == vs@.take(k as int)[i]);
                            }
                        }
                    }
                }
                proof {
                    assert(vs@.take(vs@.len() as int) =~= vs@);
                }
                false
            },
            ArrayFilter::Range(lo, hi) => *lo <= array_index && array_index < *hi,
        }
    }
}

/// One positional part of a pattern: it matches either an object field or an
/// array slot; a kind mismatch never matches.
#[derive(Debug)]
pub enum FilterPart {
    Branch(BranchFilter),
    Array(ArrayFilter),
}

/// The model of a filter part.
pub enum FilterPartView {
    Branch(BranchFilterView),
    Array(ArrayFilterView),
}

impl View for FilterPart {
    type V = FilterPartView;

    open spec fn view(&self) -> FilterPartView {
        match self {
            FilterPart::Branch(b) => FilterPartView::Branch(b@),
            FilterPart::Array(a) => FilterPartView::Array(a@),
        }
    }
}

/// Whether one part accepts one path step: a branch part accepts only field
/// steps, an array part only index steps.
pub open spec fn part_matches(p: FilterPartView, step: PathStepView) -> bool {
    match (p, step) {
        (FilterPartView::Branch(b), PathStepView::Field(name)) => branch_matches(b, name),
        (FilterPartView::Array(a), PathStepView::Index(i)) => array_matches(a, i),
        _ => false,
    }
}

impl FilterPart {
    fn is_match(&self, pos_part: &JsonPathStep) -> (r: bool)
        ensures
            r == part_matches(self@, pos_part@),
    {
        match self {
            FilterPart::Branch(branch_filter) => {
                if let JsonPathStep::Field(branch_name) = pos_part {
                    branch_filter.is_match(branch_name)
                } else {
                    false
                }
            },
            FilterPart::Array(array_filter) => {
                if let JsonPathStep::Index(array_index) = pos_part {
                    array_filter.is_match(*array_index)
                } else {
                    false
                }
            },
        }
    }
}

/// A compiled filter: it accepts every path, a positional pattern, or the
/// union of several filters.
#[derive(Debug)]
pub enum Filter {
    All,
    Parts(Vec<FilterPart>),
    Union(Vec<Filter>),
}

/// The model of a filter.
pub enum FilterView {
    All,
    Parts(Seq<FilterPartView>),
    Union(Seq<FilterView>),
}

/// The model of a filter.
pub open spec fn fv(f: Filter) -> FilterView
    decreases f,
{
    match f {
        Filter::All => FilterView::All,
        Filter::Parts(parts) => FilterView::Parts(parts_view(parts@)),
        Filter::Union(filters) => FilterView::Union(filters_view(filters@)),
    }
}

/// The model of a part list.
pub open spec fn parts_view(parts: Seq<FilterPart>) -> Seq<FilterPartView> {
    Seq::new(
        parts.len(),
        |i: int|
            if 0 <= i < parts.len() {
                parts[i]@
            } else {
                vstd::pervasive::arbitrary()
            },
    )
}

/// The model of a sequence of filters.
pub open spec fn filters_view(filters: Seq<Filter>) -> Seq<FilterView>
    decreases filters,
{
    Seq::new(
        filters.len(),
        |i: int|
            if 0 <= i < filters.len() {
                fv(filters[i])
            } else {
                vstd::pervasive::arbitrary()
            },
    )
}

impl View for Filter {
    type V = FilterView;

    open spec fn view(&self) -> FilterView {
        fv(*self)
    }
}

/// Whether every step of the path is accepted by the part at its position.
/// (Meaningful when the path is no longer than the part list.)
pub open spec fn parts_match_prefix(parts: Seq<FilterPartView>, path: Seq<PathStepView>) -> bool {
    forall|i: int| 0 <= i < path.len() ==> part_matches(parts[i], path[i])
}

/// Whether a filter accepts this exact path (`subpath` false) or could
/// accept some extension of it (`subpath` true). `All` accepts everything; a
/// pattern accepts a path exactly as long as it (or, for a subpath, no
/// longer than it) whose every step matches; a union accepts what any of its
/// members accepts.
pub open spec fn spec_verdict(f: FilterView, path: Seq<PathStepView>, subpath: bool) -> bool
    decreases f, 1int,
{
    match f {
        FilterView::All => true,
        FilterView::Parts(parts) => if subpath {
            path.len() <= parts.len() && parts_match_prefix(parts, path)
        } else {
            path.len() == parts.len() && parts_match_prefix(parts, path)
        },
        FilterView::Union(filters) => union_verdict(filters, path, subpath),
    }
}

/// Whether any filter of a union accepts the path.
pub open spec fn union_verdict(
    filters: Seq<FilterView>,
    path: Seq<PathStepView>,
    subpath: bool,
) -> bool
    decreases filters, 0int,
{
    filters.len() > 0 && (spec_verdict(filters.first(), path, subpath) || union_verdict(
        filters.drop_first(),
        path,
        subpath,
    ))
}

/// Whether a filter accepts this exact path.
pub open spec fn spec_is_match(f: FilterView, path: Seq<PathStepView>) -> bool {
    spec_verdict(f, path, false)
}

/// Whether some extension of this path could still be accepted.
pub open spec fn spec_is_subpath(f: FilterView, path: Seq<PathStepView>) -> bool {
    spec_verdict(f, path, true)
}

/// A union accepts a path exactly when one of its members does.
pub proof fn lemma_union_verdict_exists(
    filters: Seq<FilterView>,
    path: Seq<PathStepView>,
    subpath: bool,
)
    ensures
        union_verdict(filters, path, subpath) <==> exists|i: int|
            0 <= i < filters.len() && spec_verdict(#[trigger] filters[i], path, subpath),
    decreases filters.len(),
{
    if filters.len() == 0 {
    } else {
        lemma_union_verdict_exists(filters.drop_first(), path, subpath);
        if spec_verdict(filters.first(), path, subpath) {
            assert(0 <= 0 < filters.len() && spec_verdict(filters[0], path, subpath));
        } else if union_verdict(filters.drop_first(), path, subpath) {
            let i = choose|i: int|
                0 <= i < filters.drop_first().len() && spec_verdict(
                    #[trigger] filters.drop_first()[i],
                    path,
                    subpath,
                );
            assert(filters.drop_first()[i] == filters[i + 1]);
            assert(0 <= i + 1 < filters.len() && spec_verdict(filters[i + 1], path, subpath));
        } else {
            assert forall|i: int|
                0 <= i < filters.len() implies !spec_verdict(
                #[trigger] filters[i],
                path,
                subpath,
            ) by {
                if i > 0 {
                    assert(filters[i] == filters.drop_first()[i - 1]);
                }
            }
        }
    }
}

impl Filter {
    fn compare(&self, pos: &JsonPath, subpath: bool) -> (r: bool)
        ensures
            r == spec_verdict(self@, pos@, subpath),
        decreases *self,
    {
        match self {
            Filter::All => true,
            Filter::Parts(parts) => {
                let steps = pos.iter();
                proof {
                    assert(self@ == FilterView::Parts(parts_view(parts@)));
                    assert(pos@.len() == steps@.len());
                    assert(parts_view(parts@).len() == parts@.len());
                }
                if !subpath && steps.len() != parts.len() {
                    return false;
                }
                if subpath && steps.len() > parts.len() {
                    return false;
                }
                let mut k: usize = 0;
                while k < steps.len()
                    invariant
                        k <= steps.len(),
                        steps@.len() <= parts@.len(),
                        self@ == FilterView::Parts(parts_view(parts@)),
                        !subpath ==> steps@.len() == parts@.len(),
                        crate::json_path::steps_view(steps@) == pos@,
                        forall|i: int| 0 <= i < k ==> part_matches(parts_view(parts@)[i], pos@[i]),
                    decreases steps.len() - k,
                {
                    proof {
                        assert(parts_view(parts@)[k as int] == parts@[k as int]@);
                        assert(pos@[k as int] == steps@[k as int]@);
                    }
                    if !parts[k].is_match(&steps[k]) {
                        return false;
                    }
                    k = k + 1;
                }
                true
            },
            Filter::Union(filters) => {
                let mut k: usize = 0;
                proof {
                    assert(filters_view(filters@).skip(0) =~= filters_view(filters@));
                }
                while k < filters.len()
                    invariant
                        k <= filters.len(),
                        *self == Filter::Union(*filters),
                        self@ == FilterView::Union(filters_view(filters@)),
                        union_verdict(filters_view(filters@), pos@, subpath) == union_verdict(
                            filters_view(filters@).skip(k as int),
                            pos@,
                            subpath,
                        ),
                    decreases filters.len() - k,
                {
                    proof {
                        assert(decreases_to!(*self => self->Union_0));
                        assert(decreases_to!(self->Union_0 => self->Union_0@));
                        assert(decreases_to!(self->Union_0@ => self->Union_0@[k as int]));
                        assert(decreases_to!(*self => filters@[k as int]));
                    }
                    let hit = filters[k].compare(pos, subpath);
                    proof {
                        assert(filters_view(filters@).skip(k as int).first() == filters_view(
                            filters@,
                        )[k as int]);
                        assert(filters_view(filters@).skip(k as int).drop_first() =~= filters_view(
                            filters@,
                        ).skip(k + 1));
                        assert(filters_view(filters@)[k as int] == fv(filters@[k as int]));
                    }
                    if hit {
                        return true;
                    }
                    k = k + 1;
                }
                proof {
                    assert(filters_view(filters@).skip(filters@.len() as int) =~= Seq::<
                        FilterView,
                    >::empty());
                }
                false
            },
        }
    }

    /// True iff the filter accepts this exact path.
    pub fn is_match(&self, pos: &JsonPath) -> (r: bool)
        ensures
            r == spec_is_match(self@, pos@),
    {
        self.compare(pos, false)
    }

    /// True iff some extension of this path could still be accepted.
    pub fn is_subpath(&self, pos: &JsonPath) -> (r: bool)
        ensures
            r == spec_is_subpath(self@, pos@),
    {
        self.compare(pos, true)
    }
}

/// One direction of the union-order law: whatever one union accepts, a union
/// over the same collection of branches accepts too.
proof fn lemma_union_verdict_transfer(
    a: Seq<FilterView>,
    b: Seq<FilterView>,
    path: Seq<PathStepView>,
    subpath: bool,
)
    requires
        forall|f: FilterView| a.contains(f) ==> b.contains(f),
        union_verdict(a, path, subpath),
    ensures
        union_verdict(b, path, subpath),
{
    lemma_union_verdict_exists(a, path, subpath);
    lemma_union_verdict_exists(b, path, subpath);
    let i = choose|i: int| 0 <= i < a.len() && spec_verdict(#[trigger] a[i], path, subpath);
    assert(a.contains(a[i]));
    assert(b.contains(a[i]));
    let j = choose|j: int| 0 <= j < b.len() && b[j] == a[i];
    assert(0 <= j < b.len() && spec_verdict(b[j], path, subpath));
}

/// Two unions over the same collection of branches accept the same paths,
/// whatever the order of the branches: the union of filters is a
/// disjunction, so only the collection of its members matters, for matches
/// and for subpaths alike.
pub proof fn lemma_union_branch_order_irrelevant(
    a: Seq<FilterView>,
    b: Seq<FilterView>,
    path: Seq<PathStepView>,
)
    requires
        forall|f: FilterView| a.contains(f) <==> b.contains(f),
    ensures
        spec_is_match(FilterView::Union(a), path) == spec_is_match(FilterView::Union(b), path),
        spec_is_subpath(FilterView::Union(a), path) == spec_is_subpath(
            FilterView::Union(b),
            path,
        ),
{
    if union_verdict(a, path, false) {
        lemma_union_verdict_transfer(a, b, path, false);
    }
    if union_verdict(b, path, false) {
        lemma_union_verdict_transfer(b, a, path, false);
    }
    if union_verdict(a, path, true) {
        lemma_union_verdict_transfer(a, b, path, true);
    }
    if union_verdict(b, path, true) {
        lemma_union_verdict_transfer(b, a, path, true);
    }
}

} // verus!
