//! Tags and the set algebra over their member sets.
//!
//! A tag collects binding identifiers.  A *primary* tag enforces that at most
//! one member carries any given binding name; a *secondary* tag has no such
//! restriction.  Member sets are kept sorted ascending by identifier, which
//! lets two tags be combined by ordered-set merges.

use vstd::prelude::*;
use sdset::SetOperation;

verus! {

/// Spec-level value of a [`TagName`]: the kind together with the name's
/// characters.
pub enum TagNameView {
    Primary(Seq<char>),
    Secondary(Seq<char>),
}

impl TagNameView {
    pub open spec fn is_primary(self) -> bool {
        self is Primary
    }
}

/// A tag's name, keyed by kind as well as by text: a primary tag named `x`
/// and a secondary tag named `x` are distinct tags.
#[derive(Debug, PartialEq, Eq, Hash)]
pub enum TagName {
    Primary(String),
    Secondary(String),
}

impl View for TagName {
    type V = TagNameView;

    open spec fn view(&self) -> TagNameView {
        match self {
            TagName::Primary(s) => TagNameView::Primary(s@),
            TagName::Secondary(s) => TagNameView::Secondary(s@),
        }
    }
}

impl Clone for TagName {
    fn clone(&self) -> (res: Self)
        ensures
            res == *self,
    {
        match self {
            TagName::Primary(s) => TagName::Primary(s.clone()),
            TagName::Secondary(s) => TagName::Secondary(s.clone()),
        }
    }
}

impl TagName {
    /// Whether two tag names pick out the same tag: same kind, same text.
    pub fn same_name(&self, other: &TagName) -> (r: bool)
        ensures
            r == (self@ == other@),
    {
        match (self, other) {
            (TagName::Primary(a), TagName::Primary(b)) => *a == *b,
            (TagName::Secondary(a), TagName::Secondary(b)) => *a == *b,
            _ => false,
        }
    }

    pub fn is_primary(&self) -> (r: bool)
        ensures
            r == self@.is_primary(),
    {
        match self {
            TagName::Primary(_) => true,
            TagName::Secondary(_) => false,
        }
    }
}

/// A tag's member set: binding identifiers, sorted ascending.  Primary tags
/// additionally keep member names unique; see the store's well-formedness.
#[derive(Debug, PartialEq, Eq)]
pub enum Tag {
    Primary(Vec<usize>),
    Secondary(Vec<usize>),
}

impl Tag {
    /// The member identifiers in storage order.
    pub open spec fn ids(self) -> Seq<usize> {
        match self {
            Tag::Primary(v) => v@,
            Tag::Secondary(v) => v@,
        }
    }

    pub open spec fn spec_is_primary(self) -> bool {
        self is Primary
    }

    pub fn is_primary(&self) -> (r: bool)
        ensures
            r == self.spec_is_primary(),
    {
        match self {
            Tag::Primary(_) => true,
            Tag::Secondary(_) => false,
        }
    }

    /// The member identifiers as stored, sorted ascending.
    pub fn as_slice(&self) -> (r: &Vec<usize>)
        ensures
            r@ == self.ids(),
    {
        match self {
            Tag::Primary(v) => v,
            Tag::Secondary(v) => v,
        }
    }
}

/// The kinds of the two operands of a set operation, in order.
#[derive(Debug, Clone, PartialEq, Eq, Structural)]
pub enum TagGroupComposition {
    Primary,
    PrimaryAndSecondary,
    Secondary,
    SecondaryAndPrimary,
}

/// The operations the store can run over two tags' member sets.
#[derive(Debug, Clone, Copy, PartialEq, Eq, Structural)]
pub enum UniverseOperationOp {
    Union,
    Intersection,
    Difference,
    SymmetricDifference,
}

/// The composition of a pair of operand kinds (`true` meaning primary).
pub open spec fn composition_of(a_primary: bool, b_primary: bool) -> TagGroupComposition {
    match (a_primary, b_primary) {
        (true, true) => TagGroupComposition::Primary,
        (true, false) => TagGroupComposition::PrimaryAndSecondary,
        (false, false) => TagGroupComposition::Secondary,
        (false, true) => TagGroupComposition::SecondaryAndPrimary,
    }
}

/// The fixed classification table: whether the result of `op` over operands
/// of composition `comp` is itself a primary tag.
///
/// Intersecting with, or subtracting from, a uniqueness-enforcing operand can
/// only shrink it, so uniqueness survives; a union can merge duplicate names
/// from both sides, so its result is never primary.
pub open spec fn result_is_primary(comp: TagGroupComposition, op: UniverseOperationOp) -> bool {
    match op {
        UniverseOperationOp::Union => false,
        UniverseOperationOp::Intersection => match comp {
            TagGroupComposition::Primary => true,
            TagGroupComposition::PrimaryAndSecondary => true,
            TagGroupComposition::SecondaryAndPrimary => true,
            TagGroupComposition::Secondary => false,
        },
        UniverseOperationOp::Difference => match comp {
            TagGroupComposition::Primary => true,
            TagGroupComposition::PrimaryAndSecondary => true,
            TagGroupComposition::Secondary => false,
            TagGroupComposition::SecondaryAndPrimary => false,
        },
        UniverseOperationOp::SymmetricDifference => match comp {
            TagGroupComposition::Primary => true,
            TagGroupComposition::PrimaryAndSecondary => false,
            TagGroupComposition::Secondary => false,
            TagGroupComposition::SecondaryAndPrimary => false,
        },
    }
}

/// What it means for a member `x` to belong to the result of `op` over
/// operands with member sets `a` and `b`.
pub open spec fn op_keeps(op: UniverseOperationOp, in_a: bool, in_b: bool) -> bool {
    match op {
        UniverseOperationOp::Union => in_a || in_b,
        UniverseOperationOp::Intersection => in_a && in_b,
        UniverseOperationOp::Difference => in_a && !in_b,
        UniverseOperationOp::SymmetricDifference => in_a != in_b,
    }
}

/// Sorted ascending with no duplicates.
pub open spec fn strictly_sorted(s: Seq<usize>) -> bool {
    forall|i: int, j: int| 0 <= i < j < s.len() ==> s[i] < s[j]
}

/// Relies on `sdset::Set::new`, which accepts exactly the sorted,
/// duplicate-free slices, and on `sdset::duo::OpBuilder`'s `union`, whose
/// result is the sorted, duplicate-free union of the two sets.
#[verifier::external_body]
pub(crate) fn merge_union(a: &Vec<usize>, b: &Vec<usize>) -> (r: Option<Vec<usize>>)
    ensures
        strictly_sorted(a@) && strictly_sorted(b@) ==> r is Some,
        r matches Some(v) ==> strictly_sorted(v@) && (forall|x: usize|
            v@.contains(x) <==> a@.contains(x) || b@.contains(x)),
{
    let sa = match sdset::Set::new(a.as_slice()) {
        Ok(s) => s,
        Err(_) => return None,
    };
    let sb = match sdset::Set::new(b.as_slice()) {
        Ok(s) => s,
        Err(_) => return None,
    };
    let mut out = Vec::new();
    sdset::duo::OpBuilder::new(sa, sb).union().extend_collection(&mut out);
    Some(out)
}

/// Relies on `sdset::Set::new`, which accepts exactly the sorted,
/// duplicate-free slices, and on `sdset::duo::OpBuilder`'s `intersection`,
/// whose result is the sorted, duplicate-free intersection of the two sets.
#[verifier::external_body]
pub(crate) fn merge_intersection(a: &Vec<usize>, b: &Vec<usize>) -> (r: Option<Vec<usize>>)
    ensures
        strictly_sorted(a@) && strictly_sorted(b@) ==> r is Some,
        r matches Some(v) ==> strictly_sorted(v@) && (forall|x: usize|
            v@.contains(x) <==> a@.contains(x) && b@.contains(x)),
{
    let sa = match sdset::Set::new(a.as_slice()) {
        Ok(s) => s,
        Err(_) => return None,
    };
    let sb = match sdset::Set::new(b.as_slice()) {
        Ok(s) => s,
        Err(_) => return None,
    };
    let mut out = Vec::new();
    sdset::duo::OpBuilder::new(sa, sb).intersection().extend_collection(&mut out);
    Some(out)
}

/// Relies on `sdset::Set::new`, which accepts exactly the sorted,
/// duplicate-free slices, and on `sdset::duo::OpBuilder`'s `difference`,
/// whose result is the sorted, duplicate-free set of members of the first
/// set that are not in the second.
#[verifier::external_body]
pub(crate) fn merge_difference(a: &Vec<usize>, b: &Vec<usize>) -> (r: Option<Vec<usize>>)
    ensures
        strictly_sorted(a@) && strictly_sorted(b@) ==> r is Some,
        r matches Some(v) ==> strictly_sorted(v@) && (forall|x: usize|
            v@.contains(x) <==> a@.contains(x) && !b@.contains(x)),
{
    let sa = match sdset::Set::new(a.as_slice()) {
        Ok(s) => s,
        Err(_) => return None,
    };
    let sb = match sdset::Set::new(b.as_slice()) {
        Ok(s) => s,
        Err(_) => return None,
    };
    let mut out = Vec::new();
    sdset::duo::OpBuilder::new(sa, sb).difference().extend_collection(&mut out);
    Some(out)
}

/// Relies on `sdset::Set::new`, which accepts exactly the sorted,
/// duplicate-free slices, and on `sdset::duo::OpBuilder`'s
/// `symmetric_difference`, whose result is the sorted, duplicate-free set of
/// members of exactly one of the two sets.
#[verifier::external_body]
pub(crate) fn merge_symmetric_difference(a: &Vec<usize>, b: &Vec<usize>) -> (r: Option<
    Vec<usize>,
>)
    ensures
        strictly_sorted(a@) && strictly_sorted(b@) ==> r is Some,
        r matches Some(v) ==> strictly_sorted(v@) && (forall|x: usize|
            v@.contains(x) <==> (a@.contains(x) != b@.contains(x))),
{
    let sa = match sdset::Set::new(a.as_slice()) {
        Ok(s) => s,
        Err(_) => return None,
    };
    let sb = match sdset::Set::new(b.as_slice()) {
        Ok(s) => s,
        Err(_) => return None,
    };
    let mut out = Vec::new();
    sdset::duo::OpBuilder::new(sa, sb).symmetric_difference().extend_collection(&mut out);
    Some(out)
}

/// The classification table, row by row: a union is never primary; an
/// intersection is primary unless both operands are secondary; a difference
/// keeps the first operand's kind; a symmetric difference is primary only
/// between two primary operands.
pub proof fn lemma_result_kind_table()
    ensures
        forall|a: bool, b: bool|
            !result_is_primary(#[trigger] composition_of(a, b), UniverseOperationOp::Union),
        forall|a: bool, b: bool|
            result_is_primary(#[trigger] composition_of(a, b), UniverseOperationOp::Intersection)
                == (a || b),
        forall|a: bool, b: bool|
            result_is_primary(#[trigger] composition_of(a, b), UniverseOperationOp::Difference)
                == a,
        forall|a: bool, b: bool|
            result_is_primary(
                #[trigger] composition_of(a, b),
                UniverseOperationOp::SymmetricDifference,
            ) == (a && b),
{
}

/// In a strictly sorted sequence, every member is at least the first entry,
/// and the tail holds exactly the members above the first entry.
proof fn lemma_sorted_first(s: Seq<usize>)
    requires
        strictly_sorted(s),
        s.len() > 0,
    ensures
        s.contains(s[0]),
        forall|x: usize| s.contains(x) ==> s[0] <= x,
        strictly_sorted(s.drop_first()),
        forall|x: usize| #[trigger] s.drop_first().contains(x) <==> s.contains(x) && s[0] < x,
{
    assert(s.contains(s[0]));
    assert forall|x: usize| s.contains(x) implies s[0] <= x by {
        let i = choose|i: int| 0 <= i < s.len() && s[i] == x;
        if i > 0 {
            assert(s[0] < s[i]);
        }
    }
    assert forall|x: usize| #[trigger] s.drop_first().contains(x) implies s.contains(x) && s[0]
        < x by {
        let i = choose|i: int| 0 <= i < s.drop_first().len() && s.drop_first()[i] == x;
        assert(s[i + 1] == x);
        assert(s.contains(x));
    }
    assert forall|x: usize| s.contains(x) && s[0] < x implies s.drop_first().contains(x) by {
        let i = choose|i: int| 0 <= i < s.len() && s[i] == x;
        assert(i != 0);
        assert(s.drop_first()[i - 1] == x);
    }
}

/// Two strictly sorted sequences with the same members are the same
/// sequence: sorted, duplicate-free storage is canonical.
pub proof fn lemma_sorted_same_members(a: Seq<usize>, b: Seq<usize>)
    requires
        strictly_sorted(a),
        strictly_sorted(b),
        forall|x: usize| a.contains(x) <==> b.contains(x),
    ensures
        a == b,
    decreases a.len(),
{
    if a.len() == 0 {
        if b.len() > 0 {
            lemma_sorted_first(b);
            assert(a.contains(b[0]));
        }
        assert(a =~= b);
    } else if b.len() == 0 {
        lemma_sorted_first(a);
        assert(b.contains(a[0]));
    } else {
        lemma_sorted_first(a);
        lemma_sorted_first(b);
        assert(a[0] == b[0]) by {
            assert(b.contains(a[0]));
            assert(a.contains(b[0]));
        }
        lemma_sorted_same_members(a.drop_first(), b.drop_first());
        assert(a =~= b) by {
            assert(forall|i: int|
                1 <= i < a.len() ==> a[i] == a.drop_first()[i - 1] && b[i] == b.drop_first()[i
                    - 1]);
        }
    }
}

/// The intersection of a tag's member set with itself is that member set:
/// a sorted merge whose members are exactly those of `ids` is `ids` itself,
/// and intersecting a kind with itself keeps the kind.
pub proof fn lemma_intersection_with_self(ids: Seq<usize>, merged: Seq<usize>, primary: bool)
    requires
        strictly_sorted(ids),
        strictly_sorted(merged),
        forall|x: usize| merged.contains(x) <==> ids.contains(x) && ids.contains(x),
    ensures
        merged == ids,
        result_is_primary(composition_of(primary, primary), UniverseOperationOp::Intersection)
            == primary,
{
    lemma_sorted_same_members(merged, ids);
}

/// The difference of a tag's member set with itself is empty.
pub proof fn lemma_difference_with_self(ids: Seq<usize>, merged: Seq<usize>)
    requires
        forall|x: usize| merged.contains(x) <==> ids.contains(x) && !ids.contains(x),
    ensures
        merged == Seq::<usize>::empty(),
{
    if merged.len() > 0 {
        assert(merged.contains(merged[0]));
    }
    assert(merged =~= Seq::<usize>::empty());
}

/// The union of a tag's member set with itself is that member set again,
/// while the union's kind is always secondary.
pub proof fn lemma_union_with_self(ids: Seq<usize>, merged: Seq<usize>, primary: bool)
    requires
        strictly_sorted(ids),
        strictly_sorted(merged),
        forall|x: usize| merged.contains(x) <==> ids.contains(x) || ids.contains(x),
    ensures
        merged == ids,
        !result_is_primary(composition_of(primary, primary), UniverseOperationOp::Union),
{
    lemma_sorted_same_members(merged, ids);
}

} // verus!
