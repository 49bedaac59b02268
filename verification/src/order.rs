//! The ordering rule on a list of names: each name sorts no earlier than the
//! names written before it.

use vstd::prelude::*;
use crate::ordinal::{lemma_le_transitive, lemma_lt_irreflexive, ordinal_le, ordinal_lt, str_lt};

verus! {

/// The name at `i` was written after the name at `j` but sorts before it.
pub open spec fn offends(names: Seq<Seq<char>>, i: int, j: int) -> bool {
    0 <= j < i < names.len() && ordinal_lt(names[i], names[j])
}

/// No name sorts before a name written earlier.
pub open spec fn weakly_increasing(names: Seq<Seq<char>>) -> bool {
    forall|i: int, j: int| !offends(names, i, j)
}

/// Each name sorts no earlier than the one written just before it.
pub open spec fn stepwise_increasing(names: Seq<Seq<char>>) -> bool {
    forall|i: int| 0 < i < names.len() ==> ordinal_le(#[trigger] names[i - 1], names[i])
}

/// `(i, j)` is the first violation: `i` is the earliest name that sorts before
/// an earlier one, and `j` is the earliest name that `i` sorts before.
pub open spec fn first_offence(names: Seq<Seq<char>>, i: int, j: int) -> bool {
    &&& offends(names, i, j)
    &&& forall|p: int, q: int| offends(names, p, q) ==> i < p || (i == p && j <= q)
}

/// The views of a list of borrowed names, one by one.
pub open spec fn name_views(names: Seq<&str>) -> Seq<Seq<char>> {
    names.map_values(|s: &str| s@)
}

/// Finds the first violation of the ordering rule: `None` when the names are
/// weakly increasing, otherwise the positions of the first name that sorts
/// before an earlier one and of the earliest name it sorts before.
pub fn first_out_of_order(names: &Vec<&str>) -> (r: Option<(usize, usize)>)
    ensures
        match r {
            None => weakly_increasing(name_views(names@)),
            Some((i, j)) => first_offence(name_views(names@), i as int, j as int),
        },
{
    let ghost views = name_views(names@);
    let count: usize = names.len();
    let mut i: usize = 0;
    while i < count
        invariant
            i <= count,
            count == names.len(),
            views == name_views(names@),
            forall|p: int, q: int| offends(views, p, q) ==> i <= p,
        decreases count - i,
    {
        let mut j: usize = 0;
        while j < i
            invariant
                j <= i < count,
                count == names.len(),
                views == name_views(names@),
                forall|p: int, q: int| offends(views, p, q) ==> i < p || (i == p && j <= q),
            decreases i - j,
        {
            if str_lt(names[i], names[j]) {
                return Some((i, j));
            }
            j = j + 1;
        }
        i = i + 1;
    }
    None
}

/// A list has at most one first violation.
pub proof fn lemma_first_offence_unique(names: Seq<Seq<char>>, i: int, j: int, p: int, q: int)
    requires
        first_offence(names, i, j),
        first_offence(names, p, q),
    ensures
        i == p,
        j == q,
{
}

/// A list that is not weakly increasing has a first violation.
pub proof fn lemma_first_offence_exists(names: Seq<Seq<char>>) -> (r: (int, int))
    requires
        !weakly_increasing(names),
    ensures
        first_offence(names, r.0, r.1),
{
    let (i, j) = choose|i: int, j: int| offends(names, i, j);
    lemma_first_offence_upto(names, i, j, 0, 0)
}

/// Scans the pairs in reporting order, from `(p, q)` on, up to a known
/// violation `(i, j)`.
proof fn lemma_first_offence_upto(names: Seq<Seq<char>>, i: int, j: int, p: int, q: int) -> (r: (
    int,
    int,
))
    requires
        offends(names, i, j),
        0 <= q <= p <= i,
        p == i ==> q <= j,
        forall|a: int, b: int| offends(names, a, b) ==> p < a || (p == a && q <= b),
    ensures
        first_offence(names, r.0, r.1),
    decreases i - p, p - q,
{
    if q == p {
        lemma_first_offence_upto(names, i, j, p + 1, 0)
    } else if offends(names, p, q) {
        (p, q)
    } else {
        lemma_first_offence_upto(names, i, j, p, q + 1)
    }
}

/// Comparing every name with all earlier ones finds a violation exactly when
/// comparing each name with its predecessor does.
pub proof fn lemma_weakly_iff_stepwise(names: Seq<Seq<char>>)
    ensures
        weakly_increasing(names) <==> stepwise_increasing(names),
{
    if weakly_increasing(names) {
        assert forall|i: int| 0 < i < names.len() implies ordinal_le(
            #[trigger] names[i - 1],
            names[i],
        ) by {
            assert(!offends(names, i, i - 1));
        }
    }
    if stepwise_increasing(names) {
        assert forall|i: int, j: int| !offends(names, i, j) by {
            if 0 <= j < i < names.len() {
                lemma_stepwise_reaches(names, j, i);
            }
        }
    }
}

/// In a stepwise increasing list, a name sorts no earlier than any name
/// before it.
proof fn lemma_stepwise_reaches(names: Seq<Seq<char>>, j: int, i: int)
    requires
        stepwise_increasing(names),
        0 <= j < i < names.len(),
    ensures
        ordinal_le(names[j], names[i]),
    decreases i - j,
{
    assert(ordinal_le(names[i - 1], names[i]));
    if j < i - 1 {
        lemma_stepwise_reaches(names, j, i - 1);
        lemma_le_transitive(names[j], names[i - 1], names[i]);
    }
}

/// Equal names never violate the order: it is not strict.
pub proof fn law_equal_names_allowed(names: Seq<Seq<char>>, i: int, j: int)
    requires
        0 <= j < i < names.len(),
        names[i] == names[j],
    ensures
        !offends(names, i, j),
{
    lemma_lt_irreflexive(names[i]);
}

} // verus!
