//! The rule on the arms of one `match`: every arm has a key or is the one
//! wildcard, the wildcard comes last, and the keys are in ascending order.

use vstd::prelude::*;
use crate::diagnostic::{Diagnostic, DiagnosticView};
use crate::key::extract_variant_from_pat;
use crate::order::{first_offence, first_out_of_order, name_views, offends, weakly_increasing};
use crate::ordinal::ordinal_lt;
use proc_macro2::Span;
use crate::tree::{Arm, ArmView, MatchExpr, Pattern};

verus! {

/// The arm at `i` is a wildcard.
pub open spec fn wildcard_at(arms: Seq<ArmView>, i: int) -> bool {
    0 <= i < arms.len() && arms[i].pat is Wildcard
}

/// The arm at `i` cannot be ordered: it is a wildcard that follows another
/// wildcard, or it is no wildcard and has no key.
pub open spec fn faulty(arms: Seq<ArmView>, i: int) -> bool {
    &&& 0 <= i < arms.len()
    &&& if arms[i].pat is Wildcard {
        exists|w: int| 0 <= w < i && wildcard_at(arms, w)
    } else {
        arms[i].pat.key() is None
    }
}

/// The arm at `i` is the first one that cannot be ordered.
pub open spec fn first_faulty(arms: Seq<ArmView>, i: int) -> bool {
    faulty(arms, i) && forall|j: int| 0 <= j < i ==> !faulty(arms, j)
}

/// What is reported of an arm that cannot be ordered.
pub open spec fn fault(arm: ArmView) -> DiagnosticView {
    if arm.pat is Wildcard {
        DiagnosticView::multiple_wildcards(arm.span)
    } else {
        DiagnosticView::unsupported(arm.span)
    }
}

/// The arm at `w` is a wildcard and another arm follows it.
pub open spec fn misplaced_wildcard(arms: Seq<ArmView>, w: int) -> bool {
    wildcard_at(arms, w) && w + 1 < arms.len()
}

/// The arm at `i` was written after the arm at `j`, both have keys, and the
/// key of `i` sorts before the key of `j`.
pub open spec fn arm_offends(arms: Seq<ArmView>, i: int, j: int) -> bool {
    &&& 0 <= j < i < arms.len()
    &&& arms[i].pat.key() is Some
    &&& arms[j].pat.key() is Some
    &&& ordinal_lt(arms[i].pat.key().unwrap(), arms[j].pat.key().unwrap())
}

/// `(i, j)` is the first ordering violation among the arms: `i` is the
/// earliest arm that sorts before an earlier one, `j` the earliest arm that
/// `i` sorts before.
pub open spec fn first_arm_offence(arms: Seq<ArmView>, i: int, j: int) -> bool {
    &&& arm_offends(arms, i, j)
    &&& forall|p: int, q: int| arm_offends(arms, p, q) ==> i < p || (i == p && j <= q)
}

/// What is reported of the arm at `i` sorting before the arm at `j`.
pub open spec fn offence(arms: Seq<ArmView>, i: int, j: int) -> DiagnosticView {
    DiagnosticView::out_of_order(
        arms[i].pat.key().unwrap(),
        arms[j].pat.key().unwrap(),
        arms[i].pat.name_span().unwrap(),
    )
}

/// The one diagnostic that the arms of a `match` give rise to, if any. An arm
/// that cannot be ordered is reported first; then a wildcard that is not last;
/// then the first ordering violation.
pub open spec fn arm_verdict(arms: Seq<ArmView>) -> Option<DiagnosticView> {
    if exists|i: int| faulty(arms, i) {
        let i = choose|i: int| first_faulty(arms, i);
        Some(fault(arms[i]))
    } else if exists|w: int| misplaced_wildcard(arms, w) {
        let w = choose|w: int| misplaced_wildcard(arms, w);
        Some(DiagnosticView::wildcard_not_last(arms[w].span))
    } else if exists|i: int, j: int| arm_offends(arms, i, j) {
        let (i, j) = choose|i: int, j: int| first_arm_offence(arms, i, j);
        Some(offence(arms, i, j))
    } else {
        None
    }
}

/// The entry that was extracted from an arm holds the arm's key and the place
/// of its name.
spec fn entry_of(entry: (String, Span), arm: ArmView) -> bool {
    arm.pat.key() == Some(entry.0@) && arm.pat.name_span() == Some(entry.1)
}

/// Borrows the keys of the extracted entries.
fn keys_of<'a>(entries: &'a Vec<(String, Span)>) -> (keys: Vec<&'a str>)
    ensures
        keys.len() == entries.len(),
        forall|k: int| 0 <= k < keys.len() ==> (#[trigger] keys[k])@ == entries[k].0@,
{
    let mut keys: Vec<&'a str> = Vec::new();
    let mut k: usize = 0;
    while k < entries.len()
        invariant
            k <= entries.len(),
            keys.len() == k,
            forall|p: int| 0 <= p < k ==> (#[trigger] keys[p])@ == entries[p].0@,
        decreases entries.len() - k,
    {
        keys.push(entries[k].0.as_str());
        k = k + 1;
    }
    keys
}

/// Checks the arms of one `match`. `Ok` when every arm has a key or is the
/// single, last wildcard and the keys are weakly increasing; otherwise the
/// diagnostic of the first rule that is broken.
pub fn is_sorted_match_arms(expr_match: &MatchExpr) -> (r: Result<(), Diagnostic>)
    ensures
        match r {
            Ok(()) => arm_verdict(expr_match@.arms) is None,
            Err(d) => arm_verdict(expr_match@.arms) == Some(d@),
        },
{
    let ghost arms = expr_match@.arms;
    let count: usize = expr_match.arms.len();
    let mut arm_names: Vec<(String, Span)> = Vec::new();
    let mut underscore_index: Option<usize> = None;

    let mut index: usize = 0;
    while index < count
        invariant
            index <= count,
            count == expr_match.arms.len(),
            arms == expr_match@.arms,
            arms.len() == count,
            forall|j: int| 0 <= j < index ==> !faulty(arms, j),
            match underscore_index {
                Some(u) => {
                    &&& u < index
                    &&& wildcard_at(arms, u as int)
                    &&& forall|j: int| 0 <= j < index && j != u ==> !wildcard_at(arms, j)
                    &&& arm_names.len() == index - 1
                    &&& forall|k: int|
                        0 <= k < arm_names.len() ==> entry_of(
                            #[trigger] arm_names[k],
                            arms[if k < u { k } else { k + 1 }],
                        )
                },
                None => {
                    &&& forall|j: int| 0 <= j < index ==> !wildcard_at(arms, j)
                    &&& arm_names.len() == index
                    &&& forall|k: int|
                        0 <= k < arm_names.len() ==> entry_of(#[trigger] arm_names[k], arms[k])
                },
            },
        decreases count - index,
    {
        let arm: &Arm = &expr_match.arms[index];
        assert(arms[index as int] == arm@);
        match &arm.pat {
            Pattern::Wildcard => {
                if underscore_index.is_some() {
                    assert(first_faulty(arms, index as int));
                    return Err(Diagnostic::multiple_wildcards(arm.span));
                }
                underscore_index = Some(index);
            },
            _ => match extract_variant_from_pat(&arm.pat) {
                Some(entry) => {
                    arm_names.push(entry);
                },
                None => {
                    assert(first_faulty(arms, index as int));
                    return Err(Diagnostic::unsupported(arm.span));
                },
            },
        }
        index = index + 1;
    }
    assert(forall|i: int| !faulty(arms, i));

    if let Some(u_index) = underscore_index {
        if u_index != count - 1 {
            assert(misplaced_wildcard(arms, u_index as int));
            assert(forall|w: int| misplaced_wildcard(arms, w) ==> w == u_index);
            return Err(Diagnostic::wildcard_not_last(expr_match.arms[u_index].span));
        }
    }
    assert(forall|w: int| !misplaced_wildcard(arms, w));
    assert(forall|k: int|
        0 <= k < arm_names.len() ==> entry_of(#[trigger] arm_names[k], arms[k]));

    let keys: Vec<&str> = keys_of(&arm_names);
    let ghost views = name_views(keys@);
    assert forall|i: int, j: int| arm_offends(arms, i, j) == offends(views, i, j) by {
        if 0 <= j < i < arms.len() {
            if i < arm_names.len() {
                assert(entry_of(arm_names[i], arms[i]));
                assert(entry_of(arm_names[j], arms[j]));
                assert(views[i] == keys[i]@);
                assert(views[j] == keys[j]@);
            } else {
                assert(wildcard_at(arms, i));
            }
        }
    }
    match first_out_of_order(&keys) {
        Some((i, j)) => {
            assert(first_arm_offence(arms, i as int, j as int));
            assert(entry_of(arm_names[i as int], arms[i as int]));
            assert(entry_of(arm_names[j as int], arms[j as int]));
            Err(Diagnostic::out_of_order(keys[i], keys[j], arm_names[i].1))
        },
        None => {
            assert(forall|i: int, j: int| !arm_offends(arms, i, j));
            Ok(())
        },
    }
}

/// Every arm has a key: all shapes are supported and none is a wildcard.
pub open spec fn all_keyed(arms: Seq<ArmView>) -> bool {
    forall|i: int| 0 <= i < arms.len() ==> (#[trigger] arms[i]).pat.key() is Some
}

/// The keys of the arms, in arm order, where every arm has one.
pub open spec fn keys(arms: Seq<ArmView>) -> Seq<Seq<char>> {
    Seq::new(arms.len(), |i: int| arms[i].pat.key().unwrap())
}

/// Arms without fault, misplaced wildcard and ordering violation give no
/// diagnostic, and only they.
pub proof fn law_no_verdict(arms: Seq<ArmView>)
    ensures
        arm_verdict(arms) is None <==> {
            &&& forall|i: int| !faulty(arms, i)
            &&& forall|w: int| !misplaced_wildcard(arms, w)
            &&& forall|i: int, j: int| !arm_offends(arms, i, j)
        },
{
}

/// Where every arm has a key, the arms give no diagnostic exactly when their
/// keys are weakly increasing.
pub proof fn law_keyed_arms_in_order(arms: Seq<ArmView>)
    requires
        all_keyed(arms),
    ensures
        arm_verdict(arms) is None <==> weakly_increasing(keys(arms)),
{
    assert forall|i: int| !faulty(arms, i) by {
        if 0 <= i < arms.len() {
            assert(arms[i].pat.key() is Some);
        }
    }
    assert forall|w: int| !misplaced_wildcard(arms, w) by {
        if 0 <= w < arms.len() {
            assert(arms[w].pat.key() is Some);
        }
    }
    assert forall|i: int, j: int| arm_offends(arms, i, j) == offends(keys(arms), i, j) by {
        if 0 <= j < i < arms.len() {
            assert(arms[i].pat.key() is Some);
            assert(arms[j].pat.key() is Some);
        }
    }
    if !weakly_increasing(keys(arms)) {
        let (i, j) = choose|i: int, j: int| offends(keys(arms), i, j);
        assert(arm_offends(arms, i, j));
    }
}

/// Where every arm has a key and the keys are not weakly increasing, the
/// diagnostic is that of the first violation, and it points at the name of
/// the offending arm: at the whole path where the name has several segments.
pub proof fn law_keyed_arms_first_offence(arms: Seq<ArmView>, i: int, j: int)
    requires
        all_keyed(arms),
        first_offence(keys(arms), i, j),
    ensures
        arm_verdict(arms) == Some(offence(arms, i, j)),
        offence(arms, i, j).message == keys(arms)[i] + " should sort before "@ + keys(arms)[j],
        arms[i].pat.path() matches Some(path) ==> path.segments.len() > 1 ==> offence(
            arms,
            i,
            j,
        ).span == path.span,
{
    assert forall|a: int| !faulty(arms, a) by {
        if 0 <= a < arms.len() {
            assert(arms[a].pat.key() is Some);
        }
    }
    assert forall|w: int| !misplaced_wildcard(arms, w) by {
        if 0 <= w < arms.len() {
            assert(arms[w].pat.key() is Some);
        }
    }
    assert forall|a: int, b: int| arm_offends(arms, a, b) == offends(keys(arms), a, b) by {
        if 0 <= b < a < arms.len() {
            assert(arms[a].pat.key() is Some);
            assert(arms[b].pat.key() is Some);
        }
    }
    assert(first_arm_offence(arms, i, j));
    assert(arms[i].pat.key() is Some);
}

/// One wildcard is allowed, in last place: behind arms that all have keys it
/// changes nothing in what they give.
pub proof fn law_last_wildcard_allowed(arms: Seq<ArmView>)
    requires
        arms.len() > 0,
        arms.last().pat is Wildcard,
        all_keyed(arms.drop_last()),
    ensures
        arm_verdict(arms) == arm_verdict(arms.drop_last()),
{
    let rest = arms.drop_last();
    assert forall|i: int| 0 <= i < rest.len() implies arms[i] == rest[i] && arms[i].pat.key()
        is Some by {
        assert(rest[i].pat.key() is Some);
    }
    assert forall|i: int| !faulty(arms, i) && !faulty(rest, i) by {
        if 0 <= i < rest.len() {
            assert(arms[i].pat.key() is Some);
        } else if i == rest.len() {
            assert forall|w: int| 0 <= w < i implies !wildcard_at(arms, w) by {
                assert(arms[w].pat.key() is Some);
            }
        }
    }
    assert forall|w: int| !misplaced_wildcard(arms, w) && !misplaced_wildcard(rest, w) by {
        if 0 <= w < rest.len() {
            assert(arms[w].pat.key() is Some);
        }
    }
    assert forall|i: int, j: int| arm_offends(arms, i, j) == arm_offends(rest, i, j) by {
        if 0 <= j < i < rest.len() {
            assert(arms[i] == rest[i]);
            assert(arms[j] == rest[j]);
        }
    }
    if exists|i: int, j: int| arm_offends(arms, i, j) {
        let (i, j) = choose|i: int, j: int| first_arm_offence(arms, i, j);
        let (p, q) = choose|p: int, q: int| first_arm_offence(rest, p, q);
        let (a, b) = choose|a: int, b: int| arm_offends(arms, a, b);
        lemma_first_arm_offence_exists(arms, a, b);
        lemma_first_arm_offence_exists(rest, a, b);
        assert(first_arm_offence(arms, i, j));
        assert(first_arm_offence(rest, p, q));
        assert(arm_offends(arms, p, q));
        assert(arm_offends(rest, i, j));
        assert(i == p && j == q);
        assert(arms[i] == rest[i]);
        assert(arms[j] == rest[j]);
    }
}

/// Arms with an ordering violation have a first one.
pub proof fn lemma_first_arm_offence_exists(arms: Seq<ArmView>, i: int, j: int)
    requires
        arm_offends(arms, i, j),
    ensures
        exists|p: int, q: int| first_arm_offence(arms, p, q),
{
    let (p, q) = lemma_first_arm_offence_upto(arms, i, j, 0, 0);
    assert(first_arm_offence(arms, p, q));
}

/// Scans the pairs of arms in reporting order, from `(p, q)` on, up to a
/// known violation `(i, j)`.
proof fn lemma_first_arm_offence_upto(arms: Seq<ArmView>, i: int, j: int, p: int, q: int) -> (r: (
    int,
    int,
))
    requires
        arm_offends(arms, i, j),
        0 <= q <= p <= i,
        p == i ==> q <= j,
        forall|a: int, b: int| arm_offends(arms, a, b) ==> p < a || (p == a && q <= b),
    ensures
        first_arm_offence(arms, r.0, r.1),
    decreases i - p, p - q,
{
    if q == p {
        lemma_first_arm_offence_upto(arms, i, j, p + 1, 0)
    } else if arm_offends(arms, p, q) {
        (p, q)
    } else {
        lemma_first_arm_offence_upto(arms, i, j, p, q + 1)
    }
}

/// A second wildcard is reported as such, wherever it stands, unless an arm
/// of unsupported shape comes before it.
pub proof fn law_second_wildcard(arms: Seq<ArmView>, first: int, second: int)
    requires
        0 <= first < second,
        wildcard_at(arms, first),
        wildcard_at(arms, second),
        forall|w: int| 0 <= w < second && wildcard_at(arms, w) ==> w == first,
        forall|i: int| 0 <= i < second && !wildcard_at(arms, i) ==> arms[i].pat.key() is Some,
    ensures
        arm_verdict(arms) == Some(DiagnosticView::multiple_wildcards(arms[second].span)),
{
    assert(faulty(arms, second));
    assert forall|j: int| 0 <= j < second implies !faulty(arms, j) by {
        if wildcard_at(arms, j) {
            assert(j == first);
        }
    }
    assert(first_faulty(arms, second));
}

/// A single wildcard that is not the last arm is reported as misplaced,
/// whether or not the other arms are in order, where all of them have keys.
pub proof fn law_wildcard_not_last(arms: Seq<ArmView>, w: int)
    requires
        wildcard_at(arms, w),
        w + 1 < arms.len(),
        forall|i: int| 0 <= i < arms.len() && i != w ==> (#[trigger] arms[i]).pat.key() is Some,
    ensures
        arm_verdict(arms) == Some(DiagnosticView::wildcard_not_last(arms[w].span)),
{
    assert forall|i: int| !faulty(arms, i) by {
        if 0 <= i < arms.len() {
            if i == w {
                assert forall|v: int| 0 <= v < i implies !wildcard_at(arms, v) by {
                    assert(arms[v].pat.key() is Some);
                }
            } else {
                assert(arms[i].pat.key() is Some);
            }
        }
    }
    assert(misplaced_wildcard(arms, w));
    assert forall|v: int| misplaced_wildcard(arms, v) implies v == w by {
        if v != w {
            assert(arms[v].pat.key() is Some);
        }
    }
}

/// An arm of unsupported shape makes the diagnostic a shape error, anchored
/// at the first such arm, and no ordering violation is reported, unless a
/// second wildcard comes before it.
pub proof fn law_unsupported_shape(arms: Seq<ArmView>, i: int) -> (k: int)
    requires
        0 <= i < arms.len(),
        !wildcard_at(arms, i),
        arms[i].pat.key() is None,
        forall|v: int, w: int| 0 <= v < w < i ==> !(wildcard_at(arms, v) && wildcard_at(arms, w)),
    ensures
        0 <= k <= i,
        !wildcard_at(arms, k),
        arms[k].pat.key() is None,
        forall|j: int| 0 <= j < k && !wildcard_at(arms, j) ==> arms[j].pat.key() is Some,
        arm_verdict(arms) == Some(DiagnosticView::unsupported(arms[k].span)),
{
    let k = lemma_first_unsupported(arms, i, 0);
    assert(faulty(arms, k));
    assert forall|j: int| 0 <= j < k implies !faulty(arms, j) by {
        if wildcard_at(arms, j) {
            if exists|w: int| 0 <= w < j && wildcard_at(arms, w) {
                let w = choose|w: int| 0 <= w < j && wildcard_at(arms, w);
                assert(!(wildcard_at(arms, w) && wildcard_at(arms, j)));
            }
        }
    }
    assert(first_faulty(arms, k));
    k
}

/// The first arm of unsupported shape at or after `from`, given one at `i`.
proof fn lemma_first_unsupported(arms: Seq<ArmView>, i: int, from: int) -> (k: int)
    requires
        0 <= from <= i < arms.len(),
        !wildcard_at(arms, i),
        arms[i].pat.key() is None,
        forall|j: int| 0 <= j < from && !wildcard_at(arms, j) ==> arms[j].pat.key() is Some,
    ensures
        from <= k <= i,
        !wildcard_at(arms, k),
        arms[k].pat.key() is None,
        forall|j: int| 0 <= j < k && !wildcard_at(arms, j) ==> arms[j].pat.key() is Some,
    decreases i - from,
{
    if !wildcard_at(arms, from) && arms[from].pat.key() is None {
        from
    } else {
        lemma_first_unsupported(arms, i, from + 1)
    }
}

} // verus!
