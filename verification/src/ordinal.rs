//! Ordinal (character-code) comparison of names.

use vstd::prelude::*;
use vstd::std_specs::iter::IteratorSpec;

verus! {

/// `a` and `b` agree on their first `k` characters, and from there `a` comes
/// first: either `a` ends at `k` while `b` goes on, or `a` holds the smaller
/// character at `k`.
pub open spec fn precedes_at(a: Seq<char>, b: Seq<char>, k: int) -> bool {
    &&& 0 <= k <= a.len()
    &&& k <= b.len()
    &&& forall|i: int| 0 <= i < k ==> a[i] == b[i]
    &&& if k == a.len() {
        k < b.len()
    } else {
        k < b.len() && a[k] < b[k]
    }
}

/// Strict ordinal order on names: `a` sorts before `b`.
pub open spec fn ordinal_lt(a: Seq<char>, b: Seq<char>) -> bool {
    exists|k: int| precedes_at(a, b, k)
}

/// Weak ordinal order on names: `b` does not sort before `a`.
pub open spec fn ordinal_le(a: Seq<char>, b: Seq<char>) -> bool {
    !ordinal_lt(b, a)
}

/// `a` and `b` agree on their first `k` characters and part ways at `k`: one
/// of them ends there, or their characters at `k` differ.
pub open spec fn parts_at(a: Seq<char>, b: Seq<char>, k: int) -> bool {
    &&& 0 <= k <= a.len()
    &&& k <= b.len()
    &&& forall|i: int| 0 <= i < k ==> a[i] == b[i]
    &&& (k == a.len() || k == b.len() || a[k] != b[k])
}

/// Where two names part ways, that place alone decides their order.
pub proof fn lemma_decided_where_parted(a: Seq<char>, b: Seq<char>, k: int)
    requires
        parts_at(a, b, k),
    ensures
        ordinal_lt(a, b) == precedes_at(a, b, k),
        ordinal_lt(b, a) == precedes_at(b, a, k),
        a == b <==> k == a.len() && k == b.len(),
{
    assert forall|j: int| precedes_at(a, b, j) implies j == k by {
        if j < k {
            assert(a[j] == b[j]);
        } else if j > k {
            assert(a[k] == b[k]);
        }
    }
    assert forall|j: int| precedes_at(b, a, j) implies j == k by {
        if j < k {
            assert(a[j] == b[j]);
        } else if j > k {
            assert(a[k] == b[k]);
        }
    }
    if k == a.len() && k == b.len() {
        assert(a =~= b);
    }
}

/// Two names that agree on their first `from` characters part ways at or
/// after `from`.
proof fn lemma_parts_from(a: Seq<char>, b: Seq<char>, from: int) -> (k: int)
    requires
        0 <= from <= a.len(),
        from <= b.len(),
        forall|i: int| 0 <= i < from ==> a[i] == b[i],
    ensures
        parts_at(a, b, k),
    decreases a.len() - from,
{
    if from < a.len() && from < b.len() && a[from] == b[from] {
        lemma_parts_from(a, b, from + 1)
    } else {
        from
    }
}

/// Any two names part ways somewhere.
pub proof fn lemma_parts_somewhere(a: Seq<char>, b: Seq<char>) -> (k: int)
    ensures
        parts_at(a, b, k),
{
    lemma_parts_from(a, b, 0)
}

/// No name sorts before itself.
pub proof fn lemma_lt_irreflexive(a: Seq<char>)
    ensures
        !ordinal_lt(a, a),
{
    lemma_decided_where_parted(a, a, a.len() as int);
}

/// Two different names are ordered one way or the other.
pub proof fn lemma_lt_total(a: Seq<char>, b: Seq<char>)
    ensures
        a == b || ordinal_lt(a, b) || ordinal_lt(b, a),
{
    let k = lemma_parts_somewhere(a, b);
    lemma_decided_where_parted(a, b, k);
}

/// The strict order is transitive.
pub proof fn lemma_lt_transitive(a: Seq<char>, b: Seq<char>, c: Seq<char>)
    requires
        ordinal_lt(a, b),
        ordinal_lt(b, c),
    ensures
        ordinal_lt(a, c),
{
    let i = choose|i: int| precedes_at(a, b, i);
    let j = choose|j: int| precedes_at(b, c, j);
    let k = if i <= j { i } else { j };
    assert forall|p: int| 0 <= p < k implies a[p] == c[p] by {
        assert(a[p] == b[p]);
        assert(b[p] == c[p]);
    }
    if i < j {
        assert(b[i] == c[i]);
    } else if j < i {
        assert(a[j] == b[j]);
    }
    assert(precedes_at(a, c, k));
}

/// The weak order is transitive.
pub proof fn lemma_le_transitive(a: Seq<char>, b: Seq<char>, c: Seq<char>)
    requires
        ordinal_le(a, b),
        ordinal_le(b, c),
    ensures
        ordinal_le(a, c),
{
    if ordinal_lt(c, a) {
        lemma_lt_total(a, b);
        lemma_lt_total(b, c);
        if a == b {
        } else if b == c {
        } else {
            lemma_lt_transitive(c, a, b);
        }
    }
}

/// Decides whether `a` sorts strictly before `b`.
pub fn str_lt(a: &str, b: &str) -> (r: bool)
    ensures
        r == ordinal_lt(a@, b@),
{
    let mut rest_a = a.chars();
    let mut rest_b = b.chars();
    let ghost mut k: int = 0;
    loop
        invariant
            0 <= k <= a@.len(),
            k <= b@.len(),
            rest_a.remaining() == a@.skip(k),
            rest_b.remaining() == b@.skip(k),
            forall|i: int| 0 <= i < k ==> a@[i] == b@[i],
        decreases a@.len() - k,
    {
        let next_a = rest_a.next();
        let next_b = rest_b.next();
        match (next_a, next_b) {
            (Some(x), Some(y)) => {
                assert(x == a@[k] && y == b@[k]);
                if x != y {
                    proof {
                        lemma_decided_where_parted(a@, b@, k);
                    }
                    return x < y;
                }
                proof {
                    assert(a@.skip(k).drop_first() =~= a@.skip(k + 1));
                    assert(b@.skip(k).drop_first() =~= b@.skip(k + 1));
                    k = k + 1;
                }
            },
            (None, Some(_)) => {
                proof {
                    lemma_decided_where_parted(a@, b@, k);
                }
                return true;
            },
            (_, None) => {
                proof {
                    lemma_decided_where_parted(a@, b@, k);
                }
                return false;
            },
        }
    }
}

} // verus!
