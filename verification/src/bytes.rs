//! Byte strings: equality and the lexicographic order used to break ties.

use vstd::prelude::*;

verus! {

/// `a` and `b` hold the same bytes in their first `k` positions.
pub open spec fn agree_before(a: Seq<u8>, b: Seq<u8>, k: int) -> bool {
    &&& 0 <= k <= a.len()
    &&& k <= b.len()
    &&& forall|j: int| 0 <= j < k ==> a[j] == b[j]
}

/// Position `k` decides `a < b`: the two agree before it, and there `a` has
/// ended while `b` goes on, or `a` holds the smaller byte.
pub open spec fn decides_lt(a: Seq<u8>, b: Seq<u8>, k: int) -> bool {
    &&& agree_before(a, b, k)
    &&& k < b.len()
    &&& (k == a.len() || a[k] < b[k])
}

/// `a` comes strictly before `b` in lexicographic byte order.
pub open spec fn lex_lt(a: Seq<u8>, b: Seq<u8>) -> bool {
    exists|k: int| decides_lt(a, b, k)
}

/// No byte string comes before itself.
pub proof fn lemma_lex_irreflexive(a: Seq<u8>)
    ensures
        !lex_lt(a, a),
{
}

/// Of two byte strings at most one comes before the other.
pub proof fn lemma_lex_asymmetric(a: Seq<u8>, b: Seq<u8>)
    ensures
        !(lex_lt(a, b) && lex_lt(b, a)),
{
    if lex_lt(a, b) && lex_lt(b, a) {
        let k = choose|k: int| decides_lt(a, b, k);
        let m = choose|m: int| decides_lt(b, a, m);
        if k < m {
            assert(b[k] == a[k]);
        } else if m < k {
            assert(a[m] == b[m]);
        }
    }
}

/// The order is transitive.
pub proof fn lemma_lex_transitive(a: Seq<u8>, b: Seq<u8>, c: Seq<u8>)
    requires
        lex_lt(a, b),
        lex_lt(b, c),
    ensures
        lex_lt(a, c),
{
    let k = choose|k: int| decides_lt(a, b, k);
    let m = choose|m: int| decides_lt(b, c, m);
    let d = if k <= m {
        k
    } else {
        m
    };
    assert(agree_before(a, c, d)) by {
        assert forall|j: int| 0 <= j < d implies a[j] == c[j] by {
            assert(a[j] == b[j]);
            assert(b[j] == c[j]);
        }
    }
    if k < m {
        assert(b[k] == c[k]);
    } else if m < k {
        assert(a[m] == b[m]);
    }
    assert(decides_lt(a, c, d));
}

/// Two byte strings that agree before `k` are equal or ordered.
proof fn lemma_lex_connected_from(a: Seq<u8>, b: Seq<u8>, k: int)
    requires
        agree_before(a, b, k),
    ensures
        a == b || lex_lt(a, b) || lex_lt(b, a),
    decreases a.len() - k,
{
    if k == a.len() && k == b.len() {
        assert(a =~= b);
    } else if k == a.len() {
        assert(decides_lt(a, b, k));
    } else if k == b.len() {
        assert(agree_before(b, a, k));
        assert(decides_lt(b, a, k));
    } else if a[k] < b[k] {
        assert(decides_lt(a, b, k));
    } else if b[k] < a[k] {
        assert(agree_before(b, a, k));
        assert(decides_lt(b, a, k));
    } else {
        lemma_lex_connected_from(a, b, k + 1);
    }
}

/// Any two distinct byte strings are ordered one way or the other.
pub proof fn lemma_lex_connected(a: Seq<u8>, b: Seq<u8>)
    ensures
        a == b || lex_lt(a, b) || lex_lt(b, a),
{
    lemma_lex_connected_from(a, b, 0);
}

/// Two byte strings that start with equally long parts start with the
/// same part and go on the same.
pub proof fn lemma_split(head: Seq<u8>, rest: Seq<u8>, other_head: Seq<u8>, other_rest: Seq<u8>)
    requires
        head + rest == other_head + other_rest,
        head.len() == other_head.len(),
    ensures
        head == other_head,
        rest == other_rest,
{
    let whole = head + rest;
    let other = other_head + other_rest;
    assert(head =~= whole.subrange(0, head.len() as int));
    assert(other_head =~= other.subrange(0, head.len() as int));
    assert(rest =~= whole.subrange(head.len() as int, whole.len() as int));
    assert(other_rest =~= other.subrange(head.len() as int, other.len() as int));
}

/// The deep view of a list of byte strings holds the view of each, in order.
pub proof fn lemma_rows_view(rows: Vec<Vec<u8>>)
    ensures
        rows.deep_view().len() == rows.len(),
        forall|k: int| 0 <= k < rows.len() ==> #[trigger] rows.deep_view()[k] == rows[k]@,
{
    assert forall|k: int| 0 <= k < rows.len() implies #[trigger] rows.deep_view()[k]
        == rows[k]@ by {
        assert(rows.deep_view()[k] =~= rows[k]@);
    }
}

/// Whether two byte strings hold the same bytes.
pub fn bytes_eq(a: &Vec<u8>, b: &Vec<u8>) -> (same: bool)
    ensures
        same == (a@ == b@),
{
    if a.len() != b.len() {
        return false;
    }
    let mut i: usize = 0;
    while i < a.len()
        invariant
            i <= a.len(),
            a.len() == b.len(),
            forall|k: int| 0 <= k < i ==> a@[k] == b@[k],
        decreases a.len() - i,
    {
        if a[i] != b[i] {
            return false;
        }
        i += 1;
    }
    assert(a@ =~= b@);
    true
}

/// Whether `a` comes strictly before `b` in lexicographic byte order.
pub fn bytes_lt(a: &Vec<u8>, b: &Vec<u8>) -> (before: bool)
    ensures
        before == lex_lt(a@, b@),
{
    let mut i: usize = 0;
    while i < a.len() && i < b.len()
        invariant
            agree_before(a@, b@, i as int),
        decreases a.len() - i,
    {
        if a[i] < b[i] {
            assert(decides_lt(a@, b@, i as int));
            return true;
        }
        if a[i] > b[i] {
            assert forall|k: int| !decides_lt(a@, b@, k) by {
                if decides_lt(a@, b@, k) {
                    if k > i {
                        assert(a@[i as int] == b@[i as int]);
                    }
                }
            }
            return false;
        }
        i += 1;
    }
    if i < b.len() {
        assert(decides_lt(a@, b@, i as int));
        true
    } else {
        assert forall|k: int| !decides_lt(a@, b@, k) by {}
        false
    }
}

} // verus!
