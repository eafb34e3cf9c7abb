//! Ranking a validator pool: by composite score, highest first; equal
//! scores by public key in byte order; what is still tied, by position in
//! the pool.

use vstd::prelude::*;
use crate::bytes::{bytes_lt, lemma_lex_asymmetric, lemma_lex_connected, lemma_lex_irreflexive, lemma_lex_transitive, lex_lt};
use crate::types::{Validator, ValidatorView};

verus! {

/// The composite score of a validator: stake times reputation, exactly.
pub open spec fn composite_score(v: ValidatorView) -> nat {
    (v.stake as nat) * (v.reputation_score as nat)
}

/// `a` ranks strictly above `b`: a higher score, or the same score and a
/// public key that comes first in byte order.
pub open spec fn outranks(a: ValidatorView, b: ValidatorView) -> bool {
    composite_score(a) > composite_score(b) || (composite_score(a) == composite_score(b) && lex_lt(
        a.pub_key,
        b.pub_key,
    ))
}

/// The validator at position `i` of `pool` is ranked before the one at
/// position `j`: it outranks it, or neither outranks the other and it
/// stands earlier in the pool.
pub open spec fn precedes(pool: Seq<ValidatorView>, i: int, j: int) -> bool {
    outranks(pool[i], pool[j]) || (!outranks(pool[j], pool[i]) && i < j)
}

/// `order` lists every position of `pool` once, each ranked before all
/// that follow it.
pub open spec fn is_ranking(pool: Seq<ValidatorView>, order: Seq<int>) -> bool {
    &&& order.len() == pool.len()
    &&& forall|k: int| 0 <= k < order.len() ==> 0 <= #[trigger] order[k] < pool.len()
    &&& forall|a: int| 0 <= a < pool.len() ==> #[trigger] order.contains(a)
    &&& forall|i: int, j: int|
        0 <= i < j < order.len() ==> precedes(pool, #[trigger] order[i], #[trigger] order[j])
}

/// The ranking of `pool`, as positions in it.
pub open spec fn ranking(pool: Seq<ValidatorView>) -> Seq<int> {
    choose|order: Seq<int>| is_ranking(pool, order)
}

/// The validators of `pool` in ranked order.
pub open spec fn ranked(pool: Seq<ValidatorView>) -> Seq<ValidatorView> {
    Seq::new(pool.len(), |k: int| pool[ranking(pool)[k]])
}

/// No position is ranked before itself.
pub proof fn lemma_precedes_irreflexive(pool: Seq<ValidatorView>, i: int)
    ensures
        !precedes(pool, i, i),
{
    lemma_lex_irreflexive(pool[i].pub_key);
}

/// Of two positions at most one is ranked before the other.
pub proof fn lemma_precedes_asymmetric(pool: Seq<ValidatorView>, i: int, j: int)
    ensures
        !(precedes(pool, i, j) && precedes(pool, j, i)),
{
    lemma_lex_asymmetric(pool[i].pub_key, pool[j].pub_key);
}

/// Ranking before is transitive.
pub proof fn lemma_precedes_transitive(pool: Seq<ValidatorView>, i: int, j: int, k: int)
    requires
        precedes(pool, i, j),
        precedes(pool, j, k),
    ensures
        precedes(pool, i, k),
{
    let a = pool[i].pub_key;
    let b = pool[j].pub_key;
    let c = pool[k].pub_key;
    lemma_lex_connected(a, b);
    lemma_lex_connected(b, c);
    lemma_lex_connected(a, c);
    lemma_lex_asymmetric(a, b);
    lemma_lex_asymmetric(b, c);
    lemma_lex_asymmetric(a, c);
    lemma_lex_irreflexive(a);
    lemma_lex_irreflexive(b);
    lemma_lex_irreflexive(c);
    if lex_lt(a, b) && lex_lt(b, c) {
        lemma_lex_transitive(a, b, c);
    }
    if lex_lt(c, b) && lex_lt(b, a) {
        lemma_lex_transitive(c, b, a);
    }
}

/// Two rankings of one pool that agree before `k` agree at `k` too.
proof fn lemma_rankings_agree_at(
    pool: Seq<ValidatorView>,
    first: Seq<int>,
    second: Seq<int>,
    k: int,
)
    requires
        is_ranking(pool, first),
        is_ranking(pool, second),
        0 <= k < pool.len(),
        forall|j: int| 0 <= j < k ==> first[j] == second[j],
    ensures
        first[k] == second[k],
{
    let a = first[k];
    let b = second[k];
    if a != b {
        assert(second.contains(a));
        assert(first.contains(b));
        let ja = choose|j: int| 0 <= j < second.len() && second[j] == a;
        let jb = choose|j: int| 0 <= j < first.len() && first[j] == b;
        lemma_precedes_irreflexive(pool, a);
        lemma_precedes_irreflexive(pool, b);
        lemma_precedes_asymmetric(pool, a, b);
        if ja < k {
            assert(precedes(pool, first[ja], first[k]));
        }
        if jb < k {
            assert(precedes(pool, second[jb], second[k]));
        }
        assert(precedes(pool, second[k], second[ja]));
        assert(precedes(pool, first[k], first[jb]));
    }
}

/// Two rankings of one pool agree in their first `k` places.
proof fn lemma_rankings_agree_before(
    pool: Seq<ValidatorView>,
    first: Seq<int>,
    second: Seq<int>,
    k: int,
)
    requires
        is_ranking(pool, first),
        is_ranking(pool, second),
        0 <= k <= pool.len(),
    ensures
        forall|j: int| 0 <= j < k ==> first[j] == second[j],
    decreases k,
{
    if k > 0 {
        lemma_rankings_agree_before(pool, first, second, k - 1);
        lemma_rankings_agree_at(pool, first, second, k - 1);
    }
}

/// A pool has one ranking only.
pub proof fn lemma_ranking_unique(pool: Seq<ValidatorView>, first: Seq<int>, second: Seq<int>)
    requires
        is_ranking(pool, first),
        is_ranking(pool, second),
    ensures
        first == second,
{
    lemma_rankings_agree_before(pool, first, second, pool.len() as int);
    assert(first =~= second);
}

/// `order` ranks the first `n` positions of `pool`.
spec fn ranks_first(pool: Seq<ValidatorView>, order: Seq<int>, n: int) -> bool {
    &&& order.len() == n
    &&& forall|k: int| 0 <= k < order.len() ==> 0 <= #[trigger] order[k] < n
    &&& forall|a: int| 0 <= a < n ==> #[trigger] order.contains(a)
    &&& forall|i: int, j: int|
        0 <= i < j < order.len() ==> precedes(pool, #[trigger] order[i], #[trigger] order[j])
}

/// Where position `x` goes into `order`: before the first entry from `at`
/// on that it is ranked before, or at the end.
spec fn slot(pool: Seq<ValidatorView>, order: Seq<int>, x: int, at: int) -> int
    decreases order.len() - at,
{
    if at >= order.len() || precedes(pool, x, order[at]) {
        at
    } else {
        slot(pool, order, x, at + 1)
    }
}

/// The slot lies after every entry that `x` is not ranked before.
proof fn lemma_slot(pool: Seq<ValidatorView>, order: Seq<int>, x: int, at: int)
    requires
        0 <= at <= order.len(),
    ensures
        at <= slot(pool, order, x, at) <= order.len(),
        forall|k: int| at <= k < slot(pool, order, x, at) ==> !precedes(pool, x, #[trigger] order[k]),
        slot(pool, order, x, at) < order.len() ==> precedes(
            pool,
            x,
            order[slot(pool, order, x, at)],
        ),
    decreases order.len() - at,
{
    if !(at >= order.len() || precedes(pool, x, order[at])) {
        lemma_slot(pool, order, x, at + 1);
    }
}

/// A ranking of the first `n` positions extends to one of the first
/// `n + 1`.
proof fn lemma_ranking_extends(pool: Seq<ValidatorView>, order: Seq<int>, n: int)
    requires
        0 <= n,
        ranks_first(pool, order, n),
    ensures
        ranks_first(pool, order.insert(slot(pool, order, n, 0), n), n + 1),
{
    let p = slot(pool, order, n, 0);
    lemma_slot(pool, order, n, 0);
    let grown = order.insert(p, n);
    assert forall|a: int| 0 <= a < n + 1 implies #[trigger] grown.contains(a) by {
        if a == n {
            assert(grown[p] == a);
        } else {
            assert(order.contains(a));
            let k = choose|k: int| 0 <= k < order.len() && order[k] == a;
            if k < p {
                assert(grown[k] == a);
            } else {
                assert(grown[k + 1] == a);
            }
        }
    }
    assert forall|i: int, j: int| 0 <= i < j < grown.len() implies precedes(
        pool,
        #[trigger] grown[i],
        #[trigger] grown[j],
    ) by {
        if j == p {
            assert(!precedes(pool, n, order[i]));
            assert(order[i] < n);
        } else if i == p {
            if j - 1 > p {
                assert(precedes(pool, order[p], order[j - 1]));
                lemma_precedes_transitive(pool, n, order[p], order[j - 1]);
            }
        } else if i < p && j > p {
            assert(grown[i] == order[i] && grown[j] == order[j - 1]);
            if i < j - 1 {
                assert(precedes(pool, order[i], order[j - 1]));
            }
        } else if j < p {
            assert(precedes(pool, order[i], order[j]));
        } else {
            assert(precedes(pool, order[i - 1], order[j - 1]));
        }
    }
}

/// The first `n` positions of a pool have a ranking.
proof fn lemma_first_have_ranking(pool: Seq<ValidatorView>, n: int)
    requires
        0 <= n,
    ensures
        exists|order: Seq<int>| ranks_first(pool, order, n),
    decreases n,
{
    if n == 0 {
        assert(ranks_first(pool, Seq::<int>::empty(), 0));
    } else {
        let m = n - 1;
        lemma_first_have_ranking(pool, m);
        let order = choose|order: Seq<int>| ranks_first(pool, order, m);
        lemma_ranking_extends(pool, order, m);
        assert(ranks_first(pool, order.insert(slot(pool, order, m, 0), m), n));
    }
}

/// Every pool has its ranking, and the ranked validators are the pool's,
/// each once.
pub proof fn lemma_ranking_exists(pool: Seq<ValidatorView>)
    ensures
        is_ranking(pool, ranking(pool)),
        ranked(pool).len() == pool.len(),
        forall|k: int| 0 <= k < pool.len() ==> pool.contains(#[trigger] ranked(pool)[k]),
        forall|i: int| 0 <= i < pool.len() ==> ranked(pool).contains(#[trigger] pool[i]),
{
    let n = pool.len() as int;
    lemma_first_have_ranking(pool, n);
    let order = choose|order: Seq<int>| ranks_first(pool, order, n);
    assert(is_ranking(pool, order));
    let line = ranked(pool);
    let found = ranking(pool);
    assert forall|k: int| 0 <= k < pool.len() implies pool.contains(#[trigger] line[k]) by {
        assert(0 <= found[k] < pool.len());
        assert(pool[found[k]] == line[k]);
    }
    assert forall|i: int| 0 <= i < pool.len() implies line.contains(#[trigger] pool[i]) by {
        assert(found.contains(i));
        let k = choose|k: int| 0 <= k < found.len() && found[k] == i;
        assert(line[k] == pool[i]);
    }
}

/// The composite score of `v`.
pub fn score_of(v: &Validator) -> (score: u128)
    ensures
        score == composite_score(v@),
{
    let stake: u128 = v.stake as u128;
    let reputation: u128 = v.reputation_score as u128;
    assert(stake * reputation <= 0xffff_ffff_ffff_ffff * 0xffff_ffff_ffff_ffff)
        by (nonlinear_arith)
        requires
            stake <= 0xffff_ffff_ffff_ffff,
            reputation <= 0xffff_ffff_ffff_ffff,
    ;
    stake * reputation
}

/// Whether `a` ranks strictly above `b`.
pub fn ranks_above(a: &Validator, b: &Validator) -> (above: bool)
    ensures
        above == outranks(a@, b@),
{
    let score_a = score_of(a);
    let score_b = score_of(b);
    if score_a > score_b {
        true
    } else if score_a < score_b {
        false
    } else {
        bytes_lt(&a.pub_key, &b.pub_key)
    }
}

/// The positions held by `order`, as mathematical integers.
pub open spec fn positions(order: Seq<usize>) -> Seq<int> {
    order.map_values(|p: usize| p as int)
}

/// Ranks `pool`: the positions of its validators, best first.
pub fn rank(pool: &Vec<Validator>) -> (order: Vec<usize>)
    ensures
        positions(order@) == ranking(pool.deep_view()),
        is_ranking(pool.deep_view(), positions(order@)),
{
    let ghost views = pool.deep_view();
    let mut order: Vec<usize> = Vec::new();
    let mut n: usize = 0;
    while n < pool.len()
        invariant
            n <= pool.len(),
            views == pool.deep_view(),
            order.len() == n,
            forall|k: int| 0 <= k < n ==> #[trigger] order@[k] < n,
            forall|a: usize| 0 <= a < n ==> #[trigger] order@.contains(a),
            forall|i: int, j: int|
                0 <= i < j < n ==> precedes(views, #[trigger] order@[i] as int, #[trigger] order@[j] as int),
        decreases pool.len() - n,
    {
        let mut p: usize = 0;
        while p < order.len() && !ranks_above(&pool[n], &pool[order[p]])
            invariant
                p <= order.len(),
                order.len() == n,
                n < pool.len(),
                views == pool.deep_view(),
                forall|k: int| 0 <= k < n ==> #[trigger] order@[k] < n,
                forall|k: int| 0 <= k < p ==> precedes(views, #[trigger] order@[k] as int, n as int),
            decreases order.len() - p,
        {
            p += 1;
        }
        let ghost before = order@;
        proof {
            assert forall|k: int| p <= k < n implies precedes(
                views,
                n as int,
                #[trigger] before[k] as int,
            ) by {
                if k > p {
                    assert(precedes(views, before[p as int] as int, before[k] as int));
                    lemma_precedes_transitive(views, n as int, before[p as int] as int, before[k] as int);
                }
            }
        }
        order.insert(p, n);
        proof {
            assert forall|a: usize| 0 <= a < n + 1 implies #[trigger] order@.contains(a) by {
                if a == n {
                    assert(order@[p as int] == a);
                } else {
                    assert(before.contains(a));
                    let k0 = choose|k: int| 0 <= k < n && before[k] == a;
                    if k0 < p {
                        assert(order@[k0] == a);
                    } else {
                        assert(order@[k0 + 1] == a);
                    }
                }
            }
            assert forall|i: int, j: int| 0 <= i < j < n + 1 implies precedes(
                views,
                #[trigger] order@[i] as int,
                #[trigger] order@[j] as int,
            ) by {
                if i < p && j > p {
                    assert(precedes(views, before[i] as int, before[j - 1] as int)) by {
                        if i < j - 1 {
                        } else {
                        }
                    }
                } else if i < p && j < p {
                    assert(precedes(views, before[i] as int, before[j] as int));
                } else if i > p {
                    assert(precedes(views, before[i - 1] as int, before[j - 1] as int));
                }
            }
        }
        n += 1;
    }
    proof {
        let found = positions(order@);
        assert(is_ranking(views, found)) by {
            assert forall|a: int| 0 <= a < views.len() implies #[trigger] found.contains(a) by {
                assert(order@.contains(a as usize));
                let k0 = choose|k: int| 0 <= k < n && order@[k] == a as usize;
                assert(found[k0] == a);
            }
            assert forall|i: int, j: int| 0 <= i < j < found.len() implies precedes(
                views,
                #[trigger] found[i],
                #[trigger] found[j],
            ) by {
                assert(precedes(views, order@[i] as int, order@[j] as int));
            }
        }
        lemma_ranking_unique(views, found, ranking(views));
    }
    order
}

} // verus!
