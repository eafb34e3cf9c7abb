//! The Merkle committer: one digest that binds an ordered list of
//! transactions.

use vstd::prelude::*;
use crate::bytes::{lemma_rows_view, lemma_split};
use crate::crypto::{CryptoPort, DIGEST_LEN};
use crate::encoding::{encode_transaction, encoding, framable, lemma_encoding_injective, push_bytes};
use crate::types::{VoteTransaction, VoteTransactionView};

verus! {

/// The root of the empty list: [`DIGEST_LEN`] zero bytes.
pub open spec fn sentinel_hash() -> Seq<u8> {
    Seq::new(DIGEST_LEN as nat, |i: int| 0u8)
}

/// The leaves of the tree: the digest of each transaction's encoding, in
/// the order of the list.
pub open spec fn leaf_digests<P: CryptoPort>(port: &P, txs: Seq<VoteTransactionView>) -> Seq<
    Seq<u8>,
> {
    Seq::new(txs.len(), |i: int| port.digest_of(encoding(txs[i])))
}

/// The node above the pair that starts at position `2 * i` of `nodes`: the
/// digest of the left node followed by the right one, the left node taking
/// the right one's place where the level ends on it.
pub open spec fn parent_of<P: CryptoPort>(port: &P, nodes: Seq<Seq<u8>>, i: int) -> Seq<u8> {
    let left = nodes[2 * i];
    let right = if 2 * i + 1 < nodes.len() {
        nodes[2 * i + 1]
    } else {
        left
    };
    port.digest_of(left + right)
}

/// The level above `nodes`: one node for every pair.
pub open spec fn level_above<P: CryptoPort>(port: &P, nodes: Seq<Seq<u8>>) -> Seq<Seq<u8>> {
    Seq::new((nodes.len() + 1) / 2, |i: int| parent_of(port, nodes, i))
}

/// The single node that the levels above `nodes` end in.
pub open spec fn top_of<P: CryptoPort>(port: &P, nodes: Seq<Seq<u8>>) -> Seq<u8>
    decreases nodes.len(),
{
    if nodes.len() == 0 {
        sentinel_hash()
    } else if nodes.len() == 1 {
        nodes[0]
    } else {
        top_of(port, level_above(port, nodes))
    }
}

/// The Merkle root of `txs`: the sentinel for the empty list, else the top
/// of the tree over the leaves.
pub open spec fn merkle_root<P: CryptoPort>(port: &P, txs: Seq<VoteTransactionView>) -> Seq<u8> {
    top_of(port, leaf_digests(port, txs))
}

/// The root is a function of the list: equal lists have equal roots.
pub proof fn lemma_root_deterministic<P: CryptoPort>(
    port: &P,
    first: Seq<VoteTransactionView>,
    second: Seq<VoteTransactionView>,
)
    requires
        first == second,
    ensures
        merkle_root(port, first) == merkle_root(port, second),
{
}

/// The root of the empty list is the sentinel.
pub proof fn lemma_empty_root<P: CryptoPort>(port: &P)
    ensures
        merkle_root(port, Seq::<VoteTransactionView>::empty()) == sentinel_hash(),
{
}

/// Every root is [`DIGEST_LEN`] bytes wide.
pub proof fn lemma_root_width<P: CryptoPort>(port: &P, txs: Seq<VoteTransactionView>)
    ensures
        merkle_root(port, txs).len() == DIGEST_LEN,
{
    let leaves = leaf_digests(port, txs);
    assert forall|i: int| 0 <= i < leaves.len() implies (#[trigger] leaves[i]).len()
        == DIGEST_LEN by {
        port.digest_width(encoding(txs[i]));
    }
    lemma_top_width(port, leaves);
}

/// The top of a level of digests is a digest.
proof fn lemma_top_width<P: CryptoPort>(port: &P, nodes: Seq<Seq<u8>>)
    requires
        forall|i: int| 0 <= i < nodes.len() ==> (#[trigger] nodes[i]).len() == DIGEST_LEN,
    ensures
        top_of(port, nodes).len() == DIGEST_LEN,
    decreases nodes.len(),
{
    if nodes.len() >= 2 {
        let above = level_above(port, nodes);
        assert forall|i: int| 0 <= i < above.len() implies (#[trigger] above[i]).len()
            == DIGEST_LEN by {
            let left = nodes[2 * i];
            let right = if 2 * i + 1 < nodes.len() {
                nodes[2 * i + 1]
            } else {
                left
            };
            port.digest_width(left + right);
        }
        lemma_top_width(port, above);
    }
}

/// The digest maps the two different inputs `a` and `b` to one digest.
pub open spec fn collides<P: CryptoPort>(port: &P, a: Seq<u8>, b: Seq<u8>) -> bool {
    a != b && port.digest_of(a) == port.digest_of(b)
}

/// Two different levels of equal length with the same level above them
/// show a collision of the digest.
proof fn lemma_level_binds<P: CryptoPort>(port: &P, a: Seq<Seq<u8>>, b: Seq<Seq<u8>>)
    requires
        a.len() == b.len(),
        forall|i: int| 0 <= i < a.len() ==> (#[trigger] a[i]).len() == DIGEST_LEN,
        forall|i: int| 0 <= i < b.len() ==> (#[trigger] b[i]).len() == DIGEST_LEN,
        level_above(port, a) == level_above(port, b),
        a != b,
    ensures
        exists|x: Seq<u8>, y: Seq<u8>| collides(port, x, y),
{
    if forall|j: int| 0 <= j < a.len() ==> a[j] == b[j] {
        assert(a =~= b);
    }
    let j = choose|j: int| 0 <= j < a.len() && a[j] != b[j];
    let i = j / 2;
    let left_a = a[2 * i];
    let left_b = b[2 * i];
    let right_a = if 2 * i + 1 < a.len() {
        a[2 * i + 1]
    } else {
        left_a
    };
    let right_b = if 2 * i + 1 < b.len() {
        b[2 * i + 1]
    } else {
        left_b
    };
    if left_a + right_a == left_b + right_b {
        lemma_split(left_a, right_a, left_b, right_b);
    }
    assert(level_above(port, a)[i] == parent_of(port, a, i));
    assert(level_above(port, b)[i] == parent_of(port, b, i));
    assert(collides(port, left_a + right_a, left_b + right_b));
}

/// Two different levels of equal length under the same top show a
/// collision of the digest.
proof fn lemma_top_binds<P: CryptoPort>(port: &P, a: Seq<Seq<u8>>, b: Seq<Seq<u8>>)
    requires
        a.len() == b.len(),
        forall|i: int| 0 <= i < a.len() ==> (#[trigger] a[i]).len() == DIGEST_LEN,
        forall|i: int| 0 <= i < b.len() ==> (#[trigger] b[i]).len() == DIGEST_LEN,
        top_of(port, a) == top_of(port, b),
        a != b,
    ensures
        exists|x: Seq<u8>, y: Seq<u8>| collides(port, x, y),
    decreases a.len(),
{
    if a.len() <= 1 {
        assert(a =~= b);
    } else {
        let above_a = level_above(port, a);
        let above_b = level_above(port, b);
        if above_a == above_b {
            lemma_level_binds(port, a, b);
        } else {
            assert forall|i: int| 0 <= i < above_a.len() implies (#[trigger] above_a[i]).len()
                == DIGEST_LEN by {
                let left = a[2 * i];
                let right = if 2 * i + 1 < a.len() {
                    a[2 * i + 1]
                } else {
                    left
                };
                port.digest_width(left + right);
            }
            assert forall|i: int| 0 <= i < above_b.len() implies (#[trigger] above_b[i]).len()
                == DIGEST_LEN by {
                let left = b[2 * i];
                let right = if 2 * i + 1 < b.len() {
                    b[2 * i + 1]
                } else {
                    left
                };
                port.digest_width(left + right);
            }
            lemma_top_binds(port, above_a, above_b);
        }
    }
}

/// The root binds the list and its order, as far as the digest binds its
/// input: two different lists of the same length with the same root, a
/// list and a reordering of it among them, show two different inputs that
/// the digest maps to one digest.
pub proof fn lemma_root_binds_list<P: CryptoPort>(
    port: &P,
    first: Seq<VoteTransactionView>,
    second: Seq<VoteTransactionView>,
)
    requires
        first.len() == second.len(),
        forall|i: int| 0 <= i < first.len() ==> framable(#[trigger] first[i]),
        forall|i: int| 0 <= i < second.len() ==> framable(#[trigger] second[i]),
        merkle_root(port, first) == merkle_root(port, second),
        first != second,
    ensures
        exists|x: Seq<u8>, y: Seq<u8>| collides(port, x, y),
{
    let leaves_a = leaf_digests(port, first);
    let leaves_b = leaf_digests(port, second);
    if leaves_a == leaves_b {
        if forall|j: int| 0 <= j < first.len() ==> first[j] == second[j] {
            assert(first =~= second);
        }
        let j = choose|j: int| 0 <= j < first.len() && first[j] != second[j];
        if encoding(first[j]) == encoding(second[j]) {
            lemma_encoding_injective(first[j], second[j]);
        }
        assert(leaves_a[j] == leaves_b[j]);
        assert(collides(port, encoding(first[j]), encoding(second[j])));
    } else {
        assert forall|i: int| 0 <= i < leaves_a.len() implies (#[trigger] leaves_a[i]).len()
            == DIGEST_LEN by {
            port.digest_width(encoding(first[i]));
        }
        assert forall|i: int| 0 <= i < leaves_b.len() implies (#[trigger] leaves_b[i]).len()
            == DIGEST_LEN by {
            port.digest_width(encoding(second[i]));
        }
        lemma_top_binds(port, leaves_a, leaves_b);
    }
}

/// The sentinel: [`DIGEST_LEN`] zero bytes.
pub fn sentinel() -> (digest: Vec<u8>)
    ensures
        digest@ == sentinel_hash(),
{
    let mut digest: Vec<u8> = Vec::new();
    let mut i: usize = 0;
    while i < DIGEST_LEN
        invariant
            i <= DIGEST_LEN,
            digest@ == Seq::new(i as nat, |k: int| 0u8),
        decreases DIGEST_LEN - i,
    {
        digest.push(0u8);
        i += 1;
        assert(digest@ =~= Seq::new(i as nat, |k: int| 0u8));
    }
    digest
}

/// Hashes each transaction's encoding.
fn hash_leaves<P: CryptoPort>(port: &P, transactions: &Vec<VoteTransaction>) -> (leaves: Vec<
    Vec<u8>,
>)
    ensures
        leaves.len() == transactions.len(),
        leaves.deep_view() == leaf_digests(port, transactions.deep_view()),
{
    let mut leaves: Vec<Vec<u8>> = Vec::new();
    let mut i: usize = 0;
    while i < transactions.len()
        invariant
            i <= transactions.len(),
            leaves.len() == i,
            forall|k: int|
                0 <= k < i ==> (#[trigger] leaves[k])@ == port.digest_of(
                    encoding(transactions[k]@),
                ),
        decreases transactions.len() - i,
    {
        let bytes = encode_transaction(&transactions[i]);
        leaves.push(port.hash(&bytes));
        i += 1;
    }
    proof {
        lemma_rows_view(leaves);
        assert(leaves.deep_view() =~= leaf_digests(port, transactions.deep_view()));
    }
    leaves
}

/// The digest of `left` followed by `right`.
fn hash_pair<P: CryptoPort>(port: &P, left: &Vec<u8>, right: &Vec<u8>) -> (digest: Vec<u8>)
    ensures
        digest@ == port.digest_of(left@ + right@),
{
    let mut joined: Vec<u8> = Vec::new();
    push_bytes(&mut joined, left);
    push_bytes(&mut joined, right);
    assert(joined@ =~= left@ + right@);
    port.hash(&joined)
}

/// Builds the level above `nodes`.
fn build_level_above<P: CryptoPort>(port: &P, nodes: &Vec<Vec<u8>>) -> (above: Vec<Vec<u8>>)
    ensures
        above.len() == (nodes.len() + 1) / 2,
        above.deep_view() == level_above(port, nodes.deep_view()),
{
    let ghost below = nodes.deep_view();
    proof {
        lemma_rows_view(*nodes);
    }
    let pairs: usize = nodes.len() / 2 + nodes.len() % 2;
    let mut above: Vec<Vec<u8>> = Vec::new();
    let mut i: usize = 0;
    while i < pairs
        invariant
            below == nodes.deep_view(),
            below.len() == nodes.len(),
            forall|k: int| 0 <= k < nodes.len() ==> #[trigger] below[k] == nodes[k]@,
            pairs == (nodes.len() + 1) / 2,
            i <= pairs,
            above.len() == i,
            forall|k: int| 0 <= k < i ==> (#[trigger] above[k])@ == parent_of(port, below, k),
        decreases pairs - i,
    {
        let left = &nodes[2 * i];
        let digest = if 2 * i + 1 < nodes.len() {
            hash_pair(port, left, &nodes[2 * i + 1])
        } else {
            hash_pair(port, left, left)
        };
        above.push(digest);
        i += 1;
    }
    proof {
        lemma_rows_view(above);
        assert(above.deep_view() =~= level_above(port, below));
    }
    above
}

/// Commits to `transactions`: the Merkle root of their canonical
/// encodings, in the order given.
///
/// An empty list yields the sentinel. Otherwise each transaction's
/// encoding is hashed into a leaf, and each level is paired off into the
/// next, a last odd node paired with itself, until one node is left.
pub fn commit<P: CryptoPort>(port: &P, transactions: &Vec<VoteTransaction>) -> (root: Vec<u8>)
    ensures
        root@ == merkle_root(port, transactions.deep_view()),
        transactions.len() == 0 ==> root@ == sentinel_hash(),
        root.len() == DIGEST_LEN,
{
    proof {
        lemma_root_width(port, transactions.deep_view());
    }
    if transactions.len() == 0 {
        return sentinel();
    }
    let mut level = hash_leaves(port, transactions);
    while level.len() > 1
        invariant
            level.len() >= 1,
            top_of(port, level.deep_view()) == merkle_root(port, transactions.deep_view()),
        decreases level.len(),
    {
        level = build_level_above(port, &level);
    }
    proof {
        lemma_rows_view(level);
    }
    level.swap_remove(0)
}

} // verus!
