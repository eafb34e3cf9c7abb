//! The reputation ledger: what a finalized block does to the reputation of
//! the committee's members.

use vstd::prelude::*;
use crate::crypto::{has_signed, signed_by, CryptoPort};
use crate::selector::{holds, holds_key, keys_of};
use crate::types::{Block, BlockView, Validator, ValidatorView};

verus! {

/// The score after a reward: one more, capped at the largest score.
pub open spec fn rewarded(score: u64) -> u64 {
    if score == u64::MAX {
        u64::MAX
    } else {
        (score + 1) as u64
    }
}

/// The score after a penalty: five less, floored at zero.
pub open spec fn penalised(score: u64) -> u64 {
    if score < 5 {
        0
    } else {
        (score - 5) as u64
    }
}

/// `v` with the reputation score `score`.
pub open spec fn with_score(v: ValidatorView, score: u64) -> ValidatorView {
    ValidatorView {
        pub_key: v.pub_key,
        stake: v.stake,
        reputation_score: score,
        geopolitical_zone: v.geopolitical_zone,
    }
}

/// What `block` does to `v`: nothing where `v` holds no seat in
/// `committee`; a reward where some commit signature of the block is a
/// valid signature of its Merkle root under `v`'s key; a penalty otherwise.
pub open spec fn settled_member<P: CryptoPort>(
    port: &P,
    committee: Seq<ValidatorView>,
    block: BlockView,
    v: ValidatorView,
) -> ValidatorView {
    if !holds_key(committee, v.pub_key) {
        v
    } else if signed_by(port, block.header.merkle_root, block.header.commit_signatures, v.pub_key) {
        with_score(v, rewarded(v.reputation_score))
    } else {
        with_score(v, penalised(v.reputation_score))
    }
}

/// `validators` after `block` was settled for `committee`: each settled
/// on its own, in the order given.
pub open spec fn settled<P: CryptoPort>(
    port: &P,
    validators: Seq<ValidatorView>,
    committee: Seq<ValidatorView>,
    block: BlockView,
) -> Seq<ValidatorView> {
    Seq::new(validators.len(), |i: int| settled_member(port, committee, block, validators[i]))
}

/// A committee member who signed the commit gains exactly one point,
/// capped; one who did not loses exactly five, floored at zero. Key, stake
/// and zone stay, and so does every member's place.
pub proof fn lemma_reputation_accounting<P: CryptoPort>(
    port: &P,
    committee: Seq<ValidatorView>,
    block: BlockView,
    i: int,
)
    requires
        0 <= i < committee.len(),
    ensures
        settled(port, committee, committee, block).len() == committee.len(),
        settled(port, committee, committee, block)[i] == with_score(
            committee[i],
            if signed_by(
                port,
                block.header.merkle_root,
                block.header.commit_signatures,
                committee[i].pub_key,
            ) {
                rewarded(committee[i].reputation_score)
            } else {
                penalised(committee[i].reputation_score)
            },
        ),
{
    assert(keys_of(committee)[i] == committee[i].pub_key);
}

/// A validator without a seat in the committee is left as it was.
pub proof fn lemma_outsiders_untouched<P: CryptoPort>(
    port: &P,
    validators: Seq<ValidatorView>,
    committee: Seq<ValidatorView>,
    block: BlockView,
    i: int,
)
    requires
        0 <= i < validators.len(),
        !holds_key(committee, validators[i].pub_key),
    ensures
        settled(port, validators, committee, block)[i] == validators[i],
{
}

/// Settles `block` for `committee` on `validators`: rewards the members
/// who signed the commit, penalises the members who did not, and leaves
/// the validators without a seat as they were.
pub fn settle<P: CryptoPort>(
    port: &P,
    validators: &Vec<Validator>,
    committee: &Vec<Validator>,
    block: &Block,
) -> (updated: Vec<Validator>)
    ensures
        updated.deep_view() == settled(
            port,
            validators.deep_view(),
            committee.deep_view(),
            block@,
        ),
{
    let ghost target = settled(port, validators.deep_view(), committee.deep_view(), block@);
    let mut updated: Vec<Validator> = Vec::new();
    let mut i: usize = 0;
    while i < validators.len()
        invariant
            i <= validators.len(),
            updated.len() == i,
            target == settled(port, validators.deep_view(), committee.deep_view(), block@),
            forall|k: int| 0 <= k < i ==> (#[trigger] updated[k])@ == target[k],
        decreases validators.len() - i,
    {
        let v = &validators[i];
        assert(validators.deep_view()[i as int] == v@);
        let mut next = v.clone();
        if holds(committee, &v.pub_key) {
            if has_signed(
                port,
                &block.header.merkle_root,
                &block.header.commit_signatures,
                &v.pub_key,
            ) {
                if next.reputation_score < u64::MAX {
                    next.reputation_score = next.reputation_score + 1;
                }
            } else if next.reputation_score < 5 {
                next.reputation_score = 0;
            } else {
                next.reputation_score = next.reputation_score - 5;
            }
        }
        assert(next@ == target[i as int]);
        updated.push(next);
        i += 1;
    }
    assert(updated.deep_view() =~= target);
    updated
}

/// Applies `block` to the reputation of `committee`: the committee with
/// each member rewarded or penalised, in the same order.
pub fn apply<P: CryptoPort>(port: &P, committee: &Vec<Validator>, block: &Block) -> (updated: Vec<
    Validator,
>)
    ensures
        updated.deep_view() == settled(
            port,
            committee.deep_view(),
            committee.deep_view(),
            block@,
        ),
{
    settle(port, committee, committee, block)
}

} // verus!
