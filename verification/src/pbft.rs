//! The three-phase agreement on one block, as a state machine over the
//! signatures collected in its header.

use vstd::prelude::*;
use crate::bytes::bytes_eq;
use crate::crypto::{has_signed, signed_by, CryptoPort};
use crate::merkle::{commit, merkle_root};
use crate::quorum::{distinct_signers, has_quorum, lemma_signers_bounded, quorum_reached};
use crate::selector::{holds, holds_key};
use crate::types::{Block, BlockView, ConsensusError, Phase, Validator, ValidatorView};

verus! {

/// The header's Merkle root is the root of the block's transactions.
pub open spec fn root_matches<P: CryptoPort>(port: &P, block: BlockView) -> bool {
    block.header.merkle_root == merkle_root(port, block.transactions)
}

/// The proposer holds a seat in `committee`, and some pre-prepare
/// signature is the proposer's valid signature of the Merkle root.
pub open spec fn proposer_accepted<P: CryptoPort>(
    port: &P,
    committee: Seq<ValidatorView>,
    block: BlockView,
) -> bool {
    &&& holds_key(committee, block.header.validator_pub_key)
    &&& signed_by(
        port,
        block.header.merkle_root,
        block.header.pre_prepare_signatures,
        block.header.validator_pub_key,
    )
}

/// The prepare signatures hold a quorum over the Merkle root.
pub open spec fn prepare_quorum<P: CryptoPort>(
    port: &P,
    committee: Seq<ValidatorView>,
    f: nat,
    block: BlockView,
) -> bool {
    has_quorum(port, committee, f, block.header.merkle_root, block.header.prepare_signatures)
}

/// The commit signatures hold a quorum over the Merkle root.
pub open spec fn commit_quorum<P: CryptoPort>(
    port: &P,
    committee: Seq<ValidatorView>,
    f: nat,
    block: BlockView,
) -> bool {
    has_quorum(port, committee, f, block.header.merkle_root, block.header.commit_signatures)
}

/// A phase that no transition leaves.
pub open spec fn is_terminal(phase: Phase) -> bool {
    phase == Phase::Finalized || phase == Phase::Rejected
}

/// The transition out of `phase`: the next phase, or why the block does
/// not reach it. A terminal phase stays. From any other phase a block
/// whose Merkle root does not match is refused, whatever it is signed by.
pub open spec fn transition<P: CryptoPort>(
    port: &P,
    committee: Seq<ValidatorView>,
    f: nat,
    block: BlockView,
    phase: Phase,
) -> Result<Phase, ConsensusError> {
    if is_terminal(phase) {
        Ok(phase)
    } else if !root_matches(port, block) {
        Err(ConsensusError::InvalidMerkleRoot)
    } else {
        match phase {
            Phase::Proposed => if proposer_accepted(port, committee, block) {
                Ok(Phase::PrePrepared)
            } else {
                Err(ConsensusError::InvalidProposer)
            },
            Phase::PrePrepared => if prepare_quorum(port, committee, f, block) {
                Ok(Phase::Prepared)
            } else {
                Err(ConsensusError::QuorumNotReached)
            },
            Phase::Prepared => if commit_quorum(port, committee, f, block) {
                Ok(Phase::Committed)
            } else {
                Err(ConsensusError::QuorumNotReached)
            },
            _ => Ok(Phase::Finalized),
        }
    }
}

/// The phase a block is left in when the transition out of `phase` fails
/// with `error`: where it was while a quorum is missing, `Rejected` on
/// every other failure.
pub open spec fn phase_after_failure(phase: Phase, error: ConsensusError) -> Phase {
    if error == ConsensusError::QuorumNotReached {
        phase
    } else {
        Phase::Rejected
    }
}

/// Whether a proposed block finalizes: the first check that fails, in the
/// order in which the phases make them, or `Ok` where none does.
pub open spec fn verdict<P: CryptoPort>(
    port: &P,
    committee: Seq<ValidatorView>,
    f: nat,
    block: BlockView,
) -> Result<(), ConsensusError> {
    if !root_matches(port, block) {
        Err(ConsensusError::InvalidMerkleRoot)
    } else if !proposer_accepted(port, committee, block) {
        Err(ConsensusError::InvalidProposer)
    } else if !prepare_quorum(port, committee, f, block) {
        Err(ConsensusError::QuorumNotReached)
    } else if !commit_quorum(port, committee, f, block) {
        Err(ConsensusError::QuorumNotReached)
    } else {
        Ok(())
    }
}

/// The phase in which a proposed block comes to rest.
pub open spec fn resting_phase<P: CryptoPort>(
    port: &P,
    committee: Seq<ValidatorView>,
    f: nat,
    block: BlockView,
) -> Phase {
    if !root_matches(port, block) || !proposer_accepted(port, committee, block) {
        Phase::Rejected
    } else if !prepare_quorum(port, committee, f, block) {
        Phase::PrePrepared
    } else if !commit_quorum(port, committee, f, block) {
        Phase::Prepared
    } else {
        Phase::Finalized
    }
}

/// How many transitions lie between `phase` and `Finalized`.
pub open spec fn transitions_left(phase: Phase) -> nat {
    match phase {
        Phase::Proposed => 4,
        Phase::PrePrepared => 3,
        Phase::Prepared => 2,
        Phase::Committed => 1,
        _ => 0,
    }
}

/// What a block must have shown to stand in `phase`.
pub open spec fn earned<P: CryptoPort>(
    port: &P,
    committee: Seq<ValidatorView>,
    f: nat,
    block: BlockView,
    phase: Phase,
) -> bool {
    match phase {
        Phase::Proposed => true,
        Phase::PrePrepared => root_matches(port, block) && proposer_accepted(port, committee, block),
        Phase::Prepared => root_matches(port, block) && proposer_accepted(port, committee, block)
            && prepare_quorum(port, committee, f, block),
        Phase::Committed | Phase::Finalized => root_matches(port, block) && proposer_accepted(
            port,
            committee,
            block,
        ) && prepare_quorum(port, committee, f, block) && commit_quorum(port, committee, f, block),
        Phase::Rejected => false,
    }
}

/// No transition carries a block into a phase it has not earned: a block
/// that has earned its phase has earned the next one too. So no block
/// passes `Prepared` without a quorum of prepare signatures, nor
/// `Committed` without a quorum of commit signatures.
pub proof fn lemma_transitions_are_earned<P: CryptoPort>(
    port: &P,
    committee: Seq<ValidatorView>,
    f: nat,
    block: BlockView,
    phase: Phase,
)
    requires
        earned(port, committee, f, block, phase),
    ensures
        transition(port, committee, f, block, phase) matches Ok(next) ==> earned(
            port,
            committee,
            f,
            block,
            next,
        ),
{
}

/// A block whose Merkle root does not match is refused for that, whatever
/// its signatures are, and comes to rest in `Rejected`.
pub proof fn lemma_tampered_root_is_refused<P: CryptoPort>(
    port: &P,
    committee: Seq<ValidatorView>,
    f: nat,
    block: BlockView,
)
    requires
        !root_matches(port, block),
    ensures
        verdict(port, committee, f, block) == Err::<(), ConsensusError>(
            ConsensusError::InvalidMerkleRoot,
        ),
        resting_phase(port, committee, f, block) == Phase::Rejected,
        forall|phase: Phase|
            !is_terminal(phase) ==> transition(port, committee, f, block, phase) == Err::<
                Phase,
                ConsensusError,
            >(ConsensusError::InvalidMerkleRoot),
{
}

/// A block with a matching root and no pre-prepare signature is refused
/// for its proposer.
pub proof fn lemma_unsigned_proposal_is_refused<P: CryptoPort>(
    port: &P,
    committee: Seq<ValidatorView>,
    f: nat,
    block: BlockView,
)
    requires
        root_matches(port, block),
        block.header.pre_prepare_signatures.len() == 0,
    ensures
        verdict(port, committee, f, block) == Err::<(), ConsensusError>(
            ConsensusError::InvalidProposer,
        ),
{
}

/// A block finalizes only with a quorum of distinct committee signers
/// behind its prepare signatures and another behind its commit signatures.
pub proof fn lemma_finality_needs_quorums<P: CryptoPort>(
    port: &P,
    committee: Seq<ValidatorView>,
    f: nat,
    block: BlockView,
)
    requires
        verdict(port, committee, f, block) is Ok,
    ensures
        distinct_signers(
            port,
            committee,
            block.header.merkle_root,
            block.header.prepare_signatures,
        ) >= 2 * f + 1,
        distinct_signers(port, committee, block.header.merkle_root, block.header.commit_signatures)
            >= 2 * f + 1,
        committee.len() >= 2 * f + 1,
{
    lemma_signers_bounded(
        port,
        committee,
        block.header.merkle_root,
        block.header.prepare_signatures,
        committee.len(),
    );
}

/// Whether the header's Merkle root is the root of the block's
/// transactions.
pub fn check_root<P: CryptoPort>(port: &P, block: &Block) -> (matches: bool)
    ensures
        matches == root_matches(port, block@),
{
    let root = commit(port, &block.transactions);
    bytes_eq(&block.header.merkle_root, &root)
}

/// Whether the proposer holds a seat and has signed the Merkle root.
pub fn check_proposer<P: CryptoPort>(port: &P, committee: &Vec<Validator>, block: &Block) -> (accepted:
    bool)
    ensures
        accepted == proposer_accepted(port, committee.deep_view(), block@),
{
    holds(committee, &block.header.validator_pub_key) && has_signed(
        port,
        &block.header.merkle_root,
        &block.header.pre_prepare_signatures,
        &block.header.validator_pub_key,
    )
}

/// Makes the transition out of `phase`.
pub fn next_phase<P: CryptoPort>(
    port: &P,
    committee: &Vec<Validator>,
    f: usize,
    block: &Block,
    phase: Phase,
) -> (outcome: Result<Phase, ConsensusError>)
    ensures
        outcome == transition(port, committee.deep_view(), f as nat, block@, phase),
{
    match phase {
        Phase::Finalized => Ok(Phase::Finalized),
        Phase::Rejected => Ok(Phase::Rejected),
        _ => {
            if !check_root(port, block) {
                return Err(ConsensusError::InvalidMerkleRoot);
            }
            match phase {
                Phase::Proposed => {
                    if check_proposer(port, committee, block) {
                        Ok(Phase::PrePrepared)
                    } else {
                        Err(ConsensusError::InvalidProposer)
                    }
                },
                Phase::PrePrepared => {
                    if quorum_reached(
                        port,
                        committee,
                        f,
                        &block.header.merkle_root,
                        &block.header.prepare_signatures,
                    ) {
                        Ok(Phase::Prepared)
                    } else {
                        Err(ConsensusError::QuorumNotReached)
                    }
                },
                Phase::Prepared => {
                    if quorum_reached(
                        port,
                        committee,
                        f,
                        &block.header.merkle_root,
                        &block.header.commit_signatures,
                    ) {
                        Ok(Phase::Committed)
                    } else {
                        Err(ConsensusError::QuorumNotReached)
                    }
                },
                _ => Ok(Phase::Finalized),
            }
        },
    }
}

/// The phase a block is left in when the transition out of `phase` fails
/// with `error`.
pub fn after_failure(phase: Phase, error: ConsensusError) -> (left_in: Phase)
    ensures
        left_in == phase_after_failure(phase, error),
{
    if error == ConsensusError::QuorumNotReached {
        phase
    } else {
        Phase::Rejected
    }
}

/// Drives a proposed block through the phases, one transition after the
/// other, until it is finalized or a transition fails, and reports the
/// phase in which it comes to rest and why it went no further.
pub fn drive<P: CryptoPort>(port: &P, committee: &Vec<Validator>, f: usize, block: &Block) -> (rest: (
    Phase,
    Result<(), ConsensusError>,
))
    ensures
        rest.0 == resting_phase(port, committee.deep_view(), f as nat, block@),
        rest.1 == verdict(port, committee.deep_view(), f as nat, block@),
        rest.1 is Ok <==> rest.0 == Phase::Finalized,
{
    let mut phase = Phase::Proposed;
    loop
        invariant
            phase != Phase::Rejected,
            earned(port, committee.deep_view(), f as nat, block@, phase),
        decreases transitions_left(phase),
    {
        if phase == Phase::Finalized {
            return (phase, Ok(()));
        }
        match next_phase(port, committee, f, block, phase) {
            Ok(next) => {
                phase = next;
            },
            Err(e) => {
                return (after_failure(phase, e), Err(e));
            },
        }
    }
}

/// Decides whether a proposed block finalizes.
///
/// Returns `Ok` exactly when the Merkle root matches, the proposer is
/// accepted, and both the prepare and the commit signatures hold a quorum;
/// otherwise the first of these that fails.
pub fn advance<P: CryptoPort>(port: &P, committee: &Vec<Validator>, f: usize, block: &Block) -> (outcome:
    Result<(), ConsensusError>)
    ensures
        outcome == verdict(port, committee.deep_view(), f as nat, block@),
        outcome is Ok <==> resting_phase(port, committee.deep_view(), f as nat, block@)
            == Phase::Finalized,
{
    drive(port, committee, f, block).1
}

} // verus!
