//! The consensus engine: it owns the current committee and the number of
//! faulty members to tolerate, and runs the block lifecycle over them.

use vstd::prelude::*;
use crate::bytes::lemma_rows_view;
use crate::clock::{timestamp_from_seconds, unix_seconds_now};
use crate::crypto::{has_signed, signed_by, CryptoPort};
use crate::merkle::{commit, merkle_root};
use crate::pbft::{advance, verdict};
use crate::quorum::{find_signer, is_signer_at, is_unknown};
use crate::reputation::{settle, settled};
use crate::selector::{
    distinct_key_count,
    distinct_keys,
    drawn_from,
    seat_committee,
    seats,
    select,
    zone_quota,
};
use crate::types::{
    Block,
    BlockHeader,
    BlockHeaderView,
    BlockView,
    ConsensusError,
    SignatureKind,
    Validator,
    ValidatorView,
    VoteTransaction,
    VoteTransactionView,
};

verus! {

/// The zones among which election committees are spread, in the order in
/// which seats are reserved for them.
pub open spec fn election_zones() -> Seq<Seq<char>> {
    seq![
        "South-West"@,
        "North-Central"@,
        "South-South"@,
        "North-West"@,
        "South-East"@,
        "North-East"@,
    ]
}

/// The zones of [`election_zones`].
pub fn default_zones() -> (zones: Vec<String>)
    ensures
        zones.deep_view() == election_zones(),
{
    let mut zones: Vec<String> = Vec::new();
    zones.push("South-West".to_owned());
    zones.push("North-Central".to_owned());
    zones.push("South-South".to_owned());
    zones.push("North-West".to_owned());
    zones.push("South-East".to_owned());
    zones.push("North-East".to_owned());
    assert(zones.deep_view() =~= election_zones());
    zones
}

/// A block as it is proposed: bound to its predecessor and to its
/// transactions, and signed by nobody yet.
pub open spec fn proposed<P: CryptoPort>(
    port: &P,
    transactions: Seq<VoteTransactionView>,
    proposer_key: Seq<u8>,
    prev_block_hash: Seq<u8>,
    height: u64,
    timestamp: u64,
) -> BlockView {
    BlockView {
        header: BlockHeaderView {
            prev_block_hash,
            merkle_root: merkle_root(port, transactions),
            timestamp,
            height,
            validator_pub_key: proposer_key,
            pre_prepare_signatures: Seq::empty(),
            prepare_signatures: Seq::empty(),
            commit_signatures: Seq::empty(),
        },
        transactions,
    }
}

/// The signatures of `block` that are filed under `kind`.
pub open spec fn signatures_of(block: BlockView, kind: SignatureKind) -> Seq<Seq<u8>> {
    match kind {
        SignatureKind::PrePrepare => block.header.pre_prepare_signatures,
        SignatureKind::Prepare => block.header.prepare_signatures,
        SignatureKind::Commit => block.header.commit_signatures,
    }
}

/// `block` with `signature` added at the end of the signatures filed
/// under `kind`.
pub open spec fn with_signature(block: BlockView, kind: SignatureKind, signature: Seq<u8>) -> BlockView {
    let h = block.header;
    BlockView {
        header: BlockHeaderView {
            prev_block_hash: h.prev_block_hash,
            merkle_root: h.merkle_root,
            timestamp: h.timestamp,
            height: h.height,
            validator_pub_key: h.validator_pub_key,
            pre_prepare_signatures: if kind == SignatureKind::PrePrepare {
                h.pre_prepare_signatures.push(signature)
            } else {
                h.pre_prepare_signatures
            },
            prepare_signatures: if kind == SignatureKind::Prepare {
                h.prepare_signatures.push(signature)
            } else {
                h.prepare_signatures
            },
            commit_signatures: if kind == SignatureKind::Commit {
                h.commit_signatures.push(signature)
            } else {
                h.commit_signatures
            },
        },
        transactions: block.transactions,
    }
}

/// Whether `signature` is taken into the signatures of `block` filed
/// under `kind`: refused as unknown where it is valid under no member's
/// key, as a duplicate where its signer has a valid signature there
/// already.
pub open spec fn ingest_verdict<P: CryptoPort>(
    port: &P,
    committee: Seq<ValidatorView>,
    block: BlockView,
    kind: SignatureKind,
    signature: Seq<u8>,
) -> Result<(), ConsensusError> {
    if is_unknown(port, committee, block.header.merkle_root, signature) {
        Err(ConsensusError::UnknownSigner)
    } else if exists|i: int|
        is_signer_at(port, committee, block.header.merkle_root, signature, i) && signed_by(
            port,
            block.header.merkle_root,
            signatures_of(block, kind),
            committee[i].pub_key,
        ) {
        Err(ConsensusError::DuplicateSigner)
    } else {
        Ok(())
    }
}

/// Adds `signature` at the end of `filed`.
fn file_signature(filed: &mut Vec<Vec<u8>>, signature: Vec<u8>)
    ensures
        final(filed).deep_view() == old(filed).deep_view().push(signature@),
{
    let ghost before = *filed;
    filed.push(signature);
    proof {
        lemma_rows_view(before);
        lemma_rows_view(*filed);
        assert(filed.deep_view() =~= before.deep_view().push(signature@));
    }
}

/// The consensus engine of one epoch.
pub struct NaijaConsensusEngine {
    current_committee: Vec<Validator>,
    faulty_nodes_limit: usize,
}

impl NaijaConsensusEngine {
    /// The current committee.
    pub closed spec fn committee(&self) -> Seq<ValidatorView> {
        self.current_committee.deep_view()
    }

    /// The number `f` of faulty members that the committee tolerates.
    pub closed spec fn fault_limit(&self) -> nat {
        self.faulty_nodes_limit as nat
    }

    /// The committee is large enough for its fault limit: at least
    /// `3f + 1` members.
    pub open spec fn wf(&self) -> bool {
        3 * self.fault_limit() + 1 <= self.committee().len()
    }

    /// Starts an engine on `initial_validators` as its committee.
    ///
    /// Fails with `ConfigurationError` exactly when the committee has fewer
    /// than `3 * faulty_limit + 1` members.
    pub fn new(initial_validators: Vec<Validator>, faulty_limit: usize) -> (outcome: Result<
        Self,
        ConsensusError,
    >)
        ensures
            outcome is Ok <==> 3 * faulty_limit + 1 <= initial_validators.len(),
            match outcome {
                Ok(engine) => engine.committee() == initial_validators.deep_view()
                    && engine.fault_limit() == faulty_limit && engine.wf(),
                Err(e) => e == ConsensusError::ConfigurationError,
            },
    {
        let members = initial_validators.len();
        if members >= 1 && faulty_limit <= (members - 1) / 3 {
            Ok(
                NaijaConsensusEngine {
                    current_committee: initial_validators,
                    faulty_nodes_limit: faulty_limit,
                },
            )
        } else {
            Err(ConsensusError::ConfigurationError)
        }
    }

    /// The current committee.
    pub fn current_committee(&self) -> (committee: &Vec<Validator>)
        ensures
            committee.deep_view() == self.committee(),
    {
        &self.current_committee
    }

    /// The number of faulty members that the committee tolerates.
    pub fn faulty_nodes_limit(&self) -> (f: usize)
        ensures
            f == self.fault_limit(),
    {
        self.faulty_nodes_limit
    }

    /// Selects an election committee of `committee_size` members from
    /// `all_staked_validators`, spread over the [`election_zones`] as
    /// [`select`] describes.
    pub fn select_election_validators(
        all_staked_validators: &Vec<Validator>,
        committee_size: usize,
    ) -> (outcome: Result<Vec<Validator>, ConsensusError>)
        ensures
            match outcome {
                Ok(committee) => committee.deep_view() == seats(
                    all_staked_validators.deep_view(),
                    election_zones(),
                    zone_quota(committee_size as nat, election_zones().len()),
                    committee_size as nat,
                ),
                Err(e) => e == ConsensusError::InsufficientValidators,
            },
            outcome is Ok <==> committee_size <= distinct_key_count(
                all_staked_validators.deep_view(),
            ),
            distinct_keys(all_staked_validators.deep_view()) && committee_size
                <= all_staked_validators.len() ==> outcome is Ok,
            outcome matches Ok(committee) ==> committee.len() == committee_size && drawn_from(
                all_staked_validators.deep_view(),
                committee.deep_view(),
            ),
    {
        let zones = default_zones();
        select(all_staked_validators, committee_size, &zones)
    }

    /// Selects a committee of `total_committee_size` members from
    /// `all_staked_validators`, with `num_validators_per_zone` seats
    /// reserved for each of the [`election_zones`].
    pub fn select_validators(
        all_staked_validators: &Vec<Validator>,
        num_validators_per_zone: usize,
        total_committee_size: usize,
    ) -> (outcome: Result<Vec<Validator>, ConsensusError>)
        ensures
            match outcome {
                Ok(committee) => committee.deep_view() == seats(
                    all_staked_validators.deep_view(),
                    election_zones(),
                    num_validators_per_zone as nat,
                    total_committee_size as nat,
                ),
                Err(e) => e == ConsensusError::InsufficientValidators,
            },
            outcome is Ok <==> total_committee_size <= distinct_key_count(
                all_staked_validators.deep_view(),
            ),
            distinct_keys(all_staked_validators.deep_view()) && total_committee_size
                <= all_staked_validators.len() ==> outcome is Ok,
            outcome matches Ok(committee) ==> committee.len() == total_committee_size
                && drawn_from(all_staked_validators.deep_view(), committee.deep_view()),
    {
        let zones = default_zones();
        seat_committee(all_staked_validators, &zones, num_validators_per_zone, total_committee_size)
    }

    /// Replaces the committee by one of `size` members selected from
    /// `pool`.
    ///
    /// Fails with `ConfigurationError` where `size` is less than `3f + 1`,
    /// else with `InsufficientValidators` where the pool holds fewer than
    /// `size` different keys. On failure the committee stays as it was.
    pub fn rotate_committee(&mut self, pool: &Vec<Validator>, size: usize) -> (outcome: Result<
        (),
        ConsensusError,
    >)
        ensures
            final(self).fault_limit() == old(self).fault_limit(),
            old(self).wf() ==> final(self).wf(),
            outcome == if size < 3 * old(self).fault_limit() + 1 {
                Err::<(), ConsensusError>(ConsensusError::ConfigurationError)
            } else if size > distinct_key_count(pool.deep_view()) {
                Err(ConsensusError::InsufficientValidators)
            } else {
                Ok(())
            },
            final(self).committee() == if outcome is Ok {
                seats(
                    pool.deep_view(),
                    election_zones(),
                    zone_quota(size as nat, election_zones().len()),
                    size as nat,
                )
            } else {
                old(self).committee()
            },
    {
        if !(size >= 1 && self.faulty_nodes_limit <= (size - 1) / 3) {
            return Err(ConsensusError::ConfigurationError);
        }
        match NaijaConsensusEngine::select_election_validators(pool, size) {
            Ok(committee) => {
                self.current_committee = committee;
                Ok(())
            },
            Err(e) => Err(e),
        }
    }

    /// Proposes a block over `transactions` at the given chain tip and
    /// time.
    pub fn propose_block_at<P: CryptoPort>(
        &self,
        port: &P,
        transactions: Vec<VoteTransaction>,
        proposer_key: Vec<u8>,
        prev_block_hash: Vec<u8>,
        height: u64,
        timestamp: u64,
    ) -> (block: Block)
        ensures
            block@ == proposed(
                port,
                transactions.deep_view(),
                proposer_key@,
                prev_block_hash@,
                height,
                timestamp,
            ),
    {
        let merkle_root = commit(port, &transactions);
        let header = BlockHeader {
            prev_block_hash,
            merkle_root,
            timestamp,
            height,
            validator_pub_key: proposer_key,
            pre_prepare_signatures: Vec::new(),
            prepare_signatures: Vec::new(),
            commit_signatures: Vec::new(),
        };
        assert(header.pre_prepare_signatures.deep_view() =~= Seq::<Seq<u8>>::empty());
        assert(header.prepare_signatures.deep_view() =~= Seq::<Seq<u8>>::empty());
        assert(header.commit_signatures.deep_view() =~= Seq::<Seq<u8>>::empty());
        Block { header, transactions }
    }

    /// Proposes a block over `transactions` at the given chain tip, stamped
    /// with the current time.
    pub fn propose_block<P: CryptoPort>(
        &self,
        port: &P,
        transactions: Vec<VoteTransaction>,
        proposer_key: Vec<u8>,
        prev_block_hash: Vec<u8>,
        height: u64,
    ) -> (block: Block)
        ensures
            block@ == proposed(
                port,
                transactions.deep_view(),
                proposer_key@,
                prev_block_hash@,
                height,
                block.header.timestamp,
            ),
    {
        let timestamp = timestamp_from_seconds(unix_seconds_now());
        self.propose_block_at(port, transactions, proposer_key, prev_block_hash, height, timestamp)
    }

    /// Takes `signature` into the signatures of `block` filed under `kind`.
    ///
    /// The signature is added exactly when it is a valid signature of the
    /// block's Merkle root by a committee member who has none there yet;
    /// otherwise it is refused and the block stays as it was.
    pub fn ingest_signature<P: CryptoPort>(
        &self,
        port: &P,
        block: &mut Block,
        kind: SignatureKind,
        signature: Vec<u8>,
    ) -> (outcome: Result<(), ConsensusError>)
        ensures
            outcome == ingest_verdict(port, self.committee(), old(block)@, kind, signature@),
            final(block)@ == if outcome is Ok {
                with_signature(old(block)@, kind, signature@)
            } else {
                old(block)@
            },
    {
        let ghost before = block@;
        let found = find_signer(port, &self.current_committee, &block.header.merkle_root, &signature);
        match found {
            None => Err(ConsensusError::UnknownSigner),
            Some(i) => {
                let key = &self.current_committee[i].pub_key;
                assert(self.committee()[i as int].pub_key == key@);
                let filed = match kind {
                    SignatureKind::PrePrepare => &block.header.pre_prepare_signatures,
                    SignatureKind::Prepare => &block.header.prepare_signatures,
                    SignatureKind::Commit => &block.header.commit_signatures,
                };
                assert(filed.deep_view() == signatures_of(before, kind));
                if has_signed(port, &block.header.merkle_root, filed, key) {
                    Err(ConsensusError::DuplicateSigner)
                } else {
                    assert forall|j: int|
                        is_signer_at(
                            port,
                            self.committee(),
                            before.header.merkle_root,
                            signature@,
                            j,
                        ) implies j == i by {}
                    match kind {
                        SignatureKind::PrePrepare => {
                            file_signature(&mut block.header.pre_prepare_signatures, signature);
                        },
                        SignatureKind::Prepare => {
                            file_signature(&mut block.header.prepare_signatures, signature);
                        },
                        SignatureKind::Commit => {
                            file_signature(&mut block.header.commit_signatures, signature);
                        },
                    }
                    assert(block@ == with_signature(before, kind, signature@));
                    Ok(())
                }
            },
        }
    }

    /// Settles `block` on the engine's validators: those with a seat in
    /// `committee` are rewarded where they signed the commit and penalised
    /// where they did not.
    pub fn update_reputations_for_block<P: CryptoPort>(
        &mut self,
        port: &P,
        block: &Block,
        committee: &Vec<Validator>,
    )
        ensures
            final(self).committee() == settled(
                port,
                old(self).committee(),
                committee.deep_view(),
                block@,
            ),
            final(self).fault_limit() == old(self).fault_limit(),
            old(self).wf() ==> final(self).wf(),
    {
        let updated = settle(port, &self.current_committee, committee, block);
        self.current_committee = updated;
    }

    /// Runs the agreement on `block` against `current_committee` and, where
    /// the block finalizes, settles it on the engine's validators.
    ///
    /// Returns the block exactly when its Merkle root matches, its proposer
    /// is accepted, and its prepare and its commit signatures each hold a
    /// quorum of `2f + 1` distinct members; otherwise the first of these
    /// that fails, and the engine stays as it was.
    pub fn process_block_pbft<P: CryptoPort>(
        &mut self,
        port: &P,
        proposed_block: Block,
        current_committee: &Vec<Validator>,
    ) -> (outcome: Result<Block, ConsensusError>)
        ensures
            final(self).fault_limit() == old(self).fault_limit(),
            old(self).wf() ==> final(self).wf(),
            match outcome {
                Ok(block) => block == proposed_block && verdict(
                    port,
                    current_committee.deep_view(),
                    old(self).fault_limit(),
                    proposed_block@,
                ) is Ok && final(self).committee() == settled(
                    port,
                    old(self).committee(),
                    current_committee.deep_view(),
                    proposed_block@,
                ),
                Err(e) => verdict(
                    port,
                    current_committee.deep_view(),
                    old(self).fault_limit(),
                    proposed_block@,
                ) == Err::<(), ConsensusError>(e) && final(self).committee() == old(
                    self,
                ).committee(),
            },
    {
        match advance(port, current_committee, self.faulty_nodes_limit, &proposed_block) {
            Ok(()) => {
                self.update_reputations_for_block(port, &proposed_block, current_committee);
                Ok(proposed_block)
            },
            Err(e) => Err(e),
        }
    }

    /// Runs the agreement on `block` against the engine's own committee
    /// and, where the block finalizes, settles it on the committee.
    ///
    /// Returns the block exactly when its Merkle root matches, its proposer
    /// is accepted, and its prepare and its commit signatures each hold a
    /// quorum of `2f + 1` distinct members; otherwise the first of these
    /// that fails, and the engine stays as it was.
    pub fn finalize_block_pbft<P: CryptoPort>(&mut self, port: &P, block: Block) -> (outcome: Result<
        Block,
        ConsensusError,
    >)
        ensures
            final(self).fault_limit() == old(self).fault_limit(),
            old(self).wf() ==> final(self).wf(),
            match outcome {
                Ok(finalized) => finalized == block && verdict(
                    port,
                    old(self).committee(),
                    old(self).fault_limit(),
                    block@,
                ) is Ok && final(self).committee() == settled(
                    port,
                    old(self).committee(),
                    old(self).committee(),
                    block@,
                ),
                Err(e) => verdict(port, old(self).committee(), old(self).fault_limit(), block@)
                    == Err::<(), ConsensusError>(e) && final(self).committee() == old(
                    self,
                ).committee(),
            },
    {
        match advance(port, &self.current_committee, self.faulty_nodes_limit, &block) {
            Ok(()) => {
                let updated = settle(port, &self.current_committee, &self.current_committee, &block);
                self.current_committee = updated;
                Ok(block)
            },
            Err(e) => Err(e),
        }
    }
}

} // verus!
