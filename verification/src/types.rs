//! The data model: validators, vote transactions, blocks, and the errors
//! the consensus core reports. Every type has a mathematical view over
//! which the contracts of the other modules are stated.

use vstd::prelude::*;
use crate::bytes::lemma_rows_view;

verus! {

/// A validator eligible for committee seats. Its identity is `pub_key`.
#[derive(Debug, PartialEq, Eq)]
pub struct Validator {
    pub pub_key: Vec<u8>,
    pub stake: u64,
    pub reputation_score: u64,
    pub geopolitical_zone: String,
}

/// What a [`Validator`] holds, as plain values.
pub struct ValidatorView {
    pub pub_key: Seq<u8>,
    pub stake: u64,
    pub reputation_score: u64,
    pub geopolitical_zone: Seq<char>,
}

impl View for Validator {
    type V = ValidatorView;

    open spec fn view(&self) -> ValidatorView {
        ValidatorView {
            pub_key: self.pub_key@,
            stake: self.stake,
            reputation_score: self.reputation_score,
            geopolitical_zone: self.geopolitical_zone@,
        }
    }
}

impl DeepView for Validator {
    type V = ValidatorView;

    open spec fn deep_view(&self) -> ValidatorView {
        self@
    }
}

impl Clone for Validator {
    fn clone(&self) -> (copy: Self)
        ensures
            copy@ == self@,
    {
        Validator {
            pub_key: self.pub_key.clone(),
            stake: self.stake,
            reputation_score: self.reputation_score,
            geopolitical_zone: self.geopolitical_zone.clone(),
        }
    }
}

/// A registered voter, as the voter registry records one.
#[derive(Debug)]
pub struct VoterIdentity {
    pub hashed_nin_bvn: Vec<u8>,
    pub voting_token: Vec<u8>,
    pub has_voted: bool,
}

impl Clone for VoterIdentity {
    fn clone(&self) -> (copy: Self)
        ensures
            copy.hashed_nin_bvn@ == self.hashed_nin_bvn@,
            copy.voting_token@ == self.voting_token@,
            copy.has_voted == self.has_voted,
    {
        VoterIdentity {
            hashed_nin_bvn: self.hashed_nin_bvn.clone(),
            voting_token: self.voting_token.clone(),
            has_voted: self.has_voted,
        }
    }
}

/// One signed vote.
#[derive(Debug)]
pub struct VoteTransaction {
    pub voter_pub_key: Vec<u8>,
    pub election_id: Vec<u8>,
    pub candidate_id: Vec<u8>,
    pub timestamp: u64,
    pub signature: Vec<u8>,
}

/// What a [`VoteTransaction`] holds, as plain values.
pub struct VoteTransactionView {
    pub voter_pub_key: Seq<u8>,
    pub election_id: Seq<u8>,
    pub candidate_id: Seq<u8>,
    pub timestamp: u64,
    pub signature: Seq<u8>,
}

impl View for VoteTransaction {
    type V = VoteTransactionView;

    open spec fn view(&self) -> VoteTransactionView {
        VoteTransactionView {
            voter_pub_key: self.voter_pub_key@,
            election_id: self.election_id@,
            candidate_id: self.candidate_id@,
            timestamp: self.timestamp,
            signature: self.signature@,
        }
    }
}

impl DeepView for VoteTransaction {
    type V = VoteTransactionView;

    open spec fn deep_view(&self) -> VoteTransactionView {
        self@
    }
}

impl Clone for VoteTransaction {
    fn clone(&self) -> (copy: Self)
        ensures
            copy@ == self@,
    {
        VoteTransaction {
            voter_pub_key: self.voter_pub_key.clone(),
            election_id: self.election_id.clone(),
            candidate_id: self.candidate_id.clone(),
            timestamp: self.timestamp,
            signature: self.signature.clone(),
        }
    }
}

/// Copies a list of byte strings.
pub fn clone_rows(rows: &Vec<Vec<u8>>) -> (copy: Vec<Vec<u8>>)
    ensures
        copy.deep_view() == rows.deep_view(),
{
    let mut copy: Vec<Vec<u8>> = Vec::new();
    let mut i: usize = 0;
    while i < rows.len()
        invariant
            i <= rows.len(),
            copy.len() == i,
            forall|k: int| 0 <= k < i ==> (#[trigger] copy[k])@ == rows[k]@,
        decreases rows.len() - i,
    {
        copy.push(rows[i].clone());
        i += 1;
    }
    proof {
        lemma_rows_view(copy);
        lemma_rows_view(*rows);
        assert(copy.deep_view() =~= rows.deep_view());
    }
    copy
}

/// The header that binds a block to its predecessor, its transactions and
/// the signatures collected for it during agreement.
#[derive(Debug)]
pub struct BlockHeader {
    pub prev_block_hash: Vec<u8>,
    pub merkle_root: Vec<u8>,
    pub timestamp: u64,
    pub height: u64,
    /// Public key of the proposer.
    pub validator_pub_key: Vec<u8>,
    pub pre_prepare_signatures: Vec<Vec<u8>>,
    pub prepare_signatures: Vec<Vec<u8>>,
    pub commit_signatures: Vec<Vec<u8>>,
}

/// What a [`BlockHeader`] holds, as plain values.
pub struct BlockHeaderView {
    pub prev_block_hash: Seq<u8>,
    pub merkle_root: Seq<u8>,
    pub timestamp: u64,
    pub height: u64,
    pub validator_pub_key: Seq<u8>,
    pub pre_prepare_signatures: Seq<Seq<u8>>,
    pub prepare_signatures: Seq<Seq<u8>>,
    pub commit_signatures: Seq<Seq<u8>>,
}

impl View for BlockHeader {
    type V = BlockHeaderView;

    open spec fn view(&self) -> BlockHeaderView {
        BlockHeaderView {
            prev_block_hash: self.prev_block_hash@,
            merkle_root: self.merkle_root@,
            timestamp: self.timestamp,
            height: self.height,
            validator_pub_key: self.validator_pub_key@,
            pre_prepare_signatures: self.pre_prepare_signatures.deep_view(),
            prepare_signatures: self.prepare_signatures.deep_view(),
            commit_signatures: self.commit_signatures.deep_view(),
        }
    }
}

impl Clone for BlockHeader {
    fn clone(&self) -> (copy: Self)
        ensures
            copy@ == self@,
    {
        BlockHeader {
            prev_block_hash: self.prev_block_hash.clone(),
            merkle_root: self.merkle_root.clone(),
            timestamp: self.timestamp,
            height: self.height,
            validator_pub_key: self.validator_pub_key.clone(),
            pre_prepare_signatures: clone_rows(&self.pre_prepare_signatures),
            prepare_signatures: clone_rows(&self.prepare_signatures),
            commit_signatures: clone_rows(&self.commit_signatures),
        }
    }
}

/// A block: a header and the ordered transactions it commits to.
#[derive(Debug)]
pub struct Block {
    pub header: BlockHeader,
    pub transactions: Vec<VoteTransaction>,
}

/// What a [`Block`] holds, as plain values.
pub struct BlockView {
    pub header: BlockHeaderView,
    pub transactions: Seq<VoteTransactionView>,
}

impl View for Block {
    type V = BlockView;

    open spec fn view(&self) -> BlockView {
        BlockView { header: self.header@, transactions: self.transactions.deep_view() }
    }
}

impl Clone for Block {
    fn clone(&self) -> (copy: Self)
        ensures
            copy@ == self@,
    {
        let mut transactions: Vec<VoteTransaction> = Vec::new();
        let mut i: usize = 0;
        while i < self.transactions.len()
            invariant
                i <= self.transactions.len(),
                transactions.len() == i,
                forall|k: int| 0 <= k < i ==> (#[trigger] transactions[k])@ == self.transactions[k]@,
            decreases self.transactions.len() - i,
        {
            transactions.push(self.transactions[i].clone());
            i += 1;
        }
        assert(transactions.deep_view() =~= self.transactions.deep_view());
        Block { header: self.header.clone(), transactions }
    }
}

/// The phases of one block's agreement.
#[derive(Debug, Clone, Copy, PartialEq, Eq, Structural)]
pub enum Phase {
    Proposed,
    PrePrepared,
    Prepared,
    Committed,
    Finalized,
    Rejected,
}

/// The collection a signature is filed under.
#[derive(Debug, Clone, Copy, PartialEq, Eq, Structural)]
pub enum SignatureKind {
    PrePrepare,
    Prepare,
    Commit,
}

/// Everything the consensus core can refuse.
#[derive(Debug, Clone, Copy, PartialEq, Eq, Structural)]
pub enum ConsensusError {
    /// The proposer's signature is absent or invalid, or the proposer holds
    /// no committee seat.
    InvalidProposer,
    /// Fewer than `2f + 1` distinct committee members have signed. The
    /// caller may retry once more signatures have arrived.
    QuorumNotReached,
    /// The header's Merkle root is not the root of the block's transactions.
    InvalidMerkleRoot,
    /// The pool cannot fill the committee.
    InsufficientValidators,
    /// The committee is smaller than `3f + 1`.
    ConfigurationError,
    /// The signer has already signed in this phase.
    DuplicateSigner,
    /// The signature verifies under no committee member's key.
    UnknownSigner,
}

} // verus!
