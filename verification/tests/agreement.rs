use naija_consensus::clock::timestamp_from_seconds;
use naija_consensus::crypto::{has_signed, is_vouched, CryptoPort, VerifyError};
use naija_consensus::engine::NaijaConsensusEngine;
use naija_consensus::merkle::commit;
use naija_consensus::pbft::{advance, after_failure, check_proposer, check_root, drive, next_phase};
use naija_consensus::quorum::{count_signers, find_signer, quorum_reached};
use naija_consensus::reputation::{apply, settle};
use naija_consensus::simulation::SimulationPort;
use naija_consensus::types::{
    Block, ConsensusError, Phase, SignatureKind, Validator, VoteTransaction, VoterIdentity,
};

const ZONES: [&str; 6] = [
    "South-West",
    "North-Central",
    "South-South",
    "North-West",
    "South-East",
    "North-East",
];

fn pool_of(n: u8) -> Vec<Validator> {
    (1..=n)
        .map(|i| Validator {
            pub_key: vec![i],
            stake: 1000 + 10 * i as u64,
            reputation_score: 50 + i as u64,
            geopolitical_zone: ZONES[(i as usize) % 6].to_string(),
        })
        .collect()
}

fn vote() -> VoteTransaction {
    VoteTransaction {
        voter_pub_key: vec![10],
        election_id: vec![1],
        candidate_id: vec![2],
        timestamp: 0,
        signature: vec![0; 64],
    }
}

fn sign(key: &[u8], block: &Block) -> Vec<u8> {
    SimulationPort::sign(&key.to_vec(), &block.header.merkle_root)
}

/// An engine on a selected committee of `n` with fault limit `f`, and a
/// block proposed and signed by its first member.
fn proposed(n: u8, f: usize) -> (NaijaConsensusEngine, Block) {
    let committee =
        NaijaConsensusEngine::select_election_validators(&pool_of(n), n as usize).unwrap();
    let proposer = committee[0].pub_key.clone();
    let engine = NaijaConsensusEngine::new(committee, f).unwrap();
    let mut block =
        engine.propose_block_at(&SimulationPort, vec![vote()], proposer.clone(), vec![0; 32], 100, 7);
    let signature = sign(&proposer, &block);
    block.header.pre_prepare_signatures.push(signature);
    (engine, block)
}

fn signatures_of_first(engine: &NaijaConsensusEngine, block: &Block, n: usize) -> Vec<Vec<u8>> {
    engine.current_committee()[..n].iter().map(|v| sign(&v.pub_key, block)).collect()
}

fn scores(committee: &[Validator]) -> Vec<u64> {
    committee.iter().map(|v| v.reputation_score).collect()
}

#[test]
fn engine_needs_three_f_plus_one_members() {
    assert!(NaijaConsensusEngine::new(pool_of(21), 6).is_ok());
    assert!(NaijaConsensusEngine::new(pool_of(19), 6).is_ok());
    assert_eq!(
        NaijaConsensusEngine::new(pool_of(18), 6).err(),
        Some(ConsensusError::ConfigurationError)
    );
    assert_eq!(
        NaijaConsensusEngine::new(pool_of(21), 7).err(),
        Some(ConsensusError::ConfigurationError)
    );
    assert_eq!(
        NaijaConsensusEngine::new(Vec::new(), 0).err(),
        Some(ConsensusError::ConfigurationError)
    );
    assert!(NaijaConsensusEngine::new(pool_of(1), 0).is_ok());
    assert_eq!(
        NaijaConsensusEngine::new(pool_of(4), usize::MAX).err(),
        Some(ConsensusError::ConfigurationError)
    );
    let engine = NaijaConsensusEngine::new(pool_of(4), 1).unwrap();
    assert_eq!(engine.faulty_nodes_limit(), 1);
    assert_eq!(engine.current_committee().len(), 4);
}

#[test]
fn proposal_binds_the_transactions() {
    let (_, block) = proposed(4, 1);
    assert_eq!(block.header.prev_block_hash, vec![0; 32]);
    assert_eq!(block.header.height, 100);
    assert_eq!(block.header.timestamp, 7);
    assert_eq!(block.header.merkle_root, commit(&SimulationPort, &vec![vote()]));
    assert_eq!(block.transactions.len(), 1);
    assert!(block.header.prepare_signatures.is_empty());
    assert!(block.header.commit_signatures.is_empty());
    assert!(check_root(&SimulationPort, &block));
}

#[test]
fn proposal_is_stamped_with_the_clock() {
    let engine = NaijaConsensusEngine::new(pool_of(4), 1).unwrap();
    let block = engine.propose_block(&SimulationPort, vec![vote()], vec![1], vec![0; 32], 5);
    assert_eq!(block.header.height, 5);
    assert_eq!(block.header.validator_pub_key, vec![1]);
    assert!(block.header.pre_prepare_signatures.is_empty());
    assert_eq!(block.header.merkle_root, commit(&SimulationPort, &vec![vote()]));
}

#[test]
fn timestamps_follow_the_clock_reading() {
    assert_eq!(timestamp_from_seconds(0), 0);
    assert_eq!(timestamp_from_seconds(1_700_000_000), 1_700_000_000);
    assert_eq!(timestamp_from_seconds(i64::MAX), i64::MAX as u64);
    assert_eq!(timestamp_from_seconds(-1), u64::MAX);
    assert_eq!(timestamp_from_seconds(i64::MIN), 1u64 << 63);
}

#[test]
fn simulation_signatures_name_their_signer() {
    let signature = SimulationPort::sign(&vec![4, 5], &vec![9]);
    assert_eq!(signature, vec![4, 5, 9]);
    assert_eq!(SimulationPort.verify(&vec![9], &signature, &vec![4, 5]), Ok(vec![4, 5]));
    assert_eq!(
        SimulationPort.verify(&vec![9], &signature, &vec![4]),
        Err(VerifyError::InvalidSignature)
    );
    assert_eq!(
        SimulationPort.verify(&vec![8], &signature, &vec![4, 5]),
        Err(VerifyError::InvalidSignature)
    );
    assert!(is_vouched(&SimulationPort, &vec![9], &signature, &vec![4, 5]));
    assert!(!is_vouched(&SimulationPort, &vec![9], &signature, &vec![5]));
    assert!(has_signed(&SimulationPort, &vec![9], &vec![vec![1], signature.clone()], &vec![4, 5]));
    assert!(!has_signed(&SimulationPort, &vec![9], &vec![vec![1]], &vec![4, 5]));
    assert!(!has_signed(&SimulationPort, &vec![9], &Vec::new(), &vec![4, 5]));
}

#[test]
fn end_to_end_twenty_one_validators() {
    let (mut engine, mut block) = proposed(21, 6);
    let before = scores(engine.current_committee());
    let signers: Vec<Vec<u8>> =
        engine.current_committee()[..13].iter().map(|v| v.pub_key.clone()).collect();

    block.header.prepare_signatures = signatures_of_first(&engine, &block, 12);
    block.header.commit_signatures = signatures_of_first(&engine, &block, 13);
    assert_eq!(
        engine.finalize_block_pbft(&SimulationPort, block.clone()).err(),
        Some(ConsensusError::QuorumNotReached)
    );
    assert_eq!(scores(engine.current_committee()), before);

    block.header.prepare_signatures = signatures_of_first(&engine, &block, 13);
    block.header.commit_signatures = signatures_of_first(&engine, &block, 12);
    assert_eq!(
        engine.finalize_block_pbft(&SimulationPort, block.clone()).err(),
        Some(ConsensusError::QuorumNotReached)
    );
    assert_eq!(scores(engine.current_committee()), before);

    block.header.commit_signatures = signatures_of_first(&engine, &block, 13);
    let finalized = engine.finalize_block_pbft(&SimulationPort, block.clone()).unwrap();
    assert_eq!(finalized.header.merkle_root, block.header.merkle_root);
    assert_eq!(finalized.header.commit_signatures.len(), 13);

    let after = engine.current_committee();
    assert_eq!(after.len(), 21);
    for (i, member) in after.iter().enumerate() {
        if signers.contains(&member.pub_key) {
            assert_eq!(member.reputation_score, before[i] + 1);
        } else {
            assert_eq!(member.reputation_score, before[i] - 5);
        }
    }
}

#[test]
fn repeated_signature_does_not_make_a_quorum() {
    let (mut engine, mut block) = proposed(21, 6);
    let mut prepare = signatures_of_first(&engine, &block, 12);
    let repeated = prepare[0].clone();
    prepare.push(repeated.clone());
    prepare.push(repeated);
    assert_eq!(prepare.len(), 14);
    block.header.prepare_signatures = prepare;
    block.header.commit_signatures = signatures_of_first(&engine, &block, 13);
    assert_eq!(
        count_signers(
            &SimulationPort,
            engine.current_committee(),
            &block.header.merkle_root,
            &block.header.prepare_signatures
        ),
        12
    );
    assert_eq!(
        engine.finalize_block_pbft(&SimulationPort, block).err(),
        Some(ConsensusError::QuorumNotReached)
    );
}

#[test]
fn signatures_of_strangers_and_forgeries_do_not_count() {
    let (engine, mut block) = proposed(4, 1);
    let root = block.header.merkle_root.clone();
    block.header.prepare_signatures = vec![
        sign(&[1], &block),
        sign(&[99], &block),
        SimulationPort::sign(&vec![2], &vec![0; 32]),
        vec![],
        sign(&[3], &block),
    ];
    let counted = count_signers(
        &SimulationPort,
        engine.current_committee(),
        &root,
        &block.header.prepare_signatures,
    );
    assert_eq!(counted, 2);
    assert!(!quorum_reached(
        &SimulationPort,
        engine.current_committee(),
        1,
        &root,
        &block.header.prepare_signatures
    ));
    assert!(quorum_reached(
        &SimulationPort,
        engine.current_committee(),
        0,
        &root,
        &block.header.prepare_signatures
    ));
    assert!(!quorum_reached(
        &SimulationPort,
        engine.current_committee(),
        usize::MAX,
        &root,
        &block.header.prepare_signatures
    ));
    assert!(!quorum_reached(&SimulationPort, engine.current_committee(), 0, &root, &Vec::new()));
}

#[test]
fn a_key_seated_twice_counts_once() {
    let mut committee = pool_of(3);
    committee.push(committee[0].clone());
    let message = vec![5u8];
    let signatures = vec![SimulationPort::sign(&vec![1], &message)];
    assert_eq!(count_signers(&SimulationPort, &committee, &message, &signatures), 1);
}

#[test]
fn missing_proposer_signature_is_refused() {
    let (mut engine, mut block) = proposed(21, 6);
    block.header.pre_prepare_signatures.clear();
    block.header.prepare_signatures = signatures_of_first(&engine, &block, 21);
    block.header.commit_signatures = signatures_of_first(&engine, &block, 21);
    let before = scores(engine.current_committee());
    assert!(!check_proposer(&SimulationPort, engine.current_committee(), &block));
    assert_eq!(
        engine.finalize_block_pbft(&SimulationPort, block).err(),
        Some(ConsensusError::InvalidProposer)
    );
    assert_eq!(scores(engine.current_committee()), before);
    assert_eq!(engine.current_committee().len(), 21);
}

#[test]
fn proposer_outside_the_committee_is_refused() {
    let (mut engine, mut block) = proposed(4, 1);
    block.header.validator_pub_key = vec![99];
    block.header.pre_prepare_signatures = vec![sign(&[99], &block)];
    block.header.prepare_signatures = signatures_of_first(&engine, &block, 4);
    block.header.commit_signatures = signatures_of_first(&engine, &block, 4);
    assert_eq!(
        engine.finalize_block_pbft(&SimulationPort, block).err(),
        Some(ConsensusError::InvalidProposer)
    );
}

#[test]
fn proposer_signature_by_another_member_is_refused() {
    let (mut engine, mut block) = proposed(4, 1);
    let other = engine.current_committee()[1].pub_key.clone();
    block.header.pre_prepare_signatures = vec![sign(&other, &block)];
    block.header.prepare_signatures = signatures_of_first(&engine, &block, 4);
    block.header.commit_signatures = signatures_of_first(&engine, &block, 4);
    assert_eq!(
        engine.finalize_block_pbft(&SimulationPort, block).err(),
        Some(ConsensusError::InvalidProposer)
    );
}

#[test]
fn tampered_root_is_refused_whatever_is_signed() {
    let (mut engine, mut block) = proposed(21, 6);
    block.header.merkle_root[0] ^= 1;
    let before = scores(engine.current_committee());
    assert!(!check_root(&SimulationPort, &block));
    assert_eq!(
        engine.finalize_block_pbft(&SimulationPort, block.clone()).err(),
        Some(ConsensusError::InvalidMerkleRoot)
    );
    let proposer = block.header.validator_pub_key.clone();
    block.header.pre_prepare_signatures = vec![sign(&proposer, &block)];
    block.header.prepare_signatures = signatures_of_first(&engine, &block, 21);
    block.header.commit_signatures = signatures_of_first(&engine, &block, 21);
    assert_eq!(
        engine.finalize_block_pbft(&SimulationPort, block).err(),
        Some(ConsensusError::InvalidMerkleRoot)
    );
    assert_eq!(scores(engine.current_committee()), before);
}

#[test]
fn tampered_transactions_are_refused() {
    let (mut engine, mut block) = proposed(4, 1);
    block.header.prepare_signatures = signatures_of_first(&engine, &block, 4);
    block.header.commit_signatures = signatures_of_first(&engine, &block, 4);
    block.transactions[0].candidate_id = vec![3];
    assert_eq!(
        engine.finalize_block_pbft(&SimulationPort, block).err(),
        Some(ConsensusError::InvalidMerkleRoot)
    );
}

#[test]
fn phases_follow_one_another() {
    let (engine, mut block) = proposed(4, 1);
    let committee = engine.current_committee();
    let port = SimulationPort;
    assert_eq!(next_phase(&port, committee, 1, &block, Phase::Proposed), Ok(Phase::PrePrepared));
    assert_eq!(
        next_phase(&port, committee, 1, &block, Phase::PrePrepared),
        Err(ConsensusError::QuorumNotReached)
    );
    block.header.prepare_signatures = signatures_of_first(&engine, &block, 3);
    assert_eq!(next_phase(&port, committee, 1, &block, Phase::PrePrepared), Ok(Phase::Prepared));
    assert_eq!(
        next_phase(&port, committee, 1, &block, Phase::Prepared),
        Err(ConsensusError::QuorumNotReached)
    );
    assert_eq!(advance(&port, committee, 1, &block), Err(ConsensusError::QuorumNotReached));
    block.header.commit_signatures = signatures_of_first(&engine, &block, 3);
    assert_eq!(next_phase(&port, committee, 1, &block, Phase::Prepared), Ok(Phase::Committed));
    assert_eq!(next_phase(&port, committee, 1, &block, Phase::Committed), Ok(Phase::Finalized));
    assert_eq!(next_phase(&port, committee, 1, &block, Phase::Finalized), Ok(Phase::Finalized));
    assert_eq!(next_phase(&port, committee, 1, &block, Phase::Rejected), Ok(Phase::Rejected));
    assert_eq!(advance(&port, committee, 1, &block), Ok(()));
    block.header.merkle_root[31] ^= 0x80;
    for phase in [Phase::Proposed, Phase::PrePrepared, Phase::Prepared, Phase::Committed] {
        assert_eq!(
            next_phase(&port, committee, 1, &block, phase),
            Err(ConsensusError::InvalidMerkleRoot)
        );
    }
    assert_eq!(next_phase(&port, committee, 1, &block, Phase::Finalized), Ok(Phase::Finalized));
}

#[test]
fn reputation_is_capped_and_floored() {
    let mut committee = pool_of(4);
    committee[0].reputation_score = u64::MAX;
    committee[1].reputation_score = u64::MAX - 1;
    committee[2].reputation_score = 3;
    committee[3].reputation_score = 5;
    let engine = NaijaConsensusEngine::new(committee, 1).unwrap();
    let mut block =
        engine.propose_block_at(&SimulationPort, vec![vote()], vec![1], vec![0; 32], 1, 0);
    block.header.commit_signatures = signatures_of_first(&engine, &block, 2);
    let updated = apply(&SimulationPort, engine.current_committee(), &block);
    assert_eq!(scores(&updated), vec![u64::MAX, u64::MAX, 0, 0]);
    let keys: Vec<Vec<u8>> = updated.iter().map(|v| v.pub_key.clone()).collect();
    assert_eq!(keys, vec![vec![1], vec![2], vec![3], vec![4]]);
    assert_eq!(updated[2].stake, 1030);
    assert_eq!(updated[2].geopolitical_zone, "North-West");
}

#[test]
fn reputation_moves_by_one_and_by_five() {
    let committee = pool_of(4);
    let engine = NaijaConsensusEngine::new(committee, 1).unwrap();
    let mut block =
        engine.propose_block_at(&SimulationPort, vec![vote()], vec![1], vec![0; 32], 1, 0);
    block.header.commit_signatures = vec![sign(&[3], &block), sign(&[3], &block)];
    let updated = apply(&SimulationPort, engine.current_committee(), &block);
    assert_eq!(scores(&updated), vec![46, 47, 54, 49]);
}

#[test]
fn validators_without_a_seat_are_untouched() {
    let validators = pool_of(6);
    let committee: Vec<Validator> = validators[..4].to_vec();
    let mut engine = NaijaConsensusEngine::new(validators.clone(), 1).unwrap();
    let mut block =
        engine.propose_block_at(&SimulationPort, vec![vote()], vec![1], vec![0; 32], 1, 0);
    block.header.pre_prepare_signatures = vec![sign(&[1], &block)];
    block.header.prepare_signatures =
        vec![sign(&[1], &block), sign(&[2], &block), sign(&[3], &block), sign(&[5], &block)];
    block.header.commit_signatures =
        vec![sign(&[2], &block), sign(&[3], &block), sign(&[4], &block), sign(&[6], &block)];
    let settled = settle(&SimulationPort, &validators, &committee, &block);
    assert_eq!(scores(&settled), vec![46, 53, 54, 55, 55, 56]);
    let block = engine.process_block_pbft(&SimulationPort, block, &committee).unwrap();
    assert_eq!(scores(engine.current_committee()), vec![46, 53, 54, 55, 55, 56]);
    engine.update_reputations_for_block(&SimulationPort, &block, &committee);
    assert_eq!(scores(engine.current_committee()), vec![41, 54, 55, 56, 55, 56]);
}

#[test]
fn process_block_counts_the_given_committee_only() {
    let validators = pool_of(6);
    let committee: Vec<Validator> = validators[..4].to_vec();
    let mut engine = NaijaConsensusEngine::new(validators, 1).unwrap();
    let mut block =
        engine.propose_block_at(&SimulationPort, vec![vote()], vec![1], vec![0; 32], 1, 0);
    block.header.pre_prepare_signatures = vec![sign(&[1], &block)];
    block.header.prepare_signatures = vec![sign(&[1], &block), sign(&[5], &block), sign(&[6], &block)];
    block.header.commit_signatures = vec![sign(&[1], &block), sign(&[2], &block), sign(&[3], &block)];
    assert_eq!(
        engine.process_block_pbft(&SimulationPort, block.clone(), &committee).err(),
        Some(ConsensusError::QuorumNotReached)
    );
    assert!(engine.finalize_block_pbft(&SimulationPort, block).is_ok());
}

#[test]
fn ingest_takes_each_signer_once() {
    let (engine, mut block) = proposed(4, 1);
    let port = SimulationPort;
    let first = sign(&[1], &block);
    assert_eq!(engine.ingest_signature(&port, &mut block, SignatureKind::Prepare, first.clone()), Ok(()));
    assert_eq!(block.header.prepare_signatures, vec![first.clone()]);
    assert_eq!(
        engine.ingest_signature(&port, &mut block, SignatureKind::Prepare, first.clone()),
        Err(ConsensusError::DuplicateSigner)
    );
    let stranger = sign(&[99], &block);
    assert_eq!(
        engine.ingest_signature(&port, &mut block, SignatureKind::Prepare, stranger),
        Err(ConsensusError::UnknownSigner)
    );
    assert_eq!(
        engine.ingest_signature(&port, &mut block, SignatureKind::Prepare, vec![1, 2, 3]),
        Err(ConsensusError::UnknownSigner)
    );
    assert_eq!(block.header.prepare_signatures, vec![first.clone()]);
    assert_eq!(engine.ingest_signature(&port, &mut block, SignatureKind::Commit, first.clone()), Ok(()));
    assert_eq!(block.header.commit_signatures, vec![first.clone()]);
    let second = sign(&[2], &block);
    assert_eq!(engine.ingest_signature(&port, &mut block, SignatureKind::Prepare, second.clone()), Ok(()));
    assert_eq!(block.header.prepare_signatures, vec![first, second]);
    assert_eq!(block.header.pre_prepare_signatures.len(), 1);
    let proposer = block.header.validator_pub_key.clone();
    let again = sign(&proposer, &block);
    assert_eq!(
        engine.ingest_signature(&port, &mut block, SignatureKind::PrePrepare, again),
        Err(ConsensusError::DuplicateSigner)
    );
}

#[test]
fn ingested_signatures_reach_quorum() {
    let (mut engine, mut block) = proposed(4, 1);
    let port = SimulationPort;
    for kind in [SignatureKind::Prepare, SignatureKind::Commit] {
        for key in [2u8, 3, 4] {
            let signature = sign(&[key], &block);
            assert_eq!(engine.ingest_signature(&port, &mut block, kind, signature), Ok(()));
        }
    }
    assert!(engine.finalize_block_pbft(&port, block).is_ok());
    let by_key: Vec<(u8, u64)> =
        engine.current_committee().iter().map(|v| (v.pub_key[0], v.reputation_score)).collect();
    for (key, score) in by_key {
        let before = 50 + key as u64;
        if key == 1 {
            assert_eq!(score, before - 5);
        } else {
            assert_eq!(score, before + 1);
        }
    }
}

#[test]
fn signer_is_the_first_member_the_signature_verifies_for() {
    let committee = pool_of(4);
    let message = vec![7u8];
    let signature = SimulationPort::sign(&vec![3], &message);
    assert_eq!(find_signer(&SimulationPort, &committee, &message, &signature), Some(2));
    assert_eq!(find_signer(&SimulationPort, &committee, &vec![8], &signature), None);
    assert_eq!(find_signer(&SimulationPort, &Vec::new(), &message, &signature), None);
}

#[test]
fn rotation_replaces_the_committee_or_leaves_it() {
    let mut engine = NaijaConsensusEngine::new(pool_of(4), 1).unwrap();
    assert_eq!(engine.rotate_committee(&pool_of(21), 7), Ok(()));
    assert_eq!(engine.current_committee().len(), 7);
    let expected = NaijaConsensusEngine::select_election_validators(&pool_of(21), 7).unwrap();
    let keys: Vec<Vec<u8>> = engine.current_committee().iter().map(|v| v.pub_key.clone()).collect();
    let expected_keys: Vec<Vec<u8>> = expected.iter().map(|v| v.pub_key.clone()).collect();
    assert_eq!(keys, expected_keys);
    assert_eq!(
        engine.rotate_committee(&pool_of(21), 3),
        Err(ConsensusError::ConfigurationError)
    );
    assert_eq!(engine.rotate_committee(&pool_of(21), 0), Err(ConsensusError::ConfigurationError));
    assert_eq!(
        engine.rotate_committee(&pool_of(21), 22),
        Err(ConsensusError::InsufficientValidators)
    );
    assert_eq!(engine.current_committee().len(), 7);
    assert_eq!(engine.faulty_nodes_limit(), 1);
    assert_eq!(engine.rotate_committee(&pool_of(21), 4), Ok(()));
    assert_eq!(engine.current_committee().len(), 4);
}

#[test]
fn voter_identity_is_plain_data() {
    let voter = VoterIdentity { hashed_nin_bvn: vec![1; 32], voting_token: vec![2; 64], has_voted: false };
    let copy = voter.clone();
    assert_eq!(copy.hashed_nin_bvn, vec![1; 32]);
    assert_eq!(copy.voting_token, vec![2; 64]);
    assert!(!copy.has_voted);
}

#[test]
fn drive_names_the_resting_phase() {
    let (engine, mut block) = proposed(4, 1);
    let committee = engine.current_committee();
    let port = SimulationPort;
    assert_eq!(
        drive(&port, committee, 1, &block),
        (Phase::PrePrepared, Err(ConsensusError::QuorumNotReached))
    );
    block.header.prepare_signatures = signatures_of_first(&engine, &block, 3);
    assert_eq!(
        drive(&port, committee, 1, &block),
        (Phase::Prepared, Err(ConsensusError::QuorumNotReached))
    );
    block.header.commit_signatures = signatures_of_first(&engine, &block, 3);
    assert_eq!(drive(&port, committee, 1, &block), (Phase::Finalized, Ok(())));
    let signed = block.clone();
    block.header.pre_prepare_signatures.clear();
    assert_eq!(
        drive(&port, committee, 1, &block),
        (Phase::Rejected, Err(ConsensusError::InvalidProposer))
    );
    let mut tampered = signed;
    tampered.header.merkle_root[5] = tampered.header.merkle_root[5].wrapping_add(1);
    assert_eq!(
        drive(&port, committee, 1, &tampered),
        (Phase::Rejected, Err(ConsensusError::InvalidMerkleRoot))
    );
    assert_eq!(after_failure(Phase::Prepared, ConsensusError::QuorumNotReached), Phase::Prepared);
    assert_eq!(after_failure(Phase::Proposed, ConsensusError::InvalidProposer), Phase::Rejected);
}
