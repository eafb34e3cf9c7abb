use naija_consensus::crypto::CryptoPort;
use naija_consensus::encoding::encode_transaction;
use naija_consensus::merkle::{commit, sentinel};
use naija_consensus::simulation::SimulationPort;
use naija_consensus::types::VoteTransaction;

fn vote(voter: u8, candidate: u8) -> VoteTransaction {
    VoteTransaction {
        voter_pub_key: vec![voter],
        election_id: vec![1],
        candidate_id: vec![candidate],
        timestamp: 0,
        signature: vec![0; 64],
    }
}

fn leaf(tx: &VoteTransaction) -> Vec<u8> {
    SimulationPort.hash(&encode_transaction(tx))
}

fn pair(left: &[u8], right: &[u8]) -> Vec<u8> {
    let mut joined = left.to_vec();
    joined.extend_from_slice(right);
    SimulationPort.hash(&joined)
}

#[test]
fn encoding_frames_every_field() {
    let tx = VoteTransaction {
        voter_pub_key: vec![0xaa, 0xbb],
        election_id: vec![],
        candidate_id: vec![7],
        timestamp: 0x0102_0304_0506_0708,
        signature: vec![9, 9, 9],
    };
    let expected: Vec<u8> = vec![
        0, 0, 0, 0, 0, 0, 0, 2, 0xaa, 0xbb, //
        0, 0, 0, 0, 0, 0, 0, 0, //
        0, 0, 0, 0, 0, 0, 0, 1, 7, //
        1, 2, 3, 4, 5, 6, 7, 8, //
        0, 0, 0, 0, 0, 0, 0, 3, 9, 9, 9,
    ];
    assert_eq!(encode_transaction(&tx), expected);
}

#[test]
fn simulation_digest_is_a_positional_checksum() {
    assert_eq!(SimulationPort.hash(&vec![]), vec![0u8; 32]);
    let mut expected = vec![0u8; 32];
    expected[0] = 6;
    assert_eq!(SimulationPort.hash(&vec![5]), expected);
    let mut data = vec![0u8; 33];
    data[0] = 5;
    data[32] = 2;
    let mut expected = vec![1u8; 32];
    expected[0] = 189;
    assert_eq!(SimulationPort.hash(&data), expected);
    let mut wide = vec![0u8; 33];
    wide[0] = 255;
    wide[32] = 255;
    let mut expected = vec![1u8; 32];
    expected[0] = 0;
    assert_eq!(SimulationPort.hash(&wide), expected);
}

#[test]
fn empty_list_commits_to_the_sentinel() {
    assert_eq!(commit(&SimulationPort, &Vec::new()), vec![0u8; 32]);
    assert_eq!(sentinel(), vec![0u8; 32]);
}

#[test]
fn single_transaction_commits_to_its_leaf() {
    let tx = vote(10, 2);
    assert_eq!(commit(&SimulationPort, &vec![tx.clone()]), leaf(&tx));
}

#[test]
fn two_transactions_commit_to_their_pair() {
    let a = vote(10, 2);
    let b = vote(11, 3);
    let root = commit(&SimulationPort, &vec![a.clone(), b.clone()]);
    assert_eq!(root, pair(&leaf(&a), &leaf(&b)));
}

#[test]
fn odd_level_pairs_its_last_node_with_itself() {
    let a = vote(10, 2);
    let b = vote(11, 3);
    let c = vote(12, 4);
    let root = commit(&SimulationPort, &vec![a.clone(), b.clone(), c.clone()]);
    let left = pair(&leaf(&a), &leaf(&b));
    let right = pair(&leaf(&c), &leaf(&c));
    assert_eq!(root, pair(&left, &right));
}

#[test]
fn five_transactions_make_three_levels() {
    let txs: Vec<VoteTransaction> = (0..5).map(|i| vote(20 + i, i)).collect();
    let l: Vec<Vec<u8>> = txs.iter().map(leaf).collect();
    let level1 = vec![pair(&l[0], &l[1]), pair(&l[2], &l[3]), pair(&l[4], &l[4])];
    let level2 = vec![pair(&level1[0], &level1[1]), pair(&level1[2], &level1[2])];
    assert_eq!(commit(&SimulationPort, &txs), pair(&level2[0], &level2[1]));
}

#[test]
fn commit_is_deterministic() {
    let txs = vec![vote(10, 2), vote(11, 3), vote(12, 4)];
    let again = txs.clone();
    assert_eq!(commit(&SimulationPort, &txs), commit(&SimulationPort, &again));
    assert_eq!(commit(&SimulationPort, &txs).len(), 32);
}

#[test]
fn commit_is_sensitive_to_order() {
    let a = vote(10, 2);
    let b = vote(11, 3);
    let c = vote(12, 4);
    let root = commit(&SimulationPort, &vec![a.clone(), b.clone(), c.clone()]);
    assert_ne!(root, commit(&SimulationPort, &vec![b.clone(), a.clone(), c.clone()]));
    assert_ne!(root, commit(&SimulationPort, &vec![a.clone(), c.clone(), b.clone()]));
    assert_ne!(root, commit(&SimulationPort, &vec![c, b, a]));
}

#[test]
fn commit_is_sensitive_to_content() {
    let a = vote(10, 2);
    let mut changed = vote(10, 2);
    changed.timestamp = 1;
    assert_ne!(
        commit(&SimulationPort, &vec![a]),
        commit(&SimulationPort, &vec![changed])
    );
}
