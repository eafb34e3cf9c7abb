//! The canonical byte encoding of a vote transaction: what is hashed into
//! the leaves of a block's Merkle tree.

use vstd::prelude::*;
use crate::bytes::lemma_split;
use crate::types::{VoteTransaction, VoteTransactionView};

verus! {

/// The eight bytes of `x`, most significant first.
pub open spec fn be_bytes(x: u64) -> Seq<u8> {
    seq![
        (x >> 56) as u8,
        ((x >> 48) & 0xff) as u8,
        ((x >> 40) & 0xff) as u8,
        ((x >> 32) & 0xff) as u8,
        ((x >> 24) & 0xff) as u8,
        ((x >> 16) & 0xff) as u8,
        ((x >> 8) & 0xff) as u8,
        (x & 0xff) as u8,
    ]
}

/// A byte field, framed: its length as eight bytes, then its bytes.
pub open spec fn framed(field: Seq<u8>) -> Seq<u8> {
    be_bytes(field.len() as u64) + field
}

/// The canonical encoding of a transaction: voter key, election and
/// candidate, each framed; the timestamp as eight bytes; the framed
/// signature.
pub open spec fn encoding(tx: VoteTransactionView) -> Seq<u8> {
    framed(tx.voter_pub_key) + framed(tx.election_id) + framed(tx.candidate_id) + be_bytes(
        tx.timestamp,
    ) + framed(tx.signature)
}

/// Every field of `tx` is short enough for its length to be framed: less
/// than 2^64 bytes, as every field held in memory is.
pub open spec fn framable(tx: VoteTransactionView) -> bool {
    &&& tx.voter_pub_key.len() <= u64::MAX
    &&& tx.election_id.len() <= u64::MAX
    &&& tx.candidate_id.len() <= u64::MAX
    &&& tx.signature.len() <= u64::MAX
}

/// Different numbers have different bytes.
proof fn lemma_be_bytes_injective(x: u64, y: u64)
    requires
        be_bytes(x) == be_bytes(y),
    ensures
        x == y,
{
    assert(be_bytes(x)[0] == be_bytes(y)[0]);
    assert(be_bytes(x)[1] == be_bytes(y)[1]);
    assert(be_bytes(x)[2] == be_bytes(y)[2]);
    assert(be_bytes(x)[3] == be_bytes(y)[3]);
    assert(be_bytes(x)[4] == be_bytes(y)[4]);
    assert(be_bytes(x)[5] == be_bytes(y)[5]);
    assert(be_bytes(x)[6] == be_bytes(y)[6]);
    assert(be_bytes(x)[7] == be_bytes(y)[7]);
    assert(x == y) by (bit_vector)
        requires
            (x >> 56) as u8 == (y >> 56) as u8,
            ((x >> 48) & 0xff) as u8 == ((y >> 48) & 0xff) as u8,
            ((x >> 40) & 0xff) as u8 == ((y >> 40) & 0xff) as u8,
            ((x >> 32) & 0xff) as u8 == ((y >> 32) & 0xff) as u8,
            ((x >> 24) & 0xff) as u8 == ((y >> 24) & 0xff) as u8,
            ((x >> 16) & 0xff) as u8 == ((y >> 16) & 0xff) as u8,
            ((x >> 8) & 0xff) as u8 == ((y >> 8) & 0xff) as u8,
            (x & 0xff) as u8 == (y & 0xff) as u8,
    ;
}

/// A framed field can be read back from the front of what it starts.
proof fn lemma_framed_reads_back(
    field: Seq<u8>,
    rest: Seq<u8>,
    other_field: Seq<u8>,
    other_rest: Seq<u8>,
)
    requires
        framed(field) + rest == framed(other_field) + other_rest,
        field.len() <= u64::MAX,
        other_field.len() <= u64::MAX,
    ensures
        field == other_field,
        rest == other_rest,
{
    let n = be_bytes(field.len() as u64);
    let m = be_bytes(other_field.len() as u64);
    assert(framed(field) + rest =~= n + (field + rest));
    assert(framed(other_field) + other_rest =~= m + (other_field + other_rest));
    lemma_split(n, field + rest, m, other_field + other_rest);
    lemma_be_bytes_injective(field.len() as u64, other_field.len() as u64);
    lemma_split(field, rest, other_field, other_rest);
}

/// The encoding is canonical: two transactions with the same encoding
/// are the same.
pub proof fn lemma_encoding_injective(first: VoteTransactionView, second: VoteTransactionView)
    requires
        framable(first),
        framable(second),
        encoding(first) == encoding(second),
    ensures
        first == second,
{
    let a = first;
    let b = second;
    let tail_a3 = be_bytes(a.timestamp) + framed(a.signature);
    let tail_b3 = be_bytes(b.timestamp) + framed(b.signature);
    let tail_a2 = framed(a.candidate_id) + tail_a3;
    let tail_b2 = framed(b.candidate_id) + tail_b3;
    let tail_a1 = framed(a.election_id) + tail_a2;
    let tail_b1 = framed(b.election_id) + tail_b2;
    assert(encoding(a) =~= framed(a.voter_pub_key) + tail_a1);
    assert(encoding(b) =~= framed(b.voter_pub_key) + tail_b1);
    lemma_framed_reads_back(a.voter_pub_key, tail_a1, b.voter_pub_key, tail_b1);
    lemma_framed_reads_back(a.election_id, tail_a2, b.election_id, tail_b2);
    lemma_framed_reads_back(a.candidate_id, tail_a3, b.candidate_id, tail_b3);
    lemma_split(
        be_bytes(a.timestamp),
        framed(a.signature),
        be_bytes(b.timestamp),
        framed(b.signature),
    );
    lemma_be_bytes_injective(a.timestamp, b.timestamp);
    assert(framed(a.signature) + Seq::<u8>::empty() =~= framed(a.signature));
    assert(framed(b.signature) + Seq::<u8>::empty() =~= framed(b.signature));
    lemma_framed_reads_back(a.signature, Seq::empty(), b.signature, Seq::empty());
}

/// Appends the eight bytes of `x`, most significant first.
pub fn push_be_bytes(out: &mut Vec<u8>, x: u64)
    ensures
        final(out)@ == old(out)@ + be_bytes(x),
{
    let ghost before = out@;
    assert((x >> 56) <= 0xff) by (bit_vector);
    assert((x >> 48) & 0xff <= 0xff) by (bit_vector);
    assert((x >> 40) & 0xff <= 0xff) by (bit_vector);
    assert((x >> 32) & 0xff <= 0xff) by (bit_vector);
    assert((x >> 24) & 0xff <= 0xff) by (bit_vector);
    assert((x >> 16) & 0xff <= 0xff) by (bit_vector);
    assert((x >> 8) & 0xff <= 0xff) by (bit_vector);
    assert(x & 0xff <= 0xff) by (bit_vector);
    out.push((x >> 56) as u8);
    out.push(((x >> 48) & 0xff) as u8);
    out.push(((x >> 40) & 0xff) as u8);
    out.push(((x >> 32) & 0xff) as u8);
    out.push(((x >> 24) & 0xff) as u8);
    out.push(((x >> 16) & 0xff) as u8);
    out.push(((x >> 8) & 0xff) as u8);
    out.push((x & 0xff) as u8);
    assert(out@ =~= before + be_bytes(x));
}

/// Appends the bytes of `src`.
pub fn push_bytes(out: &mut Vec<u8>, src: &Vec<u8>)
    ensures
        final(out)@ == old(out)@ + src@,
{
    let ghost before = out@;
    let mut i: usize = 0;
    while i < src.len()
        invariant
            i <= src.len(),
            out@ == before + src@.subrange(0, i as int),
        decreases src.len() - i,
    {
        out.push(src[i]);
        assert(out@ =~= before + src@.subrange(0, i + 1));
        i += 1;
    }
    assert(src@.subrange(0, src.len() as int) =~= src@);
}

/// Appends `field`, framed.
pub fn push_framed(out: &mut Vec<u8>, field: &Vec<u8>)
    ensures
        final(out)@ == old(out)@ + framed(field@),
{
    let ghost before = out@;
    push_be_bytes(out, field.len() as u64);
    push_bytes(out, field);
    assert(out@ =~= before + framed(field@));
}

/// Encodes `tx` canonically.
pub fn encode_transaction(tx: &VoteTransaction) -> (bytes: Vec<u8>)
    ensures
        bytes@ == encoding(tx@),
{
    let mut out: Vec<u8> = Vec::new();
    push_framed(&mut out, &tx.voter_pub_key);
    push_framed(&mut out, &tx.election_id);
    push_framed(&mut out, &tx.candidate_id);
    push_be_bytes(&mut out, tx.timestamp);
    push_framed(&mut out, &tx.signature);
    assert(out@ =~= encoding(tx@));
    out
}

} // verus!
