//! A port for simulation and tests. Its signatures are transparent and its
//! digest is a plain checksum: it protects nothing, and stands in for a real
//! port wherever only the protocol is exercised.

use vstd::prelude::*;
use crate::bytes::bytes_eq;
use crate::crypto::{CryptoPort, VerifyError, DIGEST_LEN};
use crate::encoding::push_bytes;

verus! {

/// One byte of checksum state after it took in the byte `b`.
pub open spec fn mixed(state: u8, b: u8) -> u8 {
    ((state * 31 + b + 1) % 256) as u8
}

/// The checksum state after the first `upto` bytes of `data`: it starts as
/// [`DIGEST_LEN`] zero bytes, and byte `i` of the data is mixed into the
/// cell `i % DIGEST_LEN`.
pub open spec fn absorbed(data: Seq<u8>, upto: nat) -> Seq<u8>
    decreases upto,
{
    if upto == 0 {
        Seq::new(DIGEST_LEN as nat, |i: int| 0u8)
    } else {
        let before = absorbed(data, (upto - 1) as nat);
        let cell = (upto - 1) % (DIGEST_LEN as int);
        before.update(cell, mixed(before[cell], data[upto - 1]))
    }
}

/// The signature of the holder of `key` over `message`: the key, then the
/// message.
pub open spec fn transparent_signature(key: Seq<u8>, message: Seq<u8>) -> Seq<u8> {
    key + message
}

/// The simulation port.
#[derive(Debug, Clone, Copy)]
pub struct SimulationPort;

/// The checksum state keeps its width.
proof fn lemma_absorbed_width(data: Seq<u8>, upto: nat)
    ensures
        absorbed(data, upto).len() == DIGEST_LEN,
    decreases upto,
{
    if upto > 0 {
        lemma_absorbed_width(data, (upto - 1) as nat);
    }
}

impl CryptoPort for SimulationPort {
    open spec fn digest_of(&self, data: Seq<u8>) -> Seq<u8> {
        absorbed(data, data.len())
    }

    open spec fn signer_of(
        &self,
        message: Seq<u8>,
        signature: Seq<u8>,
        public_key: Seq<u8>,
    ) -> Option<Seq<u8>> {
        if signature == transparent_signature(public_key, message) {
            Some(public_key)
        } else {
            None
        }
    }

    proof fn digest_width(&self, data: Seq<u8>) {
        lemma_absorbed_width(data, data.len());
    }

    fn hash(&self, data: &Vec<u8>) -> (digest: Vec<u8>) {
        let mut state: Vec<u8> = Vec::new();
        let mut k: usize = 0;
        while k < DIGEST_LEN
            invariant
                k <= DIGEST_LEN,
                state@ == Seq::new(k as nat, |i: int| 0u8),
            decreases DIGEST_LEN - k,
        {
            state.push(0u8);
            k += 1;
            assert(state@ =~= Seq::new(k as nat, |i: int| 0u8));
        }
        let mut i: usize = 0;
        while i < data.len()
            invariant
                i <= data.len(),
                state.len() == DIGEST_LEN,
                state@ == absorbed(data@, i as nat),
            decreases data.len() - i,
        {
            let cell: usize = i % DIGEST_LEN;
            let sum: u32 = (state[cell] as u32) * 31 + (data[i] as u32) + 1;
            let next: u8 = (sum % 256) as u8;
            state.set(cell, next);
            i += 1;
            assert(state@ =~= absorbed(data@, i as nat));
        }
        state
    }

    fn verify(&self, message: &Vec<u8>, signature: &Vec<u8>, public_key: &Vec<u8>) -> (outcome:
        Result<Vec<u8>, VerifyError>) {
        let expected = SimulationPort::sign(public_key, message);
        if bytes_eq(signature, &expected) {
            Ok(public_key.clone())
        } else {
            Err(VerifyError::InvalidSignature)
        }
    }
}

impl SimulationPort {
    /// Signs `message` for the holder of `key`.
    pub fn sign(key: &Vec<u8>, message: &Vec<u8>) -> (signature: Vec<u8>)
        ensures
            signature@ == transparent_signature(key@, message@),
    {
        let mut signature: Vec<u8> = Vec::new();
        push_bytes(&mut signature, key);
        push_bytes(&mut signature, message);
        assert(signature@ =~= key@ + message@);
        signature
    }
}

} // verus!
