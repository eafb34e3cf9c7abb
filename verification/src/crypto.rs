//! The cryptographic port: hashing and signature verification, which the
//! consensus core consumes and does not implement.

use vstd::prelude::*;
use crate::bytes::bytes_eq;

verus! {

/// Width in bytes of every digest.
pub const DIGEST_LEN: usize = 32;

/// Why the port refused a signature.
#[derive(Debug, Clone, Copy, PartialEq, Eq, Structural)]
pub enum VerifyError {
    /// The signature does not verify under the given public key.
    InvalidSignature,
}

/// Hashing and signature verification, supplied by the embedding node.
///
/// Each operation is a function of its arguments: the two spec functions
/// name the digest and the verified signer, and the executable methods
/// return exactly those.
pub trait CryptoPort {
    /// The digest of `data`.
    spec fn digest_of(&self, data: Seq<u8>) -> Seq<u8>;

    /// The identity that `signature` proves to have signed `message`, when
    /// checked under `public_key`; `None` where it does not verify.
    spec fn signer_of(&self, message: Seq<u8>, signature: Seq<u8>, public_key: Seq<u8>) -> Option<
        Seq<u8>,
    >;

    /// Every digest is [`DIGEST_LEN`] bytes wide.
    proof fn digest_width(&self, data: Seq<u8>)
        ensures
            self.digest_of(data).len() == DIGEST_LEN,
    ;

    /// Hashes `data`.
    fn hash(&self, data: &Vec<u8>) -> (digest: Vec<u8>)
        ensures
            digest@ == self.digest_of(data@),
    ;

    /// Verifies `signature` over `message` under `public_key` and returns
    /// the signer's identity.
    fn verify(&self, message: &Vec<u8>, signature: &Vec<u8>, public_key: &Vec<u8>) -> (outcome:
        Result<Vec<u8>, VerifyError>)
        ensures
            match outcome {
                Ok(identity) => self.signer_of(message@, signature@, public_key@) == Some(
                    identity@,
                ),
                Err(_) => self.signer_of(message@, signature@, public_key@).is_none(),
            },
    ;
}

/// `signature` is a valid signature over `message` by the holder of `key`:
/// it verifies under `key`, and the signer it proves is `key`.
pub open spec fn vouches<P: CryptoPort>(
    port: &P,
    message: Seq<u8>,
    signature: Seq<u8>,
    key: Seq<u8>,
) -> bool {
    port.signer_of(message, signature, key) == Some(key)
}

/// Some signature of `signatures` is a valid signature over `message` by
/// the holder of `key`.
pub open spec fn signed_by<P: CryptoPort>(
    port: &P,
    message: Seq<u8>,
    signatures: Seq<Seq<u8>>,
    key: Seq<u8>,
) -> bool {
    exists|i: int| 0 <= i < signatures.len() && vouches(port, message, #[trigger] signatures[i], key)
}

/// Whether `signature` is a valid signature over `message` by the holder
/// of `key`.
pub fn is_vouched<P: CryptoPort>(
    port: &P,
    message: &Vec<u8>,
    signature: &Vec<u8>,
    key: &Vec<u8>,
) -> (valid: bool)
    ensures
        valid == vouches(port, message@, signature@, key@),
{
    match port.verify(message, signature, key) {
        Ok(identity) => bytes_eq(&identity, key),
        Err(_) => false,
    }
}

/// Whether some signature of `signatures` is a valid signature over
/// `message` by the holder of `key`.
pub fn has_signed<P: CryptoPort>(
    port: &P,
    message: &Vec<u8>,
    signatures: &Vec<Vec<u8>>,
    key: &Vec<u8>,
) -> (found: bool)
    ensures
        found == signed_by(port, message@, signatures.deep_view(), key@),
{
    let mut i: usize = 0;
    while i < signatures.len()
        invariant
            i <= signatures.len(),
            forall|k: int|
                0 <= k < i ==> !vouches(port, message@, #[trigger] signatures.deep_view()[k], key@),
        decreases signatures.len() - i,
    {
        assert(signatures.deep_view()[i as int] == signatures[i as int]@);
        if is_vouched(port, message, &signatures[i], key) {
            return true;
        }
        i += 1;
    }
    false
}

} // verus!
