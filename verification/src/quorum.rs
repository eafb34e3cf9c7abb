//! Quorum counting: how many distinct committee members have validly
//! signed a message.

use vstd::prelude::*;
use crate::bytes::bytes_eq;
use crate::crypto::{has_signed, is_vouched, signed_by, vouches, CryptoPort};
use crate::selector::{holds_key, keys_of};
use crate::types::{Validator, ValidatorView};

verus! {

/// No member before position `i` of `committee` has the key of member `i`.
pub open spec fn first_with_key(committee: Seq<ValidatorView>, i: int) -> bool {
    forall|j: int| 0 <= j < i ==> (#[trigger] committee[j]).pub_key != committee[i].pub_key
}

/// Member `i` of `committee` counts as a signer of `message`: some
/// signature of `signatures` is valid under its key, and its key was not
/// counted at an earlier position.
pub open spec fn counts_as_signer<P: CryptoPort>(
    port: &P,
    committee: Seq<ValidatorView>,
    message: Seq<u8>,
    signatures: Seq<Seq<u8>>,
    i: int,
) -> bool {
    first_with_key(committee, i) && signed_by(port, message, signatures, committee[i].pub_key)
}

/// How many of the first `upto` members of `committee` count as signers.
pub open spec fn signers_among<P: CryptoPort>(
    port: &P,
    committee: Seq<ValidatorView>,
    message: Seq<u8>,
    signatures: Seq<Seq<u8>>,
    upto: nat,
) -> nat
    decreases upto,
{
    if upto == 0 {
        0
    } else {
        signers_among(port, committee, message, signatures, (upto - 1) as nat) + if counts_as_signer(
            port,
            committee,
            message,
            signatures,
            upto - 1,
        ) {
            1nat
        } else {
            0nat
        }
    }
}

/// The number of distinct committee keys under which some signature of
/// `signatures` is a valid signature over `message`.
pub open spec fn distinct_signers<P: CryptoPort>(
    port: &P,
    committee: Seq<ValidatorView>,
    message: Seq<u8>,
    signatures: Seq<Seq<u8>>,
) -> nat {
    signers_among(port, committee, message, signatures, committee.len())
}

/// The signatures needed to tolerate `f` faulty members: `2f + 1`.
pub open spec fn quorum_size(f: nat) -> nat {
    2 * f + 1
}

/// `signatures` hold a quorum over `message`: at least `2f + 1` distinct
/// committee members have validly signed it.
pub open spec fn has_quorum<P: CryptoPort>(
    port: &P,
    committee: Seq<ValidatorView>,
    f: nat,
    message: Seq<u8>,
    signatures: Seq<Seq<u8>>,
) -> bool {
    distinct_signers(port, committee, message, signatures) >= quorum_size(f)
}

/// The committee keys under which some signature of `signatures` is a
/// valid signature over `message`.
pub open spec fn signer_keys<P: CryptoPort>(
    port: &P,
    committee: Seq<ValidatorView>,
    message: Seq<u8>,
    signatures: Seq<Seq<u8>>,
) -> Set<Seq<u8>> {
    Set::new(
        |key: Seq<u8>| holds_key(committee, key) && signed_by(port, message, signatures, key),
    )
}

/// The keys of the first `upto` members under which some signature is
/// valid.
pub open spec fn signer_keys_among<P: CryptoPort>(
    port: &P,
    committee: Seq<ValidatorView>,
    message: Seq<u8>,
    signatures: Seq<Seq<u8>>,
    upto: nat,
) -> Set<Seq<u8>> {
    Set::new(
        |key: Seq<u8>|
            signed_by(port, message, signatures, key) && exists|i: int|
                0 <= i < upto && (#[trigger] committee[i]).pub_key == key,
    )
}

/// The members counted among the first `upto` are as many as the keys
/// under which some signature is valid.
proof fn lemma_count_is_key_count<P: CryptoPort>(
    port: &P,
    committee: Seq<ValidatorView>,
    message: Seq<u8>,
    signatures: Seq<Seq<u8>>,
    upto: nat,
)
    requires
        upto <= committee.len(),
    ensures
        signer_keys_among(port, committee, message, signatures, upto).finite(),
        signer_keys_among(port, committee, message, signatures, upto).len() == signers_among(
            port,
            committee,
            message,
            signatures,
            upto,
        ),
    decreases upto,
{
    let now = signer_keys_among(port, committee, message, signatures, upto);
    if upto == 0 {
        assert(now =~= Set::<Seq<u8>>::empty());
    } else {
        let before = signer_keys_among(port, committee, message, signatures, (upto - 1) as nat);
        lemma_count_is_key_count(port, committee, message, signatures, (upto - 1) as nat);
        let last = upto - 1;
        let key = committee[last].pub_key;
        if !signed_by(port, message, signatures, key) {
            assert(now =~= before);
        } else if first_with_key(committee, last) {
            assert(!before.contains(key));
            assert(now =~= before.insert(key)) by {
                assert forall|k: Seq<u8>| before.insert(key).contains(k) implies now.contains(k) by {
                    if k == key {
                        assert(committee[last].pub_key == k);
                    } else {
                        let i = choose|i: int|
                            0 <= i < upto - 1 && (#[trigger] committee[i]).pub_key == k;
                        assert(committee[i].pub_key == k);
                    }
                }
            }
        } else {
            let j = choose|j: int|
                0 <= j < last && (#[trigger] committee[j]).pub_key == committee[last].pub_key;
            assert(before.contains(key));
            assert(now =~= before) by {
                assert forall|k: Seq<u8>| now.contains(k) implies before.contains(k) by {
                    let i = choose|i: int| 0 <= i < upto && (#[trigger] committee[i]).pub_key == k;
                    if i == last {
                        assert(committee[j].pub_key == k);
                    }
                }
            }
        }
    }
}

/// The signers counted are the committee keys that have signed: as many
/// as there are different keys in the committee under which some signature
/// of the list is valid.
pub proof fn lemma_signers_are_keys<P: CryptoPort>(
    port: &P,
    committee: Seq<ValidatorView>,
    message: Seq<u8>,
    signatures: Seq<Seq<u8>>,
)
    ensures
        signer_keys(port, committee, message, signatures).finite(),
        distinct_signers(port, committee, message, signatures) == signer_keys(
            port,
            committee,
            message,
            signatures,
        ).len(),
{
    lemma_count_is_key_count(port, committee, message, signatures, committee.len());
    let among = signer_keys_among(port, committee, message, signatures, committee.len());
    let all = signer_keys(port, committee, message, signatures);
    assert(among =~= all) by {
        assert forall|k: Seq<u8>| among.contains(k) implies all.contains(k) by {
            let i = choose|i: int|
                0 <= i < committee.len() && (#[trigger] committee[i]).pub_key == k;
            assert(keys_of(committee)[i] == k);
        }
        assert forall|k: Seq<u8>| all.contains(k) implies among.contains(k) by {
            let i = choose|i: int| 0 <= i < keys_of(committee).len() && keys_of(committee)[i] == k;
            assert(committee[i].pub_key == k);
        }
    }
}

/// No more members count as signers than were looked at.
pub proof fn lemma_signers_bounded<P: CryptoPort>(
    port: &P,
    committee: Seq<ValidatorView>,
    message: Seq<u8>,
    signatures: Seq<Seq<u8>>,
    upto: nat,
)
    ensures
        signers_among(port, committee, message, signatures, upto) <= upto,
    decreases upto,
{
    if upto > 0 {
        lemma_signers_bounded(port, committee, message, signatures, (upto - 1) as nat);
    }
}

/// Two signature lists under which the same committee keys have signed
/// count the same signers.
pub proof fn lemma_same_signers_same_count<P: CryptoPort>(
    port: &P,
    committee: Seq<ValidatorView>,
    message: Seq<u8>,
    first: Seq<Seq<u8>>,
    second: Seq<Seq<u8>>,
    upto: nat,
)
    requires
        upto <= committee.len(),
        forall|i: int|
            0 <= i < committee.len() ==> signed_by(
                port,
                message,
                first,
                #[trigger] committee[i].pub_key,
            ) == signed_by(port, message, second, committee[i].pub_key),
    ensures
        signers_among(port, committee, message, first, upto) == signers_among(
            port,
            committee,
            message,
            second,
            upto,
        ),
    decreases upto,
{
    if upto > 0 {
        lemma_same_signers_same_count(port, committee, message, first, second, (upto - 1) as nat);
    }
}

/// A repeated signature adds nothing: where every committee member under
/// whose key `extra` is valid has a valid signature in `signatures`
/// already, adding `extra` leaves the number of distinct signers as it was.
pub proof fn lemma_duplicate_adds_nothing<P: CryptoPort>(
    port: &P,
    committee: Seq<ValidatorView>,
    message: Seq<u8>,
    signatures: Seq<Seq<u8>>,
    extra: Seq<u8>,
)
    requires
        forall|i: int|
            0 <= i < committee.len() && vouches(
                port,
                message,
                extra,
                #[trigger] committee[i].pub_key,
            ) ==> signed_by(port, message, signatures, committee[i].pub_key),
    ensures
        distinct_signers(port, committee, message, signatures.push(extra)) == distinct_signers(
            port,
            committee,
            message,
            signatures,
        ),
{
    let grown = signatures.push(extra);
    assert forall|i: int| 0 <= i < committee.len() implies signed_by(
        port,
        message,
        grown,
        #[trigger] committee[i].pub_key,
    ) == signed_by(port, message, signatures, committee[i].pub_key) by {
        let key = committee[i].pub_key;
        if signed_by(port, message, signatures, key) {
            let k = choose|k: int|
                0 <= k < signatures.len() && vouches(
                    port,
                    message,
                    #[trigger] signatures[k],
                    key,
                );
            assert(grown[k] == signatures[k]);
        }
        if signed_by(port, message, grown, key) {
            let k = choose|k: int|
                0 <= k < grown.len() && vouches(port, message, #[trigger] grown[k], key);
            if k < signatures.len() {
                assert(grown[k] == signatures[k]);
            }
        }
    }
    lemma_same_signers_same_count(port, committee, message, grown, signatures, committee.len());
}

/// Member `i` of `committee` is the signer of `signature`: the first member
/// under whose key it is a valid signature over `message`.
pub open spec fn is_signer_at<P: CryptoPort>(
    port: &P,
    committee: Seq<ValidatorView>,
    message: Seq<u8>,
    signature: Seq<u8>,
    i: int,
) -> bool {
    &&& 0 <= i < committee.len()
    &&& vouches(port, message, signature, committee[i].pub_key)
    &&& forall|j: int|
        0 <= j < i ==> !vouches(port, message, signature, (#[trigger] committee[j]).pub_key)
}

/// `signature` is a valid signature over `message` under no member's key.
pub open spec fn is_unknown<P: CryptoPort>(
    port: &P,
    committee: Seq<ValidatorView>,
    message: Seq<u8>,
    signature: Seq<u8>,
) -> bool {
    forall|i: int|
        0 <= i < committee.len() ==> !vouches(
            port,
            message,
            signature,
            (#[trigger] committee[i]).pub_key,
        )
}

/// Finds the signer of `signature` among `committee`: the position of the
/// first member under whose key it is valid, or `None` where there is none.
pub fn find_signer<P: CryptoPort>(
    port: &P,
    committee: &Vec<Validator>,
    message: &Vec<u8>,
    signature: &Vec<u8>,
) -> (found: Option<usize>)
    ensures
        match found {
            Some(i) => is_signer_at(
                port,
                committee.deep_view(),
                message@,
                signature@,
                i as int,
            ),
            None => is_unknown(port, committee.deep_view(), message@, signature@),
        },
{
    let mut i: usize = 0;
    while i < committee.len()
        invariant
            i <= committee.len(),
            forall|j: int|
                0 <= j < i ==> !vouches(
                    port,
                    message@,
                    signature@,
                    (#[trigger] committee.deep_view()[j]).pub_key,
                ),
        decreases committee.len() - i,
    {
        assert(committee.deep_view()[i as int].pub_key == committee[i as int].pub_key@);
        if is_vouched(port, message, signature, &committee[i].pub_key) {
            return Some(i);
        }
        i += 1;
    }
    None
}

/// Whether no member before position `i` has the key of member `i`.
fn is_first_with_key(committee: &Vec<Validator>, i: usize) -> (first: bool)
    requires
        i < committee.len(),
    ensures
        first == first_with_key(committee.deep_view(), i as int),
{
    let mut j: usize = 0;
    while j < i
        invariant
            j <= i,
            i < committee.len(),
            forall|k: int|
                0 <= k < j ==> (#[trigger] committee.deep_view()[k]).pub_key
                    != committee.deep_view()[i as int].pub_key,
        decreases i - j,
    {
        if bytes_eq(&committee[j].pub_key, &committee[i].pub_key) {
            assert(committee.deep_view()[j as int].pub_key == committee.deep_view()[i as int].pub_key);
            return false;
        }
        j += 1;
    }
    true
}

/// Counts the distinct committee members that have validly signed
/// `message`.
pub fn count_signers<P: CryptoPort>(
    port: &P,
    committee: &Vec<Validator>,
    message: &Vec<u8>,
    signatures: &Vec<Vec<u8>>,
) -> (count: usize)
    ensures
        count == distinct_signers(port, committee.deep_view(), message@, signatures.deep_view()),
        count <= committee.len(),
{
    let mut count: usize = 0;
    let mut i: usize = 0;
    while i < committee.len()
        invariant
            i <= committee.len(),
            count <= i,
            count == signers_among(
                port,
                committee.deep_view(),
                message@,
                signatures.deep_view(),
                i as nat,
            ),
        decreases committee.len() - i,
    {
        assert(committee.deep_view()[i as int].pub_key == committee[i as int].pub_key@);
        if is_first_with_key(committee, i) && has_signed(
            port,
            message,
            signatures,
            &committee[i].pub_key,
        ) {
            count += 1;
        }
        i += 1;
    }
    count
}

/// Whether `signatures` hold a quorum over `message`.
pub fn quorum_reached<P: CryptoPort>(
    port: &P,
    committee: &Vec<Validator>,
    f: usize,
    message: &Vec<u8>,
    signatures: &Vec<Vec<u8>>,
) -> (reached: bool)
    ensures
        reached == has_quorum(
            port,
            committee.deep_view(),
            f as nat,
            message@,
            signatures.deep_view(),
        ),
{
    let count = count_signers(port, committee, message, signatures);
    count >= 1 && f <= (count - 1) / 2
}

} // verus!
