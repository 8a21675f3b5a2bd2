//! The keys of the validators that this node runs.

use crate::attestation::{AttestationData, XMSS_SIGNATURE_SIZE, XmssSignature};
use crate::hash_root::TreeHash;
use crate::primitives::H256;
use crate::text::{around, join_around};
use std::collections::HashMap;
use vstd::prelude::*;
use vstd::string::StringExecFns;

verus! {

broadcast use vstd::std_specs::hash::group_hash_axioms;

/// Error types for [`KeyManager`] operations.
#[derive(Debug)]
pub enum KeyManagerError {
    /// There is no key for this validator.
    ValidatorKeyNotFound(u64),
    /// The key could not sign.
    SigningError(String),
    /// What the key made is not a signature.
    SignatureConversionError(String),
}

/// A secret key.
///
/// Signing uses up one-time keys, so it changes the key: `sign` hands the changed key
/// back with the bytes of the signature or the reason why there is none.
pub trait SecretKey: Sized {
    fn sign(self, slot: u32, message: H256) -> (r: (Self, Result<Vec<u8>, String>));
}

/// A validator's dual key pair for attestation and block proposal signing.
///
/// Each key is independent and advances its preparation separately, allowing the
/// validator to sign both an attestation and a block proposal within the same slot.
pub struct ValidatorKeyPair<K> {
    pub attestation_key: K,
    pub proposal_key: K,
}

/// Manages validator secret keys for signing attestations and block proposals.
pub struct KeyManager<K> {
    keys: HashMap<u64, ValidatorKeyPair<K>>,
}

/// The reason given for bytes of the wrong length.
pub open spec fn conversion_reason(len: nat) -> Seq<char> {
    around("Index out of bounds: index "@, len, ", length 3112"@)
}

impl KeyManagerError {
    /// The text of the error.
    pub open spec fn message(&self) -> Seq<char> {
        match self {
            KeyManagerError::ValidatorKeyNotFound(v) => around(
                "Validator key not found for validator_id: "@,
                *v as nat,
                ""@,
            ),
            KeyManagerError::SigningError(reason) => "Signing error: "@ + reason@,
            KeyManagerError::SignatureConversionError(reason) => "Signature conversion error: "@
                + reason@,
        }
    }

    /// The text of the error.
    pub fn text(&self) -> (r: String)
        ensures
            r@ == self.message(),
    {
        match self {
            KeyManagerError::ValidatorKeyNotFound(v) => join_around(
                "Validator key not found for validator_id: ",
                *v,
                "",
            ),
            KeyManagerError::SigningError(reason) => {
                let mut s = "Signing error: ".to_owned();
                s.append(reason.as_str());
                s
            },
            KeyManagerError::SignatureConversionError(reason) => {
                let mut s = "Signature conversion error: ".to_owned();
                s.append(reason.as_str());
                s
            },
        }
    }
}

/// What becomes of the reply of a key.
pub open spec fn signature_of(
    reply: Result<Vec<u8>, String>,
    r: Result<XmssSignature, KeyManagerError>,
) -> bool {
    match reply {
        Err(reason) => r matches Err(KeyManagerError::SigningError(s)) && s@ == reason@,
        Ok(bytes) => if bytes@.len() == XMSS_SIGNATURE_SIZE {
            r matches Ok(signature) && signature@ == bytes@
        } else {
            r matches Err(KeyManagerError::SignatureConversionError(s)) && s@
                == conversion_reason(bytes@.len())
        },
    }
}

/// Turns the reply of a key into a signature.
pub fn finish_signature(reply: Result<Vec<u8>, String>) -> (r: Result<
    XmssSignature,
    KeyManagerError,
>)
    ensures
        signature_of(reply, r),
{
    match reply {
        Ok(bytes) => match XmssSignature::new(bytes) {
            Ok(signature) => Ok(signature),
            Err(bytes) => Err(
                KeyManagerError::SignatureConversionError(
                    join_around("Index out of bounds: index ", bytes.len() as u64, ", length 3112"),
                ),
            ),
        },
        Err(reason) => Err(KeyManagerError::SigningError(reason)),
    }
}

/// Whether `K::sign` may turn a key into another one with a reply.
pub open spec fn may_sign<K: SecretKey>(
    before: K,
    slot: u32,
    message: H256,
    after: K,
    reply: Result<Vec<u8>, String>,
) -> bool {
    call_ensures(K::sign, (before, slot, message), (after, reply))
}

/// The low 32 bits of a slot, which is what keys sign for.
pub open spec fn signing_slot(slot: u64) -> u32 {
    (slot % 0x1_0000_0000) as u32
}

/// The slot that keys sign for.
pub fn truncate_slot(slot: u64) -> (r: u32)
    ensures
        r == signing_slot(slot),
{
    (slot % 0x1_0000_0000) as u32
}

impl<K: SecretKey> KeyManager<K> {
    /// The key pairs by validator.
    pub closed spec fn pairs(&self) -> Map<u64, ValidatorKeyPair<K>> {
        self.keys@
    }

    pub fn new(keys: HashMap<u64, ValidatorKeyPair<K>>) -> (r: KeyManager<K>)
        ensures
            r.pairs() == keys@,
    {
        KeyManager { keys }
    }

    /// The registered validators, each once, in no particular order.
    pub fn validator_ids(&self) -> (r: Vec<u64>)
        ensures
            r@.no_duplicates(),
            r@.to_set() == self.pairs().dom(),
    {
        let mut ids: Vec<u64> = Vec::new();
        for id in it: self.keys.keys()
            invariant
                ids@.len() == it.index(),
                forall|k: int| 0 <= k < ids@.len() ==> ids@[k] == *it.seq()[k],
        {
            ids.push(*id);
        }
        proof {
            let all = vstd::std_specs::iter::IteratorSpec::remaining(
                &vstd::std_specs::hash::spec_keys_iter(&self.keys),
            );
            assert(ids@ =~= all.unref());
        }
        ids
    }

    /// Signs an attestation using the validator's attestation key.
    pub fn sign_attestation(&mut self, validator_id: u64, attestation_data: &AttestationData) -> (r:
        Result<XmssSignature, KeyManagerError>)
        ensures
            exists|message: H256|
                message@ == AttestationData::root(*attestation_data) && #[trigger]
                    attestation_signed(
                    old(self).pairs(),
                    final(self).pairs(),
                    validator_id,
                    signing_slot(attestation_data.slot),
                    message,
                    r,
                ),
    {
        let message_hash = attestation_data.tree_hash_root();
        let slot: u32 = truncate_slot(attestation_data.slot);
        self.sign_with_attestation_key(validator_id, slot, &message_hash)
    }

    /// Signs a block root using the validator's proposal key.
    pub fn sign_block_root(&mut self, validator_id: u64, slot: u32, block_root: &H256) -> (r:
        Result<XmssSignature, KeyManagerError>)
        ensures
            proposal_signed(
                old(self).pairs(),
                final(self).pairs(),
                validator_id,
                slot,
                *block_root,
                r,
            ),
    {
        self.sign_with_proposal_key(validator_id, slot, block_root)
    }

    /// Signs with the validator's attestation key.
    pub fn sign_with_attestation_key(&mut self, validator_id: u64, slot: u32, message: &H256) -> (r:
        Result<XmssSignature, KeyManagerError>)
        ensures
            attestation_signed(
                old(self).pairs(),
                final(self).pairs(),
                validator_id,
                slot,
                *message,
                r,
            ),
    {
        match self.keys.remove(&validator_id) {
            Some(pair) => {
                let ghost before = pair;
                let (key, reply) = pair.attestation_key.sign(slot, *message);
                let after = ValidatorKeyPair {
                    attestation_key: key,
                    proposal_key: pair.proposal_key,
                };
                self.keys.insert(validator_id, after);
                proof {
                    assert(self.keys@ =~= old(self).keys@.insert(validator_id, after));
                    assert(may_sign(before.attestation_key, slot, *message, key, reply));
                }
                finish_signature(reply)
            },
            None => {
                proof {
                    assert(self.keys@ =~= old(self).keys@);
                }
                Err(KeyManagerError::ValidatorKeyNotFound(validator_id))
            },
        }
    }

    /// Signs with the validator's proposal key.
    pub fn sign_with_proposal_key(&mut self, validator_id: u64, slot: u32, message: &H256) -> (r:
        Result<XmssSignature, KeyManagerError>)
        ensures
            proposal_signed(
                old(self).pairs(),
                final(self).pairs(),
                validator_id,
                slot,
                *message,
                r,
            ),
    {
        match self.keys.remove(&validator_id) {
            Some(pair) => {
                let ghost before = pair;
                let (key, reply) = pair.proposal_key.sign(slot, *message);
                let after = ValidatorKeyPair {
                    attestation_key: pair.attestation_key,
                    proposal_key: key,
                };
                self.keys.insert(validator_id, after);
                proof {
                    assert(self.keys@ =~= old(self).keys@.insert(validator_id, after));
                    assert(may_sign(before.proposal_key, slot, *message, key, reply));
                }
                finish_signature(reply)
            },
            None => {
                proof {
                    assert(self.keys@ =~= old(self).keys@);
                }
                Err(KeyManagerError::ValidatorKeyNotFound(validator_id))
            },
        }
    }
}

/// What signing with an attestation key does: without a key nothing changes; with one, the
/// attestation key of the validator is the only one that changes, and its reply decides
/// the result.
pub open spec fn attestation_signed<K: SecretKey>(
    before: Map<u64, ValidatorKeyPair<K>>,
    after: Map<u64, ValidatorKeyPair<K>>,
    validator_id: u64,
    slot: u32,
    message: H256,
    r: Result<XmssSignature, KeyManagerError>,
) -> bool {
    if before.dom().contains(validator_id) {
        exists|key: K, reply: Result<Vec<u8>, String>|
            #[trigger] may_sign(
                before[validator_id].attestation_key,
                slot,
                message,
                key,
                reply,
            ) && signature_of(reply, r) && after == before.insert(
                validator_id,
                ValidatorKeyPair {
                    attestation_key: key,
                    proposal_key: before[validator_id].proposal_key,
                },
            )
    } else {
        after == before && (r matches Err(KeyManagerError::ValidatorKeyNotFound(v)) && v
            == validator_id)
    }
}

/// What signing with a proposal key does: without a key nothing changes; with one, the
/// proposal key of the validator is the only one that changes, and its reply decides the
/// result.
pub open spec fn proposal_signed<K: SecretKey>(
    before: Map<u64, ValidatorKeyPair<K>>,
    after: Map<u64, ValidatorKeyPair<K>>,
    validator_id: u64,
    slot: u32,
    message: H256,
    r: Result<XmssSignature, KeyManagerError>,
) -> bool {
    if before.dom().contains(validator_id) {
        exists|key: K, reply: Result<Vec<u8>, String>|
            #[trigger] may_sign(
                before[validator_id].proposal_key,
                slot,
                message,
                key,
                reply,
            ) && signature_of(reply, r) && after == before.insert(
                validator_id,
                ValidatorKeyPair {
                    attestation_key: before[validator_id].attestation_key,
                    proposal_key: key,
                },
            )
    } else {
        after == before && (r matches Err(KeyManagerError::ValidatorKeyNotFound(v)) && v
            == validator_id)
    }
}

/// The two keys of a validator are independent: signing an attestation leaves every
/// proposal key as it is, and signing a block leaves every attestation key as it is.
pub proof fn keys_are_independent<K: SecretKey>(
    before: Map<u64, ValidatorKeyPair<K>>,
    after: Map<u64, ValidatorKeyPair<K>>,
    validator_id: u64,
    slot: u32,
    message: H256,
    r: Result<XmssSignature, KeyManagerError>,
    other: u64,
)
    requires
        before.dom().contains(other),
    ensures
        attestation_signed(before, after, validator_id, slot, message, r)
            ==> after.dom().contains(other) && after[other].proposal_key
            == before[other].proposal_key && (other != validator_id ==> after[other]
            == before[other]),
        proposal_signed(before, after, validator_id, slot, message, r) ==> after.dom().contains(
            other,
        ) && after[other].attestation_key == before[other].attestation_key && (other
            != validator_id ==> after[other] == before[other]),
{
}

/// Signing never registers or removes a validator, and every signature that comes out has
/// the size of one.
pub proof fn signing_keeps_validators<K: SecretKey>(
    before: Map<u64, ValidatorKeyPair<K>>,
    after: Map<u64, ValidatorKeyPair<K>>,
    validator_id: u64,
    slot: u32,
    message: H256,
    r: Result<XmssSignature, KeyManagerError>,
)
    requires
        attestation_signed(before, after, validator_id, slot, message, r) || proposal_signed(
            before,
            after,
            validator_id,
            slot,
            message,
            r,
        ),
    ensures
        after.dom() == before.dom(),
        r matches Ok(signature) ==> signature@.len() == XMSS_SIGNATURE_SIZE,
        before.dom().contains(validator_id) ==> !(r matches Err(
            KeyManagerError::ValidatorKeyNotFound(v),
        )),
{
    assert(after.dom() =~= before.dom());
}

} // verus!
