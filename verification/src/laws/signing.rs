//! What is signed, and with which key.

use crate::attestation::{AttestationData, SignedAttestation, SignedAttestationView, XmssSignature};
use crate::block::{AggregatedSignatureProof, Block, SignedBlock};
use crate::blockchain::key_manager::{
    attestation_signed, finish_signature, keys_are_independent, proposal_signed, signature_of,
    signing_keeps_validators, signing_slot, truncate_slot, KeyManager, KeyManagerError, SecretKey,
    ValidatorKeyPair,
};
use crate::blockchain::server::{
    are_attestations, asked_all, asked_ids, assemble_attestations, assemble_proposal,
    attestation_views, attesting_spares_proposal_keys, is_proposal, proposal_imported,
    BlockChainServer,
};
use crate::encoding::list::item_views;
use crate::hash_root::TreeHash;
use crate::primitives::{h256, lemma_h256_of_view, H256};
use crate::storage::backend::StorageBackend;
use vstd::prelude::*;

verus! {

/// A slot below 2^32 is signed as it is, and slots that differ by 2^32 are not told apart.
pub proof fn slots_are_signed_as_they_are(slot: u64)
    ensures
        slot < 0x1_0000_0000 ==> signing_slot(slot) == slot,
        slot >= 0x1_0000_0000 ==> signing_slot(slot) == signing_slot((slot - 0x1_0000_0000) as u64),
{
    if slot >= 0x1_0000_0000 {
        let s = slot as int;
        assert((s - 0x1_0000_0000) % 0x1_0000_0000 == s % 0x1_0000_0000);
    }
}

/// The bytes of a reply are the signature if there are 3112 of them. Other bytes and refusals
/// are errors, which tell the refusal's reason.
pub proof fn replies_become_signatures(
    reply: Result<Vec<u8>, String>,
    r: Result<XmssSignature, KeyManagerError>,
)
    requires
        signature_of(reply, r),
    ensures
        r is Ok <==> (reply matches Ok(bytes) && bytes@.len() == 3112),
        r matches Ok(signature) ==> signature.bytes@ == reply->Ok_0@,
        reply matches Err(reason) ==> (r matches Err(KeyManagerError::SigningError(text)) && text@
            == reason@),
        reply matches Ok(bytes) && bytes@.len() != 3112 ==> r matches Err(
            KeyManagerError::SignatureConversionError(_),
        ),
{
}

/// A registered validator's attestation is signed with its attestation key and its block with
/// its proposal key, once, for the given slot and message. For others nothing is signed.
pub proof fn each_duty_has_its_key<K: SecretKey>(
    before: Map<u64, ValidatorKeyPair<K>>,
    after: Map<u64, ValidatorKeyPair<K>>,
    validator: u64,
    slot: u32,
    message: H256,
    r: Result<XmssSignature, KeyManagerError>,
)
    ensures
        before.dom().contains(validator) && attestation_signed(
            before,
            after,
            validator,
            slot,
            message,
            r,
        ) ==> exists|reply: Result<Vec<u8>, String>|
            #[trigger] signature_of(reply, r) && call_ensures(
                K::sign,
                (before[validator].attestation_key, slot, message),
                (after[validator].attestation_key, reply),
            ),
        before.dom().contains(validator) && proposal_signed(
            before,
            after,
            validator,
            slot,
            message,
            r,
        ) ==> exists|reply: Result<Vec<u8>, String>|
            #[trigger] signature_of(reply, r) && call_ensures(
                K::sign,
                (before[validator].proposal_key, slot, message),
                (after[validator].proposal_key, reply),
            ),
        !before.dom().contains(validator) && (attestation_signed(
            before,
            after,
            validator,
            slot,
            message,
            r,
        ) || proposal_signed(before, after, validator, slot, message, r)) ==> after == before && (
        r matches Err(KeyManagerError::ValidatorKeyNotFound(v)) && v == validator),
{
}

/// Every registered validator is asked once, to sign the root of the data at its slot, and no
/// other.
pub proof fn all_validators_are_asked_once<K: SecretKey>(
    before: Map<u64, ValidatorKeyPair<K>>,
    after: Map<u64, ValidatorKeyPair<K>>,
    data: AttestationData,
    replies: Seq<(u64, Result<XmssSignature, KeyManagerError>)>,
    message: H256,
    validator: u64,
    i: int,
    j: int,
)
    requires
        asked_all(before, after, data, replies),
        0 <= i < replies.len(),
        0 <= j < replies.len(),
    ensures
        before.dom().contains(replies[i].0),
        replies[i].0 == replies[j].0 ==> i == j,
        before.dom().contains(validator) ==> exists|k: int|
            0 <= k < replies.len() && (#[trigger] replies[k]).0 == validator,
        message@ == AttestationData::root(data) ==> exists|reply: Result<Vec<u8>, String>|
            #[trigger] signature_of(reply, replies[i].1) && call_ensures(
                K::sign,
                (before[replies[i].0].attestation_key, signing_slot(data.slot), message),
                (after[replies[i].0].attestation_key, reply),
            ),
{
    let ids = asked_ids(replies);
    lemma_h256_of_view(message);
    assert(ids[i] == replies[i].0 && ids[j] == replies[j].0);
    assert(ids.to_set().contains(ids[i]));
    if before.dom().contains(validator) {
        assert(ids.to_set().contains(validator));
        let k = choose|k: int| 0 <= k < ids.len() && ids[k] == validator;
        assert(replies[k].0 == validator);
    }
}

/// The attestations are those of the validators whose keys signed, in the order of the
/// replies: each with its validator, the data and its signature.
pub proof fn signatures_become_attestations(
    data: AttestationData,
    a: Seq<(u64, Result<XmssSignature, KeyManagerError>)>,
    b: Seq<(u64, Result<XmssSignature, KeyManagerError>)>,
    one: (u64, Result<XmssSignature, KeyManagerError>),
)
    ensures
        attestation_views(data, a + b) == attestation_views(data, a) + attestation_views(data, b),
        attestation_views(data, seq![one]) == match one.1 {
            Ok(signature) => seq![
                SignedAttestationView { validator_id: one.0, data, signature: signature.bytes@ },
            ],
            Err(_) => Seq::empty(),
        },
    decreases b.len(),
{
    reveal_with_fuel(attestation_views, 2);
    assert(seq![one].drop_last() =~= Seq::<(u64, Result<XmssSignature, KeyManagerError>)>::empty());
    assert(seq![one].last() == one);
    assert(attestation_views(data, seq![one]) =~= match one.1 {
        Ok(signature) => seq![
            SignedAttestationView { validator_id: one.0, data, signature: signature.bytes@ },
        ],
        Err(_) => Seq::empty(),
    });
    if b.len() == 0 {
        assert(a + b =~= a);
        assert(attestation_views(data, a) + attestation_views(data, b) =~= attestation_views(
            data,
            a,
        ));
    } else {
        signatures_become_attestations(data, a, b.drop_last(), one);
        assert((a + b).drop_last() =~= a + b.drop_last());
        assert((a + b).last() == b.last());
        assert(attestation_views(data, a + b) =~= attestation_views(data, a) + attestation_views(
            data,
            b,
        ));
    }
}

/// A proposal is the block as it was built, its proofs as they were given, and the signature
/// over its root; where the key did not sign there is none.
pub proof fn proposals_are_whole(
    block: Block,
    proofs: Vec<AggregatedSignatureProof>,
    signature: Result<XmssSignature, KeyManagerError>,
    r: Result<SignedBlock, KeyManagerError>,
)
    requires
        is_proposal(block, proofs, signature, r),
    ensures
        r is Ok <==> signature is Ok,
        r matches Ok(signed) ==> signed.message == block && signed.signature.attestation_signatures
            == proofs && signed.signature.proposer_signature == signature->Ok_0,
        r matches Err(e) ==> e == signature->Err_0,
{
}

/// An attestation is signed with the attestation key of its validator, over the root of its
/// data and for its slot. Other keys stay as they are.
pub proof fn attestations_are_signed_with_their_key<K: SecretKey>(
    manager: &mut KeyManager<K>,
    validator: u64,
    data: AttestationData,
    r: Result<XmssSignature, KeyManagerError>,
    message: H256,
    other: u64,
)
    requires
        call_ensures(KeyManager::<K>::sign_attestation, (manager, validator, &data), r),
        message@ == AttestationData::root(data),
    ensures
        old(manager).pairs().dom().contains(validator) ==> exists|reply: Result<Vec<u8>, String>|
            #[trigger] signature_of(reply, r) && call_ensures(
                K::sign,
                (
                    old(manager).pairs()[validator].attestation_key,
                    (data.slot % 0x1_0000_0000) as u32,
                    message,
                ),
                (final(manager).pairs()[validator].attestation_key, reply),
            ),
        !old(manager).pairs().dom().contains(validator) ==> (r matches Err(
            KeyManagerError::ValidatorKeyNotFound(v),
        ) && v == validator),
        final(manager).pairs().dom() == old(manager).pairs().dom(),
        old(manager).pairs().dom().contains(other) ==> final(manager).pairs()[other].proposal_key
            == old(manager).pairs()[other].proposal_key && (other != validator ==>
                final(manager).pairs()[other] == old(manager).pairs()[other]),
{
    let before = old(manager).pairs();
    let after = final(manager).pairs();
    let slot = signing_slot(data.slot);
    let m = choose|m: H256|
        m@ == AttestationData::root(data) && #[trigger] attestation_signed(
            before,
            after,
            validator,
            slot,
            m,
            r,
        );
    lemma_h256_of_view(m);
    lemma_h256_of_view(message);
    each_duty_has_its_key(before, after, validator, slot, message, r);
    signing_keeps_validators(before, after, validator, slot, message, r);
    if before.dom().contains(other) {
        keys_are_independent(before, after, validator, slot, message, r, other);
    }
}

/// A block root is signed with the proposal key of its validator, for the given slot. Other
/// keys stay as they are.
pub proof fn blocks_are_signed_with_their_key<K: SecretKey>(
    manager: &mut KeyManager<K>,
    validator: u64,
    slot: u32,
    message: H256,
    r: Result<XmssSignature, KeyManagerError>,
    other: u64,
)
    requires
        call_ensures(KeyManager::<K>::sign_block_root, (manager, validator, slot, &message), r)
            || call_ensures(
            KeyManager::<K>::sign_with_proposal_key,
            (manager, validator, slot, &message),
            r,
        ),
    ensures
        old(manager).pairs().dom().contains(validator) ==> exists|reply: Result<Vec<u8>, String>|
            #[trigger] signature_of(reply, r) && call_ensures(
                K::sign,
                (old(manager).pairs()[validator].proposal_key, slot, message),
                (final(manager).pairs()[validator].proposal_key, reply),
            ),
        !old(manager).pairs().dom().contains(validator) ==> (r matches Err(
            KeyManagerError::ValidatorKeyNotFound(v),
        ) && v == validator),
        final(manager).pairs().dom() == old(manager).pairs().dom(),
        old(manager).pairs().dom().contains(other) ==> final(
            manager
        ).pairs()[other].attestation_key == old(manager).pairs()[other].attestation_key && (other
            != validator ==> final(manager).pairs()[other] == old(manager).pairs()[other]),
{
    let before = old(manager).pairs();
    let after = final(manager).pairs();
    each_duty_has_its_key(before, after, validator, slot, message, r);
    signing_keeps_validators(before, after, validator, slot, message, r);
    if before.dom().contains(other) {
        keys_are_independent(before, after, validator, slot, message, r, other);
    }
}

/// A message is signed with the attestation key of its validator, for the given slot.
pub proof fn messages_are_signed_with_the_attestation_key<K: SecretKey>(
    manager: &mut KeyManager<K>,
    validator: u64,
    slot: u32,
    message: H256,
    r: Result<XmssSignature, KeyManagerError>,
)
    requires
        call_ensures(
            KeyManager::<K>::sign_with_attestation_key,
            (manager, validator, slot, &message),
            r,
        ),
    ensures
        old(manager).pairs().dom().contains(validator) ==> exists|reply: Result<Vec<u8>, String>|
            #[trigger] signature_of(reply, r) && call_ensures(
                K::sign,
                (old(manager).pairs()[validator].attestation_key, slot, message),
                (final(manager).pairs()[validator].attestation_key, reply),
            ),
        !old(manager).pairs().dom().contains(validator) ==> r is Err,
{
    each_duty_has_its_key(
        old(manager).pairs(),
        final(manager).pairs(),
        validator,
        slot,
        message,
        r,
    );
}

/// A proposed block is the given one with the given proofs, and the reply of the proposal key
/// of its validator to the root of the block and its slot.
pub proof fn proposed_blocks_are_signed<B: StorageBackend, K: SecretKey>(
    server: &mut BlockChainServer<B, K>,
    slot: u64,
    validator: u64,
    block: Block,
    proofs: Vec<AggregatedSignatureProof>,
    r: Result<SignedBlock, KeyManagerError>,
    message: H256,
)
    requires
        call_ensures(
            BlockChainServer::<B, K>::propose_block,
            (server, slot, validator, block, proofs),
            r,
        ),
    ensures
        r matches Ok(signed) ==> signed.message == block && signed.signature.attestation_signatures
            == proofs,
        !old(server).key_manager.pairs().dom().contains(validator) ==> (r matches Err(
            KeyManagerError::ValidatorKeyNotFound(v),
        ) && v == validator),
        message@ == Block::root(block@) && old(server).key_manager.pairs().dom().contains(
            validator,
        ) ==> exists|reply: Result<Vec<u8>, String>| #[trigger]
            proposal_reply(reply, r) && call_ensures(
                K::sign,
                (
                    old(server).key_manager.pairs()[validator].proposal_key,
                    (slot % 0x1_0000_0000) as u32,
                    message,
                ),
                (final(server).key_manager.pairs()[validator].proposal_key, reply),
            ),
        final(server).store == old(server).store,
        final(server).pending == old(server).pending,
        final(server).is_aggregator == old(server).is_aggregator,
{
    let before = old(server).key_manager.pairs();
    let after = final(server).key_manager.pairs();
    let root = h256(Block::root(block@));
    let signature = choose|signature: Result<XmssSignature, KeyManagerError>| #[trigger]
        proposal_signed(before, after, validator, signing_slot(slot), root, signature)
            && is_proposal(block, proofs, signature, r);
    lemma_h256_of_view(message);
    each_duty_has_its_key(before, after, validator, signing_slot(slot), root, signature);
    proposals_are_whole(block, proofs, signature, r);
    if message@ == Block::root(block@) && before.dom().contains(validator) {
        let reply = choose|reply: Result<Vec<u8>, String>| #[trigger]
            signature_of(reply, signature) && call_ensures(
                K::sign,
                (before[validator].proposal_key, signing_slot(slot), root),
                (after[validator].proposal_key, reply),
            );
        replies_become_signatures(reply, signature);
        assert(proposal_reply(reply, r));
    }
}

/// What a key's reply makes of a proposal: its bytes are the proposer's signature, and
/// whatever is no signature is an error.
pub open spec fn proposal_reply(
    reply: Result<Vec<u8>, String>,
    r: Result<SignedBlock, KeyManagerError>,
) -> bool {
    &&& r is Ok <==> (reply matches Ok(bytes) && bytes@.len() == 3112)
    &&& r matches Ok(signed) ==> signed.signature.proposer_signature.bytes@ == reply->Ok_0@
    &&& reply matches Err(reason) ==> (r matches Err(KeyManagerError::SigningError(text)) && text@
        == reason@)
}

/// The attestations that are produced are those of our validators whose keys sign the root of
/// the data for its slot, each once.
pub proof fn our_validators_attest<B: StorageBackend, K: SecretKey>(
    server: &mut BlockChainServer<B, K>,
    data: AttestationData,
    r: Vec<SignedAttestation>,
    i: int,
    j: int,
    message: H256,
)
    requires
        call_ensures(BlockChainServer::<B, K>::produce_attestations, (server, &data), r),
        0 <= i < r@.len(),
        0 <= j < r@.len(),
    ensures
        r@[i]@.data == data,
        old(server).key_manager.pairs().dom().contains(r@[i]@.validator_id),
        r@[i]@.validator_id == r@[j]@.validator_id ==> i == j,
        message@ == AttestationData::root(data) ==> exists|reply: Result<Vec<u8>, String>|
            reply is Ok && reply->Ok_0@ == r@[i]@.signature && #[trigger] call_ensures(
                K::sign,
                (
                    old(server).key_manager.pairs()[r@[i]@.validator_id].attestation_key,
                    (data.slot % 0x1_0000_0000) as u32,
                    message,
                ),
                (final(server).key_manager.pairs()[r@[i]@.validator_id].attestation_key, reply),
            ),
        final(server).store == old(server).store,
        final(server).pending == old(server).pending,
{
    let before = old(server).key_manager.pairs();
    let after = final(server).key_manager.pairs();
    let replies = choose|replies: Seq<(u64, Result<XmssSignature, KeyManagerError>)>| #[trigger]
        asked_all(before, after, data, replies) && are_attestations(data, replies, r@);
    let views = attestation_views(data, replies);
    assert(views[i] == r@[i]@ && views[j] == r@[j]@);
    let (a, b) = lemma_attestation_sources(data, replies, i, j);
    all_validators_are_asked_once(before, after, data, replies, message, 0, a, b);
    if message@ == AttestationData::root(data) {
        let reply = choose|reply: Result<Vec<u8>, String>| #[trigger]
            signature_of(reply, replies[a].1) && call_ensures(
                K::sign,
                (before[replies[a].0].attestation_key, signing_slot(data.slot), message),
                (after[replies[a].0].attestation_key, reply),
            );
        replies_become_signatures(reply, replies[a].1);
    }
}

/// Every attestation stands for a reply of its own.
proof fn lemma_attestation_sources(
    data: AttestationData,
    replies: Seq<(u64, Result<XmssSignature, KeyManagerError>)>,
    i: int,
    j: int,
) -> (r: (int, int))
    requires
        0 <= i < attestation_views(data, replies).len(),
        0 <= j < attestation_views(data, replies).len(),
    ensures
        0 <= r.0 < replies.len(),
        0 <= r.1 < replies.len(),
        r.0 == r.1 ==> i == j,
        replies[r.0].1 is Ok,
        replies[r.1].1 is Ok,
        attestation_views(data, replies)[i] == (SignedAttestationView {
            validator_id: replies[r.0].0,
            data,
            signature: replies[r.0].1->Ok_0@,
        }),
        attestation_views(data, replies)[j] == (SignedAttestationView {
            validator_id: replies[r.1].0,
            data,
            signature: replies[r.1].1->Ok_0@,
        }),
    decreases replies.len(),
{
    let rest = replies.drop_last();
    let before = attestation_views(data, rest);
    let n = before.len() as int;
    let last = replies.len() - 1;
    if i < n && j < n {
        lemma_attestation_sources(data, rest, i, j)
    } else if i < n {
        (lemma_attestation_sources(data, rest, i, i).0, last)
    } else if j < n {
        (last, lemma_attestation_sources(data, rest, j, j).0)
    } else {
        (last, last)
    }
}

/// Every one of our validators whose key signs has its attestation among those produced.
pub proof fn no_signature_is_lost(
    data: AttestationData,
    replies: Vec<(u64, Result<XmssSignature, KeyManagerError>)>,
    r: Vec<SignedAttestation>,
    k: int,
)
    requires
        call_ensures(assemble_attestations, (&data, replies), r),
        0 <= k < replies@.len(),
        replies@[k].1 is Ok,
    ensures
        exists|i: int|
            0 <= i < r@.len() && (#[trigger] r@[i])@ == (SignedAttestationView {
                validator_id: replies@[k].0,
                data,
                signature: replies@[k].1->Ok_0.bytes@,
            }),
{
    let before = replies@.take(k);
    let one = replies@[k];
    let after = replies@.skip(k + 1);
    signatures_become_attestations(data, before, seq![one], one);
    signatures_become_attestations(data, before + seq![one], after, one);
    assert(replies@ =~= before + seq![one] + after);
    let i = attestation_views(data, before).len() as int;
    let views = attestation_views(data, replies@);
    assert(attestation_views(data, seq![one]).len() == 1);
    assert(views[i] == attestation_views(data, seq![one])[0]);
    assert(item_views(r@) == views);
    assert(i < views.len());
    assert(item_views(r@)[i] == r@[i]@);
}

/// Only aggregators take attestations from gossip.
pub proof fn aggregators_take_gossip<B: StorageBackend, K: SecretKey>(
    server: BlockChainServer<B, K>,
    attestation: SignedAttestation,
    r: Option<SignedAttestation>,
)
    requires
        call_ensures(
            BlockChainServer::<B, K>::on_gossip_attestation,
            (&server, attestation),
            r,
        ),
    ensures
        server.is_aggregator ==> r == Some(attestation),
        !server.is_aggregator ==> r is None,
{
}

/// A proposal is published once it is imported, unchanged.
pub proof fn imported_proposals_are_published(
    signed: SignedBlock,
    imported: bool,
    r: Option<SignedBlock>,
)
    requires
        call_ensures(proposal_imported, (signed, imported), r),
    ensures
        r is Some <==> imported,
        r is Some ==> r == Some(signed),
{
}

/// The validators of a manager are those with keys, each listed once.
pub proof fn validators_with_keys_are_listed<K: SecretKey>(
    manager: KeyManager<K>,
    r: Vec<u64>,
    v: u64,
)
    requires
        call_ensures(KeyManager::<K>::validator_ids, (&manager,), r),
    ensures
        r@.no_duplicates(),
        r@.contains(v) <==> manager.pairs().dom().contains(v),
{
    assert(r@.to_set().contains(v) <==> r@.contains(v));
}

/// A reply of a key becomes a signature or an error, and slots are cut to 32 bits.
pub proof fn replies_are_finished(
    reply: Result<Vec<u8>, String>,
    r: Result<XmssSignature, KeyManagerError>,
    slot: u64,
    s: u32,
)
    ensures
        call_ensures(finish_signature, (reply,), r) ==> {
            &&& r is Ok <==> (reply matches Ok(bytes) && bytes@.len() == 3112)
            &&& r matches Ok(signature) ==> signature.bytes@ == reply->Ok_0@
            &&& reply matches Err(reason) ==> (r matches Err(KeyManagerError::SigningError(text))
                && text@ == reason@)
        },
        call_ensures(truncate_slot, (slot,), s) ==> s == slot % 0x1_0000_0000,
{
}

/// Each of our validators is asked once to sign the root of the data for its slot, with its
/// attestation key; its proposal key is not used.
pub proof fn our_validators_are_asked<B: StorageBackend, K: SecretKey>(
    server: &mut BlockChainServer<B, K>,
    data: AttestationData,
    replies: Vec<(u64, Result<XmssSignature, KeyManagerError>)>,
    message: H256,
    v: u64,
    i: int,
    j: int,
)
    requires
        call_ensures(BlockChainServer::<B, K>::sign_attestations, (server, &data), replies),
        0 <= i < replies@.len(),
        0 <= j < replies@.len(),
    ensures
        old(server).key_manager.pairs().dom().contains(replies@[i].0),
        replies@[i].0 == replies@[j].0 ==> i == j,
        old(server).key_manager.pairs().dom().contains(v) ==> (exists|k: int|
            0 <= k < replies@.len() && (#[trigger] replies@[k]).0 == v) && final(
            server
        ).key_manager.pairs()[v].proposal_key == old(server).key_manager.pairs()[v].proposal_key,
        message@ == AttestationData::root(data) ==> exists|reply: Result<Vec<u8>, String>|
            #[trigger] signature_of(reply, replies@[i].1) && call_ensures(
                K::sign,
                (
                    old(server).key_manager.pairs()[replies@[i].0].attestation_key,
                    (data.slot % 0x1_0000_0000) as u32,
                    message,
                ),
                (final(server).key_manager.pairs()[replies@[i].0].attestation_key, reply),
            ),
        final(server).store == old(server).store,
        final(server).pending == old(server).pending,
{
    let before = old(server).key_manager.pairs();
    let after = final(server).key_manager.pairs();
    all_validators_are_asked_once(before, after, data, replies@, message, v, i, j);
    if before.dom().contains(v) {
        attesting_spares_proposal_keys(before, after, data, replies@, v);
    }
}

/// A proposal is assembled from the block, its proofs and its signature.
pub proof fn proposals_are_assembled(
    block: Block,
    proofs: Vec<AggregatedSignatureProof>,
    signature: Result<XmssSignature, KeyManagerError>,
    r: Result<SignedBlock, KeyManagerError>,
)
    requires
        call_ensures(assemble_proposal, (block, proofs, signature), r),
    ensures
        signature matches Ok(s) ==> (r matches Ok(signed) && signed.message == block
            && signed.signature.attestation_signatures == proofs
            && signed.signature.proposer_signature == s),
        signature matches Err(e) ==> (r matches Err(f) && f == e),
{
}

} // verus!
