//! What a node is set up with.

use crate::fixtures;
use crate::bindings::collections::{participation, AggregationBits};
use crate::bindings::hexadecimal::{hex_digit, is_hex, is_hex_digit};
use crate::block::{empty_body, BlockBody, BlockHeader};
use crate::blockchain::key_manager::ValidatorKeyPair;
use crate::checkpoint::Checkpoint;
use crate::checkpoint_sync::{acceptable, refused_for, CheckpointSyncError};
use crate::encoding::{decode_inverts_encode, decoded, read_gives_back_written, Ssz};
use crate::genesis::{numbered, GenesisConfig, GenesisValidatorEntry};
use crate::hash_root::TreeHash;
use crate::net::messages::ResponseCode;
use crate::pubkey::{
    ascii, decode_hex_text, parse_prefixed_pubkey, parse_pubkey, pubkey_to_hex, without_prefix,
    without_prefixes, written_pubkey_parses_back, PubkeyError,
};
use crate::startup::{checkpoint_store, genesis_store, StartupError};
use crate::state::{is_genesis, ChainConfig, State, StateView, Validator, ValidatorPubkeyBytes};
use crate::storage::backend::StorageBackend;
use crate::storage::model::anchor_consistent;
use crate::storage::store::Store;
use crate::text::{decimal_text, digit_char};
use crate::validator_config::{
    first_node, first_validator_id, has_node, register_keys, registered, validators_of,
    AnnotatedValidator, NodeValidators,
};
use std::collections::HashMap;
use vstd::prelude::*;

verus! {

/// The validators of a genesis configuration are its entries in their order, with their keys
/// and numbered from zero.
pub proof fn genesis_validators_are_numbered(entries: Seq<GenesisValidatorEntry>, i: int)
    requires
        0 <= i < entries.len(),
        entries.len() <= u64::MAX,
    ensures
        numbered(entries).len() == entries.len(),
        numbered(entries)[i].index == i,
        numbered(entries)[i].attestation_pubkey == entries[i].attestation_pubkey,
        numbered(entries)[i].proposal_pubkey == entries[i].proposal_pubkey,
{
}

/// A genesis state has the given time and validators, a header of slot zero for an empty
/// body, and nothing else: no parent, no justified or finalized block and no history.
pub proof fn genesis_is_empty(state: StateView, genesis_time: u64, validators: Seq<Validator>, i: int)
    requires
        is_genesis(state, genesis_time, validators),
        0 <= i < 32,
    ensures
        state.config.genesis_time == genesis_time,
        state.validators == validators,
        state.slot == 0 && state.latest_block_header.slot == 0,
        state.latest_block_header.proposer_index == 0,
        state.latest_block_header.parent_root@[i] == 0,
        state.latest_block_header.state_root@[i] == 0,
        state.latest_block_header.body_root@ == BlockBody::root(empty_body()),
        empty_body().attestations.len() == 0,
        state.latest_justified.slot == 0 && state.latest_justified.root@[i] == 0,
        state.latest_finalized.slot == 0 && state.latest_finalized.root@[i] == 0,
        state.historical_block_hashes.len() == 0,
        state.justified_slots.len() == 0,
        state.justifications_roots.len() == 0,
        state.justifications_validators.len() == 0,
{
}

/// The last key pair that is given for a validator is the one that is registered, and no
/// others are.
pub proof fn the_last_keys_count<K>(pairs: Seq<(u64, ValidatorKeyPair<K>)>, i: int)
    requires
        0 <= i < pairs.len(),
    ensures
        registered(pairs).dom().contains(pairs[i].0),
        (forall|j: int| i < j < pairs.len() ==> (#[trigger] pairs[j]).0 != pairs[i].0)
            ==> registered(pairs)[pairs[i].0] == pairs[i].1,
    decreases pairs.len(),
{
    let rest = pairs.drop_last();
    if i < rest.len() {
        the_last_keys_count(rest, i);
        assert(rest[i] == pairs[i]);
        if forall|j: int| i < j < pairs.len() ==> (#[trigger] pairs[j]).0 != pairs[i].0 {
            assert forall|j: int| i < j < rest.len() implies (#[trigger] rest[j]).0 != rest[i].0 by {
                assert(rest[j] == pairs[j]);
            }
            assert(pairs[pairs.len() - 1].0 != pairs[i].0);
        }
    }
}

/// Only validators for which keys are given are registered.
pub proof fn only_given_keys_are_registered<K>(pairs: Seq<(u64, ValidatorKeyPair<K>)>, id: u64)
    requires
        registered(pairs).dom().contains(id),
    ensures
        exists|i: int| 0 <= i < pairs.len() && (#[trigger] pairs[i]).0 == id,
    decreases pairs.len(),
{
    let rest = pairs.drop_last();
    if pairs.last().0 != id {
        only_given_keys_are_registered(rest, id);
        let i = choose|i: int| 0 <= i < rest.len() && (#[trigger] rest[i]).0 == id;
        assert(pairs[i].0 == id);
    } else {
        assert(pairs[pairs.len() - 1].0 == id);
    }
}

/// A leading `0x` does not change what a text stands for: one is taken off a public key, and
/// any number off other bytes.
pub proof fn prefixes_are_taken_off(text: Seq<u8>)
    ensures
        without_prefix(seq![0x30u8, 0x78u8] + text) == text,
        without_prefixes(seq![0x30u8, 0x78u8] + text) == without_prefixes(text),
        text.len() < 2 || text[0] != 0x30 || text[1] != 0x78 ==> without_prefix(text) == text
            && without_prefixes(text) == text,
{
    let whole = seq![0x30u8, 0x78u8] + text;
    assert(whole.skip(2) =~= text);
}

/// The value of decimal digits.
pub open spec fn decimal_value(text: Seq<char>) -> nat
    decreases text.len(),
{
    if text.len() == 0 {
        0
    } else {
        10 * decimal_value(text.drop_last()) + (text.last() as nat - '0' as nat) as nat
    }
}

/// A number in decimal has its value and no leading zero.
pub proof fn numbers_are_written_in_decimal(n: nat)
    ensures
        decimal_text(n).len() > 0,
        decimal_value(decimal_text(n)) == n,
        n > 0 ==> decimal_text(n)[0] != '0',
        forall|i: int|
            0 <= i < decimal_text(n).len() ==> '0' <= #[trigger] decimal_text(n)[i] <= '9',
    decreases n,
{
    reveal_with_fuel(decimal_value, 2);
    let d = digit_char(n % 10);
    assert(d as nat == 0x30 + n % 10);
    if n < 10 {
        let t = decimal_text(n);
        assert(t.drop_last() =~= Seq::<char>::empty());
        assert(t.last() == d);
    } else {
        numbers_are_written_in_decimal(n / 10);
        let t = decimal_text(n);
        assert(t.drop_last() =~= decimal_text(n / 10));
        assert(t.last() == d);
    }
}

/// A fixture stands for the values of its fields, each under its own name.
pub proof fn fixtures_keep_their_fields(
    body: fixtures::BlockBody,
    data: fixtures::AttestationData,
    i: int,
)
    ensures
        data.domain().slot == data.slot,
        data.domain().head.root == data.head.root && data.domain().head.slot == data.head.slot,
        data.domain().target.root == data.target.root && data.domain().target.slot
            == data.target.slot,
        data.domain().source.root == data.source.root && data.domain().source.slot
            == data.source.slot,
        body.domain().attestations.len() == body.attestations.data@.len(),
        0 <= i < body.attestations.data@.len() ==> body.domain().attestations[i].aggregation_bits
            == body.attestations.data@[i].aggregation_bits.data@
            && body.domain().attestations[i].data.slot == body.attestations.data@[i].data.slot
            && body.domain().attestations[i].data.source.slot
            == body.attestations.data@[i].data.source.slot,
{
}

/// The validators that the chain starts with are the configured ones, numbered from zero.
pub proof fn configured_validators_are_numbered(genesis: GenesisConfig, r: Vec<Validator>, i: int)
    requires
        call_ensures(GenesisConfig::validators, (&genesis,), r),
        0 <= i < genesis.genesis_validators@.len() <= u64::MAX,
    ensures
        r@.len() == genesis.genesis_validators@.len(),
        r@[i].index == i,
        r@[i].attestation_pubkey == genesis.genesis_validators@[i].attestation_pubkey,
        r@[i].proposal_pubkey == genesis.genesis_validators@[i].proposal_pubkey,
{
    genesis_validators_are_numbered(genesis.genesis_validators@, i);
}

/// A state at genesis holds the time, the validators and the header of the empty block, and
/// nothing else.
pub proof fn states_start_empty(
    genesis_time: u64,
    validators: Vec<Validator>,
    r: State,
    i: int,
)
    requires
        call_ensures(State::from_genesis, (genesis_time, validators), r),
        0 <= i < 32,
    ensures
        r@.config.genesis_time == genesis_time,
        r@.validators == validators@,
        r@.slot == 0 && r@.latest_block_header.slot == 0,
        r@.latest_block_header.proposer_index == 0,
        r@.latest_block_header.parent_root@[i] == 0,
        r@.latest_block_header.state_root@[i] == 0,
        r@.latest_block_header.body_root@ == BlockBody::root(empty_body()),
        r@.latest_justified.slot == 0 && r@.latest_justified.root@[i] == 0,
        r@.latest_finalized.slot == 0 && r@.latest_finalized.root@[i] == 0,
        r@.historical_block_hashes.len() == 0,
        r@.justified_slots.len() == 0,
        r@.justifications_roots.len() == 0,
        r@.justifications_validators.len() == 0,
{
    genesis_is_empty(r@, genesis_time, validators@, i);
}

/// A node that starts from genesis starts from the state of its configuration, unless that has
/// more than 4096 validators.
pub proof fn nodes_start_from_genesis<B: StorageBackend>(
    backend: B,
    genesis: GenesisConfig,
    r: Result<Store<B>, StartupError>,
    i: int,
)
    requires
        call_ensures(genesis_store::<B>, (backend, &genesis), r),
        0 <= i < genesis.genesis_validators@.len(),
    ensures
        r is Ok <==> genesis.genesis_validators@.len() <= 4096,
        r matches Err(e) ==> e is TooManyValidators,
        r matches Ok(store) ==> exists|state: StateView| #[trigger]
            store.starts_at(backend.db(), state, None) && state.config.genesis_time
                == genesis.genesis_time && state.validators.len()
                == genesis.genesis_validators@.len() && state.validators[i].index == i
                && state.validators[i].attestation_pubkey
                == genesis.genesis_validators@[i].attestation_pubkey
                && state.validators[i].proposal_pubkey
                == genesis.genesis_validators@[i].proposal_pubkey && state.slot == 0
                && state.latest_block_header.slot == 0 && state.historical_block_hashes.len() == 0,
{
    if genesis.genesis_validators@.len() <= 4096 {
        genesis_validators_are_numbered(genesis.genesis_validators@, i);
    }
}

/// A node that starts from a downloaded state starts from the state that the bytes encode, if
/// that is one of the configured chain and its header holds its root. Else it does not start.
pub proof fn nodes_start_from_checkpoints<B: StorageBackend>(
    backend: B,
    genesis: GenesisConfig,
    bytes: &[u8],
    written: StateView,
    r: Result<Store<B>, StartupError>,
    validators: Vec<Validator>,
)
    requires
        call_ensures(checkpoint_store::<B>, (backend, &genesis, bytes), r),
        call_ensures(GenesisConfig::validators, (&genesis,), validators),
    ensures
        State::valid(written) && bytes@ == State::enc(written) ==> {
            &&& r is Ok <==> acceptable(written, genesis.genesis_time, validators@)
                && anchor_consistent(written)
            &&& r matches Ok(store) ==> store.starts_at(backend.db(), written, None)
            &&& r matches Err(StartupError::Sync(e)) ==> refused_for(
                written,
                genesis.genesis_time,
                validators@,
                e,
            )
            &&& r matches Err(e) ==> (e is InconsistentAnchor <==> acceptable(
                written,
                genesis.genesis_time,
                validators@,
            ))
        },
        (forall|state: StateView| State::valid(state) ==> #[trigger] State::enc(state) != bytes@)
            ==> (r matches Err(StartupError::Sync(CheckpointSyncError::SszDecode(_)))),
{
    if State::valid(written) && bytes@ == State::enc(written) {
        read_gives_back_written::<State>(written);
    }
    if decoded::<State>(bytes@) is Some {
        decode_inverts_encode::<State>(bytes@, decoded::<State>(bytes@)->0);
    }
}

/// The keys of a validator are those of the last pair that is given for it.
pub proof fn last_keys_are_registered<K>(
    pairs: Vec<(u64, ValidatorKeyPair<K>)>,
    r: HashMap<u64, ValidatorKeyPair<K>>,
    i: int,
    id: u64,
)
    requires
        call_ensures(register_keys::<K>, (pairs,), r),
    ensures
        0 <= i < pairs@.len() ==> r@.dom().contains(pairs@[i].0),
        0 <= i < pairs@.len() && (forall|j: int|
            i < j < pairs@.len() ==> (#[trigger] pairs@[j]).0 != pairs@[i].0)
            ==> r@[pairs@[i].0] == pairs@[i].1,
        r@.dom().contains(id) ==> exists|k: int|
            0 <= k < pairs@.len() && (#[trigger] pairs@[k]).0 == id,
{
    if 0 <= i < pairs@.len() {
        the_last_keys_count(pairs@, i);
    }
    if r@.dom().contains(id) {
        only_given_keys_are_registered(pairs@, id);
    }
}

/// The first identifier is the lowest one.
pub proof fn the_first_id_is_the_lowest(ids: Vec<u64>, r: Option<u64>, i: int)
    requires
        call_ensures(first_validator_id, (&ids,), r),
    ensures
        r is None <==> ids@.len() == 0,
        r matches Some(id) ==> ids@.contains(id) && (0 <= i < ids@.len() ==> id <= ids@[i]),
{
    if ids@.len() > 0 && r is Some {
        assert(ids@[0] == ids@[0]);
    }
}

/// The validators of a node are those of the first entry with its identifier.
pub proof fn nodes_are_found_by_id(
    nodes: Vec<NodeValidators>,
    id: String,
    r: Option<&Vec<AnnotatedValidator>>,
    i: int,
)
    requires
        call_ensures(validators_of, (&nodes, &id), r),
        0 <= i < nodes@.len(),
        nodes@[i].node_id@ == id@,
        forall|j: int| 0 <= j < i ==> (#[trigger] nodes@[j]).node_id@ != id@,
    ensures
        r matches Some(validators) && *validators == nodes@[i].validators,
{
    assert(first_node(nodes@, id@, i));
    assert(has_node(nodes@, id@));
    if r is Some {
        let k = choose|k: int| #[trigger]
            first_node(nodes@, id@, k) && *r->0 == nodes@[k].validators;
        if k < i {
            assert(nodes@[k].node_id@ != id@);
        }
        if i < k {
            assert(nodes@[i].node_id@ != id@);
        }
    }
}

/// The value of a hexadecimal digit of either case.
pub open spec fn digit_value(c: u8) -> Option<int> {
    if '0' as u8 <= c <= '9' as u8 {
        Some(c - '0' as u8)
    } else if 'a' as u8 <= c <= 'f' as u8 {
        Some(10 + c - 'a' as u8)
    } else if 'A' as u8 <= c <= 'F' as u8 {
        Some(10 + c - 'A' as u8)
    } else {
        None
    }
}

/// A public key is read from 104 hexadecimal digits, two for each byte. Text with other
/// characters or an odd number of them is no hexadecimal text, and other lengths are told.
pub proof fn public_keys_are_read_from_digits(
    text: &[u8],
    r: Result<ValidatorPubkeyBytes, PubkeyError>,
    i: int,
)
    requires
        call_ensures(parse_pubkey, (text,), r),
        0 <= i < 52,
    ensures
        r is Ok <==> text@.len() == 104 && forall|k: int|
            0 <= k < text@.len() ==> digit_value(#[trigger] text@[k]) is Some,
        r matches Ok(key) ==> key@[i] == 16 * digit_value(text@[2 * i])->0 + digit_value(
            text@[2 * i + 1],
        )->0,
        r matches Err(PubkeyError::WrongLength(n)) ==> n == (text@.len() / 2) as usize
            && text@.len() % 2 == 0 && text@.len() != 104,
        (r matches Err(PubkeyError::NotHex)) <==> text@.len() % 2 == 1 || exists|k: int|
            0 <= k < text@.len() && digit_value(#[trigger] text@[k]) is None,
{
    assert forall|k: int| 0 <= k < text@.len() implies (is_hex_digit(#[trigger] text@[k])
        <==> digit_value(text@[k]) is Some) && (is_hex_digit(text@[k]) ==> hex_digit(text@[k])
        == digit_value(text@[k])->0) by {}
    if is_hex(text@) {
        assert forall|k: int| 0 <= k < text@.len() implies digit_value(
            #[trigger] text@[k],
        ) is Some by {
            assert(is_hex_digit(text@[k]));
        }
        if r is Ok {
            assert(text@.len() == 104);
            assert(is_hex_digit(text@[2 * i]) && is_hex_digit(text@[2 * i + 1]));
        }
    } else if text@.len() % 2 == 0 {
        let k = choose|k: int| 0 <= k < text@.len() && !is_hex_digit(#[trigger] text@[k]);
        assert(digit_value(text@[k]) is None);
    }
}

/// One `0x` may stand before a public key, and any number of them before other bytes.
pub proof fn prefixes_do_not_matter(
    plain: &[u8],
    prefixed: &[u8],
    a: Result<ValidatorPubkeyBytes, PubkeyError>,
    b: Result<ValidatorPubkeyBytes, PubkeyError>,
    c: Option<Vec<u8>>,
    d: Option<Vec<u8>>,
)
    requires
        prefixed@ == seq![0x30u8, 0x78u8] + plain@,
    ensures
        call_ensures(parse_pubkey, (plain,), a) && call_ensures(
            parse_prefixed_pubkey,
            (prefixed,),
            b,
        ) ==> (a is Ok <==> b is Ok) && (a is Ok ==> a->Ok_0@ == b->Ok_0@) && (a is Err ==> a->Err_0
            == b->Err_0),
        call_ensures(decode_hex_text, (plain,), c) && call_ensures(decode_hex_text, (prefixed,), d)
            ==> (c is Some <==> d is Some) && (c is Some ==> c->0@ == d->0@),
{
    prefixes_are_taken_off(plain@);
}

/// A written public key is read back.
pub proof fn written_keys_are_read(
    key: ValidatorPubkeyBytes,
    text: String,
    bytes: &[u8],
    r: Result<ValidatorPubkeyBytes, PubkeyError>,
)
    requires
        call_ensures(pubkey_to_hex, (&key,), text),
        call_ensures(parse_pubkey, (bytes,), r),
        bytes@ == ascii(text@),
    ensures
        r matches Ok(read) && read@ == key@,
{
    written_pubkey_parses_back(key);
}

/// The fields of a fixture are those of the state it stands for. Its justification bits are
/// not taken over.
pub proof fn fixture_states_keep_their_fields(fixture: fixtures::TestState, r: State, i: int)
    requires
        call_ensures(fixtures::TestState::into_state, (fixture,), r),
    ensures
        r.config.genesis_time == fixture.config.genesis_time,
        r.slot == fixture.slot,
        r.latest_block_header.slot == fixture.latest_block_header.slot,
        r.latest_block_header.proposer_index == fixture.latest_block_header.proposer_index,
        r.latest_block_header.parent_root == fixture.latest_block_header.parent_root,
        r.latest_block_header.state_root == fixture.latest_block_header.state_root,
        r.latest_block_header.body_root == fixture.latest_block_header.body_root,
        r.latest_justified.root == fixture.latest_justified.root,
        r.latest_justified.slot == fixture.latest_justified.slot,
        r.latest_finalized.root == fixture.latest_finalized.root,
        r.latest_finalized.slot == fixture.latest_finalized.slot,
        r.historical_block_hashes@ == fixture.historical_block_hashes.data@,
        r.justifications_roots@ == fixture.justifications_roots.data@,
        r.justified_slots@.len() == 0,
        r.justifications_validators@.len() == 0,
        r.validators@.len() == fixture.validators.data@.len(),
        0 <= i < r.validators@.len() ==> r.validators@[i].index
            == fixture.validators.data@[i].index && r.validators@[i].attestation_pubkey
            == fixture.validators.data@[i].attestation_pubkey && r.validators@[i].proposal_pubkey
            == fixture.validators.data@[i].proposal_pubkey,
{
}

/// The fields of a fixture are those of the block it stands for.
pub proof fn fixture_blocks_keep_their_fields(
    fixture: fixtures::Block,
    r: crate::block::Block,
    i: int,
)
    requires
        call_ensures(fixtures::Block::into_block, (fixture,), r),
    ensures
        r@.slot == fixture.slot,
        r@.proposer_index == fixture.proposer_index,
        r@.parent_root == fixture.parent_root@,
        r@.state_root == fixture.state_root@,
        r@.body.attestations.len() == fixture.body.attestations.data@.len(),
        0 <= i < fixture.body.attestations.data@.len()
            ==> r@.body.attestations[i].aggregation_bits
            == fixture.body.attestations.data@[i].aggregation_bits.data@
            && r@.body.attestations[i].data.slot == fixture.body.attestations.data@[i].data.slot
            && r@.body.attestations[i].data.head.root
            == fixture.body.attestations.data@[i].data.head.root
            && r@.body.attestations[i].data.head.slot
            == fixture.body.attestations.data@[i].data.head.slot
            && r@.body.attestations[i].data.target.root
            == fixture.body.attestations.data@[i].data.target.root
            && r@.body.attestations[i].data.target.slot
            == fixture.body.attestations.data@[i].data.target.slot
            && r@.body.attestations[i].data.source.root
            == fixture.body.attestations.data@[i].data.source.root
            && r@.body.attestations[i].data.source.slot
            == fixture.body.attestations.data@[i].data.source.slot,
{
}

/// The same of a body, an attestation and its bits alone.
pub proof fn fixture_attestations_keep_their_fields(
    body: fixtures::BlockBody,
    attestation: fixtures::AggregatedAttestation,
    a: crate::block::BlockBody,
    b: crate::attestation::AggregatedAttestation,
    c: AggregationBits,
    i: int,
)
    ensures
        call_ensures(fixtures::BlockBody::into_body, (body,), a) ==> a@.attestations.len()
            == body.attestations.data@.len() && (0 <= i < body.attestations.data@.len()
            ==> a@.attestations[i] == body.attestations.data@[i].domain()),
        call_ensures(fixtures::AggregatedAttestation::to_attestation, (&attestation,), b)
            ==> b@.aggregation_bits == attestation.aggregation_bits.data@ && b@.data
            == attestation.data.domain(),
        call_ensures(fixtures::AggregationBits::to_bits, (&attestation.aggregation_bits,), c)
            ==> participation(c) == attestation.aggregation_bits.data@,
{
}

/// The parts of fixtures are those of the values they stand for, and codes are their numbers.
pub proof fn conversions_keep_their_fields(
    config: fixtures::Config,
    checkpoint: fixtures::Checkpoint,
    header: fixtures::BlockHeader,
    validator: fixtures::Validator,
    a: ChainConfig,
    b: Checkpoint,
    c: BlockHeader,
    d: Validator,
    n: u8,
    code: ResponseCode,
)
    ensures
        call_ensures(<ChainConfig as From<fixtures::Config>>::from, (config,), a)
            ==> a.genesis_time == config.genesis_time,
        call_ensures(<Checkpoint as From<fixtures::Checkpoint>>::from, (checkpoint,), b) ==> b.root
            == checkpoint.root && b.slot == checkpoint.slot,
        call_ensures(<BlockHeader as From<fixtures::BlockHeader>>::from, (header,), c) ==> c.slot
            == header.slot && c.proposer_index == header.proposer_index && c.parent_root
            == header.parent_root && c.state_root == header.state_root && c.body_root
            == header.body_root,
        call_ensures(<Validator as From<fixtures::Validator>>::from, (validator,), d) ==> d.index
            == validator.index && d.attestation_pubkey == validator.attestation_pubkey
            && d.proposal_pubkey == validator.proposal_pubkey,
        call_ensures(<ResponseCode as From<u8>>::from, (n,), code) ==> code.0 == n,
        call_ensures(<u8 as From<ResponseCode>>::from, (code,), n) ==> n == code.0,
{
}

} // verus!
