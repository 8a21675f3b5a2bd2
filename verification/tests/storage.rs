use ethlambda::attestation::{bits_from_vec, AttestationData, XmssSignature};
use ethlambda::block::{
    AggregatedSignatureProof, Block, BlockBody, BlockHeader, BlockSignatures, SignedBlock,
};
use ethlambda::checkpoint::Checkpoint;
use ethlambda::encoding::Ssz;
use ethlambda::hash_root::TreeHash;
use ethlambda::primitives::H256;
use ethlambda::state::{State, Validator};
use ethlambda::storage::backend::{InMemoryBackend, StorageBackend, WriteBatch, WriteOp};
use ethlambda::storage::keys::{
    decode_live_chain_key, decode_signature_key, encode_live_chain_key, encode_signature_key,
    MetadataKey,
};
use ethlambda::storage::payloads::{PayloadBuffer, StoredAggregatedPayload};
use ethlambda::storage::retention::{BLOCKS_TO_KEEP, STATES_TO_KEEP};
use ethlambda::storage::store::{write_signed_block, ForkCheckpoints, Store};
use ethlambda::storage::tables::{Table, ALL_TABLES};
use std::sync::{Arc, Mutex};

/// Insert a block header (and dummy body + signature) for a given root and slot.
fn insert_header(backend: &mut InMemoryBackend, root: H256, slot: u64) {
    let header = BlockHeader {
        slot,
        proposer_index: 0,
        parent_root: H256::zero(),
        state_root: H256::zero(),
        body_root: H256::zero(),
    };
    let mut batch = WriteBatch::new();
    let key = root.as_ssz_bytes();
    batch.put_batch(Table::BlockHeaders, vec![(key.clone(), header.as_ssz_bytes())]);
    batch.put_batch(Table::BlockBodies, vec![(key.clone(), vec![0u8; 4])]);
    batch.put_batch(Table::BlockSignatures, vec![(key, vec![0u8; 4])]);
    backend.commit(batch);
}

/// Insert a dummy state for a given root.
fn insert_state(backend: &mut InMemoryBackend, root: H256) {
    let mut batch = WriteBatch::new();
    let key = root.as_ssz_bytes();
    batch.put_batch(Table::States, vec![(key, vec![0u8; 4])]);
    backend.commit(batch);
}

/// Count entries in a table.
fn count_entries(backend: &InMemoryBackend, table: Table) -> usize {
    let n = backend.entries(table).len();
    assert_eq!(backend.count(table), n);
    n
}

/// Check if a key exists in a table.
fn has_key(backend: &InMemoryBackend, table: Table, root: &H256) -> bool {
    backend.get(table, &root.as_ssz_bytes()).is_some()
}

/// Generate a deterministic H256 root from an index.
fn root(index: u64) -> H256 {
    let mut bytes = [0u8; 32];
    bytes[..8].copy_from_slice(&index.to_be_bytes());
    H256(bytes)
}

fn test_store() -> Store<InMemoryBackend> {
    Store::open(InMemoryBackend::new())
}

// ============ Block Pruning Tests ============

#[test]
fn prune_old_blocks_within_retention() {
    let mut backend = InMemoryBackend::new();

    // Insert exactly BLOCKS_TO_KEEP blocks
    for i in 0..BLOCKS_TO_KEEP as u64 {
        insert_header(&mut backend, root(i), i);
    }
    assert_eq!(count_entries(&backend, Table::BlockHeaders), BLOCKS_TO_KEEP);

    let mut store = Store::open(backend);
    let pruned = store.prune_old_blocks(&[]);
    assert_eq!(pruned, 0);
    assert_eq!(count_entries(store.backend(), Table::BlockHeaders), BLOCKS_TO_KEEP);
}

#[test]
fn prune_old_blocks_exceeding_retention() {
    let mut backend = InMemoryBackend::new();

    let total = BLOCKS_TO_KEEP + 10;
    for i in 0..total as u64 {
        insert_header(&mut backend, root(i), i);
    }
    assert_eq!(count_entries(&backend, Table::BlockHeaders), total);

    let mut store = Store::open(backend);
    let pruned = store.prune_old_blocks(&[]);
    assert_eq!(pruned, 10);
    assert_eq!(count_entries(store.backend(), Table::BlockHeaders), BLOCKS_TO_KEEP);
    assert_eq!(count_entries(store.backend(), Table::BlockBodies), BLOCKS_TO_KEEP);
    assert_eq!(count_entries(store.backend(), Table::BlockSignatures), BLOCKS_TO_KEEP);

    // Oldest blocks (slots 0..10) should be gone
    for i in 0..10u64 {
        assert!(!has_key(store.backend(), Table::BlockHeaders, &root(i)));
    }
    // Newest blocks should still exist
    for i in 10..total as u64 {
        assert!(has_key(store.backend(), Table::BlockHeaders, &root(i)));
    }
}

#[test]
fn prune_old_blocks_preserves_protected() {
    let mut backend = InMemoryBackend::new();

    let total = BLOCKS_TO_KEEP + 10;
    for i in 0..total as u64 {
        insert_header(&mut backend, root(i), i);
    }

    // Protect the two oldest blocks (slots 0 and 1)
    let mut store = Store::open(backend);
    let finalized_root = root(0);
    let justified_root = root(1);
    let pruned = store.prune_old_blocks(&[finalized_root, justified_root]);

    // 10 would be pruned, but 2 are protected
    assert_eq!(pruned, 8);
    assert!(has_key(store.backend(), Table::BlockHeaders, &finalized_root));
    assert!(has_key(store.backend(), Table::BlockHeaders, &justified_root));
    assert!(has_key(store.backend(), Table::BlockBodies, &finalized_root));
    assert!(has_key(store.backend(), Table::BlockSignatures, &finalized_root));
}

// ============ State Pruning Tests ============

#[test]
fn prune_old_states_within_retention() {
    let mut backend = InMemoryBackend::new();

    // Insert STATES_TO_KEEP headers + states
    for i in 0..STATES_TO_KEEP as u64 {
        insert_header(&mut backend, root(i), i);
        insert_state(&mut backend, root(i));
    }
    assert_eq!(count_entries(&backend, Table::States), STATES_TO_KEEP);

    let mut store = Store::open(backend);
    let pruned = store.prune_old_states(&[]);
    assert_eq!(pruned, 0);
}

#[test]
fn prune_old_states_exceeding_retention() {
    let mut backend = InMemoryBackend::new();

    let total = STATES_TO_KEEP + 5;
    for i in 0..total as u64 {
        insert_header(&mut backend, root(i), i);
        insert_state(&mut backend, root(i));
    }
    assert_eq!(count_entries(&backend, Table::States), total);

    let mut store = Store::open(backend);
    let pruned = store.prune_old_states(&[]);
    assert_eq!(pruned, 5);
    assert_eq!(count_entries(store.backend(), Table::States), STATES_TO_KEEP);

    // Oldest states should be gone
    for i in 0..5u64 {
        assert!(!has_key(store.backend(), Table::States, &root(i)));
    }
    // Newest states should remain
    for i in 5..total as u64 {
        assert!(has_key(store.backend(), Table::States, &root(i)));
    }
}

#[test]
fn prune_old_states_preserves_protected() {
    let mut backend = InMemoryBackend::new();

    let total = STATES_TO_KEEP + 5;
    for i in 0..total as u64 {
        insert_header(&mut backend, root(i), i);
        insert_state(&mut backend, root(i));
    }

    let mut store = Store::open(backend);
    let finalized_root = root(0);
    let justified_root = root(2);
    let pruned = store.prune_old_states(&[finalized_root, justified_root]);

    // 5 would be pruned, but 2 are protected
    assert_eq!(pruned, 3);
    assert!(has_key(store.backend(), Table::States, &finalized_root));
    assert!(has_key(store.backend(), Table::States, &justified_root));
}

#[test]
fn blocks_without_states_do_not_push_states_out() {
    let mut backend = InMemoryBackend::new();
    let total = STATES_TO_KEEP as u64;
    for i in 0..total {
        insert_header(&mut backend, root(i), i);
        insert_state(&mut backend, root(i));
    }
    // newer blocks that wait for their parents have no states
    for i in total..total + 10 {
        insert_header(&mut backend, root(i), i);
    }
    let mut store = Store::open(backend);
    assert_eq!(store.prune_old_states(&[]), 0);
    assert_eq!(count_entries(store.backend(), Table::States), STATES_TO_KEEP);
}

#[test]
fn pruned_states_are_counted_once() {
    let mut backend = InMemoryBackend::new();
    for i in 0..STATES_TO_KEEP as u64 + 5 {
        insert_header(&mut backend, root(i), i);
        insert_state(&mut backend, root(i));
    }
    let mut store = Store::open(backend);
    assert_eq!(store.prune_old_states(&[root(1)]), 4);
    assert_eq!(store.prune_old_states(&[root(1)]), 0);
    assert_eq!(store.prune_old_states(&[]), 1);
}

// ============ Periodic Pruning Tests ============

/// Set up finalized and justified checkpoints in metadata.
fn set_checkpoints(backend: &mut InMemoryBackend, finalized: Checkpoint, justified: Checkpoint) {
    let mut batch = WriteBatch::new();
    batch.put_batch(
        Table::Metadata,
        vec![
            (MetadataKey::LatestFinalized.bytes(), finalized.as_ssz_bytes()),
            (MetadataKey::LatestJustified.bytes(), justified.as_ssz_bytes()),
        ],
    );
    backend.commit(batch);
}

#[test]
fn fallback_pruning_removes_old_states_and_blocks() {
    let mut backend = InMemoryBackend::new();

    // Use roots that are within the retention window as finalized/justified
    let finalized_root = root(0);
    let justified_root = root(1);
    set_checkpoints(
        &mut backend,
        Checkpoint { slot: 0, root: finalized_root },
        Checkpoint { slot: 1, root: justified_root },
    );

    // Insert more than STATES_TO_KEEP headers + states, but fewer than BLOCKS_TO_KEEP
    let total_states = STATES_TO_KEEP + 5;
    for i in 0..total_states as u64 {
        insert_header(&mut backend, root(i), i);
        insert_state(&mut backend, root(i));
    }

    assert_eq!(count_entries(&backend, Table::States), total_states);
    assert_eq!(count_entries(&backend, Table::BlockHeaders), total_states);

    // Use the last inserted root as head. Calling update_checkpoints with
    // head_only triggers the fallback path (finalization doesn't advance).
    let mut store = Store::open(backend);
    let head_root = root(total_states as u64 - 1);
    store.update_checkpoints(ForkCheckpoints::head_only(head_root));

    // 905 headers total. Top 900 by slot are kept in the retention window,
    // leaving 5 candidates. 2 are protected (finalized + justified),
    // so 3 are pruned → 905 - 3 = 902 states remaining.
    assert_eq!(count_entries(store.backend(), Table::States), STATES_TO_KEEP + 2);
    // Finalized and justified states must survive
    assert!(has_key(store.backend(), Table::States, &finalized_root));
    assert!(has_key(store.backend(), Table::States, &justified_root));

    // Blocks: total_states < BLOCKS_TO_KEEP, so no blocks should be pruned
    assert_eq!(count_entries(store.backend(), Table::BlockHeaders), total_states);
    assert_eq!(store.head(), head_root);
}

#[test]
fn fallback_pruning_no_op_within_retention() {
    let mut backend = InMemoryBackend::new();

    set_checkpoints(
        &mut backend,
        Checkpoint { slot: 0, root: root(0) },
        Checkpoint { slot: 0, root: root(0) },
    );

    // Insert exactly STATES_TO_KEEP entries (no excess)
    for i in 0..STATES_TO_KEEP as u64 {
        insert_header(&mut backend, root(i), i);
        insert_state(&mut backend, root(i));
    }

    // Use the last inserted root as head
    let mut store = Store::open(backend);
    let head_root = root(STATES_TO_KEEP as u64 - 1);
    store.update_checkpoints(ForkCheckpoints::head_only(head_root));

    // Nothing should be pruned (within retention window)
    assert_eq!(count_entries(store.backend(), Table::States), STATES_TO_KEEP);
    assert_eq!(count_entries(store.backend(), Table::BlockHeaders), STATES_TO_KEEP);
}

// ============ PayloadBuffer Tests ============

fn make_payload(slot: u64) -> StoredAggregatedPayload {
    StoredAggregatedPayload {
        slot,
        proof: AggregatedSignatureProof::empty(bits_from_vec(&vec![])),
    }
}

#[test]
fn payload_buffer_fifo_eviction() {
    let mut buf = PayloadBuffer::new(3);
    let key = (0u64, H256::zero());

    buf.push(key, make_payload(1));
    buf.push(key, make_payload(2));
    buf.push(key, make_payload(3));
    assert_eq!(buf.len(), 3);

    // Pushing a 4th entry should evict the oldest (slot 1)
    buf.push(key, make_payload(4));
    assert_eq!(buf.len(), 3);
    assert_eq!(buf.slots(), vec![2, 3, 4]);
}

#[test]
fn payload_buffer_grouped_returns_correct_groups() {
    let mut buf = PayloadBuffer::new(10);
    let key_a = (0u64, H256::zero());
    let key_b = (1u64, H256::zero());

    buf.push(key_a, make_payload(1));
    buf.push(key_b, make_payload(2));
    buf.push(key_a, make_payload(3));

    let grouped = buf.grouped();
    let group = |key| &grouped.iter().find(|(k, _)| *k == key).unwrap().1;
    assert_eq!(grouped.len(), 2);
    assert_eq!(group(key_a).len(), 2);
    assert_eq!(group(key_a)[0].slot, 1);
    assert_eq!(group(key_a)[1].slot, 3);
    assert_eq!(group(key_b).len(), 1);
    assert_eq!(group(key_b)[0].slot, 2);
    assert_eq!(buf.unique_keys(), vec![key_a, key_b]);
}

#[test]
fn payload_buffer_drain_empties_buffer() {
    let mut buf = PayloadBuffer::new(10);
    let key = (0u64, H256::zero());

    buf.push(key, make_payload(1));
    buf.push(key, make_payload(2));

    let drained = buf.drain();
    assert_eq!(drained.len(), 2);
    assert_eq!(drained[0].1.slot, 1);
    assert_eq!(drained[1].1.slot, 2);
    assert_eq!(buf.len(), 0);
}

#[test]
fn promote_moves_new_to_known() {
    let mut store = test_store();

    let key = (0u64, H256::zero());
    store.insert_new_aggregated_payload(key, make_payload(1));
    store.insert_new_aggregated_payload(key, make_payload(2));

    assert_eq!(store.new_aggregated_payloads_count(), 2);
    assert_eq!(store.known_aggregated_payloads_count(), 0);

    store.promote_new_aggregated_payloads();

    assert_eq!(store.new_aggregated_payloads_count(), 0);
    assert_eq!(store.known_aggregated_payloads_count(), 2);
}

#[test]
fn cloned_store_shares_payload_buffers() {
    let store = Arc::new(Mutex::new(test_store()));
    let cloned = store.clone();

    let key = (0u64, H256::zero());
    store.lock().unwrap().insert_new_aggregated_payload(key, make_payload(1));

    // Modification on original should be visible in clone
    assert_eq!(cloned.lock().unwrap().new_aggregated_payloads_count(), 1);

    store.lock().unwrap().promote_new_aggregated_payloads();

    assert_eq!(cloned.lock().unwrap().new_aggregated_payloads_count(), 0);
    assert_eq!(cloned.lock().unwrap().known_aggregated_payloads_count(), 1);
}

// ============ Buffers ============

#[test]
fn full_buffers_keep_the_newest_payloads() {
    let mut buf = PayloadBuffer::new(2);
    let key = (0u64, H256::zero());
    buf.push(key, make_payload(1));
    buf.push_batch(vec![
        (key, make_payload(2)),
        (key, make_payload(3)),
        (key, make_payload(4)),
    ]);
    assert_eq!(buf.slots(), vec![3, 4]);

    // a buffer without capacity still holds one entry
    let mut tiny = PayloadBuffer::new(0);
    tiny.push(key, make_payload(1));
    tiny.push(key, make_payload(2));
    assert_eq!(tiny.slots(), vec![2]);

    let mut store = test_store();
    for slot in 0..600 {
        store.insert_new_aggregated_payload(key, make_payload(slot));
    }
    assert_eq!(store.new_aggregated_payloads_count(), 512);
    store.insert_known_aggregated_payloads_batch(
        (0..5000).map(|slot| (key, make_payload(slot))).collect(),
    );
    assert_eq!(store.known_aggregated_payloads_count(), 4096);
    let groups = store.iter_known_aggregated_payloads();
    assert_eq!(groups.len(), 1);
    assert_eq!(groups[0].1[0].slot, 904);
}

#[test]
fn new_payloads_wait_for_promotion() {
    let mut store = test_store();
    let a = (1u64, root(1));
    let b = (2u64, root(1));
    store.insert_new_aggregated_payloads_batch(vec![
        (a, make_payload(1)),
        (b, make_payload(2)),
        (a, make_payload(3)),
    ]);
    assert_eq!(store.iter_new_aggregated_payload_keys(), vec![a, b]);
    let groups = store.iter_new_aggregated_payloads();
    assert_eq!(groups[0].1.len(), 2);
    assert_eq!(groups[1].1[0].slot, 2);
    assert!(store.iter_known_aggregated_payload_keys().is_empty());
    store.promote_new_aggregated_payloads();
    assert!(store.iter_new_aggregated_payload_keys().is_empty());
    assert_eq!(store.iter_known_aggregated_payload_keys(), vec![a, b]);
}

// ============ Keys ============

#[test]
fn keys_are_read_back_and_ordered() {
    let key = (0x0102u64, root(7));
    let bytes = encode_signature_key(&key);
    assert_eq!(bytes.len(), 40);
    assert_eq!(&bytes[..8], &[2, 1, 0, 0, 0, 0, 0, 0]);
    assert_eq!(decode_signature_key(&bytes), key);

    let early = encode_live_chain_key(255, &root(9));
    let late = encode_live_chain_key(256, &root(1));
    assert_eq!(&late[..8], &[0, 0, 0, 0, 0, 0, 1, 0]);
    assert_eq!(decode_live_chain_key(&late), (256, root(1)));
    assert!(early < late);
    assert_eq!(MetadataKey::Time.bytes(), b"time");
    assert_eq!(MetadataKey::Config.bytes(), b"config");
    assert_eq!(MetadataKey::Head.bytes(), b"head");
    assert_eq!(MetadataKey::SafeTarget.bytes(), b"safe_target");
    assert_eq!(MetadataKey::LatestJustified.bytes(), b"latest_justified");
    assert_eq!(MetadataKey::LatestFinalized.bytes(), b"latest_finalized");
    assert_eq!(ALL_TABLES.len(), 8);
}

// ============ Store ============

fn validators(n: u8) -> Vec<Validator> {
    (0..n)
        .map(|i| Validator {
            attestation_pubkey: [i; 52],
            proposal_pubkey: [i + 100; 52],
            index: i as u64,
        })
        .collect()
}

fn genesis_store() -> Store<InMemoryBackend> {
    Store::from_anchor_state(InMemoryBackend::new(), State::from_genesis(1000, validators(3)))
}

fn signed_block(slot: u64, parent_root: H256) -> SignedBlock {
    SignedBlock {
        message: Block {
            slot,
            proposer_index: slot % 3,
            parent_root,
            state_root: root(slot + 500),
            body: BlockBody::default(),
        },
        signature: BlockSignatures {
            attestation_signatures: vec![],
            proposer_signature: XmssSignature::default(),
        },
    }
}

#[test]
fn a_new_store_stands_at_its_anchor() {
    let store = genesis_store();
    let head = store.head();
    assert_eq!(store.time(), 0);
    assert_eq!(store.config().genesis_time, 1000);
    assert_eq!(store.safe_target(), head);
    assert_eq!(store.latest_justified(), Checkpoint { root: head, slot: 0 });
    assert_eq!(store.latest_finalized(), Checkpoint { root: head, slot: 0 });
    assert_eq!(store.head_slot(), 0);
    assert_eq!(store.safe_target_slot(), 0);
    let header = store.get_block_header(&head).unwrap();
    assert_eq!(header.tree_hash_root(), head);
    let mut state = store.head_state();
    assert_eq!(state.latest_block_header, header);
    assert_eq!(state.validators.len(), 3);
    // the header holds the root of the state with a zero state root
    state.latest_block_header.state_root = H256::zero();
    assert_eq!(state.tree_hash_root(), header.state_root);
    assert!(store.has_state(&head));
    assert!(!store.has_state(&root(1)));
    let chain = store.get_live_chain();
    assert_eq!(chain.len(), 1);
    assert_eq!(chain.get(&head.0), Some(&(0, H256::zero())));
    assert_eq!(store.gossip_signatures_count(), 0);
    // the anchor has no signatures
    assert!(store.get_signed_block(&head).is_none());
}

#[test]
fn anchors_with_a_wrong_state_root_are_handed_back() {
    let mut state = State::from_genesis(1000, validators(2));
    let right = state.tree_hash_root();
    state.latest_block_header.state_root = right;
    let store = Store::try_from_anchor_state(InMemoryBackend::new(), state).ok().unwrap();
    assert_eq!(store.get_block_header(&store.head()).unwrap().state_root, right);

    let mut state = State::from_genesis(1000, validators(2));
    state.latest_block_header.state_root = root(1);
    let (_, back) = Store::try_from_anchor_state(InMemoryBackend::new(), state).err().unwrap();
    assert_eq!(back.latest_block_header.state_root, root(1));

    let state = State::from_genesis(1000, validators(2));
    let mut block = signed_block(0, H256::zero()).message;
    block.state_root = root(77);
    let store =
        Store::try_get_forkchoice_store(InMemoryBackend::new(), state, block).ok().unwrap();
    assert_eq!(count_entries(store.backend(), Table::BlockBodies), 1);

    let state = State::from_genesis(1000, validators(2));
    let block = signed_block(1, H256::zero()).message;
    assert!(Store::try_get_forkchoice_store(InMemoryBackend::new(), state, block).is_err());
}

#[test]
fn metadata_is_read_back() {
    let mut store = genesis_store();
    let head = store.head();
    store.set_time(17);
    store.set_safe_target(root(4));
    assert_eq!(store.time(), 17);
    assert_eq!(store.safe_target(), root(4));
    assert_eq!(store.head(), head);
    assert_eq!(store.config().genesis_time, 1000);
}

#[test]
fn blocks_are_read_back() {
    let mut store = genesis_store();
    let head = store.head();

    // an empty body is not stored
    let block = signed_block(1, head);
    let block_root = block.message.tree_hash_root();
    assert_eq!(block.message.header().tree_hash_root(), block_root);
    store.insert_pending_block(block_root, block.clone());
    assert_eq!(count_entries(store.backend(), Table::BlockBodies), 0);
    assert_eq!(store.get_live_chain().len(), 1);
    let read = store.get_signed_block(&block_root).unwrap();
    assert_eq!(read.as_ssz_bytes(), block.as_ssz_bytes());

    // processing adds the entry of the live chain
    store.insert_signed_block(block_root, block.clone());
    let chain = store.get_live_chain();
    assert_eq!(chain.get(&block_root.0), Some(&(1, head)));
    assert!(store.get_block_roots().contains(&block_root.0));
    assert_eq!(store.get_block_roots().len(), 2);

    // a body with attestations is stored
    let mut full = signed_block(2, block_root);
    full.message.body.attestations.push(ethlambda::attestation::AggregatedAttestation {
        aggregation_bits: bits_from_vec(&vec![true, false, true]),
        data: attestation_data(1),
    });
    full.signature.attestation_signatures.push(AggregatedSignatureProof::new(
        bits_from_vec(&vec![true, false, true]),
        vec![1, 2, 3],
    ));
    let full_root = full.message.tree_hash_root();
    store.insert_signed_block(full_root, full.clone());
    assert_eq!(count_entries(store.backend(), Table::BlockBodies), 1);
    let read = store.get_signed_block(&full_root).unwrap();
    assert_eq!(read.as_ssz_bytes(), full.as_ssz_bytes());
    assert_eq!(read.signature.attestation_signatures[0].participant_indices(), vec![0, 2]);
}

#[test]
fn storing_a_block_is_one_put_for_each_table() {
    let tables = |batch: &WriteBatch| -> Vec<(Table, Vec<(Vec<u8>, Vec<u8>)>)> {
        batch
            .ops
            .iter()
            .map(|op| match op {
                WriteOp::Put { table, entries } => (*table, entries.clone()),
                WriteOp::Delete { .. } => panic!("nothing is deleted"),
            })
            .collect()
    };
    let key = root(9);
    let empty = signed_block(1, root(2));
    let header = (key.as_ssz_bytes(), empty.message.header().as_ssz_bytes());
    let signatures = (key.as_ssz_bytes(), empty.signature.as_ssz_bytes());
    let mut batch = WriteBatch::new();
    let block = write_signed_block(&mut batch, &key, empty);
    assert_eq!(block.slot, 1);
    assert_eq!(block.parent_root, root(2));
    assert_eq!(
        tables(&batch),
        vec![
            (Table::BlockHeaders, vec![header]),
            (Table::BlockSignatures, vec![signatures]),
        ]
    );

    let mut full = signed_block(1, root(2));
    full.message.body.attestations.push(ethlambda::attestation::AggregatedAttestation {
        aggregation_bits: bits_from_vec(&vec![true]),
        data: attestation_data(1),
    });
    let body = (key.as_ssz_bytes(), full.message.body.as_ssz_bytes());
    let mut batch = WriteBatch::new();
    write_signed_block(&mut batch, &key, full);
    assert_eq!(batch.ops.len(), 3);
    assert_eq!(tables(&batch)[1], (Table::BlockBodies, vec![body]));
}

#[test]
fn states_are_read_back() {
    let mut store = genesis_store();
    let state = State::from_genesis(77, validators(2));
    let bytes = state.as_ssz_bytes();
    store.insert_state(root(3), state);
    assert_eq!(store.get_state(&root(3)).unwrap().as_ssz_bytes(), bytes);
    assert!(store.get_state(&root(4)).is_none());
}

fn attestation_data(slot: u64) -> AttestationData {
    AttestationData {
        slot,
        head: Checkpoint { root: root(slot), slot },
        target: Checkpoint { root: root(slot + 1), slot: slot + 1 },
        source: Checkpoint { root: root(slot + 2), slot: slot + 2 },
    }
}

#[test]
fn latest_attestations_are_found() {
    let mut store = test_store();
    store.insert_attestation_data_by_root(root(1), attestation_data(1));
    let mut tie = attestation_data(2);
    tie.head.slot = 99;
    store.insert_attestation_data_by_root_batch(vec![
        (root(2), attestation_data(2)),
        (root(3), tie),
    ]);
    assert_eq!(store.get_attestation_data_by_root(&root(2)), Some(attestation_data(2)));
    assert_eq!(store.get_attestation_data_by_root(&root(9)), None);

    let keys = [
        (7, root(1)),
        (7, root(2)),
        (7, root(3)),
        (8, root(1)),
        (9, root(9)),
    ];
    let latest = store.extract_latest_attestations(&keys);
    assert_eq!(latest.len(), 2);
    assert_eq!(latest[&7], attestation_data(2));
    assert_eq!(latest[&8], attestation_data(1));

    store.insert_known_aggregated_payload((7, root(1)), make_payload(1));
    store.insert_known_aggregated_payload((7, root(3)), make_payload(2));
    let known = store.extract_latest_known_attestations();
    assert_eq!(known[&7], tie);
    assert_eq!(
        store.iter_known_aggregated_payload_keys(),
        vec![(7, root(1)), (7, root(3))]
    );
}

#[test]
fn gossip_signatures_are_counted() {
    let mut store = test_store();
    store.insert_gossip_signature(root(1), 5, 1, XmssSignature::default());
    store.insert_gossip_signature(root(1), 6, 2, XmssSignature::default());
    store.insert_gossip_signature(root(1), 7, 3, XmssSignature::default());
    // an upsert is not counted
    store.insert_gossip_signature(root(1), 9, 3, XmssSignature::default());
    assert_eq!(store.gossip_signatures_count(), 3);
    let all = store.iter_gossip_signatures();
    assert_eq!(all.len(), 3);
    assert_eq!(all[0].0, (1, root(1)));
    assert_eq!(all[2].1.slot, 9);
    assert_eq!(all[2].1.signature_bytes.len(), 3112);

    assert_eq!(store.prune_gossip_signatures(5), 1);
    assert_eq!(store.gossip_signatures_count(), 2);
    store.delete_gossip_signatures(&[(2, root(1))]);
    assert_eq!(store.gossip_signatures_count(), 1);
    assert_eq!(store.iter_gossip_signatures().len(), 1);
    // keys that are not stored, and repeated keys, do not change the count
    store.delete_gossip_signatures(&[(2, root(1)), (4, root(1))]);
    assert_eq!(store.gossip_signatures_count(), 1);
    assert_eq!(store.iter_gossip_signatures().len(), 1);
    store.insert_gossip_signature(root(1), 9, 5, XmssSignature::default());
    store.insert_gossip_signature(root(1), 9, 6, XmssSignature::default());
    store.delete_gossip_signatures(&[(3, root(1)), (3, root(1)), (5, root(2)), (6, root(1))]);
    assert_eq!(store.gossip_signatures_count(), 1);
    assert_eq!(store.iter_gossip_signatures()[0].0, (5, root(1)));
    store.delete_gossip_signatures(&[]);
    assert_eq!(store.gossip_signatures_count(), 1);
}

#[test]
fn finalization_prunes_what_is_final() {
    let mut store = genesis_store();
    let anchor = store.head();
    let mut parent = anchor;
    let mut roots = vec![anchor];
    for slot in 1..=4 {
        let block = signed_block(slot, parent);
        parent = block.message.tree_hash_root();
        roots.push(parent);
        store.insert_signed_block(parent, block);
        store.insert_attestation_data_by_root(root(slot), attestation_data(slot));
        store.insert_gossip_signature(root(slot), slot, slot, XmssSignature::default());
    }
    assert_eq!(store.get_live_chain().len(), 5);

    let justified = Checkpoint { root: roots[3], slot: 3 };
    let finalized = Checkpoint { root: roots[2], slot: 2 };
    store.update_checkpoints(ForkCheckpoints::new(roots[4], Some(justified), Some(finalized)));
    assert_eq!(store.head(), roots[4]);
    assert_eq!(store.latest_justified(), justified);
    assert_eq!(store.latest_finalized(), finalized);
    // the finalized block stays in the live chain, older ones leave it
    let live = store.get_block_roots();
    assert_eq!(live.len(), 3);
    assert!(live.contains(&roots[2].0));
    assert!(!live.contains(&roots[1].0));
    assert!(store.get_block_header(&roots[1]).is_some());
    // signatures and data up to the finalized slot are gone
    assert_eq!(store.get_attestation_data_by_root(&root(2)), None);
    assert!(store.get_attestation_data_by_root(&root(3)).is_some());
    assert_eq!(store.gossip_signatures_count(), 2);

    // without a justified checkpoint the old one stays, and an older finalized one does
    // not prune
    let old = Checkpoint { root: roots[1], slot: 1 };
    store.update_checkpoints(ForkCheckpoints::new(roots[3], None, Some(old)));
    assert_eq!(store.latest_justified(), justified);
    assert_eq!(store.latest_finalized(), old);
    assert_eq!(store.get_block_roots().len(), 3);
    assert_eq!(store.prune_live_chain(4), 2);
    assert_eq!(store.prune_attestation_data_by_root(3), 1);
}
