use ethlambda::attestation::{AttestationData, SignedAttestation, XmssSignature};
use ethlambda::block::{Block, BlockBody, BlockSignatures, SignedBlock};
use ethlambda::blockchain::key_manager::{
    KeyManager, KeyManagerError, SecretKey, ValidatorKeyPair,
};
use ethlambda::blockchain::pending::PendingBlocks;
use ethlambda::blockchain::server::{
    assemble_attestations, assemble_proposal, proposal_imported, BlockAction, BlockChainServer,
};
use ethlambda::blockchain::ticks::{
    is_proposer, ms_to_next_interval, slot_and_interval, INTERVALS_PER_SLOT,
    MILLISECONDS_PER_INTERVAL, MILLISECONDS_PER_SLOT,
};
use ethlambda::checkpoint::Checkpoint;
use ethlambda::encoding::Ssz;
use ethlambda::hash_root::TreeHash;
use ethlambda::primitives::H256;
use ethlambda::state::{State, Validator};
use ethlambda::storage::backend::{InMemoryBackend, StorageBackend, WriteBatch};
use ethlambda::storage::store::Store;
use ethlambda::storage::tables::Table;
use std::collections::{HashMap, VecDeque};

// A key whose signatures begin with its name, the slot and the message.
struct TellingKey(u8);

impl SecretKey for TellingKey {
    fn sign(self, slot: u32, message: H256) -> (Self, Result<Vec<u8>, String>) {
        let name = self.0;
        if name == 0 {
            return (self, Err("no".to_string()));
        }
        let mut bytes = vec![name, slot as u8];
        bytes.extend_from_slice(&message.0);
        bytes.resize(3112, 0);
        (self, Ok(bytes))
    }
}

fn validators(n: u64) -> Vec<Validator> {
    (0..n)
        .map(|index| Validator { attestation_pubkey: [1; 52], proposal_pubkey: [2; 52], index })
        .collect()
}

fn server(
    keys: &[(u64, u8, u8)],
    is_aggregator: bool,
) -> BlockChainServer<InMemoryBackend, TellingKey> {
    let store =
        Store::from_anchor_state(InMemoryBackend::new(), State::from_genesis(1, validators(4)));
    let mut pairs = HashMap::new();
    for (id, attestation, proposal) in keys {
        pairs.insert(
            *id,
            ValidatorKeyPair {
                attestation_key: TellingKey(*attestation),
                proposal_key: TellingKey(*proposal),
            },
        );
    }
    BlockChainServer::new(store, KeyManager::new(pairs), is_aggregator)
}

fn block(slot: u64, parent_root: H256) -> (H256, SignedBlock) {
    let message = Block {
        slot,
        proposer_index: slot % 4,
        parent_root,
        state_root: H256([slot as u8; 32]),
        body: BlockBody::default(),
    };
    let signature = BlockSignatures {
        attestation_signatures: vec![],
        proposer_signature: XmssSignature::default(),
    };
    (message.tree_hash_root(), SignedBlock { message, signature })
}

fn data(slot: u64) -> AttestationData {
    let c = Checkpoint { root: H256([7; 32]), slot };
    AttestationData { slot, head: c, target: c, source: c }
}

// ============ Time ============

#[test]
fn time_is_cut_into_slots_and_intervals() {
    assert_eq!(MILLISECONDS_PER_SLOT, MILLISECONDS_PER_INTERVAL * INTERVALS_PER_SLOT);
    assert_eq!(slot_and_interval(1, 999), (0, 0));
    assert_eq!(slot_and_interval(1, 1000), (0, 0));
    assert_eq!(slot_and_interval(1, 1799), (0, 0));
    assert_eq!(slot_and_interval(1, 1800), (0, 1));
    assert_eq!(slot_and_interval(1, 4999), (0, 4));
    assert_eq!(slot_and_interval(1, 5000), (1, 0));
    assert_eq!(ms_to_next_interval(0), 800);
    assert_eq!(ms_to_next_interval(1), 799);
    assert_eq!(ms_to_next_interval(1599), 1);
    for slot in 0..9 {
        let proposers: Vec<u64> = (0..4).filter(|v| is_proposer(*v, slot, 4)).collect();
        assert_eq!(proposers, vec![slot % 4]);
    }
}

#[test]
fn ticks_plan_the_duties() {
    let s = server(&[(1, 1, 11), (2, 2, 12)], false);
    // slot 0 has no proposer, and it is slot 0 before the genesis time
    assert_eq!(s.on_tick(999).unwrap().slot, 0);
    let plan = s.on_tick(1000).unwrap();
    assert_eq!((plan.slot, plan.interval, plan.proposer, plan.attest), (0, 0, None, false));
    let plan = s.on_tick(5000).unwrap();
    assert_eq!((plan.slot, plan.interval, plan.proposer, plan.attest), (1, 0, Some(1), false));
    let plan = s.on_tick(5800).unwrap();
    assert_eq!((plan.slot, plan.interval, plan.proposer, plan.attest), (1, 1, None, true));
    let plan = s.on_tick(6600).unwrap();
    assert_eq!((plan.slot, plan.interval, plan.proposer, plan.attest), (1, 2, None, false));
    // another node proposes
    assert_eq!(s.on_tick(13000).unwrap().proposer, None);
    assert_eq!(s.get_our_proposer(6), Some(2));
    assert_eq!(s.get_our_proposer(7), None);

    // without validators a tick is skipped
    let empty: BlockChainServer<InMemoryBackend, TellingKey> = BlockChainServer::new(
        Store::from_anchor_state(InMemoryBackend::new(), State::from_genesis(1, vec![])),
        KeyManager::new(HashMap::new()),
        false,
    );
    assert!(empty.on_tick(5000).is_none());
}

// ============ Blocks ============

#[test]
fn blocks_wait_for_their_parents() {
    let mut s = server(&[], false);
    let anchor = s.store.head();
    let (root1, block1) = block(1, anchor);
    let (root2, block2) = block(2, root1);
    let (root3, block3) = block(3, root2);
    let mut queue = VecDeque::new();

    // the deepest comes first: its parent is asked for
    queue.push_back(block3);
    match s.next_action(&mut queue).unwrap() {
        BlockAction::Fetch { root } => assert_eq!(root, root2),
        _ => panic!("nothing fetched"),
    }
    assert!(s.next_action(&mut queue).is_none());
    assert!(s.store.get_signed_block(&root3).is_some());
    assert_eq!(s.store.get_live_chain().len(), 1);

    queue.push_back(block2);
    match s.next_action(&mut queue).unwrap() {
        BlockAction::Fetch { root } => assert_eq!(root, root1),
        _ => panic!("nothing fetched"),
    }

    // the missing block can be processed, and what waited for it follows
    queue.push_back(block1);
    for expected in [root1, root2, root3] {
        match s.next_action(&mut queue).unwrap() {
            BlockAction::Import { root, block } => {
                assert_eq!(root, expected);
                s.store.insert_signed_block(root, block);
                s.store.insert_state(root, State::from_genesis(1, validators(4)));
                s.block_imported(&root, true, &mut queue);
            }
            _ => panic!("nothing imported"),
        }
    }
    assert!(s.next_action(&mut queue).is_none());
    assert_eq!(s.store.get_live_chain().len(), 4);
}

#[test]
fn stored_ancestors_are_not_fetched_again() {
    let mut s = server(&[], false);
    let anchor = s.store.head();
    let (root1, block1) = block(1, anchor);
    let (root2, block2) = block(2, root1);
    let (_, block3) = block(3, root2);
    // stored in an earlier session
    s.store.insert_pending_block(root1, block1);
    s.store.insert_pending_block(root2, block2);

    let mut queue = VecDeque::new();
    queue.push_back(block3);
    assert!(matches!(s.next_action(&mut queue), Some(BlockAction::Queued)));
    assert_eq!(queue.len(), 1);
    match s.next_action(&mut queue).unwrap() {
        BlockAction::Import { root, .. } => assert_eq!(root, root1),
        _ => panic!("nothing imported"),
    }
}

#[test]
fn refused_blocks_keep_their_children_waiting() {
    let mut s = server(&[], false);
    let (root1, _) = block(1, s.store.head());
    let (_, block2) = block(2, root1);
    let mut queue = VecDeque::new();
    s.process_or_pend_block(block2, &mut queue);
    s.block_imported(&root1, false, &mut queue);
    assert!(queue.is_empty());
    s.block_imported(&root1, true, &mut queue);
    assert_eq!(queue.len(), 1);
    s.collect_pending_children(&root1, &mut queue);
    assert_eq!(queue.len(), 1);
}

fn server_with_headers(headers: &[(H256, H256)]) -> BlockChainServer<InMemoryBackend, TellingKey> {
    let mut backend = InMemoryBackend::new();
    for (root, parent_root) in headers {
        let (_, signed) = block(1, *parent_root);
        let mut batch = WriteBatch::new();
        batch.put(
            Table::BlockHeaders,
            root.as_ssz_bytes(),
            signed.message.header().as_ssz_bytes(),
        );
        backend.commit(batch);
    }
    BlockChainServer::new(
        Store::from_anchor_state(backend, State::from_genesis(1, validators(4))),
        KeyManager::new(HashMap::new()),
        false,
    )
}

#[test]
fn broken_histories_are_reported() {
    // two stored headers that are each other's parents
    let (a, b) = (H256([1; 32]), H256([2; 32]));
    let mut s = server_with_headers(&[(a, b), (b, a)]);
    let mut queue = VecDeque::new();
    let (_, child) = block(3, a);
    assert!(matches!(s.process_or_pend_block(child, &mut queue), BlockAction::Endless));
    assert!(queue.is_empty());

    // a stored header without signatures, on top of the anchor
    let anchor = server(&[], false).store.head();
    let mut s = server_with_headers(&[(a, anchor)]);
    let (_, child) = block(3, a);
    match s.process_or_pend_block(child, &mut queue) {
        BlockAction::Incomplete { root } => assert_eq!(root, a),
        _ => panic!("nothing is missing"),
    }
}

#[test]
fn noted_ancestors_are_followed_to_their_end() {
    let root = |n: u8| H256([n; 32]);
    let mut pending = PendingBlocks::new();
    assert_eq!(pending.resolve(&root(1)), Some(root(1)));
    pending.set_parent(&root(1), root(2));
    pending.set_parent(&root(2), root(3));
    assert_eq!(pending.resolve(&root(1)), Some(root(3)));
    pending.set_parent(&root(3), root(1));
    assert_eq!(pending.resolve(&root(1)), None);

    pending.add_child(&root(9), root(1));
    pending.add_child(&root(9), root(2));
    pending.add_child(&root(9), root(1));
    // taking the children of a block also ends what was noted of them
    assert_eq!(pending.take_children(&root(9)), vec![root(1), root(2)]);
    assert!(pending.take_children(&root(9)).is_empty());
    assert_eq!(pending.resolve(&root(3)), Some(root(1)));
}

// ============ Duties ============

#[test]
fn attestations_are_signed_by_all_validators() {
    let mut s = server(&[(1, 21, 31), (2, 22, 32), (3, 0, 33)], false);
    let d = data(5);
    let mut made = s.produce_attestations(&d);
    made.sort_by_key(|a| a.validator_id);
    // the third key cannot sign
    assert_eq!(made.len(), 2);
    for (attestation, key) in made.iter().zip([21, 22]) {
        assert_eq!(attestation.data, d);
        assert_eq!(attestation.signature.bytes[0], key);
        assert_eq!(attestation.signature.bytes[1], 5);
        assert_eq!(&attestation.signature.bytes[2..34], &d.tree_hash_root().0);
    }
    let replies = s.sign_attestations(&d);
    assert_eq!(replies.len(), 3);
    let made = assemble_attestations(
        &d,
        vec![
            (9, Ok(XmssSignature::default())),
            (8, Err(KeyManagerError::ValidatorKeyNotFound(8))),
        ],
    );
    assert_eq!(made.len(), 1);
    assert_eq!(made[0].validator_id, 9);
}

#[test]
fn proposals_are_signed_with_the_proposal_key() {
    let mut s = server(&[(1, 21, 31)], false);
    let (root, signed) = block(5, H256([1; 32]));
    let made = s.propose_block(5, 1, signed.message.clone(), vec![]).unwrap();
    assert_eq!(made.message.tree_hash_root(), root);
    assert_eq!(made.signature.proposer_signature.bytes[0], 31);
    assert_eq!(made.signature.proposer_signature.bytes[1], 5);
    assert_eq!(&made.signature.proposer_signature.bytes[2..34], &root.0);
    assert!(matches!(
        s.propose_block(5, 2, signed.message.clone(), vec![]),
        Err(KeyManagerError::ValidatorKeyNotFound(2))
    ));
    assert!(assemble_proposal(
        signed.message,
        vec![],
        Err(KeyManagerError::SigningError("no".to_string()))
    )
    .is_err());
}

#[test]
fn only_imported_proposals_are_published() {
    let (root, signed) = block(5, H256([1; 32]));
    assert!(proposal_imported(signed.clone(), false).is_none());
    let published = proposal_imported(signed, true).unwrap();
    assert_eq!(published.message.tree_hash_root(), root);
}

#[test]
fn a_waiting_block_is_queued_once() {
    let mut s = server(&[], false);
    let (root1, _) = block(1, s.store.head());
    let (_, block2) = block(2, root1);
    let mut queue = VecDeque::new();
    s.process_or_pend_block(block2.clone(), &mut queue);
    s.process_or_pend_block(block2, &mut queue);
    s.collect_pending_children(&root1, &mut queue);
    assert_eq!(queue.len(), 1);
}

#[test]
fn only_aggregators_take_single_votes() {
    let vote = || SignedAttestation {
        validator_id: 1,
        data: data(1),
        signature: XmssSignature::default(),
    };
    assert!(server(&[], false).on_gossip_attestation(vote()).is_none());
    assert_eq!(server(&[], true).on_gossip_attestation(vote()).unwrap().validator_id, 1);
}
