use ethlambda::attestation::bits_to_vec;
use ethlambda::blockchain::key_manager::ValidatorKeyPair;
use ethlambda::checkpoint_sync::CheckpointSyncError;
use ethlambda::encoding::Ssz;
use ethlambda::fixtures::{
    AggregatedAttestation, AggregationBits, AttestationData, Block, BlockBody, BlockHeader,
    Checkpoint, Config, Container, TestState, Validator,
};
use ethlambda::genesis::{GenesisConfig, GenesisValidatorEntry};
use ethlambda::hash_root::TreeHash;
use ethlambda::ordered_map::{OrderedMap, OrderedSet};
use ethlambda::primitives::H256;
use ethlambda::startup::{checkpoint_store, genesis_store, StartupError};
use ethlambda::state::State;
use ethlambda::storage::backend::InMemoryBackend;
use ethlambda::text::{decimal, join_around};
use ethlambda::validator_config::{
    first_validator_id, register_keys, validators_of, AnnotatedValidator, NodeValidators,
};

// ============ Startup ============

fn genesis(n: usize) -> GenesisConfig {
    GenesisConfig {
        genesis_time: 42,
        genesis_validators: (0..n)
            .map(|i| GenesisValidatorEntry {
                attestation_pubkey: [i as u8; 52],
                proposal_pubkey: [i as u8 + 50; 52],
            })
            .collect(),
    }
}

#[test]
fn a_node_starts_from_genesis() {
    let store = genesis_store(InMemoryBackend::new(), &genesis(2)).ok().unwrap();
    assert_eq!(store.config().genesis_time, 42);
    assert_eq!(store.head_state().validators[1].proposal_pubkey, [51; 52]);
    let many = GenesisConfig {
        genesis_time: 42,
        genesis_validators: (0..4097)
            .map(|_| GenesisValidatorEntry {
                attestation_pubkey: [0; 52],
                proposal_pubkey: [0; 52],
            })
            .collect(),
    };
    assert!(matches!(
        genesis_store(InMemoryBackend::new(), &many),
        Err(StartupError::TooManyValidators)
    ));
}

#[test]
fn a_node_starts_from_a_checkpoint() {
    let config = genesis(2);
    let mut state = State::from_genesis(42, config.validators());
    state.slot = 30;
    state.latest_block_header.slot = 30;
    let bytes = state.as_ssz_bytes();
    let store = checkpoint_store(InMemoryBackend::new(), &config, &bytes).ok().unwrap();
    assert_eq!(store.head_slot(), 30);
    // the anchor counts as final, whatever its state says
    assert_eq!(store.latest_finalized().slot, 30);
    assert_eq!(store.latest_finalized().root, store.head());
    assert_eq!(store.head_state().slot, 30);

    state.latest_block_header.state_root = H256([1; 32]);
    assert!(matches!(
        checkpoint_store(InMemoryBackend::new(), &config, &state.as_ssz_bytes()),
        Err(StartupError::InconsistentAnchor)
    ));
    assert!(matches!(
        checkpoint_store(InMemoryBackend::new(), &genesis(3), &bytes),
        Err(StartupError::Sync(CheckpointSyncError::ValidatorCountMismatch {
            expected: 3,
            got: 2
        }))
    ));
    assert!(matches!(
        checkpoint_store(InMemoryBackend::new(), &config, &[]),
        Err(StartupError::Sync(CheckpointSyncError::SszDecode(_)))
    ));
}

// ============ Validators of a node ============

fn annotated(index: u64) -> AnnotatedValidator {
    AnnotatedValidator {
        index,
        attestation_pubkey: [1; 52],
        proposal_pubkey: [2; 52],
        attestation_privkey_file: "a".to_string(),
        proposal_privkey_file: "p".to_string(),
    }
}

#[test]
fn validators_are_found_by_node() {
    let nodes = vec![
        NodeValidators { node_id: "n0".to_string(), validators: vec![annotated(4)] },
        NodeValidators { node_id: "n1".to_string(), validators: vec![annotated(5), annotated(6)] },
    ];
    assert_eq!(validators_of(&nodes, &"n1".to_string()).unwrap()[1].index, 6);
    assert!(validators_of(&nodes, &"n2".to_string()).is_none());
    assert_eq!(first_validator_id(&vec![7, 3, 5]), Some(3));
    assert_eq!(first_validator_id(&vec![]), None);
}

#[test]
fn later_keys_replace_earlier_ones() {
    let pair = |n: u8| ValidatorKeyPair { attestation_key: n, proposal_key: n + 1 };
    let keys = register_keys(vec![(1, pair(10)), (2, pair(20)), (1, pair(30))]);
    assert_eq!(keys.len(), 2);
    assert_eq!(keys[&1].attestation_key, 30);
    assert_eq!(keys[&1].proposal_key, 31);
    assert_eq!(keys[&2].attestation_key, 20);
}

// ============ Fixtures ============

fn fixture_checkpoint(n: u8) -> Checkpoint {
    Checkpoint { root: H256([n; 32]), slot: n as u64 }
}

#[test]
fn fixtures_become_domain_values() {
    let state = TestState {
        config: Config { genesis_time: 3 },
        slot: 8,
        latest_block_header: BlockHeader {
            slot: 1,
            proposer_index: 2,
            parent_root: H256([3; 32]),
            state_root: H256([4; 32]),
            body_root: H256([5; 32]),
        },
        latest_justified: fixture_checkpoint(6),
        latest_finalized: fixture_checkpoint(7),
        historical_block_hashes: Container { data: vec![H256([8; 32])] },
        justified_slots: Container { data: vec![0, 2] },
        validators: Container {
            data: vec![Validator {
                index: 0,
                attestation_pubkey: [1; 52],
                proposal_pubkey: [2; 52],
            }],
        },
        justifications_roots: Container { data: vec![H256([9; 32])] },
        justifications_validators: Container { data: vec![true, false] },
    }
    .into_state();
    assert_eq!(state.config.genesis_time, 3);
    assert_eq!(state.slot, 8);
    assert_eq!(state.latest_block_header.body_root, H256([5; 32]));
    assert_eq!(state.latest_justified.slot, 6);
    assert_eq!(state.latest_finalized.root, H256([7; 32]));
    assert_eq!(state.historical_block_hashes, vec![H256([8; 32])]);
    assert_eq!(state.validators[0].proposal_pubkey, [2; 52]);
    assert_eq!(state.justifications_roots, vec![H256([9; 32])]);
    // the bit lists of a fixture are not carried over
    assert!(state.justified_slots.is_empty());
    assert!(state.justifications_validators.is_empty());

    let block = Block {
        slot: 1,
        proposer_index: 2,
        parent_root: H256([3; 32]),
        state_root: H256([4; 32]),
        body: BlockBody {
            attestations: Container {
                data: vec![AggregatedAttestation {
                    aggregation_bits: AggregationBits { data: vec![false, true] },
                    data: AttestationData {
                        slot: 5,
                        head: fixture_checkpoint(1),
                        target: fixture_checkpoint(2),
                        source: fixture_checkpoint(3),
                    },
                }],
            },
        },
    }
    .into_block();
    assert_eq!(block.slot, 1);
    assert_eq!(block.header().tree_hash_root(), block.tree_hash_root());
    let attestation = &block.body.attestations[0];
    assert_eq!(bits_to_vec(&attestation.aggregation_bits), vec![false, true]);
    assert_eq!(attestation.data.source.slot, 3);
}

// ============ Small parts ============

#[test]
fn numbers_are_written_in_decimal() {
    assert_eq!(decimal(0), "0");
    assert_eq!(decimal(10), "10");
    assert_eq!(decimal(u64::MAX), "18446744073709551615");
    assert_eq!(join_around("a", 7, "b"), "a7b");
}

#[test]
fn keys_are_kept_in_order() {
    let mut map = OrderedMap::new();
    for n in [5u8, 1, 3, 1] {
        map.insert(vec![n], n);
    }
    map.insert(vec![1, 0], 9);
    assert_eq!(map.len(), 4);
    let keys: Vec<Vec<u8>> = (0..4).map(|i| map.key_at(i).clone()).collect();
    assert_eq!(keys, vec![vec![1], vec![1, 0], vec![3], vec![5]]);
    assert_eq!(*map.value_at(1), 9);
    assert_eq!(map.get(&[3]), Some(&3));
    assert_eq!(map.remove(&[3]), Some(3));
    assert_eq!(map.remove(&[3]), None);
    assert!(!map.contains(&[3]));
    assert_eq!(map.len(), 3);

    let mut set = OrderedSet::new();
    set.insert(H256([2; 32]));
    set.insert(H256([1; 32]));
    set.insert(H256([2; 32]));
    assert_eq!(set.len(), 2);
    assert_eq!(*set.at(0), H256([1; 32]));
    set.remove(&[1; 32]);
    assert!(!set.contains(&[1; 32]));
    assert_eq!(set.len(), 1);
}
