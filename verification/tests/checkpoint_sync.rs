use ethlambda::block::BlockHeader;
use ethlambda::checkpoint::Checkpoint;
use ethlambda::checkpoint_sync::{
    read_checkpoint_state, verify_checkpoint_state, CheckpointSyncError,
};
use ethlambda::encoding::Ssz;
use ethlambda::hash_root::TreeHash;
use ethlambda::primitives::H256;
use ethlambda::state::{ChainConfig, State, Validator};

// Helper to create valid test state
fn create_test_state(slot: u64, validators: Vec<Validator>, genesis_time: u64) -> State {
    State {
        slot,
        validators,
        latest_block_header: BlockHeader {
            slot,
            parent_root: H256::zero(),
            state_root: H256::zero(),
            body_root: H256::zero(),
            proposer_index: 0,
        },
        latest_justified: Checkpoint {
            slot: slot.saturating_sub(10),
            root: H256::zero(),
        },
        latest_finalized: Checkpoint {
            slot: slot.saturating_sub(20),
            root: H256::zero(),
        },
        config: ChainConfig { genesis_time },
        historical_block_hashes: Vec::new(),
        justified_slots: Vec::new(),
        justifications_roots: Vec::new(),
        justifications_validators: Vec::new(),
    }
}

fn create_test_validator() -> Validator {
    Validator {
        attestation_pubkey: [1u8; 52],
        proposal_pubkey: [11u8; 52],
        index: 0,
    }
}

fn create_different_validator() -> Validator {
    Validator {
        attestation_pubkey: [2u8; 52],
        proposal_pubkey: [22u8; 52],
        index: 0,
    }
}

fn create_validators_with_indices(count: usize) -> Vec<Validator> {
    (0..count)
        .map(|i| Validator {
            attestation_pubkey: [i as u8 + 1; 52],
            proposal_pubkey: [i as u8 + 101; 52],
            index: i as u64,
        })
        .collect()
}

#[test]
fn verify_accepts_valid_state() {
    let validators = vec![create_test_validator()];
    let state = create_test_state(100, validators.clone(), 1000);
    assert!(verify_checkpoint_state(&state, 1000, &validators).is_ok());
}

#[test]
fn verify_rejects_slot_zero() {
    let validators = vec![create_test_validator()];
    let state = create_test_state(0, validators.clone(), 1000);
    assert!(verify_checkpoint_state(&state, 1000, &validators).is_err());
}

#[test]
fn verify_rejects_empty_validators() {
    let state = create_test_state(100, vec![], 1000);
    assert!(verify_checkpoint_state(&state, 1000, &[]).is_err());
}

#[test]
fn verify_rejects_genesis_time_mismatch() {
    let validators = vec![create_test_validator()];
    let state = create_test_state(100, validators.clone(), 1000);
    // State has genesis_time=1000, we pass expected=9999
    assert!(verify_checkpoint_state(&state, 9999, &validators).is_err());
}

#[test]
fn verify_rejects_validator_count_mismatch() {
    let validators = vec![create_test_validator()];
    let state = create_test_state(100, validators.clone(), 1000);
    let extra_validators = create_validators_with_indices(2);
    assert!(verify_checkpoint_state(&state, 1000, &extra_validators).is_err());
}

#[test]
fn verify_accepts_multiple_validators_with_sequential_indices() {
    let validators = create_validators_with_indices(3);
    let state = create_test_state(100, validators.clone(), 1000);
    assert!(verify_checkpoint_state(&state, 1000, &validators).is_ok());
}

#[test]
fn verify_rejects_non_sequential_validator_indices() {
    let mut validators = create_validators_with_indices(3);
    validators[1].index = 5; // Wrong index at position 1
    let state = create_test_state(100, validators.clone(), 1000);
    let expected_validators = create_validators_with_indices(3);
    assert!(verify_checkpoint_state(&state, 1000, &expected_validators).is_err());
}

#[test]
fn verify_rejects_duplicate_validator_indices() {
    let mut validators = create_validators_with_indices(3);
    validators[2].index = 0; // Duplicate index
    let state = create_test_state(100, validators.clone(), 1000);
    let expected_validators = create_validators_with_indices(3);
    assert!(verify_checkpoint_state(&state, 1000, &expected_validators).is_err());
}

#[test]
fn verify_rejects_validator_pubkey_mismatch() {
    let validators = vec![create_test_validator()];
    let state = create_test_state(100, validators.clone(), 1000);
    let different_validators = vec![create_different_validator()];
    assert!(verify_checkpoint_state(&state, 1000, &different_validators).is_err());
}

#[test]
fn verify_rejects_finalized_after_state_slot() {
    let validators = vec![create_test_validator()];
    let mut state = create_test_state(100, validators.clone(), 1000);
    state.latest_finalized.slot = 101; // Finalized after state slot
    assert!(verify_checkpoint_state(&state, 1000, &validators).is_err());
}

#[test]
fn verify_rejects_justified_before_finalized() {
    let validators = vec![create_test_validator()];
    let mut state = create_test_state(100, validators.clone(), 1000);
    state.latest_finalized.slot = 50;
    state.latest_justified.slot = 40; // Justified before finalized
    assert!(verify_checkpoint_state(&state, 1000, &validators).is_err());
}

#[test]
fn verify_accepts_justified_equals_finalized_with_matching_roots() {
    let validators = vec![create_test_validator()];
    let mut state = create_test_state(100, validators.clone(), 1000);
    let common_root = H256([42u8; 32]);
    state.latest_finalized.slot = 50;
    state.latest_finalized.root = common_root;
    state.latest_justified.slot = 50; // Same slot
    state.latest_justified.root = common_root; // Same root
    assert!(verify_checkpoint_state(&state, 1000, &validators).is_ok());
}

#[test]
fn verify_rejects_justified_equals_finalized_with_different_roots() {
    let validators = vec![create_test_validator()];
    let mut state = create_test_state(100, validators.clone(), 1000);
    state.latest_finalized.slot = 50;
    state.latest_finalized.root = H256([1u8; 32]);
    state.latest_justified.slot = 50; // Same slot
    state.latest_justified.root = H256([2u8; 32]); // Different root - conflict!
    assert!(verify_checkpoint_state(&state, 1000, &validators).is_err());
}

#[test]
fn verify_rejects_block_header_slot_exceeds_state() {
    let validators = vec![create_test_validator()];
    let mut state = create_test_state(100, validators.clone(), 1000);
    state.latest_block_header.slot = 101; // Block header slot exceeds state slot
    assert!(verify_checkpoint_state(&state, 1000, &validators).is_err());
}

#[test]
fn verify_accepts_block_header_matches_finalized_with_correct_root() {
    let validators = vec![create_test_validator()];
    let mut state = create_test_state(100, validators.clone(), 1000);
    state.latest_block_header.slot = 50;
    let block_root = state.latest_block_header.tree_hash_root();
    state.latest_finalized.slot = 50;
    state.latest_finalized.root = block_root;
    assert!(verify_checkpoint_state(&state, 1000, &validators).is_ok());
}

#[test]
fn verify_rejects_block_header_matches_finalized_with_wrong_root() {
    let validators = vec![create_test_validator()];
    let mut state = create_test_state(100, validators.clone(), 1000);
    state.latest_block_header.slot = 50;
    state.latest_finalized.slot = 50;
    state.latest_finalized.root = H256([99u8; 32]); // Wrong root
    assert!(verify_checkpoint_state(&state, 1000, &validators).is_err());
}

#[test]
fn verify_accepts_block_header_matches_justified_with_correct_root() {
    let validators = vec![create_test_validator()];
    let mut state = create_test_state(100, validators.clone(), 1000);
    state.latest_block_header.slot = 90;
    let block_root = state.latest_block_header.tree_hash_root();
    state.latest_justified.slot = 90;
    state.latest_justified.root = block_root;
    assert!(verify_checkpoint_state(&state, 1000, &validators).is_ok());
}

#[test]
fn verify_rejects_block_header_matches_justified_with_wrong_root() {
    let validators = vec![create_test_validator()];
    let mut state = create_test_state(100, validators.clone(), 1000);
    state.latest_block_header.slot = 90;
    state.latest_justified.slot = 90;
    state.latest_justified.root = H256([99u8; 32]); // Wrong root
    assert!(verify_checkpoint_state(&state, 1000, &validators).is_err());
}

#[test]
fn every_refusal_names_its_reason() {
    let one = vec![create_test_validator()];
    let three = create_validators_with_indices(3);
    let reason = |state: &State, time: u64, validators: &[Validator]| {
        verify_checkpoint_state(state, time, validators).unwrap_err()
    };

    let state = create_test_state(0, one.clone(), 1000);
    let e = reason(&state, 1000, &one);
    assert_eq!(e, CheckpointSyncError::SlotIsZero);
    assert_eq!(e.text(), "checkpoint state slot cannot be 0");

    let state = create_test_state(100, vec![], 1000);
    let e = reason(&state, 1000, &[]);
    assert_eq!(e, CheckpointSyncError::NoValidators);
    assert_eq!(e.text(), "checkpoint state has no validators");

    let state = create_test_state(100, one.clone(), 1000);
    let e = reason(&state, 9999, &one);
    assert_eq!(e, CheckpointSyncError::GenesisTimeMismatch { expected: 9999, got: 1000 });
    assert_eq!(e.text(), "genesis time mismatch: expected 9999, got 1000");

    let e = reason(&state, 1000, &three);
    assert_eq!(e, CheckpointSyncError::ValidatorCountMismatch { expected: 3, got: 1 });
    assert_eq!(e.text(), "validator count mismatch: expected 3, got 1");

    let mut wrong = three.clone();
    wrong[1].index = 5;
    let state = create_test_state(100, wrong, 1000);
    let e = reason(&state, 1000, &three);
    assert_eq!(
        e,
        CheckpointSyncError::NonSequentialValidatorIndex { position: 1, expected: 1, got: 5 }
    );
    assert_eq!(
        e.text(),
        "validator at position 1 has non-sequential index (expected 1, got 5)"
    );

    let mut other = three.clone();
    other[2].proposal_pubkey[51] = 0;
    let state = create_test_state(100, three.clone(), 1000);
    let e = reason(&state, 1000, &other);
    assert_eq!(e, CheckpointSyncError::ValidatorPubkeyMismatch { index: 2 });
    assert_eq!(e.text(), "validator 2 pubkey mismatch");

    let mut state = create_test_state(100, one.clone(), 1000);
    state.latest_finalized.slot = 101;
    assert_eq!(reason(&state, 1000, &one), CheckpointSyncError::FinalizedExceedsStateSlot);

    let mut state = create_test_state(100, one.clone(), 1000);
    state.latest_justified.slot = 79;
    assert_eq!(reason(&state, 1000, &one), CheckpointSyncError::JustifiedPrecedesFinalized);

    let mut state = create_test_state(100, one.clone(), 1000);
    state.latest_justified.slot = 80;
    state.latest_justified.root = H256([1; 32]);
    assert_eq!(reason(&state, 1000, &one), CheckpointSyncError::JustifiedFinalizedRootMismatch);

    let mut state = create_test_state(100, one.clone(), 1000);
    state.latest_block_header.slot = 101;
    assert_eq!(reason(&state, 1000, &one), CheckpointSyncError::BlockHeaderSlotExceedsState);

    let mut state = create_test_state(100, one.clone(), 1000);
    state.latest_block_header.slot = 80;
    assert_eq!(reason(&state, 1000, &one), CheckpointSyncError::BlockHeaderFinalizedRootMismatch);

    let mut state = create_test_state(100, one.clone(), 1000);
    state.latest_block_header.slot = 90;
    assert_eq!(reason(&state, 1000, &one), CheckpointSyncError::BlockHeaderJustifiedRootMismatch);
}

#[test]
fn downloaded_bytes_are_decoded_and_verified() {
    let one = vec![create_test_validator()];
    let state = create_test_state(100, one.clone(), 1000);
    let bytes = state.as_ssz_bytes();
    let read = read_checkpoint_state(&bytes, 1000, &one).unwrap();
    assert_eq!(read.slot, 100);
    assert_eq!(read.as_ssz_bytes(), bytes);
    assert!(matches!(
        read_checkpoint_state(&bytes[..bytes.len() - 1], 1000, &one),
        Err(CheckpointSyncError::SszDecode(_))
    ));
    assert_eq!(
        read_checkpoint_state(&bytes[..3], 1000, &one).unwrap_err().text(),
        "SSZ deserialization failed: InvalidByteLength { len: 3, expected: 8 }"
    );
    assert_eq!(
        read_checkpoint_state(&bytes, 999, &one).unwrap_err(),
        CheckpointSyncError::GenesisTimeMismatch { expected: 999, got: 1000 }
    );
}
