use ethlambda::attestation::AttestationData;
use ethlambda::blockchain::key_manager::{
    finish_signature, KeyManager, KeyManagerError, SecretKey, ValidatorKeyPair,
};
use ethlambda::checkpoint::Checkpoint;
use ethlambda::hash_root::TreeHash;
use ethlambda::primitives::H256;
use std::cell::RefCell;
use std::collections::HashMap;
use std::rc::Rc;

// A key that notes what it is asked to sign.
struct NotingKey {
    name: &'static str,
    notes: Rc<RefCell<Vec<(&'static str, u32, H256)>>>,
    reply: Result<Vec<u8>, String>,
}

impl SecretKey for NotingKey {
    fn sign(self, slot: u32, message: H256) -> (Self, Result<Vec<u8>, String>) {
        self.notes.borrow_mut().push((self.name, slot, message));
        let reply = self.reply.clone();
        (self, reply)
    }
}

fn data(slot: u64) -> AttestationData {
    let checkpoint = Checkpoint { root: H256([7; 32]), slot };
    AttestationData { slot, head: checkpoint, target: checkpoint, source: checkpoint }
}

#[test]
fn test_validator_ids() {
    let keys: HashMap<u64, ValidatorKeyPair<NotingKey>> = HashMap::new();
    let key_manager = KeyManager::new(keys);
    assert_eq!(key_manager.validator_ids().len(), 0);
}

#[test]
fn test_sign_attestation_validator_not_found() {
    let keys: HashMap<u64, ValidatorKeyPair<NotingKey>> = HashMap::new();
    let mut key_manager = KeyManager::new(keys);
    let message = H256::default();

    let result = key_manager.sign_with_attestation_key(123, 0, &message);
    assert!(matches!(
        result,
        Err(KeyManagerError::ValidatorKeyNotFound(123))
    ));
}

#[test]
fn test_sign_block_root_validator_not_found() {
    let keys: HashMap<u64, ValidatorKeyPair<NotingKey>> = HashMap::new();
    let mut key_manager = KeyManager::new(keys);
    let message = H256::default();

    let result = key_manager.sign_block_root(123, 0, &message);
    assert!(matches!(
        result,
        Err(KeyManagerError::ValidatorKeyNotFound(123))
    ));
}

#[test]
fn each_duty_uses_its_own_key() {
    let notes = Rc::new(RefCell::new(Vec::new()));
    let key = |name| NotingKey { name, notes: notes.clone(), reply: Ok(vec![9; 3112]) };
    let mut keys = HashMap::new();
    keys.insert(
        5,
        ValidatorKeyPair { attestation_key: key("attestation"), proposal_key: key("proposal") },
    );
    let mut manager = KeyManager::new(keys);
    assert_eq!(manager.validator_ids(), vec![5]);

    // the slot is cut to 32 bits
    let vote = data((1 << 32) + 3);
    let signature = manager.sign_attestation(5, &vote).unwrap();
    assert_eq!(signature.bytes, vec![9; 3112]);
    let root = H256([3; 32]);
    manager.sign_block_root(5, 4, &root).unwrap();

    assert_eq!(
        *notes.borrow(),
        vec![("attestation", 3, vote.tree_hash_root()), ("proposal", 4, root)]
    );
    assert_eq!(manager.validator_ids(), vec![5]);
}

#[test]
fn replies_that_are_no_signatures_are_errors() {
    let e = finish_signature(Ok(vec![0; 3111])).unwrap_err();
    assert_eq!(
        e.text(),
        "Signature conversion error: Index out of bounds: index 3111, length 3112"
    );
    let e = finish_signature(Err("key exhausted".to_string())).unwrap_err();
    assert!(matches!(e, KeyManagerError::SigningError(_)));
    assert_eq!(e.text(), "Signing error: key exhausted");
    let e = KeyManagerError::ValidatorKeyNotFound(123);
    assert_eq!(e.text(), "Validator key not found for validator_id: 123");
    assert_eq!(finish_signature(Ok(vec![1; 3112])).unwrap().bytes, vec![1; 3112]);
}
