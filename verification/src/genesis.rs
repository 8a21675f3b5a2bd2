//! The genesis configuration.

use crate::state::{Validator, ValidatorPubkeyBytes};
use vstd::prelude::*;

verus! {

/// The public keys of one genesis validator.
#[derive(Debug, Clone, Copy)]
pub struct GenesisValidatorEntry {
    pub attestation_pubkey: ValidatorPubkeyBytes,
    pub proposal_pubkey: ValidatorPubkeyBytes,
}

/// The genesis time and the validators that the chain starts with.
#[derive(Debug, Clone)]
pub struct GenesisConfig {
    pub genesis_time: u64,
    pub genesis_validators: Vec<GenesisValidatorEntry>,
}

/// The validators of a genesis configuration: its entries, numbered from zero.
pub open spec fn numbered(entries: Seq<GenesisValidatorEntry>) -> Seq<Validator> {
    Seq::new(
        entries.len(),
        |i: int|
            Validator {
                attestation_pubkey: entries[i].attestation_pubkey,
                proposal_pubkey: entries[i].proposal_pubkey,
                index: i as u64,
            },
    )
}

impl GenesisConfig {
    /// The validators in the order of the configuration, numbered from zero.
    pub fn validators(&self) -> (r: Vec<Validator>)
        ensures
            r@ == numbered(self.genesis_validators@),
    {
        let mut out: Vec<Validator> = Vec::new();
        let mut i: usize = 0;
        while i < self.genesis_validators.len()
            invariant
                0 <= i <= self.genesis_validators@.len(),
                out@ == numbered(self.genesis_validators@).take(i as int),
            decreases self.genesis_validators@.len() - i,
        {
            let entry = self.genesis_validators[i];
            out.push(
                Validator {
                    attestation_pubkey: entry.attestation_pubkey,
                    proposal_pubkey: entry.proposal_pubkey,
                    index: i as u64,
                },
            );
            i = i + 1;
            proof {
                assert(out@ =~= numbered(self.genesis_validators@).take(i as int));
            }
        }
        proof {
            assert(numbered(self.genesis_validators@).take(i as int) =~= numbered(
                self.genesis_validators@,
            ));
        }
        out
    }
}

} // verus!
