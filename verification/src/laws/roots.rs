//! What hash tree roots are made of.

use crate::attestation::{AggregatedAttestation, AggregatedAttestationView, AttestationData};
use crate::bindings::hashing::{merkle_root_of, with_length};
use crate::block::{Block, BlockBody, BlockBodyView, BlockHeader, BlockView};
use crate::checkpoint::Checkpoint;
use crate::encoding::bits::bit_bytes;
use crate::encoding::list::item_views;
use crate::hash_root::{
    concat, hash_bits, hash_bytes, hash_container, hash_list, hash_uint, item_roots, TreeHash,
};
use crate::primitives::{le_bytes, H256};
use crate::state::{ChainConfig, State, StateView, Validator};
use vstd::prelude::*;

verus! {

/// An integer fills the first eight bytes of a leaf.
pub open spec fn integer_leaf(x: u64) -> Seq<u8> {
    le_bytes(x as nat, 8) + Seq::new(24, |i: int| 0u8)
}

/// Roots are hashed in their order.
pub proof fn roots_are_joined_in_order(roots: Seq<Seq<u8>>, i: int)
    requires
        0 <= i < roots.len(),
        forall|k: int| 0 <= k < roots.len() ==> (#[trigger] roots[k]).len() == 32,
    ensures
        concat(roots).len() == 32 * roots.len(),
        concat(roots).subrange(32 * i, 32 * i + 32) == roots[i],
    decreases roots.len(),
{
    let rest = roots.drop_last();
    let n = rest.len() as int;
    if rest.len() > 0 {
        roots_are_joined_in_order(
            rest,
            if i < n {
                i
            } else {
                0
            },
        );
    } else {
        assert(concat(rest).len() == 0);
    }
    assert(concat(roots) == concat(rest) + roots.last());
    if i < n {
        assert(concat(roots).subrange(32 * i, 32 * i + 32) =~= concat(rest).subrange(
            32 * i,
            32 * i + 32,
        ));
        assert(rest[i] == roots[i]);
    } else {
        assert(concat(roots).subrange(32 * i, 32 * i + 32) =~= roots.last());
    }
}

/// The root of a checkpoint is that of its root and its slot.
pub proof fn checkpoint_root(v: Checkpoint)
    ensures
        Checkpoint::root(v) == merkle_root_of(v.root@ + integer_leaf(v.slot), 2),
{
    reveal_with_fuel(concat, 3);
    let s = seq![v.root@, integer_leaf(v.slot)];
    assert(s.drop_last() =~= seq![v.root@]);
    assert(s.drop_last().drop_last() =~= Seq::<Seq<u8>>::empty());
    assert(concat(s) =~= v.root@ + integer_leaf(v.slot));
    assert(Checkpoint::root(v) == merkle_root_of(concat(s), 2));
}

/// The root of attestation data is that of its slot, its head, its target and its source.
pub proof fn attestation_data_root(v: AttestationData)
    ensures
        AttestationData::root(v) == merkle_root_of(
            integer_leaf(v.slot) + Checkpoint::root(v.head) + Checkpoint::root(v.target)
                + Checkpoint::root(v.source),
            4,
        ),
{
    reveal_with_fuel(concat, 5);
    let (a, b, c, d) = (
        integer_leaf(v.slot),
        Checkpoint::root(v.head),
        Checkpoint::root(v.target),
        Checkpoint::root(v.source),
    );
    lemma_concat_four(a, b, c, d);
    assert(AttestationData::root(v) == merkle_root_of(concat(seq![a, b, c, d]), 4));
}

proof fn lemma_concat_four(a: Seq<u8>, b: Seq<u8>, c: Seq<u8>, d: Seq<u8>)
    ensures
        concat(seq![a, b, c, d]) == a + b + c + d,
        concat(seq![a, b, c]) == a + b + c,
        concat(seq![a, b]) == a + b,
        concat(seq![a]) == a,
{
    reveal_with_fuel(concat, 5);
    assert(seq![a, b, c, d].drop_last() =~= seq![a, b, c]);
    assert(seq![a, b, c].drop_last() =~= seq![a, b]);
    assert(seq![a, b].drop_last() =~= seq![a]);
    assert(seq![a].drop_last() =~= Seq::<Seq<u8>>::empty());
    assert(concat(Seq::<Seq<u8>>::empty()) == Seq::<u8>::empty());
    assert(concat(seq![a]) =~= a);
    assert(concat(seq![a, b]) == a + b);
    assert(concat(seq![a, b, c]) == a + b + c);
}

/// The root of a header is that of its slot, its proposer, and the roots of the parent, the
/// state and the body; a block has the root of its header.
pub proof fn header_root(v: BlockHeader, b: BlockView)
    ensures
        BlockHeader::root(v) == merkle_root_of(
            integer_leaf(v.slot) + integer_leaf(v.proposer_index) + v.parent_root@ + v.state_root@
                + v.body_root@,
            5,
        ),
        Block::root(b) == merkle_root_of(
            integer_leaf(b.slot) + integer_leaf(b.proposer_index) + b.parent_root + b.state_root
                + BlockBody::root(b.body),
            5,
        ),
{
    lemma_concat_five(
        integer_leaf(v.slot),
        integer_leaf(v.proposer_index),
        v.parent_root@,
        v.state_root@,
        v.body_root@,
    );
    lemma_concat_five(
        integer_leaf(b.slot),
        integer_leaf(b.proposer_index),
        b.parent_root,
        b.state_root,
        BlockBody::root(b.body),
    );
}

proof fn lemma_concat_five(a: Seq<u8>, b: Seq<u8>, c: Seq<u8>, d: Seq<u8>, e: Seq<u8>)
    ensures
        concat(seq![a, b, c, d, e]) == a + b + c + d + e,
{
    lemma_concat_four(a, b, c, d);
    assert(seq![a, b, c, d, e].drop_last() =~= seq![a, b, c, d]);
}

/// The root of an aggregated attestation is that of its bits, with their number, and its
/// data.
pub proof fn aggregated_attestation_root(v: AggregatedAttestationView)
    ensures
        AggregatedAttestation::root(v) == merkle_root_of(
            with_length(
                merkle_root_of(
                    bit_bytes(v.aggregation_bits, (v.aggregation_bits.len() + 7) / 8),
                    16,
                ),
                v.aggregation_bits.len(),
            ) + AttestationData::root(v.data),
            2,
        ),
{
    let a = with_length(
        merkle_root_of(bit_bytes(v.aggregation_bits, (v.aggregation_bits.len() + 7) / 8), 16),
        v.aggregation_bits.len(),
    );
    lemma_concat_four(a, AttestationData::root(v.data), a, a);
    assert((4096 + 255) / 256 == 16);
}

/// The root of a body is that of its attestations, with their number.
pub proof fn body_root(v: BlockBodyView)
    ensures
        BlockBody::root(v) == merkle_root_of(
            with_length(
                merkle_root_of(
                    concat(item_roots::<AggregatedAttestation>(v.attestations)),
                    4096,
                ),
                v.attestations.len(),
            ),
            1,
        ),
        forall|i: int|
            0 <= i < v.attestations.len() ==> #[trigger] item_roots::<AggregatedAttestation>(
                v.attestations,
            )[i] == AggregatedAttestation::root(v.attestations[i]),
{
    let a = with_length(
        merkle_root_of(concat(item_roots::<AggregatedAttestation>(v.attestations)), 4096),
        v.attestations.len(),
    );
    lemma_concat_four(a, a, a, a);
}

/// The root of a validator is that of its attestation key, its proposal key and its index,
/// the keys padded to two leaves.
pub proof fn validator_root(v: Validator)
    ensures
        Validator::root(v) == merkle_root_of(
            merkle_root_of(v.attestation_pubkey@, 2) + merkle_root_of(v.proposal_pubkey@, 2)
                + integer_leaf(v.index),
            3,
        ),
{
    let a = merkle_root_of(v.attestation_pubkey@, 2);
    let b = merkle_root_of(v.proposal_pubkey@, 2);
    lemma_concat_four(a, b, integer_leaf(v.index), a);
}

/// The root of a state is that of its fields in their order.
pub proof fn state_root(v: StateView)
    ensures
        ({
            let config = merkle_root_of(integer_leaf(v.config.genesis_time), 1);
            let history = with_length(
                merkle_root_of(concat(v.historical_block_hashes), 262_144),
                v.historical_block_hashes.len(),
            );
            let justified = with_length(
                merkle_root_of(
                    bit_bytes(v.justified_slots, (v.justified_slots.len() + 7) / 8),
                    1024,
                ),
                v.justified_slots.len(),
            );
            let validators = with_length(
                merkle_root_of(concat(item_roots::<Validator>(v.validators)), 4096),
                v.validators.len(),
            );
            let roots = with_length(
                merkle_root_of(concat(v.justifications_roots), 262_144),
                v.justifications_roots.len(),
            );
            let votes = with_length(
                merkle_root_of(
                    bit_bytes(
                        v.justifications_validators,
                        (v.justifications_validators.len() + 7) / 8,
                    ),
                    4_194_304,
                ),
                v.justifications_validators.len(),
            );
            State::root(v) == merkle_root_of(
                config + integer_leaf(v.slot) + BlockHeader::root(v.latest_block_header)
                    + Checkpoint::root(v.latest_justified) + Checkpoint::root(v.latest_finalized)
                    + history + justified + validators + roots + votes,
                10,
            )
        }),
{
    let leaf = integer_leaf(v.config.genesis_time);
    lemma_concat_four(leaf, leaf, leaf, leaf);
    assert(item_roots::<H256>(v.historical_block_hashes) =~= v.historical_block_hashes);
    assert(item_roots::<H256>(v.justifications_roots) =~= v.justifications_roots);
    let r0 = ChainConfig::root(v.config);
    let r1 = integer_leaf(v.slot);
    let r2 = BlockHeader::root(v.latest_block_header);
    let r3 = Checkpoint::root(v.latest_justified);
    let r4 = Checkpoint::root(v.latest_finalized);
    let r5 = with_length(
        merkle_root_of(concat(v.historical_block_hashes), 262_144),
        v.historical_block_hashes.len(),
    );
    let r6 = with_length(
        merkle_root_of(bit_bytes(v.justified_slots, (v.justified_slots.len() + 7) / 8), 1024),
        v.justified_slots.len(),
    );
    let r7 = with_length(
        merkle_root_of(concat(item_roots::<Validator>(v.validators)), 4096),
        v.validators.len(),
    );
    let r8 = with_length(
        merkle_root_of(concat(v.justifications_roots), 262_144),
        v.justifications_roots.len(),
    );
    let r9 = with_length(
        merkle_root_of(
            bit_bytes(
                v.justifications_validators,
                (v.justifications_validators.len() + 7) / 8,
            ),
            4_194_304,
        ),
        v.justifications_validators.len(),
    );
    lemma_concat_five(r0, r1, r2, r3, r4);
    let s5 = seq![r0, r1, r2, r3, r4];
    let s6 = s5.push(r5);
    let s7 = s6.push(r6);
    let s8 = s7.push(r7);
    let s9 = s8.push(r8);
    let s10 = s9.push(r9);
    assert(s10.drop_last() =~= s9);
    assert(s9.drop_last() =~= s8);
    assert(s8.drop_last() =~= s7);
    assert(s7.drop_last() =~= s6);
    assert(s6.drop_last() =~= s5);
    assert(concat(s6) == concat(s5) + r5);
    assert(concat(s7) == concat(s6) + r6);
    assert(concat(s8) == concat(s7) + r7);
    assert(concat(s9) == concat(s8) + r8);
    assert(concat(s10) == concat(s9) + r9);
    assert(seq![r0, r1, r2, r3, r4, r5, r6, r7, r8, r9] =~= s10);
    assert(State::root(v) == merkle_root_of(concat(s10), 10));
}

/// What is hashed of a value is its root.
pub proof fn values_are_hashed<T: TreeHash>(x: T, r: H256)
    requires
        call_ensures(T::tree_hash_root, (&x,), r),
    ensures
        r@ == T::root(x@),
{
}

/// Objects are hashed over the roots of their fields, lists over those of their items, padded
/// to their limit and mixed with their length, and bits over their bytes, 256 bits a leaf.
pub proof fn roots_are_hashed(
    roots: Vec<H256>,
    bits: Vec<bool>,
    bytes: &[u8],
    x: u64,
    limit: usize,
    r: H256,
)
    ensures
        call_ensures(hash_container, (&roots,), r) ==> r@ == merkle_root_of(
            concat(item_views(roots@)),
            roots@.len(),
        ),
        call_ensures(hash_list, (&roots, limit), r) ==> r@ == with_length(
            merkle_root_of(concat(item_views(roots@)), limit as nat),
            roots@.len(),
        ),
        call_ensures(hash_bits, (&bits, limit), r) && limit % 256 == 0 ==> r@ == with_length(
            merkle_root_of(
                bit_bytes(bits@, (bits@.len() + 7) / 8),
                (limit / 256) as nat,
            ),
            bits@.len(),
        ),
        call_ensures(hash_bytes, (bytes,), r) && bytes@.len() % 32 == 0 ==> r@ == merkle_root_of(
            bytes@,
            bytes@.len() / 32,
        ),
        call_ensures(hash_uint, (x,), r) ==> r@ == integer_leaf(x),
{
    if limit % 256 == 0 {
        assert((limit as nat + 255) / 256 == limit as nat / 256);
    }
    if bytes@.len() % 32 == 0 {
        assert((bytes@.len() + 31) / 32 == bytes@.len() / 32);
    }
}

} // verus!
