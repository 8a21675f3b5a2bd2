//! Checkpoints: a block root and its slot.

use crate::encoding::container::{slice_views, views, width_from};
use crate::encoding::{decode_field, fault_of, DecodeError, Ssz, SszContainer};
use crate::hash_root::{container_root, hash_container, hash_uint, uint_root, TreeHash};
use crate::encoding::list::item_views;
use crate::primitives::{lemma_h256_from_view, zero_root, H256};
use vstd::prelude::*;

verus! {

/// A block root with the slot of the block.
#[derive(Clone, Copy, Debug, PartialEq, Eq)]
pub struct Checkpoint {
    pub root: H256,
    pub slot: u64,
}

impl View for Checkpoint {
    type V = Checkpoint;

    open spec fn view(&self) -> Checkpoint {
        *self
    }
}

impl Default for Checkpoint {
    fn default() -> (r: Checkpoint)
        ensures
            r.root@ == zero_root(),
            r.slot == 0,
    {
        Checkpoint { root: H256::zero(), slot: 0 }
    }
}

impl SszContainer for Checkpoint {
    open spec fn fixed() -> Option<usize> {
        Some(40)
    }

    open spec fn layout() -> Seq<Option<usize>> {
        seq![Some(32usize), Some(8usize)]
    }

    open spec fn parts(v: Checkpoint) -> Seq<Seq<u8>> {
        seq![
            H256::enc(v.root@),
            u64::enc(v.slot@),
        ]
    }

    open spec fn limits(v: Checkpoint) -> bool {
        &&& H256::valid(v.root@)
        &&& u64::valid(v.slot@)
    }

    open spec fn part_fault(i: int, part: Seq<u8>) -> Option<DecodeError> {
        if i == 0 {
            fault_of::<H256>(part)
        } else if i == 1 {
            fault_of::<u64>(part)
        } else {
            None
        }
    }

    proof fn layout_fits() {
        reveal_with_fuel(width_from, 3);
    }

    proof fn parts_conform(v: Checkpoint) {
        H256::enc_size(v.root@);
        u64::enc_size(v.slot@);
    }

    proof fn parts_injective(a: Checkpoint, b: Checkpoint) {
        assert(Self::parts(a)[0] == Self::parts(b)[0]);
        H256::enc_injective(a.root@, b.root@);
        lemma_h256_from_view(a.root, b.root);
        assert(Self::parts(a)[1] == Self::parts(b)[1]);
        u64::enc_injective(a.slot@, b.slot@);
    }

    fn fixed_size() -> (r: Option<usize>) {
        Some(40)
    }

    fn field_layout() -> (r: Vec<Option<usize>>) {
        let r: Vec<Option<usize>> = vec![Some(32usize), Some(8usize)];
        proof {
            assert(r@ =~= Self::layout());
        }
        r
    }

    fn encode_parts(&self) -> (r: Vec<Vec<u8>>) {
        let mut r: Vec<Vec<u8>> = Vec::new();
        r.push(self.root.as_ssz_bytes());
        r.push(self.slot.as_ssz_bytes());
        proof {
            assert(views(r@) =~= Self::parts(self@));
        }
        r
    }

    fn decode_parts(parts: &Vec<&[u8]>) -> (r: Result<Checkpoint, DecodeError>) {
        let ghost ps = slice_views(parts@);
        let root = match decode_field::<H256>(parts[0]) {
            Ok(x) => x,
            Err(e) => {
                proof {
                    assert forall|v: Checkpoint| Self::limits(v) implies #[trigger] Self::parts(v)
                        != ps by {
                        assert(Self::parts(v)[0] == H256::enc(v.root@));
                        assert(ps[0] == parts@[0]@);
                    }
                    assert(Self::part_fault(0, ps[0]) == Some(e));
                }
                return Err(e);
            },
        };
        proof {
            assert(ps[0] == parts@[0]@);
            assert(Self::part_fault(0, ps[0]) is None);
        }
        let slot = match decode_field::<u64>(parts[1]) {
            Ok(x) => x,
            Err(e) => {
                proof {
                    assert forall|v: Checkpoint| Self::limits(v) implies #[trigger] Self::parts(v)
                        != ps by {
                        assert(Self::parts(v)[1] == u64::enc(v.slot@));
                        assert(ps[1] == parts@[1]@);
                    }
                    assert(Self::part_fault(1, ps[1]) == Some(e));
                }
                return Err(e);
            },
        };
        proof {
            assert(ps[1] == parts@[1]@);
            assert(Self::part_fault(1, ps[1]) is None);
        }
        let r = Checkpoint { root, slot };
        proof {
            assert(Self::parts(r@) =~= ps);
        }
        Ok(r)
    }
}

impl TreeHash for Checkpoint {
    open spec fn hashable(v: Checkpoint) -> bool {
        true
    }

    open spec fn root(v: Checkpoint) -> Seq<u8> {
        container_root(seq![v.root@, uint_root(v.slot as nat)])
    }

    fn tree_hash_root(&self) -> (r: H256) {
        let roots: Vec<H256> = vec![self.root, hash_uint(self.slot)];
        proof {
            assert(item_views(roots@) =~= seq![self.root@, uint_root(self.slot as nat)]);
        }
        hash_container(&roots)
    }
}

} // verus!
