//! Which validators a node runs.

use crate::blockchain::key_manager::ValidatorKeyPair;
use crate::state::ValidatorPubkeyBytes;
use std::collections::HashMap;
use vstd::prelude::*;

verus! {

broadcast use vstd::std_specs::hash::group_hash_axioms;

/// A validator of a node and where its keys are.
#[derive(Debug)]
pub struct AnnotatedValidator {
    pub index: u64,
    pub attestation_pubkey: ValidatorPubkeyBytes,
    pub proposal_pubkey: ValidatorPubkeyBytes,
    pub attestation_privkey_file: String,
    pub proposal_privkey_file: String,
}

/// The validators of a node.
#[derive(Debug)]
pub struct NodeValidators {
    pub node_id: String,
    pub validators: Vec<AnnotatedValidator>,
}

/// Whether the entry at `i` is the first with an identifier.
pub open spec fn first_node(nodes: Seq<NodeValidators>, node_id: Seq<char>, i: int) -> bool {
    &&& 0 <= i < nodes.len()
    &&& nodes[i].node_id@ == node_id
    &&& forall|j: int| 0 <= j < i ==> (#[trigger] nodes[j]).node_id@ != node_id
}

/// Whether there is an entry with an identifier.
pub open spec fn has_node(nodes: Seq<NodeValidators>, node_id: Seq<char>) -> bool {
    exists|i: int| first_node(nodes, node_id, i)
}

/// The validators of a node; `None` if there is no such node.
pub fn validators_of<'a>(nodes: &'a Vec<NodeValidators>, node_id: &String) -> (r: Option<
    &'a Vec<AnnotatedValidator>,
>)
    ensures
        r is Some <==> has_node(nodes@, node_id@),
        match r {
            Some(validators) => exists|i: int| #[trigger]
                first_node(nodes@, node_id@, i) && *validators == nodes@[i].validators,
            None => forall|i: int|
                0 <= i < nodes@.len() ==> (#[trigger] nodes@[i]).node_id@ != node_id@,
        },
{
    let mut i: usize = 0;
    while i < nodes.len()
        invariant
            0 <= i <= nodes@.len(),
            forall|j: int| 0 <= j < i ==> (#[trigger] nodes@[j]).node_id@ != node_id@,
        decreases nodes@.len() - i,
    {
        if nodes[i].node_id == *node_id {
            proof {
                assert(first_node(nodes@, node_id@, i as int));
            }
            return Some(&nodes[i].validators);
        }
        i = i + 1;
    }
    None
}

/// The key pairs by validator; of several for one validator, the last.
pub open spec fn registered<K>(pairs: Seq<(u64, ValidatorKeyPair<K>)>) -> Map<
    u64,
    ValidatorKeyPair<K>,
>
    decreases pairs.len(),
{
    if pairs.len() == 0 {
        Map::empty()
    } else {
        registered(pairs.drop_last()).insert(pairs.last().0, pairs.last().1)
    }
}

/// Registers key pairs by validator; of several for one validator, the last stays.
pub fn register_keys<K>(pairs: Vec<(u64, ValidatorKeyPair<K>)>) -> (r: HashMap<
    u64,
    ValidatorKeyPair<K>,
>)
    ensures
        r@ == registered(pairs@),
{
    let ghost all = pairs@;
    let mut keys: HashMap<u64, ValidatorKeyPair<K>> = HashMap::new();
    let ghost mut i: int = 0;
    let mut rest: Vec<(u64, ValidatorKeyPair<K>)> = reversed(pairs);
    proof {
        assert(all.take(0) =~= Seq::<(u64, ValidatorKeyPair<K>)>::empty());
        assert(all.skip(0) =~= all);
    }
    while rest.len() > 0
        invariant
            0 <= i <= all.len(),
            rest@ == all.skip(i).reverse(),
            keys@ == registered(all.take(i)),
        decreases rest@.len(),
    {
        match rest.pop() {
            Some((id, pair)) => {
                proof {
                    assert(all.take(i + 1).drop_last() =~= all.take(i));
                    assert(all.take(i + 1).last() == (id, pair));
                    assert(rest@ =~= all.skip(i + 1).reverse());
                    i = i + 1;
                }
                keys.insert(id, pair);
            },
            None => {},
        }
    }
    proof {
        assert(all.take(i) =~= all);
    }
    keys
}

/// The items in reverse order.
fn reversed<T>(items: Vec<T>) -> (r: Vec<T>)
    ensures
        r@ == items@.reverse(),
{
    let ghost all = items@;
    let mut items = items;
    let mut out: Vec<T> = Vec::new();
    while items.len() > 0
        invariant
            items@ == all.take(items@.len() as int),
            items@.len() + out@.len() == all.len(),
            out@ == all.skip(items@.len() as int).reverse(),
        decreases items@.len(),
    {
        match items.pop() {
            Some(x) => {
                out.push(x);
                proof {
                    assert(items@ =~= all.take(items@.len() as int));
                    assert(out@ =~= all.skip(items@.len() as int).reverse());
                }
            },
            None => {},
        }
    }
    proof {
        assert(all.skip(0) =~= all);
    }
    out
}

/// The lowest of some validators, which names the subnet that a node listens to.
pub fn first_validator_id(ids: &Vec<u64>) -> (r: Option<u64>)
    ensures
        match r {
            Some(id) => ids@.contains(id) && forall|i: int|
                0 <= i < ids@.len() ==> id <= #[trigger] ids@[i],
            None => ids@.len() == 0,
        },
{
    if ids.len() == 0 {
        return None;
    }
    let mut lowest: u64 = ids[0];
    let mut i: usize = 1;
    while i < ids.len()
        invariant
            1 <= i <= ids@.len(),
            ids@.contains(lowest),
            forall|k: int| 0 <= k < i ==> lowest <= #[trigger] ids@[k],
        decreases ids@.len() - i,
    {
        if ids[i] < lowest {
            lowest = ids[i];
        }
        i = i + 1;
    }
    Some(lowest)
}

} // verus!
