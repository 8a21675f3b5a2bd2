//! How blocks whose parents are missing find their way into the chain.

use crate::block::{Block, BlockHeader, SignedBlock, SignedBlockView};
use crate::blockchain::key_manager::{KeyManager, SecretKey, ValidatorKeyPair};
use crate::blockchain::pending::{
    chase, chasing_all_links_is_enough, climb, climbing_all_headers_is_enough, noted, waiting,
    with_root, PendingBlocks, PendingView,
};
use crate::blockchain::server::{
    block_views, collected, lemma_climb_keeps, lemma_stored_blocks_has, pended, root_of, sequenced,
    stored_blocks, BlockAction, BlockChainServer,
};
use crate::encoding::{lemma_fixed_valid, read_gives_back_written, Ssz};
use crate::hash_root::TreeHash;
use crate::primitives::{h256, lemma_h256_from_view, lemma_h256_of_view, H256};
use crate::storage::backend::StorageBackend;
use crate::storage::model::{header_at, signed_block_at, with_signed_block};
use crate::storage::store::Store;
use crate::storage::tables::{Db, Table};
use std::collections::{HashMap, VecDeque};
use vstd::prelude::*;

verus! {

/// Whether a block waits for a parent.
pub open spec fn waits_for(p: PendingView, child: H256, parent: Seq<u8>) -> bool {
    p.children.dom().contains(parent) && p.children[parent].contains(child)
}

/// Whether noted ancestors lead from one root to another: each is the one noted for the
/// root before it, and for the last none is noted.
pub open spec fn noted_way(notes: Map<Seq<u8>, Seq<u8>>, roots: Seq<Seq<u8>>) -> bool {
    &&& roots.len() > 0
    &&& forall|k: int|
        0 <= k < roots.len() - 1 ==> notes.dom().contains(#[trigger] roots[k]) && notes[roots[k]]
            == roots[k + 1]
    &&& !notes.dom().contains(roots.last())
}

/// Whether stored headers lead upwards from one block to another: each block is the parent of
/// the one before it, and has no state.
pub open spec fn stored_way(db: Db, way: Seq<H256>, headers: Seq<BlockHeader>) -> bool {
    &&& way.len() > 0
    &&& headers.len() == way.len() - 1
    &&& forall|k: int|
        0 <= k < headers.len() ==> db[Table::BlockHeaders].dom().contains(
            (#[trigger] way[k])@,
        ) && db[Table::BlockHeaders][way[k]@] == BlockHeader::enc(headers[k])
            && headers[k].parent_root == way[k + 1] && !db[Table::States].dom().contains(
            way[k + 1]@,
        )
}

proof fn lemma_noted_end(
    notes: Map<Seq<u8>, Seq<u8>>,
    roots: Seq<Seq<u8>>,
    k: int,
    fuel: nat,
)
    requires
        noted_way(notes, roots),
        0 <= k < roots.len(),
        chase(notes, roots[k], fuel) is Some,
    ensures
        chase(notes, roots[k], fuel) == Some(roots.last()),
    decreases roots.len() - k,
{
    if k < roots.len() - 1 {
        lemma_noted_end(notes, roots, k + 1, (fuel - 1) as nat);
    }
}

/// A header in the table is the one that is read.
proof fn lemma_header_read(db: Db, root: Seq<u8>, header: BlockHeader)
    requires
        db[Table::BlockHeaders].dom().contains(root),
        db[Table::BlockHeaders][root] == BlockHeader::enc(header),
    ensures
        header_at(db, root) == Some(header),
{
    lemma_fixed_valid::<BlockHeader>(header);
    read_gives_back_written::<BlockHeader>(header);
}

/// Climbing does not change what is noted of a block for its parent.
proof fn lemma_climb_notes(db: Db, p: PendingView, root: H256, fuel: nat, x: H256, header: BlockHeader)
    requires
        header_at(db, x@) == Some(header),
        p.parents.dom().contains(x@),
        p.parents[x@] == header.parent_root@,
    ensures
        climb(db, p, root, fuel).0.parents.dom().contains(x@),
        climb(db, p, root, fuel).0.parents[x@] == header.parent_root@,
    decreases fuel,
{
    match header_at(db, root@) {
        None => {},
        Some(h) => if !db[Table::States].dom().contains(h.parent_root@) && fuel > 0 {
            lemma_climb_notes(
                db,
                noted(p, root, h.parent_root),
                h.parent_root,
                (fuel - 1) as nat,
                x,
                header,
            );
        },
    }
}

proof fn lemma_way_up(
    db: Db,
    p: PendingView,
    way: Seq<H256>,
    headers: Seq<BlockHeader>,
    k: int,
    fuel: nat,
)
    requires
        stored_way(db, way, headers),
        0 <= k < way.len(),
        !(climb(db, p, way[k], fuel).1 is Endless),
    ensures
        exists|q: PendingView, f: nat|
            climb(db, p, way[k], fuel) == #[trigger] climb(db, q, way.last(), f),
        forall|j: int|
            k <= j < headers.len() ==> waits_for(
                climb(db, p, way[k], fuel).0,
                #[trigger] way[j],
                way[j + 1]@,
            ),
        forall|j: int|
            k <= j < headers.len() ==> climb(db, p, way[k], fuel).0.parents.dom().contains(
                (#[trigger] way[j])@,
            ) && climb(db, p, way[k], fuel).0.parents[way[j]@] == way[j + 1]@,
    decreases way.len() - k,
{
    if k < headers.len() {
        let header = headers[k];
        lemma_header_read(db, way[k]@, header);
        let next = noted(p, way[k], way[k + 1]);
        let f = (fuel - 1) as nat;
        assert(climb(db, p, way[k], fuel) == climb(db, next, way[k + 1], f));
        lemma_way_up(db, next, way, headers, k + 1, f);
        let (q, g) = choose|q: PendingView, g: nat|
            climb(db, next, way[k + 1], f) == #[trigger] climb(db, q, way.last(), g);
        assert(climb(db, p, way[k], fuel) == climb(db, q, way.last(), g));
        let had = waiting(p.children, way[k + 1]@);
        let now = waiting(next.children, way[k + 1]@);
        assert(now == with_root(had, way[k]));
        assert(now.contains(way[k])) by {
            if !had.contains(way[k]) {
                assert(now[had.len() as int] == way[k]);
            }
        }
        lemma_climb_keeps(db, next, way[k + 1], f, way[k + 1]@, way[k]);
        lemma_climb_notes(db, next, way[k + 1], f, way[k], header);
        let after = climb(db, p, way[k], fuel).0;
        assert(waits_for(after, way[k], way[k + 1]@));
        assert forall|j: int| k <= j < headers.len() implies waits_for(
            after,
            #[trigger] way[j],
            way[j + 1]@,
        ) by {
            if j > k {
                assert(waits_for(climb(db, next, way[k + 1], f).0, way[j], way[j + 1]@));
            }
        }
        assert forall|j: int| k <= j < headers.len() implies after.parents.dom().contains(
            (#[trigger] way[j])@,
        ) && after.parents[way[j]@] == way[j + 1]@ by {
            if j > k {
                assert(climb(db, next, way[k + 1], f).0.parents.dom().contains(way[j]@));
            }
        }
    } else {
        assert(climb(db, p, way[k], fuel) == climb(db, p, way.last(), fuel));
    }
}

/// A block whose parent has a state is to be imported, and nothing else is done. No other
/// block is.
pub proof fn blocks_with_a_parent_state_are_imported(
    block: SignedBlockView,
    root: H256,
    db: Db,
    p: PendingView,
    queue: Seq<SignedBlockView>,
    new_db: Db,
    new_p: PendingView,
    new_queue: Seq<SignedBlockView>,
    action: BlockAction,
)
    ensures
        sequenced(block, db, p, queue, new_db, new_p, new_queue, action) ==> {
            &&& action is Import <==> db[Table::States].dom().contains(block.message.parent_root)
            &&& action matches BlockAction::Import { root: r, block: b } ==> b@ == block && new_db
                == db && new_p == p && new_queue == queue && (root@ == Block::root(block.message)
                ==> r == root)
        },
{
    lemma_h256_of_view(root);
}

/// Whether a way up ends here: at a block that is not stored, or at one whose parent has a
/// state.
pub open spec fn finished_way(db: Db, way: Seq<H256>, top: BlockHeader) -> bool {
    !db[Table::BlockHeaders].dom().contains(way.last()@) || (
    db[Table::BlockHeaders][way.last()@] == BlockHeader::enc(top)
        && db[Table::States].dom().contains(top.parent_root@))
}

/// Whether a way goes from one block to another in its next step.
pub open spec fn steps(way: Seq<H256>, k: int, child: H256, parent: Seq<u8>) -> bool {
    0 <= k < way.len() - 1 && way[k] == child && way[k + 1]@ == parent
}

proof fn lemma_noted_reach(notes: Map<Seq<u8>, Seq<u8>>, roots: Seq<Seq<u8>>, k: int)
    requires
        noted_way(notes, roots),
        0 <= k < roots.len(),
    ensures
        chase(notes, roots[k], (roots.len() - 1 - k) as nat) == Some(roots.last()),
    decreases roots.len() - k,
{
    if k < roots.len() - 1 {
        lemma_noted_reach(notes, roots, k + 1);
    }
}

/// Climbing a finished way comes to its end and touches nothing beside it.
proof fn lemma_finished_way(
    db: Db,
    p: PendingView,
    way: Seq<H256>,
    headers: Seq<BlockHeader>,
    top: BlockHeader,
    k: int,
    fuel: nat,
    x: Seq<u8>,
    child: H256,
    parent: Seq<u8>,
)
    requires
        stored_way(db, way, headers),
        finished_way(db, way, top),
        0 <= k < way.len(),
    ensures
        fuel >= headers.len() - k ==> !(climb(db, p, way[k], fuel).1 is Endless),
        (forall|j: int| k <= j < headers.len() ==> (#[trigger] way[j])@ != x) ==> (climb(
            db,
            p,
            way[k],
            fuel,
        ).0.parents.dom().contains(x) <==> p.parents.dom().contains(x)) && (
        p.parents.dom().contains(x) ==> climb(db, p, way[k], fuel).0.parents[x] == p.parents[x]),
        waits_for(climb(db, p, way[k], fuel).0, child, parent) ==> waits_for(p, child, parent)
            || exists|j: int| steps(way, j, child, parent),
    decreases way.len() - k,
{
    if k < headers.len() {
        lemma_header_read(db, way[k]@, headers[k]);
        if fuel > 0 {
            let next = noted(p, way[k], way[k + 1]);
            let f = (fuel - 1) as nat;
            lemma_finished_way(db, next, way, headers, top, k + 1, f, x, child, parent);
            if waits_for(next, child, parent) && !waits_for(p, child, parent) {
                let had = waiting(p.children, way[k + 1]@);
                assert(parent == way[k + 1]@);
                assert(next.children[parent] == with_root(had, way[k]));
                assert(with_root(had, way[k]).contains(child));
                assert(!had.contains(child));
                let i = choose|i: int|
                    0 <= i < with_root(had, way[k]).len() && with_root(had, way[k])[i] == child;
                if i < had.len() {
                    assert(had[i] == child);
                }
                assert(steps(way, k, child, parent));
            }
            if forall|j: int| k <= j < headers.len() ==> (#[trigger] way[j])@ != x {
                assert(way[k]@ != x);
            }
        }
    } else if db[Table::BlockHeaders].dom().contains(way.last()@) {
        lemma_header_read(db, way.last()@, top);
    }
}

/// A block that has to wait is stored and waits for its parent, and so does every stored
/// block without a parent state that the way up from its noted ancestor passes: each waits
/// for its own parent, and that parent is noted for it. For the block itself the place where
/// the noted ancestors ended is noted. Nothing else begins to wait, and no other note
/// changes. Where the way ends at a block that is not stored, that block is to be fetched.
/// Where it ends at a stored block whose parent has a state, that block is put into the queue
/// if all of it can be read.
pub proof fn waiting_blocks_are_registered(
    block: SignedBlockView,
    root: H256,
    parent: H256,
    db: Db,
    p: PendingView,
    queue: Seq<SignedBlockView>,
    new_db: Db,
    new_p: PendingView,
    new_queue: Seq<SignedBlockView>,
    action: BlockAction,
    notes: Seq<Seq<u8>>,
    way: Seq<H256>,
    headers: Seq<BlockHeader>,
    top: BlockHeader,
    child: H256,
    other: Seq<u8>,
)
    requires
        sequenced(block, db, p, queue, new_db, new_p, new_queue, action),
        p.parents.dom().finite(),
        new_db[Table::BlockHeaders].dom().finite(),
        !db[Table::States].dom().contains(parent@),
        parent@ == block.message.parent_root,
        noted_way(p.parents, notes),
        notes[0] == parent@,
        stored_way(new_db, way, headers),
        finished_way(new_db, way, top),
        way[0]@ == notes.last(),
    ensures
        root@ == Block::root(block.message) ==> {
            &&& new_db == with_signed_block(db, root@, block)
            &&& waits_for(new_p, root, parent@)
            &&& new_p.parents.dom().contains(root@)
            &&& !way.drop_last().contains(root) ==> new_p.parents[root@] == notes.last()
            &&& waits_for(new_p, child, other) <==> waits_for(p, child, other) || (child == root
                && other == parent@) || exists|k: int| steps(way, k, child, other)
            &&& child != root && !way.drop_last().contains(child) ==> (
            new_p.parents.dom().contains(child@) <==> p.parents.dom().contains(child@)) && (
            p.parents.dom().contains(child@) ==> new_p.parents[child@] == p.parents[child@])
        },
        forall|k: int|
            0 <= k < headers.len() ==> waits_for(new_p, #[trigger] way[k], way[k + 1]@),
        forall|k: int|
            0 <= k < headers.len() ==> new_p.parents.dom().contains((#[trigger] way[k])@)
                && new_p.parents[way[k]@] == way[k + 1]@,
        !new_db[Table::BlockHeaders].dom().contains(way.last()@) ==> new_queue == queue && (
        action matches BlockAction::Fetch { root: r } && r == way.last()),
        new_db[Table::BlockHeaders].dom().contains(way.last()@) ==> match signed_block_at(
            new_db,
            way.last()@,
        ) {
            Some(ready) => action is Queued && new_queue == queue.push(ready),
            None => new_queue == queue && (action matches BlockAction::Incomplete { root: r } && r
                == way.last()),
        },
{
    lemma_h256_of_view(root);
    let reach = (notes.len() - 1) as nat;
    lemma_noted_reach(p.parents, notes, 0);
    chasing_all_links_is_enough(p.parents, parent@, reach);
    let missing = notes.last();
    let stored = with_signed_block(db, root_of(block)@, block);
    let start = pended(p, block, missing);
    let all = stored[Table::BlockHeaders].dom().len();
    lemma_h256_of_view(way[0]);
    assert(h256(missing) == way[0]);
    let end = climb(stored, start, way[0], all);
    assert(new_db == stored);
    assert(new_p == end.0);
    lemma_finished_way(
        stored,
        start,
        way,
        headers,
        top,
        0,
        headers.len(),
        root@,
        child,
        other,
    );
    climbing_all_headers_is_enough(stored, start, way[0], headers.len());
    lemma_finished_way(stored, start, way, headers, top, 0, all, root@, child, other);
    lemma_finished_way(stored, start, way, headers, top, 0, all, child@, child, other);
    lemma_way_up(stored, start, way, headers, 0, all);
    let (q, f) = choose|q: PendingView, f: nat| end == #[trigger] climb(stored, q, way.last(), f);
    if root@ == Block::root(block.message) {
        let had = waiting(p.children, parent@);
        let now = waiting(start.children, parent@);
        assert(now == with_root(had, root));
        assert(now.contains(root)) by {
            if !had.contains(root) {
                assert(now[had.len() as int] == root);
            }
        }
        lemma_climb_keeps(stored, start, way[0], all, parent@, root);
        lemma_climb_keeps_noted(stored, start, way[0], all, root@);
        lemma_off_the_way(way, headers, root);
        lemma_off_the_way(way, headers, child);
        lemma_h256_of_view(child);
        if waits_for(p, child, other) {
            let old_list = waiting(p.children, other);
            let new_list = waiting(start.children, other);
            let i = choose|i: int| 0 <= i < old_list.len() && old_list[i] == child;
            assert(new_list[i] == child);
            lemma_climb_keeps(stored, start, way[0], all, other, child);
        }
        if waits_for(start, child, other) && !waits_for(p, child, other) {
            assert(other == parent@);
            let i = choose|i: int| 0 <= i < now.len() && now[i] == child;
            if i < had.len() {
                assert(had[i] == child);
            }
        }
        if exists|k: int| steps(way, k, child, other) {
            let k = choose|k: int| steps(way, k, child, other);
            assert(waits_for(new_p, way[k], way[k + 1]@));
        }
    }
    if stored[Table::BlockHeaders].dom().contains(way.last()@) {
        lemma_header_read(stored, way.last()@, top);
    }
}

proof fn lemma_off_the_way(way: Seq<H256>, headers: Seq<BlockHeader>, x: H256)
    requires
        headers.len() == way.len() - 1,
    ensures
        !way.drop_last().contains(x) ==> forall|j: int|
            0 <= j < headers.len() ==> (#[trigger] way[j])@ != x@,
{
    if !way.drop_last().contains(x) {
        assert forall|j: int| 0 <= j < headers.len() implies (#[trigger] way[j])@ != x@ by {
            assert(way.drop_last()[j] == way[j]);
            lemma_h256_of_view(way[j]);
            lemma_h256_of_view(x);
        }
    }
}

proof fn lemma_climb_keeps_noted(db: Db, p: PendingView, root: H256, fuel: nat, x: Seq<u8>)
    requires
        p.parents.dom().contains(x),
    ensures
        climb(db, p, root, fuel).0.parents.dom().contains(x),
    decreases fuel,
{
    match header_at(db, root@) {
        None => {},
        Some(h) => if !db[Table::States].dom().contains(h.parent_root@) && fuel > 0 {
            lemma_climb_keeps_noted(
                db,
                noted(p, root, h.parent_root),
                h.parent_root,
                (fuel - 1) as nat,
                x,
            );
        },
    }
}

/// Sequencing a block never forgets a waiting block.
pub proof fn waiting_blocks_go_on_waiting(
    block: SignedBlockView,
    db: Db,
    p: PendingView,
    queue: Seq<SignedBlockView>,
    new_db: Db,
    new_p: PendingView,
    new_queue: Seq<SignedBlockView>,
    action: BlockAction,
    child: H256,
    parent: Seq<u8>,
)
    requires
        sequenced(block, db, p, queue, new_db, new_p, new_queue, action),
        waits_for(p, child, parent),
    ensures
        waits_for(new_p, child, parent),
{
    let own = block.message.parent_root;
    if !db[Table::States].dom().contains(own) {
        match chase(p.parents, own, p.parents.dom().len()) {
            None => {},
            Some(missing) => {
                let stored = with_signed_block(db, root_of(block)@, block);
                let start = pended(p, block, missing);
                let had = waiting(p.children, parent);
                let k = choose|k: int| 0 <= k < had.len() && had[k] == child;
                assert(waiting(start.children, parent)[k] == child);
                lemma_climb_keeps(
                    stored,
                    start,
                    h256(missing),
                    stored[Table::BlockHeaders].dom().len(),
                    parent,
                    child,
                );
            },
        }
    }
}

/// When a block was imported, every block that waited for it and can be read follows in the
/// queue, and no other. What waits for other blocks goes on waiting.
pub proof fn children_follow_their_parent(
    parent: H256,
    db: Db,
    p: PendingView,
    queue: Seq<SignedBlockView>,
    new_p: PendingView,
    new_queue: Seq<SignedBlockView>,
    child: H256,
    other: Seq<u8>,
)
    requires
        collected(parent, db, p, queue, new_p, new_queue),
        other != parent@,
    ensures
        new_queue.len() >= queue.len() && new_queue.take(queue.len() as int) == queue,
        waits_for(p, child, parent@) ==> match signed_block_at(db, child@) {
            Some(block) => new_queue.skip(queue.len() as int).contains(block),
            None => true,
        },
        forall|i: int|
            queue.len() <= i < new_queue.len() ==> exists|c: H256| #[trigger]
                waits_for(p, c, parent@) && signed_block_at(db, c@) == Some(#[trigger] new_queue[i]),
        !waits_for(new_p, child, parent@),
        waits_for(new_p, child, other) <==> waits_for(p, child, other),
        waits_for(p, child, parent@) ==> !new_p.parents.dom().contains(child@),
        !waits_for(p, child, parent@) ==> (new_p.parents.dom().contains(child@)
            <==> p.parents.dom().contains(child@)) && (p.parents.dom().contains(child@)
            ==> new_p.parents[child@] == p.parents[child@]),
{
    let children = waiting(p.children, parent@);
    let extra = stored_blocks(db, children);
    assert(new_queue == queue + extra);
    assert(new_queue.take(queue.len() as int) =~= queue);
    assert(new_queue.skip(queue.len() as int) =~= extra);
    if waits_for(p, child, parent@) && signed_block_at(db, child@) is Some {
        lemma_stored_blocks_has(db, children, child, signed_block_at(db, child@)->0);
    }
    assert forall|i: int| queue.len() <= i < new_queue.len() implies exists|c: H256| #[trigger]
        waits_for(p, c, parent@) && signed_block_at(db, c@) == Some(#[trigger] new_queue[i]) by {
        lemma_stored_blocks_from(db, children, i - queue.len());
        let c = choose|c: H256|
            #[trigger] children.contains(c) && signed_block_at(db, c@) == Some(extra[i - queue.len()]);
        assert(waits_for(p, c, parent@));
        assert(new_queue[i] == extra[i - queue.len()]);
    }
    if waits_for(p, child, parent@) {
        let k = choose|k: int| 0 <= k < children.len() && children[k] == child;
        assert(children[k]@ == child@);
    } else {
        assert(forall|i: int| 0 <= i < children.len() ==> (#[trigger] children[i])@ != child@) by {
            assert forall|i: int| 0 <= i < children.len() implies (#[trigger] children[i])@
                != child@ by {
                if children[i]@ == child@ {
                    lemma_h256_from_view(children[i], child);
                    assert(p.children.dom().contains(parent@));
                }
            }
        }
    }
}

proof fn lemma_stored_blocks_from(db: Db, roots: Seq<H256>, i: int)
    requires
        0 <= i < stored_blocks(db, roots).len(),
    ensures
        exists|c: H256| #[trigger]
            roots.contains(c) && signed_block_at(db, c@) == Some(stored_blocks(db, roots)[i]),
    decreases roots.len(),
{
    let rest = roots.drop_last();
    let before = stored_blocks(db, rest);
    if i < before.len() {
        lemma_stored_blocks_from(db, rest, i);
        let c = choose|c: H256| #[trigger]
            rest.contains(c) && signed_block_at(db, c@) == Some(before[i]);
        let k = choose|k: int| 0 <= k < rest.len() && rest[k] == c;
        assert(roots[k] == c);
        assert(roots.contains(c));
    } else {
        assert(roots[roots.len() - 1] == roots.last());
        assert(roots.contains(roots.last()));
    }
}

/// A chain of waiting blocks is imported from its top downwards: where each block of the
/// chain waits for the one above it, importing one after the other brings each next one into
/// the queue, whatever else is sequenced and imported in between as long as it does not take
/// these blocks.
pub proof fn imports_go_down_the_chain(
    chain: Seq<H256>,
    dbs: Seq<Db>,
    before: Seq<PendingView>,
    after: Seq<PendingView>,
    queues: Seq<Seq<SignedBlockView>>,
    new_queues: Seq<Seq<SignedBlockView>>,
    blocks: Seq<SignedBlockView>,
    k: int,
)
    requires
        0 <= k < chain.len() - 1,
        dbs.len() == chain.len(),
        before.len() == chain.len(),
        after.len() == chain.len(),
        queues.len() == chain.len(),
        new_queues.len() == chain.len(),
        blocks.len() == chain.len(),
        forall|i: int, j: int|
            0 <= i < j < chain.len() ==> (#[trigger] chain[i])@ != (#[trigger] chain[j])@,
        // at first each block waits for the one above it
        forall|i: int|
            0 <= i < chain.len() - 1 ==> waits_for(before[0], #[trigger] chain[i + 1], chain[i]@),
        // the blocks are imported in turn
        forall|i: int|
            0 <= i < chain.len() - 1 ==> collected(
                chain[i],
                dbs[i],
                #[trigger] before[i],
                queues[i],
                after[i],
                new_queues[i],
            ),
        // what is done in between does not forget a waiting block of the chain
        forall|i: int, j: int|
            0 <= i < j < chain.len() - 1 ==> (waits_for(
                #[trigger] after[i],
                #[trigger] chain[j + 1],
                chain[j]@,
            ) ==> waits_for(before[i + 1], chain[j + 1], chain[j]@)),
        forall|i: int|
            0 <= i < chain.len() - 1 ==> signed_block_at(dbs[i], (#[trigger] chain[i + 1])@) == Some(
                blocks[i + 1],
            ),
    ensures
        waits_for(before[k], chain[k + 1], chain[k]@),
        new_queues[k].contains(blocks[k + 1]),
{
    lemma_still_waits(chain, dbs, before, after, queues, new_queues, k, k);
    assert(collected(chain[k], dbs[k], before[k], queues[k], after[k], new_queues[k]));
    let children = waiting(before[k].children, chain[k]@);
    let child = chain[k + 1];
    assert(signed_block_at(dbs[k], child@) == Some(blocks[k + 1]));
    lemma_stored_blocks_has(dbs[k], children, child, blocks[k + 1]);
    let extra = stored_blocks(dbs[k], children);
    let m = choose|m: int| 0 <= m < extra.len() && extra[m] == blocks[k + 1];
    assert(new_queues[k][queues[k].len() + m] == blocks[k + 1]);
}

proof fn lemma_still_waits(
    chain: Seq<H256>,
    dbs: Seq<Db>,
    before: Seq<PendingView>,
    after: Seq<PendingView>,
    queues: Seq<Seq<SignedBlockView>>,
    new_queues: Seq<Seq<SignedBlockView>>,
    i: int,
    j: int,
)
    requires
        0 <= i <= j < chain.len() - 1,
        dbs.len() == chain.len(),
        before.len() == chain.len(),
        after.len() == chain.len(),
        queues.len() == chain.len(),
        new_queues.len() == chain.len(),
        forall|i: int, j: int|
            0 <= i < j < chain.len() ==> (#[trigger] chain[i])@ != (#[trigger] chain[j])@,
        forall|i: int|
            0 <= i < chain.len() - 1 ==> waits_for(before[0], #[trigger] chain[i + 1], chain[i]@),
        forall|i: int|
            0 <= i < chain.len() - 1 ==> collected(
                chain[i],
                dbs[i],
                #[trigger] before[i],
                queues[i],
                after[i],
                new_queues[i],
            ),
        forall|i: int, j: int|
            0 <= i < j < chain.len() - 1 ==> (waits_for(
                #[trigger] after[i],
                #[trigger] chain[j + 1],
                chain[j]@,
            ) ==> waits_for(before[i + 1], chain[j + 1], chain[j]@)),
    ensures
        waits_for(before[i], chain[j + 1], chain[j]@),
    decreases i,
{
    if i == 0 {
        assert(waits_for(before[0], chain[j + 1], chain[j]@));
    } else {
        lemma_still_waits(chain, dbs, before, after, queues, new_queues, i - 1, j);
        assert(collected(
            chain[i - 1],
            dbs[i - 1],
            before[i - 1],
            queues[i - 1],
            after[i - 1],
            new_queues[i - 1],
        ));
        assert(chain[i - 1]@ != chain[j]@);
        assert(waits_for(after[i - 1], chain[j + 1], chain[j]@));
    }
}

/// Sequencing a block imports it at once where its parent has a state, with the rest
/// unchanged. Else it stores it and makes it wait for its parent, with every block on the way
/// up, and goes on at the end of that way.
pub proof fn processing_sequences_the_block<B: StorageBackend, K: SecretKey>(
    server: &mut BlockChainServer<B, K>,
    signed: SignedBlock,
    queue: &mut VecDeque<SignedBlock>,
    action: BlockAction,
    root: H256,
    parent: H256,
    notes: Seq<Seq<u8>>,
    way: Seq<H256>,
    headers: Seq<BlockHeader>,
    top: BlockHeader,
    child: H256,
    other: Seq<u8>,
)
    requires
        call_ensures(
            BlockChainServer::<B, K>::process_or_pend_block,
            (server, signed, queue),
            action,
        ),
        parent@ == signed@.message.parent_root,
    ensures
        root@ == Block::root(signed@.message) ==> ({
            let db = old(server).store.db();
            let new_db = final(server).store.db();
            let p = old(server).waiting();
            let new_p = final(server).waiting();
            let before = block_views(old(queue)@);
            let after = block_views(final(queue)@);
            &&& final(server).key_manager == old(server).key_manager
            &&& final(server).aggregates() == old(server).aggregates()
            &&& final(server).store.new_entries() == old(server).store.new_entries()
            &&& final(server).store.known_entries() == old(server).store.known_entries()
            &&& final(server).store.gossip_count() == old(server).store.gossip_count()
            &&& waits_for(p, child, other) ==> waits_for(new_p, child, other)
            &&& db[Table::States].dom().contains(parent@) ==> new_db == db && new_p == p && after
                == before && (action matches BlockAction::Import { root: r, block: b } && r == root
                && b@ == signed@)
            &&& !db[Table::States].dom().contains(parent@) && p.parents.dom().finite()
                && new_db[Table::BlockHeaders].dom().finite() && noted_way(p.parents, notes)
                && notes[0] == parent@ && stored_way(new_db, way, headers) && finished_way(
                new_db,
                way,
                top,
            ) && way[0]@ == notes.last() ==> {
                &&& new_db == with_signed_block(db, root@, signed@)
                &&& waits_for(new_p, root, parent@)
                &&& !way.drop_last().contains(root) ==> new_p.parents[root@] == notes.last()
                &&& waits_for(new_p, child, other) <==> waits_for(p, child, other) || (child
                    == root && other == parent@) || exists|k: int| steps(way, k, child, other)
                &&& forall|k: int|
                    0 <= k < headers.len() ==> new_p.parents.dom().contains((#[trigger] way[k])@)
                        && new_p.parents[way[k]@] == way[k + 1]@
                &&& !new_db[Table::BlockHeaders].dom().contains(way.last()@) ==> after == before
                    && (action matches BlockAction::Fetch { root: r } && r == way.last())
                &&& new_db[Table::BlockHeaders].dom().contains(way.last()@)
                    ==> match signed_block_at(new_db, way.last()@) {
                    Some(ready) => action is Queued && after == before.push(ready),
                    None => after == before && (action matches BlockAction::Incomplete { root: r }
                        && r == way.last()),
                }
            }
        }),
{
    let db = old(server).store.db();
    let new_db = final(server).store.db();
    let p = old(server).waiting();
    let new_p = final(server).waiting();
    let before = block_views(old(queue)@);
    let after = block_views(final(queue)@);
    blocks_with_a_parent_state_are_imported(
        signed@,
        root,
        db,
        p,
        before,
        new_db,
        new_p,
        after,
        action,
    );
    if waits_for(p, child, other) {
        waiting_blocks_go_on_waiting(
            signed@,
            db,
            p,
            before,
            new_db,
            new_p,
            after,
            action,
            child,
            other,
        );
    }
    if !db[Table::States].dom().contains(parent@) && p.parents.dom().finite()
        && new_db[Table::BlockHeaders].dom().finite() && noted_way(p.parents, notes) && notes[0]
        == parent@ && stored_way(new_db, way, headers) && finished_way(new_db, way, top)
        && way[0]@ == notes.last() {
        waiting_blocks_are_registered(
            signed@,
            root,
            parent,
            db,
            p,
            before,
            new_db,
            new_p,
            after,
            action,
            notes,
            way,
            headers,
            top,
            child,
            other,
        );
    }
}

/// The queue is worked off from its front: the first block leaves it and is sequenced as if
/// it had come alone. Nothing is done where the queue is empty.
pub proof fn the_first_block_is_next<B: StorageBackend, K: SecretKey>(
    server: &mut BlockChainServer<B, K>,
    queue: &mut VecDeque<SignedBlock>,
    r: Option<BlockAction>,
    root: H256,
)
    requires
        call_ensures(BlockChainServer::<B, K>::next_action, (server, queue), r),
    ensures
        r is None <==> old(queue)@.len() == 0,
        r is None ==> *final(server) == *old(server) && final(queue)@.len() == 0,
        r matches Some(action) ==> ({
            let first = old(queue)@[0]@;
            let rest = block_views(old(queue)@.drop_first());
            let db = old(server).store.db();
            let new_db = final(server).store.db();
            &&& action is Import <==> db[Table::States].dom().contains(first.message.parent_root)
            &&& action matches BlockAction::Import { root: x, block: b } ==> b@ == first && new_db
                == db && final(server).waiting() == old(server).waiting() && block_views(
                final(queue)@,
            ) == rest && (root@ == Block::root(first.message) ==> x == root)
            &&& !(action is Import) && !(action is Endless) && root@ == Block::root(first.message)
                ==> new_db == with_signed_block(db, root@, first)
            &&& !(action is Queued) ==> block_views(final(queue)@) == rest
            &&& action is Queued ==> block_views(final(queue)@).drop_last() == rest
            &&& sequenced(
                first,
                db,
                old(server).waiting(),
                rest,
                new_db,
                final(server).waiting(),
                block_views(final(queue)@),
                action,
            )
        }),
{
    lemma_h256_of_view(root);
    if r is Some {
        let rest = block_views(old(queue)@.drop_first());
        assert forall|b: SignedBlockView| #[trigger] rest.push(b).drop_last() == rest by {
            assert(rest.push(b).drop_last() =~= rest);
        }
    }
}

/// After an import all blocks that waited for the imported one and can be read join the queue
/// behind the others, and no longer wait. Without one, nothing changes.
pub proof fn an_import_releases_its_children<B: StorageBackend, K: SecretKey>(
    server: &mut BlockChainServer<B, K>,
    parent: H256,
    imported: bool,
    queue: &mut VecDeque<SignedBlock>,
    child: H256,
    other: Seq<u8>,
)
    requires
        call_ensures(
            BlockChainServer::<B, K>::block_imported,
            (server, &parent, imported, queue),
            (),
        ),
        other != parent@,
    ensures
        final(server).store.db() == old(server).store.db(),
        !imported ==> final(queue)@ == old(queue)@ && final(server).waiting()
            == old(server).waiting(),
        imported ==> ({
            let db = old(server).store.db();
            let p = old(server).waiting();
            let new_p = final(server).waiting();
            let before = block_views(old(queue)@);
            let after = block_views(final(queue)@);
            &&& after.len() >= before.len() && after.take(before.len() as int) == before
            &&& waits_for(p, child, parent@) ==> match signed_block_at(db, child@) {
                Some(block) => after.skip(before.len() as int).contains(block),
                None => true,
            }
            &&& forall|i: int|
                before.len() <= i < after.len() ==> exists|c: H256| #[trigger]
                    waits_for(p, c, parent@) && signed_block_at(db, c@) == Some(#[trigger] after[i])
            &&& !waits_for(new_p, child, parent@)
            &&& waits_for(new_p, child, other) <==> waits_for(p, child, other)
            &&& waits_for(p, child, parent@) ==> !new_p.parents.dom().contains(child@)
            &&& !waits_for(p, child, parent@) ==> (new_p.parents.dom().contains(child@)
                <==> p.parents.dom().contains(child@)) && (p.parents.dom().contains(child@)
                ==> new_p.parents[child@] == p.parents[child@])
        }),
{
    if imported {
        children_follow_their_parent(
            parent,
            old(server).store.db(),
            old(server).waiting(),
            block_views(old(queue)@),
            final(server).waiting(),
            block_views(final(queue)@),
            child,
            other,
        );
    }
}

/// The same of the blocks that wait for a root.
pub proof fn waiting_children_are_collected<B: StorageBackend, K: SecretKey>(
    server: &mut BlockChainServer<B, K>,
    parent: H256,
    queue: &mut VecDeque<SignedBlock>,
    child: H256,
    other: Seq<u8>,
)
    requires
        call_ensures(
            BlockChainServer::<B, K>::collect_pending_children,
            (server, &parent, queue),
            (),
        ),
        other != parent@,
    ensures
        final(server).store.db() == old(server).store.db(),
        block_views(final(queue)@).len() >= old(queue)@.len(),
        block_views(final(queue)@).take(old(queue)@.len() as int) == block_views(old(queue)@),
        waits_for(old(server).waiting(), child, parent@) ==> match signed_block_at(
            old(server).store.db(),
            child@,
        ) {
            Some(block) => block_views(final(queue)@).skip(old(queue)@.len() as int).contains(
                block,
            ),
            None => true,
        },
        !waits_for(final(server).waiting(), child, parent@),
        waits_for(final(server).waiting(), child, other) <==> waits_for(
            old(server).waiting(),
            child,
            other,
        ),
{
    children_follow_their_parent(
        parent,
        old(server).store.db(),
        old(server).waiting(),
        block_views(old(queue)@),
        final(server).waiting(),
        block_views(final(queue)@),
        child,
        other,
    );
}

/// What is noted of waiting blocks: a child waits for its parent from then on, a note replaces
/// the earlier one, notes are followed to their end, and children are handed out once.
pub proof fn waiting_blocks_are_noted(
    pending: &mut PendingBlocks,
    parent: H256,
    child: H256,
    ancestor: H256,
    children: Vec<H256>,
    x: H256,
    y: Seq<u8>,
)
    requires
        y != parent@,
    ensures
        call_ensures(PendingBlocks::add_child, (pending, &parent, child), ()) ==> (waits_for(
            final(pending)@,
            x,
            parent@,
        ) <==> x == child || waits_for(old(pending)@, x, parent@)) && (waits_for(
            final(pending)@,
            x,
            y,
        ) <==> waits_for(old(pending)@, x, y)) && final(pending)@.parents == old(pending)@.parents,
        call_ensures(PendingBlocks::set_parent, (pending, &child, ancestor), ()) ==> {
            &&& final(pending)@.parents.dom().contains(child@)
            &&& final(pending)@.parents[child@] == ancestor@
            &&& final(pending)@.children == old(pending)@.children
            &&& x@ != child@ ==> (final(pending)@.parents.dom().contains(x@)
                <==> old(pending)@.parents.dom().contains(x@)) && (
            old(pending)@.parents.dom().contains(x@) ==> final(pending)@.parents[x@]
                == old(pending)@.parents[x@])
        },
        call_ensures(PendingBlocks::take_children, (pending, &parent), children) ==> (
        children@.contains(x) <==> waits_for(old(pending)@, x, parent@)) && !waits_for(
            final(pending)@,
            x,
            parent@,
        ) && (waits_for(final(pending)@, x, y) <==> waits_for(old(pending)@, x, y))
            && children@.no_duplicates(),
{
    if call_ensures(PendingBlocks::add_child, (pending, &parent, child), ()) {
        let had = waiting(old(pending)@.children, parent@);
        let now = waiting(final(pending)@.children, parent@);
        assert(now == with_root(had, child));
        if had.contains(x) {
            let i = choose|i: int| 0 <= i < had.len() && had[i] == x;
            assert(now[i] == x);
        }
        if !had.contains(child) {
            assert(now[had.len() as int] == child);
        }
        if now.contains(x) {
            let i = choose|i: int| 0 <= i < now.len() && now[i] == x;
            if i < had.len() {
                assert(had[i] == x);
            }
        }
    }
}

/// Notes are followed to the root for which none is noted.
pub proof fn notes_are_followed(
    pending: PendingBlocks,
    root: H256,
    r: Option<H256>,
    roots: Seq<Seq<u8>>,
)
    requires
        call_ensures(PendingBlocks::resolve, (&pending, &root), r),
        noted_way(pending@.parents, roots),
        roots[0] == root@,
    ensures
        r matches Some(end) && end@ == roots.last(),
{
    lemma_noted_reach(pending@.parents, roots, 0);
    chasing_all_links_is_enough(pending@.parents, root@, (roots.len() - 1) as nat);
}

/// A server starts with nothing waiting.
pub proof fn servers_start_without_waiting_blocks<B: StorageBackend, K: SecretKey>(
    store: Store<B>,
    key_manager: KeyManager<K>,
    is_aggregator: bool,
    server: BlockChainServer<B, K>,
    keys: HashMap<u64, ValidatorKeyPair<K>>,
    child: H256,
    parent: Seq<u8>,
)
    requires
        call_ensures(
            BlockChainServer::<B, K>::new,
            (store, key_manager, is_aggregator),
            server,
        ),
    ensures
        server.store == store,
        server.is_aggregator == is_aggregator,
        call_ensures(KeyManager::<K>::new, (keys,), key_manager) ==> server.key_manager.pairs()
            == keys@,
        !waits_for(server.waiting(), child, parent),
        !server.waiting().parents.dom().contains(parent),
{
}

} // verus!
