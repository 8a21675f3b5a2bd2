//! When validators have duties.

use crate::blockchain::key_manager::SecretKey;
use crate::blockchain::server::{
    genesis_time, head_state, is_plan, our_proposer, BlockChainServer, TickPlan,
};
use crate::blockchain::ticks::{
    interval_at, is_proposer, moment_is_in_its_interval, ms_to_next_interval, proposes,
    since_genesis, slot_and_interval, slot_at,
};
use crate::encoding::{lemma_fixed_valid, read_gives_back_written, Ssz};
use crate::primitives::H256;
use crate::state::{ChainConfig, State, StateView};
use crate::storage::backend::StorageBackend;
use crate::storage::keys::{metadata_key, MetadataKey};
use crate::storage::tables::{Db, Table};
use vstd::prelude::*;

verus! {

/// Milliseconds since genesis: none before it, and as many as have passed after it.
pub proof fn time_counts_from_genesis(genesis: u64, t: u64)
    ensures
        t <= genesis * 1000 ==> since_genesis(genesis, t) == 0,
        t >= genesis * 1000 ==> since_genesis(genesis, t) + genesis * 1000 == t,
{
}

/// A slot lasts four seconds and an interval 800 ms: the moment `d` ms after the start of
/// interval `i` of slot `s` is in that slot and that interval, and every moment is before
/// genesis or in one of them.
pub proof fn slots_last_four_seconds(genesis: u64, t: u64, s: int, i: int, d: int)
    requires
        0 <= s,
        0 <= i < 5,
        0 <= d < 800,
    ensures
        t == genesis * 1000 + s * 4000 + i * 800 + d ==> slot_at(genesis, t) == s && interval_at(
            genesis,
            t,
        ) == i,
        t < genesis * 1000 ==> slot_at(genesis, t) == 0 && interval_at(genesis, t) == 0,
{
    if t == genesis * 1000 + s * 4000 + i * 800 + d {
        let x = since_genesis(genesis, t);
        assert(x == s * 4000 + (i * 800 + d));
        assert(0 <= i * 800 + d < 4000);
        assert(x / 4000 == s && x % 4000 == i * 800 + d) by (nonlinear_arith)
            requires
                x == s * 4000 + (i * 800 + d),
                0 <= i * 800 + d < 4000,
        ;
        assert((i * 800 + d) / 800 == i) by (nonlinear_arith)
            requires
                0 <= d < 800,
        ;
    }
}

/// All validators attest in the second interval of a slot and in no other, so once in each
/// slot, and never before genesis.
pub proof fn validators_attest_once_per_slot(
    plan: TickPlan,
    genesis: u64,
    t: u64,
    num_validators: u64,
    ours: Set<u64>,
)
    requires
        is_plan(plan, genesis, t, num_validators, ours),
    ensures
        plan.attest <==> t >= genesis * 1000 && 800 <= (t - genesis * 1000) % 4000 < 1600,
        t < genesis * 1000 ==> !plan.attest,
{
    if t >= genesis * 1000 {
        let r = (t - genesis * 1000) % 4000;
        assert(0 <= r < 4000);
        assert(r / 800 == 1 <==> 800 <= r < 1600);
    }
}

/// A validator of the node proposes in the first interval of a slot, never in the first slot
/// or before genesis, and only if the slot is its own: the slots go round the validators.
pub proof fn the_proposer_has_its_turn(
    plan: TickPlan,
    genesis: u64,
    t: u64,
    num_validators: u64,
    ours: Set<u64>,
    v: u64,
)
    requires
        is_plan(plan, genesis, t, num_validators, ours),
        num_validators > 0,
    ensures
        plan.proposer == Some(v) <==> ours.contains(v) && t >= genesis * 1000 + 4000 && (t - genesis
            * 1000) % 4000 < 800 && v == ((t - genesis * 1000) / 4000) % (num_validators as int),
{
    if t >= genesis * 1000 {
        let x = t - genesis * 1000;
        let r = x % 4000;
        assert(0 <= r < 4000);
        assert(r / 800 == 0 <==> r < 800);
        assert(x / 4000 > 0 <==> x >= 4000);
    }
}

/// A plan names the slot and the interval of its moment.
pub proof fn a_plan_names_its_moment(
    plan: TickPlan,
    genesis: u64,
    t: u64,
    num_validators: u64,
    ours: Set<u64>,
)
    requires
        is_plan(plan, genesis, t, num_validators, ours),
        t >= genesis * 1000,
    ensures
        plan.slot * 4000 + plan.interval * 800 <= t - genesis * 1000 < plan.slot * 4000
            + plan.interval * 800 + 800,
        plan.interval < 5,
{
    let x = t - genesis * 1000;
    assert(x == 4000 * (x / 4000) + x % 4000);
    let r = x % 4000;
    assert(r == 800 * (r / 800) + r % 800);
}

/// Every validator has its turn once in as many slots as there are validators.
pub proof fn turns_go_round(v: u64, slot: u64, next: u64, num_validators: u64)
    requires
        0 < num_validators,
        v < num_validators,
        proposes(v, slot, num_validators),
        slot < next,
    ensures
        next == slot + num_validators ==> proposes(v, next, num_validators),
        next < slot + num_validators ==> !proposes(v, next, num_validators),
{
    let n = num_validators as int;
    let (a, b) = (slot as int, next as int);
    if b == a + n {
        assert((a + n) % n == a % n) by (nonlinear_arith)
            requires
                n > 0,
        ;
    } else if b < a + n && b % n == a % n {
        let (p, q) = (a / n, b / n);
        assert(a == n * p + a % n && b == n * q + b % n) by (nonlinear_arith)
            requires
                n > 0,
                p == a / n,
                q == b / n,
        ;
        assert(false) by (nonlinear_arith)
            requires
                0 < b - a < n,
                b - a == n * q - n * p,
                n > 0,
        ;
    }
}

/// The proposer among our validators is the one whose turn it is.
pub proof fn our_proposer_is_ours(slot: u64, num_validators: u64, ours: Set<u64>, v: u64)
    requires
        num_validators > 0,
    ensures
        our_proposer(slot, num_validators, ours) == Some(v) <==> ours.contains(v) && proposes(
            v,
            slot,
            num_validators,
        ),
        our_proposer(slot, num_validators, ours) is None <==> forall|w: u64|
            ours.contains(w) ==> !#[trigger] proposes(w, slot, num_validators),
{
    let p = (slot % num_validators) as u64;
    if our_proposer(slot, num_validators, ours) is Some {
        assert(proposes(p, slot, num_validators));
    }
}

/// A tick tells the duties of its moment: what is stored of the chain decides when slots begin
/// and how many validators take turns. Without validators there are none.
pub proof fn ticks_tell_the_duties<B: StorageBackend, K: SecretKey>(
    server: BlockChainServer<B, K>,
    t: u64,
    r: Option<TickPlan>,
    config: ChainConfig,
    head: H256,
    state: StateView,
    v: u64,
)
    requires
        call_ensures(BlockChainServer::<B, K>::on_tick, (&server, t), r),
        server.store.db()[Table::Metadata].dom().contains(metadata_key(MetadataKey::Config)),
        server.store.db()[Table::Metadata][metadata_key(MetadataKey::Config)]
            == ChainConfig::enc(config),
        server.store.db()[Table::Metadata].dom().contains(metadata_key(MetadataKey::Head)),
        server.store.db()[Table::Metadata][metadata_key(MetadataKey::Head)] == head@,
        server.store.db()[Table::States].dom().contains(head@),
        server.store.db()[Table::States][head@] == State::enc(state),
        State::valid(state),
        state.validators.len() <= u64::MAX,
    ensures
        r is None <==> state.validators.len() == 0,
        r matches Some(plan) ==> {
            let genesis_ms = config.genesis_time * 1000;
            &&& plan.attest <==> t >= genesis_ms && 800 <= (t - genesis_ms) % 4000 < 1600
            &&& plan.proposer == Some(v) <==> server.key_manager.pairs().dom().contains(v) && t
                >= genesis_ms + 4000 && (t - genesis_ms) % 4000 < 800 && v == ((t - genesis_ms)
                / 4000) % (state.validators.len() as int)
            &&& t >= genesis_ms ==> plan.slot == (t - genesis_ms) / 4000 && plan.interval == ((t
                - genesis_ms) % 4000) / 800
            &&& t < genesis_ms ==> plan.slot == 0 && plan.interval == 0
        },
{
    lemma_read_chain(server.store.db(), config, head, state);
    if let Some(plan) = r {
        let n = state.validators.len() as u64;
        let ours = server.key_manager.pairs().dom();
        validators_attest_once_per_slot(plan, config.genesis_time, t, n, ours);
        the_proposer_has_its_turn(plan, config.genesis_time, t, n, ours, v);
    }
}

proof fn lemma_read_chain(db: Db, config: ChainConfig, head: H256, state: StateView)
    requires
        db[Table::Metadata].dom().contains(metadata_key(MetadataKey::Config)),
        db[Table::Metadata][metadata_key(MetadataKey::Config)] == ChainConfig::enc(config),
        db[Table::Metadata].dom().contains(metadata_key(MetadataKey::Head)),
        db[Table::Metadata][metadata_key(MetadataKey::Head)] == head@,
        db[Table::States][head@] == State::enc(state),
        State::valid(state),
    ensures
        genesis_time(db) == config.genesis_time,
        head_state(db) == state,
{
    lemma_fixed_valid::<ChainConfig>(config);
    read_gives_back_written::<ChainConfig>(config);
    read_gives_back_written::<H256>(head@);
    read_gives_back_written::<State>(state);
    assert(H256::enc(head@) == head@);
}

/// The proposer of a slot is the validator whose turn it is, if its keys are ours.
pub proof fn our_proposer_is_found<B: StorageBackend, K: SecretKey>(
    server: BlockChainServer<B, K>,
    slot: u64,
    r: Option<u64>,
    config: ChainConfig,
    head: H256,
    state: StateView,
    v: u64,
)
    requires
        call_ensures(BlockChainServer::<B, K>::get_our_proposer, (&server, slot), r),
        server.store.db()[Table::Metadata].dom().contains(metadata_key(MetadataKey::Config)),
        server.store.db()[Table::Metadata][metadata_key(MetadataKey::Config)]
            == ChainConfig::enc(config),
        server.store.db()[Table::Metadata].dom().contains(metadata_key(MetadataKey::Head)),
        server.store.db()[Table::Metadata][metadata_key(MetadataKey::Head)] == head@,
        server.store.db()[Table::States].dom().contains(head@),
        server.store.db()[Table::States][head@] == State::enc(state),
        State::valid(state),
        0 < state.validators.len() <= u64::MAX,
    ensures
        r == Some(v) <==> server.key_manager.pairs().dom().contains(v) && v == (slot as int)
            % (state.validators.len() as int),
{
    lemma_read_chain(server.store.db(), config, head, state);
    our_proposer_is_ours(
        slot,
        state.validators.len() as u64,
        server.key_manager.pairs().dom(),
        v,
    );
}

/// A moment belongs to the slot and the interval in which it falls, and waiting takes one to
/// the next multiple of an interval.
pub proof fn moments_are_placed(genesis: u64, t: u64, r: (u64, u64), wait: u64)
    ensures
        call_ensures(slot_and_interval, (genesis, t), r) ==> {
            &&& t >= genesis * 1000 ==> r.0 * 4000 + r.1 * 800 <= t - genesis * 1000 < r.0 * 4000
                + r.1 * 800 + 800 && r.1 < 5
            &&& t < genesis * 1000 ==> r == (0u64, 0u64)
        },
        call_ensures(ms_to_next_interval, (t,), wait) ==> 0 < wait <= 800 && (t + wait) % 800 == 0,
{
    if t >= genesis * 1000 {
        moment_is_in_its_interval(genesis, t);
    }
}

/// Validators propose in turn.
pub proof fn validators_propose_in_turn(v: u64, slot: u64, num_validators: u64, r: bool)
    requires
        num_validators > 0,
        call_ensures(is_proposer, (v, slot, num_validators), r),
    ensures
        r <==> v == slot % num_validators,
{
}

} // verus!
