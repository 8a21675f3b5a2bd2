//! Slots and intervals of the clock.

use vstd::prelude::*;

verus! {

/// Milliseconds per interval (800ms ticks).
pub const MILLISECONDS_PER_INTERVAL: u64 = 800;

/// Number of intervals per slot (5 intervals of 800ms = 4 seconds).
pub const INTERVALS_PER_SLOT: u64 = 5;

/// Milliseconds in a slot (derived from interval duration and count).
pub const MILLISECONDS_PER_SLOT: u64 = 4000;

/// A slot is made of its intervals.
pub proof fn slot_is_made_of_intervals()
    ensures
        MILLISECONDS_PER_SLOT == MILLISECONDS_PER_INTERVAL * INTERVALS_PER_SLOT,
{
}

/// Milliseconds since genesis, or zero before it.
pub open spec fn since_genesis(genesis_time: u64, timestamp_ms: u64) -> int {
    if timestamp_ms < genesis_time * 1000 {
        0
    } else {
        timestamp_ms - genesis_time * 1000
    }
}

/// The slot of a moment.
pub open spec fn slot_at(genesis_time: u64, timestamp_ms: u64) -> int {
    since_genesis(genesis_time, timestamp_ms) / 4000
}

/// The interval of a moment within its slot.
pub open spec fn interval_at(genesis_time: u64, timestamp_ms: u64) -> int {
    (since_genesis(genesis_time, timestamp_ms) % 4000) / 800
}

/// The slot and interval of a moment.
pub fn slot_and_interval(genesis_time: u64, timestamp_ms: u64) -> (r: (u64, u64))
    requires
        genesis_time * 1000 <= u64::MAX,
    ensures
        r.0 == slot_at(genesis_time, timestamp_ms),
        r.1 == interval_at(genesis_time, timestamp_ms),
        r.1 < INTERVALS_PER_SLOT,
{
    let genesis_time_ms: u64 = genesis_time * 1000;
    let time_since_genesis_ms: u64 = if timestamp_ms < genesis_time_ms {
        0
    } else {
        timestamp_ms - genesis_time_ms
    };
    let slot: u64 = time_since_genesis_ms / MILLISECONDS_PER_SLOT;
    let interval: u64 = (time_since_genesis_ms % MILLISECONDS_PER_SLOT)
        / MILLISECONDS_PER_INTERVAL;
    (slot, interval)
}

/// The moment is in its slot and interval: it is found again from the two and the time
/// since the interval began.
pub proof fn moment_is_in_its_interval(genesis_time: u64, timestamp_ms: u64)
    ensures
        ({
            let start = slot_at(genesis_time, timestamp_ms) * 4000 + interval_at(
                genesis_time,
                timestamp_ms,
            ) * 800;
            start <= since_genesis(genesis_time, timestamp_ms) < start + 800
        }),
        0 <= interval_at(genesis_time, timestamp_ms) < 5,
{
}

/// Milliseconds from a moment to the next interval boundary of the Unix clock.
pub fn ms_to_next_interval(ms_since_epoch: u64) -> (r: u64)
    ensures
        1 <= r <= MILLISECONDS_PER_INTERVAL,
        (ms_since_epoch + r) % (MILLISECONDS_PER_INTERVAL as int) == 0,
{
    MILLISECONDS_PER_INTERVAL - (ms_since_epoch % MILLISECONDS_PER_INTERVAL)
}

/// Whether a validator is the proposer of a slot: proposers take turns.
pub open spec fn proposes(validator: u64, slot: u64, num_validators: u64) -> bool {
    slot % num_validators == validator
}

/// Whether a validator is the proposer of a slot.
pub fn is_proposer(validator: u64, slot: u64, num_validators: u64) -> (r: bool)
    requires
        num_validators > 0,
    ensures
        r == proposes(validator, slot, num_validators),
{
    slot % num_validators == validator
}

/// Every slot has exactly one proposer, and it is a registered validator.
pub proof fn one_proposer_per_slot(slot: u64, num_validators: u64, a: u64, b: u64)
    requires
        num_validators > 0,
    ensures
        proposes((slot % num_validators) as u64, slot, num_validators),
        slot % num_validators < num_validators,
        proposes(a, slot, num_validators) && proposes(b, slot, num_validators) ==> a == b,
{
}

} // verus!
