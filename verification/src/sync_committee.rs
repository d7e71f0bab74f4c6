use vstd::prelude::*;

use crate::gossip_config::SLOTS_PER_EPOCH;
use crate::light_client::SYNC_COMMITTEE_SIZE;
use crate::validate::SYNC_COMMITTEE_SUBNET_COUNT;

verus! {

/// The number of epochs a sync committee serves.
pub const EPOCHS_PER_SYNC_COMMITTEE_PERIOD: u64 = 256;

/// The number of members of each sync subcommittee.
pub const SYNC_SUBCOMMITTEE_SIZE: u64 = 128;

/// The sync committee period of an epoch.
pub open spec fn sync_committee_period(epoch: int) -> int {
    epoch / EPOCHS_PER_SYNC_COMMITTEE_PERIOD as int
}

/// The committee whose keys sign for the state at `state_slot`: the current one while the
/// next slot stays in the current period, else the next one.
pub open spec fn serving_sync_committee(
    state_slot: u64,
    current: Seq<[u8; 48]>,
    next: Seq<[u8; 48]>,
) -> Seq<[u8; 48]> {
    if sync_committee_period(state_slot as int / SLOTS_PER_EPOCH as int) == sync_committee_period(
        (state_slot as int + 1) / SLOTS_PER_EPOCH as int,
    ) {
        current
    } else {
        next
    }
}

/// The keys of subcommittee `index` of the serving committee: its `index`-th run of
/// 128 keys.
pub open spec fn sync_subcommittee(
    state_slot: u64,
    current: Seq<[u8; 48]>,
    next: Seq<[u8; 48]>,
    index: u64,
) -> Seq<[u8; 48]> {
    serving_sync_committee(state_slot, current, next).subrange(
        index * SYNC_SUBCOMMITTEE_SIZE,
        index * SYNC_SUBCOMMITTEE_SIZE + SYNC_SUBCOMMITTEE_SIZE,
    )
}

/// The next committee serves exactly at the last slot of a sync committee period (a
/// slot whose successor is a multiple of 32 * 256 slots); at every other slot the current
/// committee serves. Subcommittee `index` of committees of 512 keys is the run of 128
/// keys of the serving committee from position `128 * index`.
pub proof fn subcommittee_is_a_run_of_the_serving_committee(
    state_slot: u64,
    current: Seq<[u8; 48]>,
    next: Seq<[u8; 48]>,
    index: u64,
)
    requires
        state_slot < u64::MAX,
        index < 4,
        current.len() == 512,
        next.len() == 512,
    ensures
        serving_sync_committee(state_slot, current, next) == if (state_slot + 1) % 8192 == 0 {
            next
        } else {
            current
        },
        sync_subcommittee(state_slot, current, next, index).len() == 128,
        forall|k: int|
            0 <= k < 128 ==> #[trigger] sync_subcommittee(state_slot, current, next, index)[k]
                == serving_sync_committee(state_slot, current, next)[128 * index + k],
{
    let s = state_slot as int;
    assert(((s / 32) / 256 == ((s + 1) / 32) / 256) <==> (s + 1) % 8192 != 0) by (nonlinear_arith)
        requires
            s >= 0,
    {
        assert((s / 32) / 256 == s / 8192);
        assert(((s + 1) / 32) / 256 == (s + 1) / 8192);
    }
}

/// The public keys of sync subcommittee `subcommittee_index` for the state at `state_slot`,
/// whose current and next sync committees hold the keys `current` and `next`.
pub fn get_sync_subcommittee_pubkeys(
    state_slot: u64,
    current: &Vec<[u8; 48]>,
    next: &Vec<[u8; 48]>,
    subcommittee_index: u64,
) -> (r: Vec<[u8; 48]>)
    requires
        state_slot < u64::MAX,
        subcommittee_index < SYNC_COMMITTEE_SUBNET_COUNT,
        current.len() == SYNC_COMMITTEE_SIZE,
        next.len() == SYNC_COMMITTEE_SIZE,
    ensures
        r@ == sync_subcommittee(state_slot, current@, next@, subcommittee_index),
{
    let current_epoch = state_slot / SLOTS_PER_EPOCH;
    let next_slot_epoch = (state_slot + 1) / SLOTS_PER_EPOCH;
    let committee = if current_epoch / EPOCHS_PER_SYNC_COMMITTEE_PERIOD == next_slot_epoch
        / EPOCHS_PER_SYNC_COMMITTEE_PERIOD {
        current
    } else {
        next
    };
    let sync_subcommittee_size = SYNC_COMMITTEE_SIZE / SYNC_COMMITTEE_SUBNET_COUNT;
    let start = (subcommittee_index * sync_subcommittee_size) as usize;
    let end = start + sync_subcommittee_size as usize;
    let mut keys: Vec<[u8; 48]> = Vec::new();
    let mut i: usize = start;
    while i < end
        invariant
            start <= i <= end <= committee.len(),
            keys@ == committee@.subrange(start as int, i as int),
        decreases end - i,
    {
        keys.push(committee[i]);
        assert(keys@ =~= committee@.subrange(start as int, i + 1));
        i = i + 1;
    }
    keys
}

/// Whether the two keys are the same.
pub fn keys_equal(a: &[u8; 48], b: &[u8; 48]) -> (r: bool)
    ensures
        r == (*a == *b),
{
    broadcast use vstd::array::group_array_axioms;

    let mut i: usize = 0;
    while i < 48
        invariant
            i <= 48,
            forall|j: int| 0 <= j < i ==> a[j] == b[j],
        decreases 48 - i,
    {
        if a[i] != b[i] {
            return false;
        }
        i = i + 1;
    }
    assert(*a =~= *b);
    true
}

/// Whether `keys` holds `key`.
pub fn contains_key(keys: &Vec<[u8; 48]>, key: &[u8; 48]) -> (r: bool)
    ensures
        r == keys@.contains(*key),
{
    let mut i: usize = 0;
    while i < keys.len()
        invariant
            i <= keys.len(),
            forall|j: int| 0 <= j < i ==> keys@[j] != *key,
        decreases keys.len() - i,
    {
        if keys_equal(&keys[i], key) {
            assert(keys@[i as int] == *key);
            return true;
        }
        i = i + 1;
    }
    false
}

} // verus!
