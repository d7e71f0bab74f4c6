use vstd::prelude::*;
use vstd::string::*;

use crate::validate::{root_text, verdict_view, GossipValidationResult};

verus! {

/// The number of validators in a sync committee.
pub const SYNC_COMMITTEE_SIZE: u64 = 512;

/// The fields of a light client finality update that its validation reads.
#[derive(Clone, Copy, Debug)]
pub struct FinalityUpdateSummary {
    /// The slot of the finalized header.
    pub finalized_slot: u64,
    /// How many bits of the sync aggregate are set.
    pub participation_count: u64,
    pub signature_slot: u64,
}

/// The slot of the last finality update forwarded, and whether it had a supermajority.
#[derive(Clone, Copy, Debug, PartialEq, Eq, Structural)]
pub struct ForwardedFinality {
    pub slot: u64,
    pub supermajority: bool,
}

/// The time and the timing constants that decide whether an update came too early.
#[derive(Clone, Copy, Debug)]
pub struct GossipClock {
    /// Seconds since the Unix epoch, now.
    pub now_secs: u64,
    pub genesis_time: u64,
    pub seconds_per_slot: u64,
    pub maximum_gossip_clock_disparity: u64,
}

/// Whether more than two thirds of the sync committee took part.
pub open spec fn has_supermajority(participation_count: u64) -> bool {
    participation_count * 3 > SYNC_COMMITTEE_SIZE * 2
}

/// The product `a * b`, or `u64::MAX` where it would not fit.
pub open spec fn saturating_mul(a: u64, b: u64) -> u64 {
    if a * b > u64::MAX {
        u64::MAX
    } else {
        (a * b) as u64
    }
}

/// When the signature slot of `update` starts, in seconds.
pub open spec fn signature_slot_start(update: FinalityUpdateSummary, clock: GossipClock) -> int {
    clock.genesis_time + saturating_mul(update.signature_slot, clock.seconds_per_slot)
}

/// The earliest time at which an update may be forwarded: a third of a slot after its
/// signature slot starts, less the allowed clock disparity.
pub open spec fn forward_time(update: FinalityUpdateSummary, clock: GossipClock) -> int {
    signature_slot_start(update, clock) + clock.seconds_per_slot / 3
        - clock.maximum_gossip_clock_disparity
}

/// The reason for ignoring an update that does not better the last one forwarded, if any.
pub open spec fn stale_reason(update: FinalityUpdateSummary, seen: Option<ForwardedFinality>) -> Option<
    Seq<char>,
> {
    match seen {
        Some(prev) => {
            if update.finalized_slot < prev.slot {
                Some("Finality update slot is less than the last forwarded update slot"@)
            } else if update.finalized_slot == prev.slot && prev.supermajority {
                Some("Finality update already gossiped"@)
            } else if update.finalized_slot == prev.slot && !has_supermajority(
                update.participation_count,
            ) {
                Some("Worse than previous update"@)
            } else {
                None
            }
        },
        None => None,
    }
}

/// What validating a finality update answers: it is ignored when it does not better the
/// last update forwarded (an older slot; the same slot, where that one had a
/// supermajority or this one has none), or when it comes before its forward time;
/// otherwise it is accepted, and becomes the last update forwarded.
pub open spec fn finality_verdict(
    update: FinalityUpdateSummary,
    seen: Option<ForwardedFinality>,
    clock: GossipClock,
) -> (int, Seq<char>) {
    match stale_reason(update, seen) {
        Some(reason) => (1, reason),
        None => if clock.now_secs < forward_time(update, clock) {
            (1, "Too early"@)
        } else {
            (0, Seq::empty())
        },
    }
}

/// What the last forwarded update is after validating `update`.
pub open spec fn finality_next_seen(
    update: FinalityUpdateSummary,
    seen: Option<ForwardedFinality>,
    clock: GossipClock,
) -> Option<ForwardedFinality> {
    if finality_verdict(update, seen, clock).0 == 0 {
        Some(
            ForwardedFinality {
                slot: update.finalized_slot,
                supermajority: has_supermajority(update.participation_count),
            },
        )
    } else {
        seen
    }
}

/// The sums that the timing check computes fit in a `u64`, and the clock disparity can be
/// taken from them, where the check is reached.
pub open spec fn finality_arithmetic_fits(
    update: FinalityUpdateSummary,
    seen: Option<ForwardedFinality>,
    clock: GossipClock,
) -> bool {
    &&& update.participation_count * 3 <= u64::MAX
    &&& stale_reason(update, seen) is None ==> {
        &&& signature_slot_start(update, clock) + clock.seconds_per_slot / 3 <= u64::MAX
        &&& signature_slot_start(update, clock) + clock.seconds_per_slot / 3
            >= clock.maximum_gossip_clock_disparity
    }
}

/// `a * b`, saturating at `u64::MAX`.
fn saturating_product(a: u64, b: u64) -> (r: u64)
    ensures
        r == saturating_mul(a, b),
{
    match a.checked_mul(b) {
        Some(p) => p,
        None => u64::MAX,
    }
}

/// Validates a light client finality update against the last one forwarded. When it is
/// accepted, its slot and supermajority are recorded in `seen`, and its encoding
/// (`update_bytes`) is kept in `forwarded`, from where it is served.
pub fn validate_light_client_finality_update(
    update: &FinalityUpdateSummary,
    update_bytes: &Vec<u8>,
    seen: &mut Option<ForwardedFinality>,
    forwarded: &mut Option<Vec<u8>>,
    clock: &GossipClock,
) -> (r: GossipValidationResult)
    requires
        finality_arithmetic_fits(*update, *old(seen), *clock),
    ensures
        verdict_view(r) == finality_verdict(*update, *old(seen), *clock),
        *final(seen) == finality_next_seen(*update, *old(seen), *clock),
        r is Accept ==> (*final(forwarded) matches Some(kept) && kept@ == update_bytes@),
        !(r is Accept) ==> *final(forwarded) == *old(forwarded),
{
    let new_slot = update.finalized_slot;
    let supermajority = update.participation_count * 3 > SYNC_COMMITTEE_SIZE * 2;
    if let Some(prev) = *seen {
        if new_slot < prev.slot {
            return GossipValidationResult::Ignore(
                String::from_str("Finality update slot is less than the last forwarded update slot"),
            );
        }
        if new_slot == prev.slot {
            if prev.supermajority {
                return GossipValidationResult::Ignore(
                    String::from_str("Finality update already gossiped"),
                );
            } else if !supermajority {
                return GossipValidationResult::Ignore(String::from_str("Worse than previous update"));
            }
        }
    }
    let start = clock.genesis_time + saturating_product(update.signature_slot, clock.seconds_per_slot);
    let due_in_seconds = clock.seconds_per_slot / 3;
    if clock.now_secs < start + due_in_seconds - clock.maximum_gossip_clock_disparity {
        return GossipValidationResult::Ignore(String::from_str("Too early"));
    }
    *seen = Some(ForwardedFinality { slot: new_slot, supermajority });
    let kept = update_bytes.clone();
    assert(kept@ =~= update_bytes@);
    *forwarded = Some(kept);
    GossipValidationResult::Accept
}

/// The last finality update forwarded never moves to an older slot, and once an update
/// with a supermajority was forwarded for a slot, no other update for that slot is.
pub proof fn finality_forwarding_moves_forward(
    update: FinalityUpdateSummary,
    seen: Option<ForwardedFinality>,
    clock: GossipClock,
)
    ensures
        seen matches Some(prev) ==> finality_next_seen(update, seen, clock)->Some_0.slot
            >= prev.slot,
        seen matches Some(prev) ==> (prev.supermajority && update.finalized_slot <= prev.slot
            ==> finality_next_seen(update, seen, clock) == seen),
        finality_next_seen(update, seen, clock) is Some <==> (seen is Some || finality_verdict(
            update,
            seen,
            clock,
        ).0 == 0),
{
}

/// The fields of a light client optimistic update and of the chain that its
/// validation reads, in the order it reads them.
#[derive(Debug)]
pub struct OptimisticUpdateFacts {
    /// The slot of the update's attested header.
    pub attested_slot: u64,
    /// The head root.
    pub head_root: Result<[u8; 32], String>,
    /// Whether the store holds a state for the head root.
    pub head_state_found: Result<bool, String>,
    /// The slot of the last optimistic update forwarded, if any.
    pub last_forwarded_slot: Option<u64>,
}

/// What validating an optimistic update answers: a failed read answers its error, a
/// missing head state an error naming the head root; an update no newer than the last
/// one forwarded is ignored; any other is accepted.
pub open spec fn optimistic_verdict(facts: OptimisticUpdateFacts) -> Result<(int, Seq<char>), Seq<char>> {
    match facts.head_root {
        Err(m) => Err(m@),
        Ok(root) => match facts.head_state_found {
            Err(m) => Err(m@),
            Ok(found) => {
                if !found {
                    Err("Could not get beacon state: "@ + root_text(root))
                } else if facts.last_forwarded_slot matches Some(last) && last
                    >= facts.attested_slot {
                    Ok((1, "Optimistic update slot is older than previously forwarded update"@))
                } else {
                    Ok((0, Seq::empty()))
                }
            },
        },
    }
}

/// Validates a light client optimistic update.
pub fn validate_light_client_optimistic_update(facts: &OptimisticUpdateFacts) -> (r: Result<
    GossipValidationResult,
    String,
>)
    ensures
        match (r, optimistic_verdict(*facts)) {
            (Ok(v), Ok(w)) => verdict_view(v) == w,
            (Err(m), Err(n)) => m@ == n,
            _ => false,
        },
{
    let root = match &facts.head_root {
        Err(m) => {
            return Err(m.clone());
        },
        Ok(root) => *root,
    };
    match &facts.head_state_found {
        Err(m) => {
            return Err(m.clone());
        },
        Ok(false) => {
            return Err(crate::validate::error_naming_root("Could not get beacon state: ", &root));
        },
        Ok(true) => {},
    }
    match facts.last_forwarded_slot {
        Some(last) => {
            if last >= facts.attested_slot {
                return Ok(
                    GossipValidationResult::Ignore(
                        String::from_str(
                            "Optimistic update slot is older than previously forwarded update",
                        ),
                    ),
                );
            }
        },
        None => {},
    }
    Ok(GossipValidationResult::Accept)
}

/// A finality update is forwarded exactly when it betters the last one forwarded (there
/// is none, its slot is later, or its slot is the same, the last one lacked a
/// supermajority and this one, with more than two thirds of the 512 members taking part,
/// has one) and the clock has reached a third of a slot after its signature slot starts,
/// less the allowed disparity. Once forwarded, it is the last forwarded, with its slot
/// and whether it has a supermajority; otherwise the last forwarded stays as it was.
pub proof fn finality_update_forwarded_exactly_when_it_betters_the_last(
    update: FinalityUpdateSummary,
    seen: Option<ForwardedFinality>,
    clock: GossipClock,
)
    ensures
        ({
            let supermajority = 3 * update.participation_count > 1024;
            let betters = match seen {
                None => true,
                Some(prev) => update.finalized_slot > prev.slot || (update.finalized_slot
                    == prev.slot && !prev.supermajority && supermajority),
            };
            let start = clock.genesis_time + if update.signature_slot * clock.seconds_per_slot
                <= u64::MAX {
                update.signature_slot * clock.seconds_per_slot
            } else {
                u64::MAX as int
            };
            let on_time = clock.now_secs >= start + clock.seconds_per_slot / 3
                - clock.maximum_gossip_clock_disparity;
            &&& (finality_verdict(update, seen, clock).0 == 0) <==> (betters && on_time)
            &&& finality_verdict(update, seen, clock).0 == 0 ==> finality_next_seen(
                update,
                seen,
                clock,
            ) == Some(
                ForwardedFinality { slot: update.finalized_slot, supermajority },
            )
            &&& finality_verdict(update, seen, clock).0 != 0 ==> finality_next_seen(
                update,
                seen,
                clock,
            ) == seen
        }),
{
}

/// An optimistic update is accepted exactly when the head root and state can be read and
/// its attested slot is later than that of the last one forwarded, if any.
pub proof fn optimistic_update_accepted_exactly_when_newer(facts: OptimisticUpdateFacts)
    ensures
        (optimistic_verdict(facts) matches Ok(v) && v.0 == 0) <==> (facts.head_root is Ok
            && facts.head_state_found == Ok::<bool, String>(true) && match facts.last_forwarded_slot {
            None => true,
            Some(last) => last < facts.attested_slot,
        }),
{
}

} // verus!
