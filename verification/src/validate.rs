use vstd::prelude::*;

use vstd::string::*;

use crate::gossip_config::SLOTS_PER_EPOCH;
use crate::light_client::SYNC_COMMITTEE_SIZE;
use crate::sync_committee::{
    contains_key, get_sync_subcommittee_pubkeys, serving_sync_committee, sync_subcommittee,
};
use crate::text::{decimal, hex_chars, hex_encode, push_decimal};

verus! {

/// The verdict on a gossiped beacon block.
#[derive(Clone, Copy, Debug, PartialEq, Eq, Structural)]
pub enum ValidationResult {
    Accept,
    Ignore,
    Reject,
}

/// The most blob commitments a block may carry.
pub const MAX_BLOBS_PER_BLOCK_ELECTRA: u64 = 9;

/// The fields of a gossiped beacon block that its validation reads.
#[derive(Clone, Copy, Debug)]
pub struct BeaconBlockSummary {
    pub slot: u64,
    pub proposer_index: u64,
    pub parent_root: [u8; 32],
    /// The timestamp of the block's execution payload.
    pub timestamp: u64,
    pub blob_kzg_commitment_count: u64,
    /// How many BLS-to-execution changes the block's body holds.
    pub bls_to_execution_change_count: u64,
}

/// What the validation of a beacon block learns from the chain store, the beacon state
/// and the signature caches, in the order it asks. A read that can fail is held as its
/// outcome: the value, or the message of the error.
#[derive(Debug)]
pub struct BeaconBlockFacts {
    /// The slot of the latest block in the store.
    pub latest_block_slot: Result<u64, String>,
    /// Whether the latest state could be loaded.
    pub latest_state: Result<(), String>,
    /// The epoch of the finalized checkpoint, as first read.
    pub finalized_epoch: Result<u64, String>,
    /// Whether the latest state has a validator at the block's proposer index.
    pub proposer_known: bool,
    /// Whether a proposer signature for that validator and the block's slot was seen.
    pub proposer_signature_seen: bool,
    /// Whether the block's signature verifies.
    pub signature_valid: Result<bool, String>,
    /// The slot of the block's parent, if the store has it.
    pub parent_slot: Result<Option<u64>, String>,
    /// The finalized checkpoint (epoch and root), as read a second time.
    pub finalized_checkpoint: Result<(u64, [u8; 32]), String>,
    /// The root of the checkpoint block of the parent at the finalized epoch.
    pub checkpoint_block_root: Result<[u8; 32], String>,
    /// The proposer index that the state gives for the block's slot.
    pub expected_proposer_index: Result<u64, String>,
    /// The timestamp that the state gives for the block's slot.
    pub expected_timestamp: u64,
    /// Whether a BLS-to-execution change for that validator and the proposer index was seen.
    pub bls_change_seen: bool,
}

/// The bytes of `root`, each complemented.
pub open spec fn complement_root(root: [u8; 32]) -> Seq<u8> {
    Seq::new(32, |i: int| !root[i])
}

/// Whether the complement of `root` is `other`.
pub open spec fn complement_equals(root: [u8; 32], other: [u8; 32]) -> bool {
    complement_root(root) == other@
}

/// The check of a parent block's slot: a block more than one slot past its parent is
/// refused, and a block whose parent is unknown is ignored.
pub open spec fn parent_verdict(block: BeaconBlockSummary, parent_slot: Option<u64>) -> Option<
    ValidationResult,
> {
    match parent_slot {
        Some(p) => if block.slot > p + 1 {
            Some(ValidationResult::Reject)
        } else {
            None
        },
        None => Some(ValidationResult::Ignore),
    }
}

/// What validating `block` against `facts` answers, checking in this order and stopping at
/// the first check that decides: a failed read answers its error; a block older than the
/// latest block, or before the start of the finalized epoch, is ignored; an unknown
/// proposer is an error; a seen proposer signature is ignored; a bad signature is refused;
/// the parent check; the checks that compare the complement of the checkpoint block's
/// root, of the expected proposer index and of the block's timestamp with their
/// counterparts refuse the block when they match; a BLS-to-execution change index past
/// the block's changes is an error; a seen change is ignored; more than 9 blob
/// commitments are refused; anything else is accepted.
pub open spec fn beacon_block_verdict(block: BeaconBlockSummary, facts: BeaconBlockFacts) -> Result<
    ValidationResult,
    Seq<char>,
> {
    match (facts.latest_block_slot, facts.latest_state) {
        (Err(m), _) => Err(m@),
        (Ok(_), Err(m)) => Err(m@),
        (Ok(latest), Ok(_)) => {
            if block.slot < latest {
                Ok(ValidationResult::Ignore)
            } else {
                match facts.finalized_epoch {
                    Err(m) => Err(m@),
                    Ok(epoch) => {
                        if block.slot < epoch * SLOTS_PER_EPOCH {
                            Ok(ValidationResult::Ignore)
                        } else if !facts.proposer_known {
                            Err("Invalid proposer index"@)
                        } else if facts.proposer_signature_seen {
                            Ok(ValidationResult::Ignore)
                        } else {
                            match facts.signature_valid {
                                Err(m) => Err(m@),
                                Ok(valid) => {
                                    if !valid {
                                        Ok(ValidationResult::Reject)
                                    } else {
                                        match facts.parent_slot {
                                            Err(m) => Err(m@),
                                            Ok(parent) => match parent_verdict(block, parent) {
                                                Some(v) => Ok(v),
                                                None => late_verdict(block, facts),
                                            },
                                        }
                                    }
                                },
                            }
                        }
                    },
                }
            }
        },
    }
}

/// The checks that follow the parent check.
pub open spec fn late_verdict(block: BeaconBlockSummary, facts: BeaconBlockFacts) -> Result<
    ValidationResult,
    Seq<char>,
> {
    match facts.finalized_checkpoint {
        Err(m) => Err(m@),
        Ok((_, finalized_root)) => match facts.checkpoint_block_root {
            Err(m) => Err(m@),
            Ok(root) => {
                if complement_equals(root, finalized_root) {
                    Ok(ValidationResult::Reject)
                } else {
                    match facts.expected_proposer_index {
                        Err(m) => Err(m@),
                        Ok(index) => {
                            if !index == block.proposer_index {
                                Ok(ValidationResult::Reject)
                            } else if !block.timestamp == facts.expected_timestamp {
                                Ok(ValidationResult::Reject)
                            } else if block.proposer_index >= block.bls_to_execution_change_count {
                                Err("Invalid index for signed bls to execution change"@)
                            } else if facts.bls_change_seen {
                                Ok(ValidationResult::Ignore)
                            } else if block.blob_kzg_commitment_count > MAX_BLOBS_PER_BLOCK_ELECTRA {
                                Ok(ValidationResult::Reject)
                            } else {
                                Ok(ValidationResult::Accept)
                            }
                        },
                    }
                }
            },
        },
    }
}

/// Every check a gossiped beacon block must pass, on its fields and the facts: no older
/// than the latest block and not before the finalized epoch's start, a known proposer
/// without a seen signature, a valid signature, a known parent at most one slot before
/// it, the checkpoint, proposer index and timestamp comparisons not matching, a change
/// index within the block's changes and not seen, and at most 9 blob commitments.
pub open spec fn beacon_block_passes_checks(block: BeaconBlockSummary, facts: BeaconBlockFacts) -> bool {
    &&& facts.latest_block_slot matches Ok(latest) && block.slot >= latest
    &&& facts.latest_state is Ok
    &&& facts.finalized_epoch matches Ok(e) && block.slot >= e * 32
    &&& facts.proposer_known
    &&& !facts.proposer_signature_seen
    &&& facts.signature_valid == Ok::<bool, String>(true)
    &&& facts.parent_slot matches Ok(Some(p)) && block.slot <= p + 1
    &&& facts.finalized_checkpoint matches Ok(fc) && facts.checkpoint_block_root matches Ok(root)
        && !complement_equals(root, fc.1)
    &&& facts.expected_proposer_index matches Ok(index) && !index != block.proposer_index
    &&& !block.timestamp != facts.expected_timestamp
    &&& block.proposer_index < block.bls_to_execution_change_count
    &&& !facts.bls_change_seen
    &&& block.blob_kzg_commitment_count <= 9
}

/// A gossiped beacon block is accepted exactly when it passes every check; a block that
/// fails one is ignored, refused or answered with an error.
pub proof fn beacon_block_accepted_only_when_every_check_passes(
    block: BeaconBlockSummary,
    facts: BeaconBlockFacts,
)
    ensures
        beacon_block_verdict(block, facts) == Ok::<ValidationResult, Seq<char>>(
            ValidationResult::Accept,
        ) <==> beacon_block_passes_checks(block, facts),
{
}

/// Whether the validation gets as far as the start slot of the finalized epoch.
pub open spec fn reaches_start_slot(block: BeaconBlockSummary, facts: BeaconBlockFacts) -> bool {
    &&& facts.latest_block_slot matches Ok(latest) && block.slot >= latest
    &&& facts.latest_state is Ok
    &&& facts.finalized_epoch is Ok
}

/// Whether the validation gets as far as the parent check.
pub open spec fn reaches_parent_check(block: BeaconBlockSummary, facts: BeaconBlockFacts) -> bool {
    &&& reaches_start_slot(block, facts)
    &&& block.slot >= facts.finalized_epoch->Ok_0 * SLOTS_PER_EPOCH
    &&& facts.proposer_known
    &&& !facts.proposer_signature_seen
    &&& facts.signature_valid == Ok::<bool, String>(true)
}

/// The two sums that the validation computes, where it gets to them, fit in a `u64`:
/// the start slot of the finalized epoch, and the slot after the parent's.
pub open spec fn arithmetic_fits(block: BeaconBlockSummary, facts: BeaconBlockFacts) -> bool {
    &&& reaches_start_slot(block, facts) ==> facts.finalized_epoch->Ok_0 * SLOTS_PER_EPOCH
        <= u64::MAX
    &&& reaches_parent_check(block, facts) ==> (facts.parent_slot matches Ok(Some(p)) ==> p + 1
        <= u64::MAX)
}

fn copy_message(m: &String) -> (r: String)
    ensures
        r@ == m@,
{
    m.clone()
}

/// Whether the complement of `root` is `other`.
fn complement_matches(root: &[u8; 32], other: &[u8; 32]) -> (r: bool)
    ensures
        r == complement_equals(*root, *other),
{
    let mut i: usize = 0;
    while i < 32
        invariant
            i <= 32,
            forall|k: int| 0 <= k < i ==> !root[k] == other[k],
        decreases 32 - i,
    {
        if !root[i] != other[i] {
            assert(complement_root(*root)[i as int] != other@[i as int]);
            return false;
        }
        i = i + 1;
    }
    assert(complement_root(*root) =~= other@);
    true
}

fn late_checks(block: &BeaconBlockSummary, facts: &BeaconBlockFacts) -> (r: Result<
    ValidationResult,
    String,
>)
    ensures
        match (r, late_verdict(*block, *facts)) {
            (Ok(v), Ok(w)) => v == w,
            (Err(m), Err(n)) => m@ == n,
            _ => false,
        },
{
    let finalized_root = match &facts.finalized_checkpoint {
        Err(m) => {
            return Err(copy_message(m));
        },
        Ok((_, root)) => *root,
    };
    let root = match &facts.checkpoint_block_root {
        Err(m) => {
            return Err(copy_message(m));
        },
        Ok(root) => *root,
    };
    if complement_matches(&root, &finalized_root) {
        return Ok(ValidationResult::Reject);
    }
    let index = match &facts.expected_proposer_index {
        Err(m) => {
            return Err(copy_message(m));
        },
        Ok(index) => *index,
    };
    if !index == block.proposer_index {
        return Ok(ValidationResult::Reject);
    }
    if !block.timestamp == facts.expected_timestamp {
        return Ok(ValidationResult::Reject);
    }
    if block.proposer_index >= block.bls_to_execution_change_count {
        return Err(String::from_str("Invalid index for signed bls to execution change"));
    }
    if facts.bls_change_seen {
        return Ok(ValidationResult::Ignore);
    }
    if block.blob_kzg_commitment_count > MAX_BLOBS_PER_BLOCK_ELECTRA {
        return Ok(ValidationResult::Reject);
    }
    Ok(ValidationResult::Accept)
}

/// Validates a gossiped beacon block against what the chain knows: the verdict, or the
/// message of the error that stopped the validation. On `Accept`, the caller records the
/// block's proposer signature and BLS-to-execution change as seen.
pub fn validate_beacon_block(block: &BeaconBlockSummary, facts: &BeaconBlockFacts) -> (r: Result<
    ValidationResult,
    String,
>)
    requires
        arithmetic_fits(*block, *facts),
    ensures
        match (r, beacon_block_verdict(*block, *facts)) {
            (Ok(v), Ok(w)) => v == w,
            (Err(m), Err(n)) => m@ == n,
            _ => false,
        },
{
    let latest = match &facts.latest_block_slot {
        Err(m) => {
            return Err(copy_message(m));
        },
        Ok(slot) => *slot,
    };
    if let Err(m) = &facts.latest_state {
        return Err(copy_message(m));
    }
    if block.slot < latest {
        return Ok(ValidationResult::Ignore);
    }
    let epoch = match &facts.finalized_epoch {
        Err(m) => {
            return Err(copy_message(m));
        },
        Ok(epoch) => *epoch,
    };
    if block.slot < epoch * SLOTS_PER_EPOCH {
        return Ok(ValidationResult::Ignore);
    }
    if !facts.proposer_known {
        return Err(String::from_str("Invalid proposer index"));
    }
    if facts.proposer_signature_seen {
        return Ok(ValidationResult::Ignore);
    }
    match &facts.signature_valid {
        Err(m) => {
            return Err(copy_message(m));
        },
        Ok(false) => {
            return Ok(ValidationResult::Reject);
        },
        Ok(true) => {},
    }
    match &facts.parent_slot {
        Err(m) => {
            return Err(copy_message(m));
        },
        Ok(Some(parent)) => {
            if block.slot > *parent + 1 {
                return Ok(ValidationResult::Reject);
            }
        },
        Ok(None) => {
            return Ok(ValidationResult::Ignore);
        },
    }
    late_checks(block, facts)
}

// ---------------------------------------------------------------------------
// Sync committee contributions
// ---------------------------------------------------------------------------

/// The number of sync committee subnets.
pub const SYNC_COMMITTEE_SUBNET_COUNT: u64 = 4;

/// The verdict on a gossiped message, with the reason for ignoring or refusing it.
#[derive(Debug, PartialEq, Eq)]
pub enum GossipValidationResult {
    Accept,
    Ignore(String),
    Reject(String),
}

/// The verdict as plain values: `0` accept, `1` ignore, `2` reject, with the reason.
pub open spec fn verdict_view(v: GossipValidationResult) -> (int, Seq<char>) {
    match v {
        GossipValidationResult::Accept => (0, Seq::empty()),
        GossipValidationResult::Ignore(m) => (1, m@),
        GossipValidationResult::Reject(m) => (2, m@),
    }
}

/// What the gossip layer is told of a validated message: forward it, drop it and
/// penalise its sender, or drop it.
#[derive(Clone, Copy, Debug, PartialEq, Eq, Structural)]
pub enum MessageAcceptance {
    Accept,
    Reject,
    Ignore,
}

/// The answer to the gossip layer for a verdict.
pub open spec fn acceptance_of(result: GossipValidationResult) -> MessageAcceptance {
    match result {
        GossipValidationResult::Accept => MessageAcceptance::Accept,
        GossipValidationResult::Ignore(_) => MessageAcceptance::Ignore,
        GossipValidationResult::Reject(_) => MessageAcceptance::Reject,
    }
}

/// How a verdict is answered to the gossip layer: `Accept` forwards the message, `Ignore`
/// drops it, `Reject` drops it and penalises its sender.
pub fn gossip_acceptance(result: &GossipValidationResult) -> (r: MessageAcceptance)
    ensures
        r == acceptance_of(*result),
        r is Accept <==> *result is Accept,
{
    match result {
        GossipValidationResult::Accept => MessageAcceptance::Accept,
        GossipValidationResult::Ignore(_) => MessageAcceptance::Ignore,
        GossipValidationResult::Reject(_) => MessageAcceptance::Reject,
    }
}

/// The kinds of gossiped beacon messages.
#[derive(Clone, Copy, Debug, PartialEq, Eq, Structural)]
pub enum GossipMessageKind {
    BeaconBlock,
    BeaconAttestation,
    BlsToExecutionChange,
    AggregateAndProof,
    SyncCommittee,
    SyncCommitteeContributionAndProof,
    AttesterSlashing,
    ProposerSlashing,
    BlobSidecar,
    DataColumnSidecar,
    LightClientFinalityUpdate,
    LightClientOptimisticUpdate,
    VoluntaryExit,
}

/// Whether an accepted message of this kind is taken in by the node: a block is
/// processed, an attestation or attester slashing imported, a blob or data column
/// sidecar stored, and the slot of an optimistic update recorded as forwarded.
pub open spec fn taken_in_on_accept(kind: GossipMessageKind) -> bool {
    match kind {
        GossipMessageKind::BeaconBlock => true,
        GossipMessageKind::BeaconAttestation => true,
        GossipMessageKind::AttesterSlashing => true,
        GossipMessageKind::BlobSidecar => true,
        GossipMessageKind::DataColumnSidecar => true,
        GossipMessageKind::LightClientOptimisticUpdate => true,
        _ => false,
    }
}

/// The kinds that an accepted message is only forwarded for, and not taken in, are the
/// seven whose handling changes nothing the node holds: BLS-to-execution changes,
/// aggregates, sync committee messages and contributions, proposer slashings, finality
/// updates and voluntary exits. Every other kind is taken in once accepted. And the
/// answer reported for a verdict is the verdict's own: accepted, ignored or rejected.
pub proof fn only_forwarded_kinds_are_not_taken_in(kind: GossipMessageKind, verdict: GossipValidationResult)
    ensures
        !taken_in_on_accept(kind) <==> (kind is BlsToExecutionChange || kind is AggregateAndProof
            || kind is SyncCommittee || kind is SyncCommitteeContributionAndProof
            || kind is ProposerSlashing || kind is LightClientFinalityUpdate
            || kind is VoluntaryExit),
        acceptance_of(verdict) is Accept <==> verdict is Accept,
        acceptance_of(verdict) is Ignore <==> verdict is Ignore,
        acceptance_of(verdict) is Reject <==> verdict is Reject,
{
}

/// What the handling of a gossiped message does after its validation: the answer it
/// reports to the gossip layer, if any, and whether it takes the message in.
#[derive(Clone, Copy, Debug, PartialEq, Eq, Structural)]
pub struct GossipDecision {
    pub report: Option<MessageAcceptance>,
    pub take_in: bool,
}

/// The handling of a gossiped message of `kind` (`None` where it did not decode) whose
/// validation gave `validated` (an error where the validation itself failed): nothing is
/// reported or taken in when decoding or validation failed; otherwise the verdict's
/// answer is reported, and an accepted message of a kind that is taken in is taken in.
pub fn gossip_decision(
    kind: Option<GossipMessageKind>,
    validated: &Result<GossipValidationResult, String>,
) -> (r: GossipDecision)
    ensures
        r.report == (match (kind, *validated) {
            (Some(_), Ok(v)) => Some(acceptance_of(v)),
            _ => None,
        }),
        r.take_in == (kind matches Some(k) && taken_in_on_accept(k) && *validated matches Ok(
            GossipValidationResult::Accept,
        )),
{
    let k = match kind {
        Some(k) => k,
        None => {
            return GossipDecision { report: None, take_in: false };
        },
    };
    match validated {
        Ok(v) => {
            let acceptance = gossip_acceptance(v);
            let take_in = match acceptance {
                MessageAcceptance::Accept => match k {
                    GossipMessageKind::BeaconBlock | GossipMessageKind::BeaconAttestation
                    | GossipMessageKind::AttesterSlashing | GossipMessageKind::BlobSidecar
                    | GossipMessageKind::DataColumnSidecar
                    | GossipMessageKind::LightClientOptimisticUpdate => true,
                    _ => false,
                },
                _ => false,
            };
            GossipDecision { report: Some(acceptance), take_in }
        },
        Err(_) => GossipDecision { report: None, take_in: false },
    }
}

/// The fields of a signed contribution and proof that its validation reads.
#[derive(Clone, Copy, Debug)]
pub struct ContributionSummary {
    pub slot: u64,
    pub subcommittee_index: u64,
    /// How many bits of the contribution's aggregation bits are set.
    pub participant_count: u64,
    /// Whether the selection proof makes its signer an aggregator.
    pub selection_proof_is_aggregator: bool,
}

/// What the validation of a contribution learns from the chain store, the head state, the
/// seen caches and the signature checks, in the order it asks; a read that can fail is
/// held as its outcome.
#[derive(Debug)]
pub struct ContributionFacts {
    /// The head root.
    pub head_root: Result<[u8; 32], String>,
    /// The slot of the head block, if the store has it.
    pub head_block_slot: Result<Option<u64>, String>,
    /// What the validation reads of the head state, if the store has it.
    pub head_state: Result<Option<HeadSyncState>, String>,
    /// Whether a contribution with the same slot, block root and subcommittee was seen.
    pub contribution_seen: bool,
    /// Whether a contribution from the same aggregator, slot and subcommittee was seen.
    pub aggregator_message_seen: bool,
    /// Whether the selection proof is the aggregator's signature of its selection data.
    pub selection_proof_valid: Result<bool, String>,
    /// Whether the contribution's signature is the subcommittee's aggregate signature of
    /// the block root.
    pub aggregate_signature_valid: Result<bool, String>,
    /// Whether the signed contribution and proof carries the aggregator's signature.
    pub aggregator_signature_valid: Result<bool, String>,
}

/// What the validation of a contribution reads of the head state.
#[derive(Debug)]
pub struct HeadSyncState {
    pub slot: u64,
    /// The public keys of the current sync committee.
    pub current_sync_committee: Vec<[u8; 48]>,
    /// The public keys of the next sync committee.
    pub next_sync_committee: Vec<[u8; 48]>,
    /// The public key of the validator at the aggregator index, if there is one.
    pub aggregator_pubkey: Option<[u8; 48]>,
}

/// The current and previous epochs of a state at `slot`; at genesis both are the genesis
/// epoch.
pub open spec fn state_epochs(slot: u64) -> (u64, u64) {
    let current = (slot / SLOTS_PER_EPOCH) as u64;
    (current, if current == 0 {
        0
    } else {
        (current - 1) as u64
    })
}

/// Whether the aggregator's key is among the keys of the contribution's subcommittee in
/// the committee that serves the head state.
pub open spec fn aggregator_in_subcommittee(c: ContributionSummary, st: HeadSyncState) -> bool {
    st.aggregator_pubkey matches Some(key) && sync_subcommittee(
        st.slot,
        st.current_sync_committee@,
        st.next_sync_committee@,
        c.subcommittee_index,
    ).contains(key)
}

/// How a root is written in messages: `0x` and its lowercase hexadecimal digits.
pub open spec fn root_text(root: [u8; 32]) -> Seq<char> {
    "0x"@ + hex_chars(root@)
}

/// What a contribution's validation decides: the verdict (or the error that stopped it),
/// and whether the contribution, and the aggregator's message, are recorded as seen.
pub struct ContributionOutcome {
    pub verdict: Result<(int, Seq<char>), Seq<char>>,
    pub records_contribution: bool,
    pub records_aggregator_message: bool,
}

/// An outcome that records nothing.
pub open spec fn decided(verdict: Result<(int, Seq<char>), Seq<char>>) -> ContributionOutcome {
    ContributionOutcome { verdict, records_contribution: false, records_aggregator_message: false }
}

/// The checks of a contribution against its own fields: the subcommittee index must be
/// below the subnet count, the contribution must have no participants, and the selection
/// proof must make an aggregator; `None` when all pass.
pub open spec fn contribution_field_reason(c: ContributionSummary) -> Option<Seq<char>> {
    if c.subcommittee_index >= SYNC_COMMITTEE_SUBNET_COUNT {
        Some("The subcommittee index is out of range"@)
    } else if c.participant_count != 0 {
        Some("The contribution has too many participants"@)
    } else if !c.selection_proof_is_aggregator {
        Some("The selection proof is not a valid aggregator"@)
    } else {
        None
    }
}

/// The checks that follow the aggregator's membership: the two seen caches (each
/// recording what passes it), then the three signatures.
pub open spec fn contribution_late_outcome(facts: ContributionFacts) -> ContributionOutcome {
    if facts.contribution_seen {
        decided(
            Ok(
                (
                    1,
                    "A valid sync committee contribution with equal slot, beacon_block_root and subcommittee_index has already been seen"@,
                ),
            ),
        )
    } else if facts.aggregator_message_seen {
        ContributionOutcome {
            verdict: Ok(
                (
                    1,
                    "A valid sync committee contribution for this aggregator, slot and subcommittee index has already been seen"@,
                ),
            ),
            records_contribution: true,
            records_aggregator_message: false,
        }
    } else {
        ContributionOutcome {
            verdict: match facts.selection_proof_valid {
                Err(m) => Err(m@),
                Ok(selection) => if !selection {
                    Ok((2, "The selection proof is not a valid signature"@))
                } else {
                    match facts.aggregate_signature_valid {
                        Err(m) => Err(m@),
                        Ok(aggregate) => if !aggregate {
                            Ok((2, "The aggregate signature is not valid"@))
                        } else {
                            match facts.aggregator_signature_valid {
                                Err(m) => Err(m@),
                                Ok(signed) => if !signed {
                                    Ok((2, "The aggregator signature is not valid"@))
                                } else {
                                    Ok((0, Seq::empty()))
                                },
                            }
                        },
                    }
                },
            },
            records_contribution: true,
            records_aggregator_message: true,
        }
    }
}

/// What validating a contribution decides, checking in this order and stopping at the
/// first check that decides: a failed read answers its error, a missing head block or
/// state an error naming the head root; a contribution from a future slot, or from an
/// epoch that is neither the current nor the previous one, is ignored; a subcommittee
/// index of 4 or more, a contribution with participants, a selection proof that does not
/// make an aggregator, and an aggregator outside the subcommittee are refused; a seen
/// contribution, or a seen message of the aggregator, is ignored; a bad selection proof,
/// aggregate signature or aggregator signature is refused; anything else is accepted.
pub open spec fn contribution_outcome(c: ContributionSummary, facts: ContributionFacts) -> ContributionOutcome {
    match facts.head_root {
        Err(m) => decided(Err(m@)),
        Ok(root) => match facts.head_block_slot {
            Err(m) => decided(Err(m@)),
            Ok(None) => decided(Err("Could not get block for head root: "@ + root_text(root))),
            Ok(Some(current_slot)) => match facts.head_state {
                Err(m) => decided(Err(m@)),
                Ok(None) => decided(Err("No beacon state found for head root: "@ + root_text(root))),
                Ok(Some(st)) => {
                    let (current_epoch, previous_epoch) = state_epochs(st.slot);
                    if c.slot > current_slot {
                        decided(Ok((1, "Contribution is from a future slot"@)))
                    } else if c.slot / SLOTS_PER_EPOCH != current_epoch && c.slot / SLOTS_PER_EPOCH
                        != previous_epoch {
                        decided(Ok((1, "Contribution is from a epoch too far in the past"@)))
                    } else {
                        match contribution_field_reason(c) {
                            Some(reason) => decided(Ok((2, reason))),
                            None => if !aggregator_in_subcommittee(c, st) {
                                decided(Ok((2, "The aggregator is not in the subcommittee"@)))
                            } else {
                                contribution_late_outcome(facts)
                            },
                        }
                    }
                },
            },
        },
    }
}

/// What looking up the aggregator's subcommittee needs of the head state: a validator at
/// the aggregator index, which the state's validator list is indexed for, committees of
/// their full size, and a slot after which there is another.
pub open spec fn head_state_readable(head_state: Result<Option<HeadSyncState>, String>) -> bool {
    head_state matches Ok(Some(st)) && {
        &&& st.aggregator_pubkey is Some
        &&& st.slot < u64::MAX
        &&& st.current_sync_committee@.len() == SYNC_COMMITTEE_SIZE
        &&& st.next_sync_committee@.len() == SYNC_COMMITTEE_SIZE
    }
}

/// Every check a contribution must pass before its signatures, on its fields and the
/// facts: the head block and state are stored, it is not from a future slot, its epoch is
/// the head state's current or previous one, its subcommittee index is below 4, it has no
/// participants, its selection proof makes an aggregator, and the aggregator's key is
/// among the 128 keys of its subcommittee in the committee serving the head state.
pub open spec fn contribution_passes_checks(c: ContributionSummary, facts: ContributionFacts) -> bool {
    &&& facts.head_root is Ok
    &&& facts.head_block_slot matches Ok(Some(current)) && c.slot <= current
    &&& facts.head_state matches Ok(Some(st)) && {
        &&& (c.slot / 32 == st.slot / 32 || (st.slot / 32 > 0 && c.slot / 32 == st.slot / 32 - 1))
        &&& c.subcommittee_index < 4
        &&& c.participant_count == 0
        &&& c.selection_proof_is_aggregator
        &&& st.aggregator_pubkey matches Some(key) && serving_sync_committee(
            st.slot,
            st.current_sync_committee@,
            st.next_sync_committee@,
        ).subrange(c.subcommittee_index * 128, c.subcommittee_index * 128 + 128).contains(key)
    }
}

/// A contribution is accepted exactly when it passes every check, was seen neither as a
/// contribution nor as a message of its aggregator, and its three signatures are valid;
/// it is recorded as seen exactly when it passes every check and was not seen before.
pub proof fn contribution_accepted_only_when_every_check_passes(
    c: ContributionSummary,
    facts: ContributionFacts,
)
    ensures
        (contribution_outcome(c, facts).verdict matches Ok(v) && v.0 == 0) <==> (
        contribution_passes_checks(c, facts) && !facts.contribution_seen
            && !facts.aggregator_message_seen && facts.selection_proof_valid == Ok::<bool, String>(
            true,
        ) && facts.aggregate_signature_valid == Ok::<bool, String>(true)
            && facts.aggregator_signature_valid == Ok::<bool, String>(true)),
        contribution_outcome(c, facts).records_contribution <==> (contribution_passes_checks(
            c,
            facts,
        ) && !facts.contribution_seen),
        contribution_outcome(c, facts).records_aggregator_message <==> (
        contribution_passes_checks(c, facts) && !facts.contribution_seen
            && !facts.aggregator_message_seen),
{
    if let (Ok(Some(current)), Ok(Some(st))) = (facts.head_block_slot, facts.head_state) {
        let (ce, pe) = state_epochs(st.slot);
        assert(ce == st.slot / 32);
        assert(pe == if st.slot / 32 > 0 {
            st.slot / 32 - 1
        } else {
            0
        });
        assert((c.slot / 32 == ce || c.slot / 32 == pe) <==> (c.slot / 32 == st.slot / 32 || (st.slot
            / 32 > 0 && c.slot / 32 == st.slot / 32 - 1)));
        assert(contribution_field_reason(c) is None <==> (c.subcommittee_index < 4
            && c.participant_count == 0 && c.selection_proof_is_aggregator));
    }
}

/// Whether the validation gets as far as looking up the aggregator in the head state,
/// which it indexes by the aggregator index.
pub open spec fn reaches_aggregator_lookup(c: ContributionSummary, facts: ContributionFacts) -> bool {
    &&& facts.head_root is Ok
    &&& facts.head_block_slot matches Ok(Some(current_slot)) && c.slot <= current_slot
    &&& facts.head_state matches Ok(Some(st)) && (c.slot / SLOTS_PER_EPOCH == state_epochs(st.slot).0
        || c.slot / SLOTS_PER_EPOCH == state_epochs(st.slot).1)
    &&& contribution_field_reason(c) is None
}

fn root_string(root: &[u8; 32]) -> (r: String)
    ensures
        r@ == root_text(*root),
{
    let mut s = String::from_str("0x");
    let digits = hex_encode(root);
    s.append(digits.as_str());
    s
}

pub(crate) fn error_naming_root(prefix: &str, root: &[u8; 32]) -> (r: String)
    ensures
        r@ == prefix@ + root_text(*root),
{
    let mut s = String::from_str(prefix);
    let text = root_string(root);
    s.append(text.as_str());
    s
}

/// Whether an outcome is the one that `contribution_outcome` describes.
pub open spec fn outcome_matches(
    r: (Result<GossipValidationResult, String>, bool, bool),
    o: ContributionOutcome,
) -> bool {
    &&& r.1 == o.records_contribution
    &&& r.2 == o.records_aggregator_message
    &&& match (r.0, o.verdict) {
        (Ok(v), Ok(w)) => verdict_view(v) == w,
        (Err(m), Err(n)) => m@ == n,
        _ => false,
    }
}

fn contribution_late_checks(facts: &ContributionFacts) -> (r: (
    Result<GossipValidationResult, String>,
    bool,
    bool,
))
    ensures
        outcome_matches(r, contribution_late_outcome(*facts)),
{
    if facts.contribution_seen {
        return (
            Ok(
                ignore(
                    "A valid sync committee contribution with equal slot, beacon_block_root and subcommittee_index has already been seen",
                ),
            ),
            false,
            false,
        );
    }
    if facts.aggregator_message_seen {
        return (
            Ok(
                ignore(
                    "A valid sync committee contribution for this aggregator, slot and subcommittee index has already been seen",
                ),
            ),
            true,
            false,
        );
    }
    let verdict = match &facts.selection_proof_valid {
        Err(m) => Err(copy_message(m)),
        Ok(false) => Ok(reject("The selection proof is not a valid signature")),
        Ok(true) => match &facts.aggregate_signature_valid {
            Err(m) => Err(copy_message(m)),
            Ok(false) => Ok(reject("The aggregate signature is not valid")),
            Ok(true) => match &facts.aggregator_signature_valid {
                Err(m) => Err(copy_message(m)),
                Ok(false) => Ok(reject("The aggregator signature is not valid")),
                Ok(true) => Ok(GossipValidationResult::Accept),
            },
        },
    };
    (verdict, true, true)
}

/// Validates a gossiped sync committee contribution against the head of the chain: the
/// verdict (or the message of the error that stopped the validation), and whether the
/// caller is to record the contribution, and the aggregator's message, as seen.
pub fn validate_sync_committee_contribution_and_proof(
    c: &ContributionSummary,
    facts: &ContributionFacts,
) -> (r: (Result<GossipValidationResult, String>, bool, bool))
    requires
        reaches_aggregator_lookup(*c, *facts) ==> head_state_readable(facts.head_state),
    ensures
        outcome_matches(r, contribution_outcome(*c, *facts)),
{
    let root = match &facts.head_root {
        Err(m) => {
            return (Err(copy_message(m)), false, false);
        },
        Ok(root) => *root,
    };
    let current_slot = match &facts.head_block_slot {
        Err(m) => {
            return (Err(copy_message(m)), false, false);
        },
        Ok(None) => {
            return (Err(error_naming_root("Could not get block for head root: ", &root)), false, false);
        },
        Ok(Some(slot)) => *slot,
    };
    let st = match &facts.head_state {
        Err(m) => {
            return (Err(copy_message(m)), false, false);
        },
        Ok(None) => {
            return (
                Err(error_naming_root("No beacon state found for head root: ", &root)),
                false,
                false,
            );
        },
        Ok(Some(st)) => st,
    };
    if c.slot > current_slot {
        return (Ok(ignore("Contribution is from a future slot")), false, false);
    }
    let current_epoch = st.slot / SLOTS_PER_EPOCH;
    let previous_epoch = if current_epoch == 0 {
        0
    } else {
        current_epoch - 1
    };
    let attestation_epoch = c.slot / SLOTS_PER_EPOCH;
    if attestation_epoch != current_epoch && attestation_epoch != previous_epoch {
        return (Ok(ignore("Contribution is from a epoch too far in the past")), false, false);
    }
    if c.subcommittee_index >= SYNC_COMMITTEE_SUBNET_COUNT {
        return (Ok(reject("The subcommittee index is out of range")), false, false);
    }
    if c.participant_count != 0 {
        return (Ok(reject("The contribution has too many participants")), false, false);
    }
    if !c.selection_proof_is_aggregator {
        return (Ok(reject("The selection proof is not a valid aggregator")), false, false);
    }
    let aggregator_pubkey = st.aggregator_pubkey.unwrap();
    let subcommittee = get_sync_subcommittee_pubkeys(
        st.slot,
        &st.current_sync_committee,
        &st.next_sync_committee,
        c.subcommittee_index,
    );
    if !contains_key(&subcommittee, &aggregator_pubkey) {
        return (Ok(reject("The aggregator is not in the subcommittee")), false, false);
    }
    contribution_late_checks(facts)
}

// ---------------------------------------------------------------------------
// Parent blocks
// ---------------------------------------------------------------------------

/// What the validation of a stored parent block learns, in the order it asks; a read
/// that can fail is held as its outcome.
#[derive(Debug)]
pub struct ParentBlockFacts {
    /// The block stored under the root being validated, if any.
    pub block: Result<Option<BeaconBlockSummary>, String>,
    /// The current slot of the store, less one.
    pub current_slot: Result<u64, String>,
    /// Whether a state is stored under that root.
    pub state_found: Result<bool, String>,
    /// The epoch of the finalized checkpoint, as first read.
    pub finalized_epoch: Result<u64, String>,
    /// Whether that state has a validator at the block's proposer index.
    pub proposer_known: bool,
    /// Whether a proposer signature for that validator and the block's slot was seen.
    pub proposer_signature_seen: bool,
    /// Whether the block's signature verifies against that state.
    pub signature_valid: Result<bool, String>,
    /// The slot of the block's own parent, if the store has it.
    pub parent_slot: Result<Option<u64>, String>,
    /// The finalized checkpoint (epoch and root), as read a second time.
    pub finalized_checkpoint: Result<(u64, [u8; 32]), String>,
    /// The root of the checkpoint block of the block's parent at the finalized epoch.
    pub checkpoint_block_root: Result<[u8; 32], String>,
    /// The proposer index that the state gives for the block's slot.
    pub expected_proposer_index: Result<u64, String>,
    /// The timestamp that the state gives for the block's slot.
    pub expected_timestamp: u64,
    /// Whether a BLS-to-execution change for that validator and the block's slot was seen.
    pub bls_change_seen: bool,
}

/// The checks of a parent block that follow its parent check.
pub open spec fn parent_block_late_verdict(b: BeaconBlockSummary, facts: ParentBlockFacts) -> Result<
    (int, Seq<char>),
    Seq<char>,
> {
    match facts.finalized_checkpoint {
        Err(m) => Err(m@),
        Ok((_, finalized_root)) => match facts.checkpoint_block_root {
            Err(m) => Err(m@),
            Ok(root) => {
                if root != finalized_root {
                    Ok((2, "Finalized checkpoint is not an ancestor"@))
                } else {
                    match facts.expected_proposer_index {
                        Err(m) => Err(m@),
                        Ok(index) => {
                            if index != b.proposer_index {
                                Ok((2, "Proposer index is incorrect"@))
                            } else if b.timestamp != facts.expected_timestamp {
                                Ok((2, "Execution payload timestamp is incorrect"@))
                            } else if facts.bls_change_seen {
                                Ok((1, "Signature already received"@))
                            } else if b.blob_kzg_commitment_count > MAX_BLOBS_PER_BLOCK_ELECTRA {
                                Ok((2, "Length of KZG commitments is greater than the limit"@))
                            } else {
                                Ok((0, Seq::empty()))
                            }
                        },
                    }
                }
            },
        },
    }
}

/// The checks of a parent block from its proposer on.
pub open spec fn parent_block_main_verdict(b: BeaconBlockSummary, facts: ParentBlockFacts) -> Result<
    (int, Seq<char>),
    Seq<char>,
> {
    if !facts.proposer_known {
        Err("Invalid proposer index"@)
    } else if facts.proposer_signature_seen {
        Ok((1, "Signature already received"@))
    } else {
        match facts.signature_valid {
            Err(m) => Err(m@),
            Ok(valid) => {
                if !valid {
                    Ok((2, "Invalid signature"@))
                } else {
                    match facts.parent_slot {
                        Err(m) => Err(m@),
                        Ok(None) => Ok((1, "Parent block not found"@)),
                        Ok(Some(p)) => {
                            if b.slot <= p {
                                Ok((2, "Block is from a higher slot than expected"@))
                            } else {
                                parent_block_late_verdict(b, facts)
                            }
                        },
                    }
                }
            },
        }
    }
}

/// What validating a stored parent block answers, checking in this order and stopping at
/// the first check that decides: a failed read answers its error, a missing block or
/// state an error; a block from a future slot, or not after the start of the finalized
/// epoch, is ignored; an unknown proposer is an error; a seen proposer signature is
/// ignored; a bad signature is refused; a block not from a higher slot than its own parent is
/// refused, and one whose parent is unknown ignored; a checkpoint block that is not the
/// finalized one, another proposer index or another timestamp than the state expects are
/// refused; a seen BLS-to-execution change is ignored; more than 9 blob commitments are
/// refused; anything else is accepted.
pub open spec fn parent_block_verdict(facts: ParentBlockFacts) -> Result<(int, Seq<char>), Seq<char>> {
    match facts.block {
        Err(m) => Err(m@),
        Ok(None) => Err("failed to get parent block"@),
        Ok(Some(b)) => match facts.current_slot {
            Err(m) => Err(m@),
            Ok(current) => match facts.state_found {
                Err(m) => Err(m@),
                Ok(found) => {
                    if !found {
                        Err("failed to get parent state"@)
                    } else if b.slot > current {
                        Ok((1, "Block is from a future slot"@))
                    } else {
                        match facts.finalized_epoch {
                            Err(m) => Err(m@),
                            Ok(epoch) => {
                                if b.slot <= epoch * SLOTS_PER_EPOCH {
                                    Ok(
                                        (
                                            1,
                                            "Block is from a slot greater than the latest finalized slot"@,
                                        ),
                                    )
                                } else {
                                    parent_block_main_verdict(b, facts)
                                }
                            },
                        }
                    }
                },
            },
        },
    }
}

/// Every check a stored block must pass, on its fields and the facts: the block and its
/// state are stored, it is not from a future slot and is after the finalized epoch's
/// start, its proposer is known with no seen signature, its signature is valid, its own
/// parent is known and of a lower slot, the finalized checkpoint is its ancestor, the
/// proposer index and timestamp are those the state expects, no BLS-to-execution change
/// was seen, and it has at most 9 blob commitments.
pub open spec fn parent_block_passes_checks(facts: ParentBlockFacts) -> bool {
    &&& facts.block matches Ok(Some(b)) && {
        &&& facts.current_slot matches Ok(current) && b.slot <= current
        &&& facts.state_found == Ok::<bool, String>(true)
        &&& facts.finalized_epoch matches Ok(e) && b.slot > e * 32
        &&& facts.proposer_known
        &&& !facts.proposer_signature_seen
        &&& facts.signature_valid == Ok::<bool, String>(true)
        &&& facts.parent_slot matches Ok(Some(p)) && p < b.slot
        &&& facts.finalized_checkpoint matches Ok(fc) && facts.checkpoint_block_root
            == Ok::<[u8; 32], String>(fc.1)
        &&& facts.expected_proposer_index == Ok::<u64, String>(b.proposer_index)
        &&& b.timestamp == facts.expected_timestamp
        &&& !facts.bls_change_seen
        &&& b.blob_kzg_commitment_count <= 9
    }
}

/// A stored block is accepted exactly when it passes every check; in particular a block
/// at or below its parent's slot is never accepted.
pub proof fn parent_block_accepted_only_when_every_check_passes(facts: ParentBlockFacts)
    ensures
        (parent_block_verdict(facts) matches Ok(v) && v.0 == 0) <==> parent_block_passes_checks(
            facts,
        ),
{
}

/// Whether the parent validation gets as far as the start slot of the finalized epoch.
pub open spec fn parent_reaches_start_slot(facts: ParentBlockFacts) -> bool {
    &&& facts.block matches Ok(Some(b)) && facts.current_slot matches Ok(current) && b.slot
        <= current
    &&& facts.state_found == Ok::<bool, String>(true)
    &&& facts.finalized_epoch is Ok
}

/// The start slot of the finalized epoch, which the parent validation computes, fits in a
/// `u64` where the validation gets to it.
pub open spec fn parent_arithmetic_fits(facts: ParentBlockFacts) -> bool {
    parent_reaches_start_slot(facts) ==> facts.finalized_epoch->Ok_0 * SLOTS_PER_EPOCH
        <= u64::MAX
}

/// Whether two roots are the same.
fn roots_equal(a: &[u8; 32], b: &[u8; 32]) -> (r: bool)
    ensures
        r == (*a == *b),
{
    broadcast use vstd::array::group_array_axioms;

    let mut i: usize = 0;
    while i < 32
        invariant
            i <= 32,
            forall|k: int| 0 <= k < i ==> a[k] == b[k],
        decreases 32 - i,
    {
        if a[i] != b[i] {
            return false;
        }
        i = i + 1;
    }
    assert(*a =~= *b);
    true
}

fn ignore(reason: &str) -> (r: GossipValidationResult)
    ensures
        verdict_view(r) == (1int, reason@),
{
    GossipValidationResult::Ignore(String::from_str(reason))
}

fn reject(reason: &str) -> (r: GossipValidationResult)
    ensures
        verdict_view(r) == (2int, reason@),
{
    GossipValidationResult::Reject(String::from_str(reason))
}

fn parent_block_late_checks(b: &BeaconBlockSummary, facts: &ParentBlockFacts) -> (r: Result<
    GossipValidationResult,
    String,
>)
    ensures
        match (r, parent_block_late_verdict(*b, *facts)) {
            (Ok(v), Ok(w)) => verdict_view(v) == w,
            (Err(m), Err(n)) => m@ == n,
            _ => false,
        },
{
    let finalized_root = match &facts.finalized_checkpoint {
        Err(m) => {
            return Err(copy_message(m));
        },
        Ok((_, root)) => *root,
    };
    let root = match &facts.checkpoint_block_root {
        Err(m) => {
            return Err(copy_message(m));
        },
        Ok(root) => *root,
    };
    if !roots_equal(&root, &finalized_root) {
        return Ok(reject("Finalized checkpoint is not an ancestor"));
    }
    let index = match &facts.expected_proposer_index {
        Err(m) => {
            return Err(copy_message(m));
        },
        Ok(index) => *index,
    };
    if index != b.proposer_index {
        return Ok(reject("Proposer index is incorrect"));
    }
    if b.timestamp != facts.expected_timestamp {
        return Ok(reject("Execution payload timestamp is incorrect"));
    }
    if facts.bls_change_seen {
        return Ok(ignore("Signature already received"));
    }
    if b.blob_kzg_commitment_count > MAX_BLOBS_PER_BLOCK_ELECTRA {
        return Ok(reject("Length of KZG commitments is greater than the limit"));
    }
    Ok(GossipValidationResult::Accept)
}

/// Validates a parent block from the store: the verdict, or the message of the error that
/// stopped the validation.
pub fn validate_parent_beacon_block(facts: &ParentBlockFacts) -> (r: Result<
    GossipValidationResult,
    String,
>)
    requires
        parent_arithmetic_fits(*facts),
    ensures
        match (r, parent_block_verdict(*facts)) {
            (Ok(v), Ok(w)) => verdict_view(v) == w,
            (Err(m), Err(n)) => m@ == n,
            _ => false,
        },
{
    let b = match &facts.block {
        Err(m) => {
            return Err(copy_message(m));
        },
        Ok(None) => {
            return Err(String::from_str("failed to get parent block"));
        },
        Ok(Some(b)) => *b,
    };
    let current = match &facts.current_slot {
        Err(m) => {
            return Err(copy_message(m));
        },
        Ok(slot) => *slot,
    };
    match &facts.state_found {
        Err(m) => {
            return Err(copy_message(m));
        },
        Ok(false) => {
            return Err(String::from_str("failed to get parent state"));
        },
        Ok(true) => {},
    }
    if b.slot > current {
        return Ok(ignore("Block is from a future slot"));
    }
    let epoch = match &facts.finalized_epoch {
        Err(m) => {
            return Err(copy_message(m));
        },
        Ok(epoch) => *epoch,
    };
    if b.slot <= epoch * SLOTS_PER_EPOCH {
        return Ok(ignore("Block is from a slot greater than the latest finalized slot"));
    }
    if !facts.proposer_known {
        return Err(String::from_str("Invalid proposer index"));
    }
    if facts.proposer_signature_seen {
        return Ok(ignore("Signature already received"));
    }
    match &facts.signature_valid {
        Err(m) => {
            return Err(copy_message(m));
        },
        Ok(false) => {
            return Ok(reject("Invalid signature"));
        },
        Ok(true) => {},
    }
    match &facts.parent_slot {
        Err(m) => {
            return Err(copy_message(m));
        },
        Ok(None) => {
            return Ok(ignore("Parent block not found"));
        },
        Ok(Some(parent)) => {
            if b.slot <= *parent {
                return Ok(reject("Block is from a higher slot than expected"));
            }
        },
    }
    parent_block_late_checks(&b, facts)
}

// ---------------------------------------------------------------------------
// Data column sidecars
// ---------------------------------------------------------------------------

/// The number of data columns.
pub const NUMBER_OF_COLUMNS: u64 = 128;

/// The number of data column sidecar subnets.
pub const DATA_COLUMN_SIDECAR_SUBNET_COUNT: u64 = 128;

/// The most blobs, and so KZG commitments, a sidecar may refer to.
pub const MAX_BLOBS_PER_BLOCK: u64 = 6;

/// The fields of a data column sidecar that its validation reads.
#[derive(Clone, Copy, Debug)]
pub struct SidecarSummary {
    pub index: u64,
    pub column_len: u64,
    pub kzg_commitment_count: u64,
    pub kzg_proof_count: u64,
    /// The slot of the sidecar's block header.
    pub slot: u64,
    /// The proposer index of the sidecar's block header.
    pub proposer_index: u64,
}

/// What the full validation of a sidecar learns, in the order it asks; a read that can
/// fail is held as its outcome.
#[derive(Debug)]
pub struct SidecarFacts {
    /// The current slot of the store.
    pub current_slot: Result<u64, String>,
    /// The finalized checkpoint (epoch and root).
    pub finalized_checkpoint: Result<(u64, [u8; 32]), String>,
    /// The head root.
    pub head_root: Result<[u8; 32], String>,
    /// Whether the store holds a state for the head root.
    pub head_state_found: Result<bool, String>,
    /// Whether the proposer signature on the block header verifies.
    pub header_signature_valid: Result<bool, String>,
    /// The slot of the header's parent block, if the store has it.
    pub parent_slot: Result<Option<u64>, String>,
    /// The root of the checkpoint block of the header's parent at the finalized epoch.
    pub checkpoint_block_root: Result<[u8; 32], String>,
    /// Whether the sidecar's inclusion proof verifies.
    pub inclusion_proof_valid: bool,
    /// Whether the sidecar's cells verify against its KZG commitments and proofs.
    pub kzg_proofs_valid: Result<bool, String>,
    /// Whether a sidecar with the same slot, proposer index and index was seen.
    pub seen: bool,
    /// The proposer index that the state gives for the header's slot, or the text of
    /// the error that computing it gave.
    pub expected_proposer_index: Result<u64, String>,
}

/// The structural checks of a sidecar: its index names a column, it has commitments but
/// no more than the blob limit, and its column, commitments and proofs are as many.
pub open spec fn sidecar_shape_verdict(s: SidecarSummary) -> Option<Seq<char>> {
    if s.index >= NUMBER_OF_COLUMNS {
        Some("Column index exceeds NUMBER_OF_COLUMNS"@)
    } else if s.kzg_commitment_count == 0 {
        Some("No KZG commitments in data column sidecar"@)
    } else if s.kzg_commitment_count > MAX_BLOBS_PER_BLOCK {
        Some("Too many KZG commitments in data column sidecar"@)
    } else if s.column_len != s.kzg_commitment_count || s.column_len != s.kzg_proof_count {
        Some("Mismatch in lengths of column, KZG commitments, and KZG proofs"@)
    } else {
        None
    }
}

/// The message for a sidecar whose proposer is not the expected one.
pub open spec fn wrong_proposer_message(slot: u64, expected: u64, got: u64) -> Seq<char> {
    "Wrong proposer index: slot "@ + decimal(slot as nat) + ": expected "@ + decimal(
        expected as nat,
    ) + ", got "@ + decimal(got as nat)
}

/// The checks of a sidecar from the duplicate check on, and whether it is recorded as seen.
pub open spec fn sidecar_tail_verdict(s: SidecarSummary, facts: SidecarFacts) -> (
    Result<(int, Seq<char>), Seq<char>>,
    bool,
) {
    if facts.seen {
        (Ok((1, "Duplicate data column sidecar for (slot, proposer_index, index)"@)), false)
    } else {
        (
            match facts.expected_proposer_index {
                Ok(expected) => {
                    if expected != s.proposer_index {
                        Ok((2, wrong_proposer_message(s.slot, expected, s.proposer_index)))
                    } else {
                        Ok((0, Seq::empty()))
                    }
                },
                Err(e) => Ok((2, "Could not get proposer index: "@ + e@)),
            },
            true,
        )
    }
}

/// The checks of a sidecar against the chain, after its shape and subnet.
pub open spec fn sidecar_chain_verdict(s: SidecarSummary, facts: SidecarFacts) -> (
    Result<(int, Seq<char>), Seq<char>>,
    bool,
) {
    match facts.current_slot {
        Err(m) => (Err(m@), false),
        Ok(current) => if s.slot > current {
            (Ok((1, "The sidecar is from a future slot"@)), false)
        } else {
            match facts.finalized_checkpoint {
                Err(m) => (Err(m@), false),
                Ok((epoch, finalized_root)) => match facts.head_root {
                    Err(m) => (Err(m@), false),
                    Ok(head) => match facts.head_state_found {
                        Err(m) => (Err(m@), false),
                        Ok(found) => if !found {
                            (Err("No beacon state found for head root: "@ + root_text(head)), false)
                        } else if s.slot <= epoch * SLOTS_PER_EPOCH {
                            (
                                Ok(
                                    (
                                        1,
                                        "The sidecar is from a slot less than or equal to the latest finalized slot"@,
                                    ),
                                ),
                                false,
                            )
                        } else {
                            match facts.header_signature_valid {
                                Err(m) => (Err(m@), false),
                                Ok(valid) => if !valid {
                                    (
                                        Ok(
                                            (
                                                2,
                                                "Invalid proposer signature on data column sidecar's block header"@,
                                            ),
                                        ),
                                        false,
                                    )
                                } else {
                                    match facts.parent_slot {
                                        Err(m) => (Err(m@), false),
                                        Ok(None) => (Ok((1, "Parent block not seen"@)), false),
                                        Ok(Some(parent)) => if s.slot <= parent {
                                            (
                                                Ok(
                                                    (
                                                        2,
                                                        "Sidecar slot not higher than parent block's slot"@,
                                                    ),
                                                ),
                                                false,
                                            )
                                        } else {
                                            match facts.checkpoint_block_root {
                                                Err(m) => (Err(m@), false),
                                                Ok(root) => if root != finalized_root {
                                                    (
                                                        Ok(
                                                            (
                                                                2,
                                                                "Finalized checkpoint is not an ancestor of the sidecar's block"@,
                                                            ),
                                                        ),
                                                        false,
                                                    )
                                                } else if !facts.inclusion_proof_valid {
                                                    (
                                                        Ok(
                                                            (
                                                                2,
                                                                "Invalid data column sidecar inclusion proof"@,
                                                            ),
                                                        ),
                                                        false,
                                                    )
                                                } else {
                                                    match facts.kzg_proofs_valid {
                                                        Err(m) => (Err(m@), false),
                                                        Ok(ok) => if !ok {
                                                            (
                                                                Ok(
                                                                    (
                                                                        2,
                                                                        "Invalid KZG proofs for data column sidecar"@,
                                                                    ),
                                                                ),
                                                                false,
                                                            )
                                                        } else {
                                                            sidecar_tail_verdict(s, facts)
                                                        },
                                                    }
                                                },
                                            }
                                        },
                                    }
                                },
                            }
                        },
                    },
                },
            }
        },
    }
}

/// What the full validation of a sidecar on subnet `subnet_id` answers, and whether it
/// records the sidecar as seen (it does once the sidecar passes the duplicate check):
/// the shape checks refuse; a sidecar whose column maps to another subnet is refused;
/// then the checks against the chain, in order.
pub open spec fn sidecar_verdict(s: SidecarSummary, subnet_id: u64, facts: SidecarFacts) -> (
    Result<(int, Seq<char>), Seq<char>>,
    bool,
) {
    match sidecar_shape_verdict(s) {
        Some(reason) => (Ok((2, reason)), false),
        None => if subnet_id != s.index % DATA_COLUMN_SIDECAR_SUBNET_COUNT {
            (Ok((2, "Column sidecar not for correct subnet"@)), false)
        } else {
            sidecar_chain_verdict(s, facts)
        },
    }
}

/// Every check that a sidecar must pass, stated on its fields and the facts: a column
/// index below the column count, between one and the blob limit of commitments, as many
/// cells and proofs as commitments, the subnet of its column, a slot no later than the
/// current one and after the finalized epoch's start, a stored head state, a valid
/// header signature, a known parent of an earlier slot, the finalized checkpoint as its
/// ancestor, a valid inclusion proof and valid KZG proofs.
pub open spec fn sidecar_passes_checks(s: SidecarSummary, subnet_id: u64, facts: SidecarFacts) -> bool {
    &&& s.index < 128
    &&& 1 <= s.kzg_commitment_count <= MAX_BLOBS_PER_BLOCK
    &&& s.column_len == s.kzg_commitment_count && s.kzg_proof_count == s.kzg_commitment_count
    &&& subnet_id == s.index % 128
    &&& facts.current_slot matches Ok(current) && s.slot <= current
    &&& facts.finalized_checkpoint matches Ok(fc) && s.slot > fc.0 * 32 && facts.checkpoint_block_root
        == Ok::<[u8; 32], String>(fc.1)
    &&& facts.head_root is Ok
    &&& facts.head_state_found == Ok::<bool, String>(true)
    &&& facts.header_signature_valid == Ok::<bool, String>(true)
    &&& facts.parent_slot matches Ok(Some(parent)) && parent < s.slot
    &&& facts.inclusion_proof_valid
    &&& facts.kzg_proofs_valid == Ok::<bool, String>(true)
}

/// A sidecar is recorded as seen exactly when it passes every check and was not seen
/// before; it is accepted exactly when, besides, its proposer is the expected one. So a
/// sidecar that fails any check (an invalid inclusion proof among them) is neither
/// accepted nor recorded.
pub proof fn sidecar_accepted_only_when_every_check_passes(
    s: SidecarSummary,
    subnet_id: u64,
    facts: SidecarFacts,
)
    ensures
        sidecar_verdict(s, subnet_id, facts).1 <==> (sidecar_passes_checks(s, subnet_id, facts)
            && !facts.seen),
        (sidecar_verdict(s, subnet_id, facts).0 matches Ok(v) && v.0 == 0) <==> (
        sidecar_passes_checks(s, subnet_id, facts) && !facts.seen && facts.expected_proposer_index
            == Ok::<u64, String>(s.proposer_index)),
{
}

/// Whether the start slot of the finalized epoch fits in a `u64`, where the validation
/// gets to it.
pub open spec fn sidecar_arithmetic_fits(s: SidecarSummary, subnet_id: u64, facts: SidecarFacts) -> bool {
    let reaches = {
        &&& sidecar_shape_verdict(s) is None
        &&& subnet_id == s.index % DATA_COLUMN_SIDECAR_SUBNET_COUNT
        &&& facts.current_slot matches Ok(current) && s.slot <= current
        &&& facts.finalized_checkpoint is Ok
        &&& facts.head_root is Ok
        &&& facts.head_state_found == Ok::<bool, String>(true)
    };
    reaches ==> facts.finalized_checkpoint->Ok_0.0 * SLOTS_PER_EPOCH <= u64::MAX
}

fn wrong_proposer_text(slot: u64, expected: u64, got: u64) -> (r: String)
    ensures
        r@ == wrong_proposer_message(slot, expected, got),
{
    let mut m = String::from_str("Wrong proposer index: slot ");
    push_decimal(&mut m, slot);
    m.append(": expected ");
    push_decimal(&mut m, expected);
    m.append(", got ");
    push_decimal(&mut m, got);
    m
}

fn prefixed(prefix: &str, text: &String) -> (r: String)
    ensures
        r@ == prefix@ + text@,
{
    let mut m = String::from_str(prefix);
    m.append(text.as_str());
    m
}

/// The structural checks of a sidecar.
pub fn validate_data_column_sidecar(s: &SidecarSummary) -> (r: GossipValidationResult)
    ensures
        verdict_view(r) == match sidecar_shape_verdict(*s) {
            Some(reason) => (2int, reason),
            None => (0int, Seq::<char>::empty()),
        },
{
    if s.index >= NUMBER_OF_COLUMNS {
        return reject("Column index exceeds NUMBER_OF_COLUMNS");
    }
    if s.kzg_commitment_count == 0 {
        return reject("No KZG commitments in data column sidecar");
    }
    if s.kzg_commitment_count > MAX_BLOBS_PER_BLOCK {
        return reject("Too many KZG commitments in data column sidecar");
    }
    if s.column_len != s.kzg_commitment_count || s.column_len != s.kzg_proof_count {
        return reject("Mismatch in lengths of column, KZG commitments, and KZG proofs");
    }
    GossipValidationResult::Accept
}

fn sidecar_tail_checks(s: &SidecarSummary, facts: &SidecarFacts) -> (r: (
    Result<GossipValidationResult, String>,
    bool,
))
    ensures
        r.1 == sidecar_tail_verdict(*s, *facts).1,
        match (r.0, sidecar_tail_verdict(*s, *facts).0) {
            (Ok(v), Ok(w)) => verdict_view(v) == w,
            (Err(m), Err(n)) => m@ == n,
            _ => false,
        },
{
    if facts.seen {
        return (Ok(ignore("Duplicate data column sidecar for (slot, proposer_index, index)")), false);
    }
    let verdict = match &facts.expected_proposer_index {
        Ok(expected) => {
            if *expected != s.proposer_index {
                GossipValidationResult::Reject(
                    wrong_proposer_text(s.slot, *expected, s.proposer_index),
                )
            } else {
                GossipValidationResult::Accept
            }
        },
        Err(e) => GossipValidationResult::Reject(prefixed("Could not get proposer index: ", e)),
    };
    (Ok(verdict), true)
}

/// Validates a data column sidecar received on subnet `subnet_id`: the verdict (or the
/// message of the error that stopped the validation), and whether the caller is to
/// record its slot, proposer index and index as seen.
pub fn validate_data_column_sidecar_full(
    s: &SidecarSummary,
    subnet_id: u64,
    facts: &SidecarFacts,
) -> (r: (Result<GossipValidationResult, String>, bool))
    requires
        sidecar_arithmetic_fits(*s, subnet_id, *facts),
    ensures
        r.1 == sidecar_verdict(*s, subnet_id, *facts).1,
        match (r.0, sidecar_verdict(*s, subnet_id, *facts).0) {
            (Ok(v), Ok(w)) => verdict_view(v) == w,
            (Err(m), Err(n)) => m@ == n,
            _ => false,
        },
{
    let shape = validate_data_column_sidecar(s);
    match shape {
        GossipValidationResult::Accept => {},
        _ => {
            return (Ok(shape), false);
        },
    }
    if subnet_id != s.index % DATA_COLUMN_SIDECAR_SUBNET_COUNT {
        return (Ok(reject("Column sidecar not for correct subnet")), false);
    }
    let current = match &facts.current_slot {
        Err(m) => {
            return (Err(copy_message(m)), false);
        },
        Ok(slot) => *slot,
    };
    if s.slot > current {
        return (Ok(ignore("The sidecar is from a future slot")), false);
    }
    let (epoch, finalized_root) = match &facts.finalized_checkpoint {
        Err(m) => {
            return (Err(copy_message(m)), false);
        },
        Ok(checkpoint) => *checkpoint,
    };
    let head = match &facts.head_root {
        Err(m) => {
            return (Err(copy_message(m)), false);
        },
        Ok(root) => *root,
    };
    match &facts.head_state_found {
        Err(m) => {
            return (Err(copy_message(m)), false);
        },
        Ok(false) => {
            return (Err(error_naming_root("No beacon state found for head root: ", &head)), false);
        },
        Ok(true) => {},
    }
    if s.slot <= epoch * SLOTS_PER_EPOCH {
        return (
            Ok(ignore("The sidecar is from a slot less than or equal to the latest finalized slot")),
            false,
        );
    }
    match &facts.header_signature_valid {
        Err(m) => {
            return (Err(copy_message(m)), false);
        },
        Ok(false) => {
            return (
                Ok(reject("Invalid proposer signature on data column sidecar's block header")),
                false,
            );
        },
        Ok(true) => {},
    }
    match &facts.parent_slot {
        Err(m) => {
            return (Err(copy_message(m)), false);
        },
        Ok(None) => {
            return (Ok(ignore("Parent block not seen")), false);
        },
        Ok(Some(parent)) => {
            if s.slot <= *parent {
                return (Ok(reject("Sidecar slot not higher than parent block's slot")), false);
            }
        },
    }
    let root = match &facts.checkpoint_block_root {
        Err(m) => {
            return (Err(copy_message(m)), false);
        },
        Ok(root) => *root,
    };
    if !roots_equal(&root, &finalized_root) {
        return (
            Ok(reject("Finalized checkpoint is not an ancestor of the sidecar's block")),
            false,
        );
    }
    if !facts.inclusion_proof_valid {
        return (Ok(reject("Invalid data column sidecar inclusion proof")), false);
    }
    match &facts.kzg_proofs_valid {
        Err(m) => {
            return (Err(copy_message(m)), false);
        },
        Ok(false) => {
            return (Ok(reject("Invalid KZG proofs for data column sidecar")), false);
        },
        Ok(true) => {},
    }
    sidecar_tail_checks(s, facts)
}

} // verus!
