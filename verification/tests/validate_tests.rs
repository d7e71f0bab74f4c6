use ream_networking::validate::{
    validate_beacon_block, validate_parent_beacon_block,
    validate_sync_committee_contribution_and_proof, BeaconBlockFacts, BeaconBlockSummary,
    ContributionFacts, ContributionSummary, GossipValidationResult, HeadSyncState, ParentBlockFacts,
    ValidationResult,
};

fn block() -> BeaconBlockSummary {
    BeaconBlockSummary {
        slot: 100,
        proposer_index: 7,
        parent_root: [3; 32],
        timestamp: 1_000,
        blob_kzg_commitment_count: 2,
        bls_to_execution_change_count: 10,
    }
}

/// Facts under which every check passes.
fn passing_facts() -> BeaconBlockFacts {
    BeaconBlockFacts {
        latest_block_slot: Ok(99),
        latest_state: Ok(()),
        finalized_epoch: Ok(2),
        proposer_known: true,
        proposer_signature_seen: false,
        signature_valid: Ok(true),
        parent_slot: Ok(Some(99)),
        finalized_checkpoint: Ok((2, [0x0f; 32])),
        checkpoint_block_root: Ok([0x0f; 32]),
        expected_proposer_index: Ok(7),
        expected_timestamp: 1_000,
        bls_change_seen: false,
    }
}

#[test]
fn beacon_block_passing_every_check_is_accepted() {
    assert_eq!(validate_beacon_block(&block(), &passing_facts()), Ok(ValidationResult::Accept));
}

#[test]
fn beacon_block_checks_decide_in_order() {
    let mut facts = passing_facts();
    facts.latest_block_slot = Ok(101);
    assert_eq!(validate_beacon_block(&block(), &facts), Ok(ValidationResult::Ignore));

    let mut facts = passing_facts();
    facts.finalized_epoch = Ok(4);
    assert_eq!(validate_beacon_block(&block(), &facts), Ok(ValidationResult::Ignore));

    let mut facts = passing_facts();
    facts.proposer_known = false;
    assert_eq!(validate_beacon_block(&block(), &facts), Err("Invalid proposer index".to_string()));

    let mut facts = passing_facts();
    facts.signature_valid = Ok(false);
    assert_eq!(validate_beacon_block(&block(), &facts), Ok(ValidationResult::Reject));

    let mut facts = passing_facts();
    facts.parent_slot = Ok(Some(98));
    assert_eq!(validate_beacon_block(&block(), &facts), Ok(ValidationResult::Reject));

    let mut facts = passing_facts();
    facts.parent_slot = Ok(None);
    assert_eq!(validate_beacon_block(&block(), &facts), Ok(ValidationResult::Ignore));

    // The complement of the checkpoint block's root equals the finalized root.
    let mut facts = passing_facts();
    facts.checkpoint_block_root = Ok([0xf0; 32]);
    assert_eq!(validate_beacon_block(&block(), &facts), Ok(ValidationResult::Reject));

    let mut facts = passing_facts();
    facts.expected_proposer_index = Ok(!7u64);
    assert_eq!(validate_beacon_block(&block(), &facts), Ok(ValidationResult::Reject));

    let mut facts = passing_facts();
    facts.expected_timestamp = !1_000u64;
    assert_eq!(validate_beacon_block(&block(), &facts), Ok(ValidationResult::Reject));

    let mut b = block();
    b.bls_to_execution_change_count = 7;
    assert_eq!(
        validate_beacon_block(&b, &passing_facts()),
        Err("Invalid index for signed bls to execution change".to_string())
    );

    let mut facts = passing_facts();
    facts.bls_change_seen = true;
    assert_eq!(validate_beacon_block(&block(), &facts), Ok(ValidationResult::Ignore));

    let mut b = block();
    b.blob_kzg_commitment_count = 10;
    assert_eq!(validate_beacon_block(&b, &passing_facts()), Ok(ValidationResult::Reject));
}

#[test]
fn beacon_block_read_errors_come_back() {
    let mut facts = passing_facts();
    facts.latest_state = Err("state missing".to_string());
    assert_eq!(validate_beacon_block(&block(), &facts), Err("state missing".to_string()));

    // An earlier check decides before a later read's error matters.
    let mut facts = passing_facts();
    facts.latest_block_slot = Ok(101);
    facts.finalized_epoch = Err("unreachable".to_string());
    assert_eq!(validate_beacon_block(&block(), &facts), Ok(ValidationResult::Ignore));
}

fn contribution() -> ContributionSummary {
    ContributionSummary {
        slot: 64,
        subcommittee_index: 1,
        participant_count: 0,
        selection_proof_is_aggregator: true,
    }
}

/// A distinct public key for each `n` below 65536, tagged to tell committees apart.
fn key(tag: u8, n: usize) -> [u8; 48] {
    let mut k = [tag; 48];
    k[0] = (n & 0xff) as u8;
    k[1] = (n >> 8) as u8;
    k
}

fn committee(tag: u8) -> Vec<[u8; 48]> {
    (0..512).map(|n| key(tag, n)).collect()
}

/// A head state at slot 70 (epoch 2), whose aggregator is member 130 of the current
/// committee, in subcommittee 1.
fn head_state() -> HeadSyncState {
    HeadSyncState {
        slot: 70,
        current_sync_committee: committee(0xc0),
        next_sync_committee: committee(0xe0),
        aggregator_pubkey: Some(key(0xc0, 130)),
    }
}

/// Facts under which every check passes.
fn head_facts() -> ContributionFacts {
    ContributionFacts {
        head_root: Ok([0xab; 32]),
        head_block_slot: Ok(Some(70)),
        head_state: Ok(Some(head_state())),
        contribution_seen: false,
        aggregator_message_seen: false,
        selection_proof_valid: Ok(true),
        aggregate_signature_valid: Ok(true),
        aggregator_signature_valid: Ok(true),
    }
}

fn decided_ignore(reason: &str) -> (Result<GossipValidationResult, String>, bool, bool) {
    (Ok(GossipValidationResult::Ignore(reason.to_string())), false, false)
}

fn decided_reject(reason: &str) -> (Result<GossipValidationResult, String>, bool, bool) {
    (Ok(GossipValidationResult::Reject(reason.to_string())), false, false)
}

#[test]
fn contribution_passing_every_check_is_accepted_and_recorded() {
    assert_eq!(
        validate_sync_committee_contribution_and_proof(&contribution(), &head_facts()),
        (Ok(GossipValidationResult::Accept), true, true)
    );
}

#[test]
fn contribution_checks_decide_in_order() {
    let mut c = contribution();
    c.slot = 71;
    assert_eq!(
        validate_sync_committee_contribution_and_proof(&c, &head_facts()),
        decided_ignore("Contribution is from a future slot")
    );

    let mut c = contribution();
    c.slot = 10;
    assert_eq!(
        validate_sync_committee_contribution_and_proof(&c, &head_facts()),
        decided_ignore("Contribution is from a epoch too far in the past")
    );

    let mut c = contribution();
    c.subcommittee_index = 4;
    assert_eq!(
        validate_sync_committee_contribution_and_proof(&c, &head_facts()),
        decided_reject("The subcommittee index is out of range")
    );

    let mut c = contribution();
    c.participant_count = 3;
    assert_eq!(
        validate_sync_committee_contribution_and_proof(&c, &head_facts()),
        decided_reject("The contribution has too many participants")
    );

    let mut c = contribution();
    c.selection_proof_is_aggregator = false;
    assert_eq!(
        validate_sync_committee_contribution_and_proof(&c, &head_facts()),
        decided_reject("The selection proof is not a valid aggregator")
    );

    let mut facts = head_facts();
    facts.head_state = Ok(Some(HeadSyncState { aggregator_pubkey: Some(key(0xc0, 5)), ..head_state() }));
    assert_eq!(
        validate_sync_committee_contribution_and_proof(&contribution(), &facts),
        decided_reject("The aggregator is not in the subcommittee")
    );

    let mut facts = head_facts();
    facts.contribution_seen = true;
    assert_eq!(
        validate_sync_committee_contribution_and_proof(&contribution(), &facts),
        decided_ignore(
            "A valid sync committee contribution with equal slot, beacon_block_root and subcommittee_index has already been seen"
        )
    );

    let mut facts = head_facts();
    facts.aggregator_message_seen = true;
    assert_eq!(
        validate_sync_committee_contribution_and_proof(&contribution(), &facts),
        (
            Ok(GossipValidationResult::Ignore(
                "A valid sync committee contribution for this aggregator, slot and subcommittee index has already been seen"
                    .to_string()
            )),
            true,
            false
        )
    );

    let mut facts = head_facts();
    facts.selection_proof_valid = Ok(false);
    assert_eq!(
        validate_sync_committee_contribution_and_proof(&contribution(), &facts),
        (
            Ok(GossipValidationResult::Reject(
                "The selection proof is not a valid signature".to_string()
            )),
            true,
            true
        )
    );

    let mut facts = head_facts();
    facts.aggregate_signature_valid = Ok(false);
    assert_eq!(
        validate_sync_committee_contribution_and_proof(&contribution(), &facts).0,
        Ok(GossipValidationResult::Reject("The aggregate signature is not valid".to_string()))
    );

    let mut facts = head_facts();
    facts.aggregator_signature_valid = Err("bad key".to_string());
    assert_eq!(
        validate_sync_committee_contribution_and_proof(&contribution(), &facts),
        (Err("bad key".to_string()), true, true)
    );
}

#[test]
fn contribution_errors_name_the_head_root() {
    let mut facts = head_facts();
    facts.head_block_slot = Ok(None);
    let expected = format!("Could not get block for head root: 0x{}", "ab".repeat(32));
    assert_eq!(
        validate_sync_committee_contribution_and_proof(&contribution(), &facts),
        (Err(expected), false, false)
    );

    let mut facts = head_facts();
    facts.head_state = Ok(None);
    let expected = format!("No beacon state found for head root: 0x{}", "ab".repeat(32));
    assert_eq!(
        validate_sync_committee_contribution_and_proof(&contribution(), &facts),
        (Err(expected), false, false)
    );
}

fn parent_facts() -> ParentBlockFacts {
    ParentBlockFacts {
        block: Ok(Some(block())),
        current_slot: Ok(120),
        state_found: Ok(true),
        finalized_epoch: Ok(2),
        proposer_known: true,
        proposer_signature_seen: false,
        signature_valid: Ok(true),
        parent_slot: Ok(Some(99)),
        finalized_checkpoint: Ok((2, [0x0f; 32])),
        checkpoint_block_root: Ok([0x0f; 32]),
        expected_proposer_index: Ok(7),
        expected_timestamp: 1_000,
        bls_change_seen: false,
    }
}

fn ignored(reason: &str) -> Result<GossipValidationResult, String> {
    Ok(GossipValidationResult::Ignore(reason.to_string()))
}

fn rejected(reason: &str) -> Result<GossipValidationResult, String> {
    Ok(GossipValidationResult::Reject(reason.to_string()))
}

#[test]
fn parent_block_passing_every_check_is_accepted() {
    assert_eq!(validate_parent_beacon_block(&parent_facts()), Ok(GossipValidationResult::Accept));
}

#[test]
fn parent_block_checks_decide_in_order() {
    let mut facts = parent_facts();
    facts.block = Ok(None);
    assert_eq!(validate_parent_beacon_block(&facts), Err("failed to get parent block".to_string()));

    let mut facts = parent_facts();
    facts.state_found = Ok(false);
    assert_eq!(validate_parent_beacon_block(&facts), Err("failed to get parent state".to_string()));

    let mut facts = parent_facts();
    facts.current_slot = Ok(99);
    assert_eq!(validate_parent_beacon_block(&facts), ignored("Block is from a future slot"));

    let mut facts = parent_facts();
    facts.finalized_epoch = Ok(4);
    assert_eq!(
        validate_parent_beacon_block(&facts),
        ignored("Block is from a slot greater than the latest finalized slot")
    );

    let mut facts = parent_facts();
    facts.proposer_signature_seen = true;
    assert_eq!(validate_parent_beacon_block(&facts), ignored("Signature already received"));

    let mut facts = parent_facts();
    facts.signature_valid = Ok(false);
    assert_eq!(validate_parent_beacon_block(&facts), rejected("Invalid signature"));

    let mut facts = parent_facts();
    facts.parent_slot = Ok(None);
    assert_eq!(validate_parent_beacon_block(&facts), ignored("Parent block not found"));

    let mut facts = parent_facts();
    facts.parent_slot = Ok(Some(100));
    assert_eq!(
        validate_parent_beacon_block(&facts),
        rejected("Block is from a higher slot than expected")
    );

    let mut facts = parent_facts();
    facts.checkpoint_block_root = Ok([0xf0; 32]);
    assert_eq!(
        validate_parent_beacon_block(&facts),
        rejected("Finalized checkpoint is not an ancestor")
    );

    let mut facts = parent_facts();
    facts.expected_proposer_index = Ok(8);
    assert_eq!(validate_parent_beacon_block(&facts), rejected("Proposer index is incorrect"));

    let mut facts = parent_facts();
    facts.expected_timestamp = 999;
    assert_eq!(
        validate_parent_beacon_block(&facts),
        rejected("Execution payload timestamp is incorrect")
    );

    let mut facts = parent_facts();
    facts.bls_change_seen = true;
    assert_eq!(validate_parent_beacon_block(&facts), ignored("Signature already received"));

    let mut b = block();
    b.blob_kzg_commitment_count = 10;
    let mut facts = parent_facts();
    facts.block = Ok(Some(b));
    assert_eq!(
        validate_parent_beacon_block(&facts),
        rejected("Length of KZG commitments is greater than the limit")
    );
}

use ream_networking::light_client::{
    validate_light_client_finality_update, validate_light_client_optimistic_update,
    FinalityUpdateSummary, ForwardedFinality, GossipClock, OptimisticUpdateFacts,
};

fn clock(now_secs: u64) -> GossipClock {
    GossipClock {
        now_secs,
        genesis_time: 1_000,
        seconds_per_slot: 12,
        maximum_gossip_clock_disparity: 1,
    }
}

fn encoded(slot: u64, participation_count: u64) -> Vec<u8> {
    let mut bytes = slot.to_le_bytes().to_vec();
    bytes.extend_from_slice(&participation_count.to_le_bytes());
    bytes
}

fn finality_update(slot: u64, participation_count: u64) -> FinalityUpdateSummary {
    FinalityUpdateSummary { finalized_slot: slot, participation_count, signature_slot: 10 }
}

#[test]
fn finality_updates_are_forwarded_in_slot_order() {
    // The signature slot starts at 1000 + 10 * 12 = 1120; forwarding opens at 1120 + 4 - 1.
    let mut seen = None;
    let mut forwarded = None;
    assert_eq!(
        validate_light_client_finality_update(&finality_update(50, 300), &encoded(50, 300), &mut seen, &mut forwarded, &clock(1_122)),
        GossipValidationResult::Ignore("Too early".to_string())
    );
    assert_eq!(seen, None);
    assert_eq!(forwarded, None);
    assert_eq!(
        validate_light_client_finality_update(&finality_update(50, 300), &encoded(50, 300), &mut seen, &mut forwarded, &clock(1_123)),
        GossipValidationResult::Accept
    );
    assert_eq!(seen, Some(ForwardedFinality { slot: 50, supermajority: false }));
    assert_eq!(forwarded, Some(encoded(50, 300)));

    assert_eq!(
        validate_light_client_finality_update(&finality_update(49, 500), &encoded(49, 500), &mut seen, &mut forwarded, &clock(2_000)),
        GossipValidationResult::Ignore(
            "Finality update slot is less than the last forwarded update slot".to_string()
        )
    );
    assert_eq!(
        validate_light_client_finality_update(&finality_update(50, 300), &encoded(50, 300), &mut seen, &mut forwarded, &clock(2_000)),
        GossipValidationResult::Ignore("Worse than previous update".to_string())
    );
    // 342 of 512 is more than two thirds.
    assert_eq!(
        validate_light_client_finality_update(&finality_update(50, 342), &encoded(50, 342), &mut seen, &mut forwarded, &clock(2_000)),
        GossipValidationResult::Accept
    );
    assert_eq!(seen, Some(ForwardedFinality { slot: 50, supermajority: true }));
    assert_eq!(forwarded, Some(encoded(50, 342)));
    assert_eq!(
        validate_light_client_finality_update(&finality_update(50, 512), &encoded(50, 512), &mut seen, &mut forwarded, &clock(2_000)),
        GossipValidationResult::Ignore("Finality update already gossiped".to_string())
    );
    assert_eq!(forwarded, Some(encoded(50, 342)));
    assert_eq!(
        validate_light_client_finality_update(&finality_update(51, 0), &encoded(51, 0), &mut seen, &mut forwarded, &clock(2_000)),
        GossipValidationResult::Accept
    );
    assert_eq!(seen, Some(ForwardedFinality { slot: 51, supermajority: false }));
    assert_eq!(forwarded, Some(encoded(51, 0)));
}

#[test]
fn optimistic_updates_must_be_newer_than_the_last_forwarded() {
    let facts = OptimisticUpdateFacts {
        attested_slot: 10,
        head_root: Ok([1; 32]),
        head_state_found: Ok(true),
        last_forwarded_slot: Some(10),
    };
    assert_eq!(
        validate_light_client_optimistic_update(&facts),
        Ok(GossipValidationResult::Ignore(
            "Optimistic update slot is older than previously forwarded update".to_string()
        ))
    );
    let facts = OptimisticUpdateFacts { last_forwarded_slot: Some(9), ..facts };
    assert_eq!(validate_light_client_optimistic_update(&facts), Ok(GossipValidationResult::Accept));
    let facts = OptimisticUpdateFacts { last_forwarded_slot: None, ..facts };
    assert_eq!(validate_light_client_optimistic_update(&facts), Ok(GossipValidationResult::Accept));
    let facts = OptimisticUpdateFacts { head_state_found: Ok(false), ..facts };
    assert_eq!(
        validate_light_client_optimistic_update(&facts),
        Err(format!("Could not get beacon state: 0x{}", "01".repeat(32)))
    );
}

use ream_networking::validate::{
    validate_data_column_sidecar, validate_data_column_sidecar_full, SidecarFacts, SidecarSummary,
};

fn sidecar() -> SidecarSummary {
    SidecarSummary {
        index: 5,
        column_len: 3,
        kzg_commitment_count: 3,
        kzg_proof_count: 3,
        slot: 100,
        proposer_index: 7,
    }
}

fn sidecar_facts() -> SidecarFacts {
    SidecarFacts {
        current_slot: Ok(120),
        finalized_checkpoint: Ok((2, [0x0f; 32])),
        head_root: Ok([0xcd; 32]),
        head_state_found: Ok(true),
        header_signature_valid: Ok(true),
        parent_slot: Ok(Some(99)),
        checkpoint_block_root: Ok([0x0f; 32]),
        inclusion_proof_valid: true,
        kzg_proofs_valid: Ok(true),
        seen: false,
        expected_proposer_index: Ok(7),
    }
}

#[test]
fn sidecar_shape_checks() {
    let mut s = sidecar();
    s.index = 5;
    assert_eq!(validate_data_column_sidecar(&s), GossipValidationResult::Accept);
    s.index = 128;
    assert_eq!(
        validate_data_column_sidecar(&s),
        GossipValidationResult::Reject("Column index exceeds NUMBER_OF_COLUMNS".to_string())
    );
    let mut s = sidecar();
    s.index = 5;
    s.kzg_commitment_count = 0;
    assert_eq!(
        validate_data_column_sidecar(&s),
        GossipValidationResult::Reject("No KZG commitments in data column sidecar".to_string())
    );
    s.kzg_commitment_count = 7;
    assert_eq!(
        validate_data_column_sidecar(&s),
        GossipValidationResult::Reject("Too many KZG commitments in data column sidecar".to_string())
    );
    s.kzg_commitment_count = 3;
    s.kzg_proof_count = 2;
    assert_eq!(
        validate_data_column_sidecar(&s),
        GossipValidationResult::Reject(
            "Mismatch in lengths of column, KZG commitments, and KZG proofs".to_string()
        )
    );
}

#[test]
fn sidecar_full_validation_records_what_passes_the_duplicate_check() {
    let mut s = sidecar();
    s.index = 5;
    assert_eq!(
        validate_data_column_sidecar_full(&s, 5, &sidecar_facts()),
        (Ok(GossipValidationResult::Accept), true)
    );
    assert_eq!(
        validate_data_column_sidecar_full(&s, 6, &sidecar_facts()),
        (Ok(GossipValidationResult::Reject("Column sidecar not for correct subnet".to_string())), false)
    );

    let mut facts = sidecar_facts();
    facts.seen = true;
    assert_eq!(
        validate_data_column_sidecar_full(&s, 5, &facts),
        (
            Ok(GossipValidationResult::Ignore(
                "Duplicate data column sidecar for (slot, proposer_index, index)".to_string()
            )),
            false
        )
    );

    let mut facts = sidecar_facts();
    facts.expected_proposer_index = Ok(9);
    assert_eq!(
        validate_data_column_sidecar_full(&s, 5, &facts),
        (
            Ok(GossipValidationResult::Reject(
                "Wrong proposer index: slot 100: expected 9, got 7".to_string()
            )),
            true
        )
    );

    let mut facts = sidecar_facts();
    facts.expected_proposer_index = Err("NoValidators".to_string());
    assert_eq!(
        validate_data_column_sidecar_full(&s, 5, &facts),
        (
            Ok(GossipValidationResult::Reject("Could not get proposer index: NoValidators".to_string())),
            true
        )
    );

    let mut facts = sidecar_facts();
    facts.parent_slot = Ok(Some(100));
    assert_eq!(
        validate_data_column_sidecar_full(&s, 5, &facts),
        (
            Ok(GossipValidationResult::Reject(
                "Sidecar slot not higher than parent block's slot".to_string()
            )),
            false
        )
    );

    let mut facts = sidecar_facts();
    facts.head_state_found = Ok(false);
    assert_eq!(
        validate_data_column_sidecar_full(&s, 5, &facts),
        (Err(format!("No beacon state found for head root: 0x{}", "cd".repeat(32))), false)
    );

    let mut facts = sidecar_facts();
    facts.kzg_proofs_valid = Ok(false);
    assert_eq!(
        validate_data_column_sidecar_full(&s, 5, &facts),
        (Ok(GossipValidationResult::Reject("Invalid KZG proofs for data column sidecar".to_string())), false)
    );
}

use ream_networking::validate::{gossip_acceptance, MessageAcceptance};

#[test]
fn verdicts_map_to_acceptances() {
    assert_eq!(gossip_acceptance(&GossipValidationResult::Accept), MessageAcceptance::Accept);
    assert_eq!(
        gossip_acceptance(&GossipValidationResult::Ignore("Too early".to_string())),
        MessageAcceptance::Ignore
    );
    assert_eq!(
        gossip_acceptance(&GossipValidationResult::Reject("Invalid signature".to_string())),
        MessageAcceptance::Reject
    );
}

use ream_networking::sync_committee::get_sync_subcommittee_pubkeys;

#[test]
fn subcommittee_keys_come_from_the_serving_committee() {
    let current = committee(0xc0);
    let next = committee(0xe0);
    // Slot 70 and slot 71 share a period: the current committee serves.
    let keys = get_sync_subcommittee_pubkeys(70, &current, &next, 1);
    assert_eq!(keys.len(), 128);
    assert_eq!(keys[0], key(0xc0, 128));
    assert_eq!(keys[127], key(0xc0, 255));
    // The last slot of period 0 (epoch 255): the next slot starts period 1.
    let keys = get_sync_subcommittee_pubkeys(256 * 32 - 1, &current, &next, 3);
    assert_eq!(keys[0], key(0xe0, 384));
    assert_eq!(keys[127], key(0xe0, 511));
}

#[test]
fn aggregator_membership_follows_the_serving_committee() {
    // At the period's last slot the next committee serves, in which the
    // aggregator's current key is not found.
    let mut facts = head_facts();
    facts.head_block_slot = Ok(Some(256 * 32 - 1));
    facts.head_state = Ok(Some(HeadSyncState { slot: 256 * 32 - 1, ..head_state() }));
    let mut c = contribution();
    c.slot = 256 * 32 - 2;
    assert_eq!(
        validate_sync_committee_contribution_and_proof(&c, &facts),
        decided_reject("The aggregator is not in the subcommittee")
    );
    facts.head_state = Ok(Some(HeadSyncState {
        slot: 256 * 32 - 1,
        aggregator_pubkey: Some(key(0xe0, 130)),
        ..head_state()
    }));
    assert_eq!(
        validate_sync_committee_contribution_and_proof(&c, &facts),
        (Ok(GossipValidationResult::Accept), true, true)
    );
}

use ream_networking::validate::{gossip_decision, GossipDecision, GossipMessageKind};

#[test]
fn gossip_handling_reports_verdicts_and_takes_in_accepted_messages() {
    let accepted = Ok(GossipValidationResult::Accept);
    assert_eq!(
        gossip_decision(Some(GossipMessageKind::BeaconBlock), &accepted),
        GossipDecision { report: Some(MessageAcceptance::Accept), take_in: true }
    );
    assert_eq!(
        gossip_decision(Some(GossipMessageKind::VoluntaryExit), &accepted),
        GossipDecision { report: Some(MessageAcceptance::Accept), take_in: false }
    );
    assert_eq!(
        gossip_decision(
            Some(GossipMessageKind::BlobSidecar),
            &Ok(GossipValidationResult::Ignore("seen".to_string()))
        ),
        GossipDecision { report: Some(MessageAcceptance::Ignore), take_in: false }
    );
    assert_eq!(
        gossip_decision(
            Some(GossipMessageKind::DataColumnSidecar),
            &Ok(GossipValidationResult::Reject("bad".to_string()))
        ),
        GossipDecision { report: Some(MessageAcceptance::Reject), take_in: false }
    );
    // A failed validation or a message that did not decode is neither reported nor taken in.
    assert_eq!(
        gossip_decision(Some(GossipMessageKind::BeaconAttestation), &Err("store".to_string())),
        GossipDecision { report: None, take_in: false }
    );
    assert_eq!(gossip_decision(None, &accepted), GossipDecision { report: None, take_in: false });
}
