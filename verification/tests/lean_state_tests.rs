use ream_networking::lean_state::{Checkpoint, ConnectionState, Direction, NetworkState, PeerId};

fn checkpoint(byte: u8, slot: u64) -> Checkpoint {
    Checkpoint { root: [byte; 32], slot }
}

/// A distinct peer id for each `n`.
fn peer(n: u8) -> PeerId {
    PeerId(vec![0x00, 0x24, 0x08, 0x01, n])
}

fn connect_all(network_state: &mut NetworkState, peers: &[u8]) {
    for n in peers {
        network_state.upsert_peer(peer(*n), None, ConnectionState::Connected, Direction::Outbound);
    }
}

fn set_score(network_state: &mut NetworkState, n: u8, score: u8) {
    for cached_peer in network_state.peer_table.iter_mut() {
        if cached_peer.peer_id.0 == peer(n).0 {
            cached_peer.peer_score = score;
        }
    }
}

#[test]
fn common_highest_checkpoint_returns_none_for_singleton_outlier_tie() {
    let mut network_state = NetworkState::new(checkpoint(0x01, 0), checkpoint(0x01, 0));
    connect_all(&mut network_state, &[1, 2]);
    network_state.update_peer_checkpoints(peer(1), checkpoint(0x10, 40), checkpoint(0x20, 10));
    network_state.update_peer_checkpoints(peer(2), checkpoint(0x11, 224), checkpoint(0x21, 211));

    assert_eq!(network_state.common_highest_checkpoint(), None);
    assert_eq!(network_state.common_finalized_checkpoint(), None);
}

#[test]
fn common_highest_checkpoint_prefers_agreed_checkpoint_over_outlier() {
    let mut network_state = NetworkState::new(checkpoint(0x01, 0), checkpoint(0x01, 0));
    connect_all(&mut network_state, &[1, 2, 3]);

    let agreed_head = checkpoint(0x30, 40);
    let agreed_finalized = checkpoint(0x31, 30);
    network_state.update_peer_checkpoints(peer(1), agreed_head, agreed_finalized);
    network_state.update_peer_checkpoints(peer(2), agreed_head, agreed_finalized);
    network_state.update_peer_checkpoints(peer(3), checkpoint(0x40, 224), checkpoint(0x41, 211));

    assert_eq!(network_state.common_highest_checkpoint(), Some(agreed_head));
    assert_eq!(network_state.common_finalized_checkpoint(), Some(agreed_finalized));
}

#[test]
fn connected_peer_queries_filter_by_head_checkpoint_and_slot() {
    let mut network_state = NetworkState::new(checkpoint(0x01, 0), checkpoint(0x01, 0));
    let target_head = checkpoint(0x30, 40);
    connect_all(&mut network_state, &[1, 2, 3]);

    network_state.update_peer_checkpoints(peer(1), target_head, checkpoint(0x20, 10));
    network_state.update_peer_checkpoints(peer(2), checkpoint(0x31, 39), checkpoint(0x21, 10));
    network_state.update_peer_checkpoints(peer(3), target_head, checkpoint(0x22, 10));

    let matching = network_state.connected_peer_ids_with_scores_matching_head(target_head);
    assert_eq!(matching.len(), 2);
    assert!(matching.iter().any(|(peer_id, _)| peer_id.0 == peer(1).0));
    assert!(matching.iter().any(|(peer_id, _)| peer_id.0 == peer(3).0));

    let at_or_above = network_state.connected_peer_ids_with_scores_at_or_above_slot(40);
    assert_eq!(at_or_above.len(), 2);
    assert!(at_or_above.iter().any(|(peer_id, _)| peer_id.0 == peer(1).0));
    assert!(at_or_above.iter().any(|(peer_id, _)| peer_id.0 == peer(3).0));
    assert!(!at_or_above.iter().any(|(peer_id, _)| peer_id.0 == peer(2).0));
}

#[test]
fn preferred_highest_checkpoint_uses_small_devnet_fallback_for_two_peer_split() {
    let mut network_state = NetworkState::new(checkpoint(0x01, 0), checkpoint(0x01, 0));
    let shared_finalized = checkpoint(0x20, 10);
    let lower_head = checkpoint(0x30, 40);
    let higher_head = checkpoint(0x31, 224);
    connect_all(&mut network_state, &[1, 2]);

    network_state.update_peer_checkpoints(peer(1), lower_head, shared_finalized);
    network_state.update_peer_checkpoints(peer(2), higher_head, shared_finalized);

    assert_eq!(network_state.common_highest_checkpoint(), None);
    assert_eq!(network_state.preferred_highest_checkpoint(), Some(higher_head));
}

#[test]
fn preferred_highest_checkpoint_falls_back_to_highest_scored_peer_when_finalized_split() {
    let mut network_state = NetworkState::new(checkpoint(0x01, 0), checkpoint(0x01, 0));
    let peer_a_head = checkpoint(0x30, 40);
    let peer_b_head = checkpoint(0x31, 224);
    connect_all(&mut network_state, &[1, 2]);

    network_state.update_peer_checkpoints(peer(1), peer_a_head, checkpoint(0x20, 10));
    network_state.update_peer_checkpoints(peer(2), peer_b_head, checkpoint(0x21, 211));

    set_score(&mut network_state, 1, 240);
    set_score(&mut network_state, 2, 120);

    assert_eq!(network_state.common_highest_checkpoint(), None);
    assert_eq!(network_state.common_finalized_checkpoint(), None);
    assert_eq!(network_state.preferred_highest_checkpoint(), Some(peer_a_head));
}

#[test]
fn preferred_highest_checkpoint_uses_highest_checkpoint_in_slot_cluster() {
    let mut network_state = NetworkState::new(checkpoint(0x01, 0), checkpoint(0x01, 0));
    let shared_finalized = checkpoint(0x20, 10);
    connect_all(&mut network_state, &[1, 2, 3, 4]);

    let preferred_head = checkpoint(0x33, 103);
    network_state.update_peer_checkpoints(peer(1), checkpoint(0x30, 100), shared_finalized);
    network_state.update_peer_checkpoints(peer(2), checkpoint(0x31, 101), shared_finalized);
    network_state.update_peer_checkpoints(peer(3), checkpoint(0x32, 102), shared_finalized);
    network_state.update_peer_checkpoints(peer(4), preferred_head, shared_finalized);

    assert_eq!(network_state.common_highest_checkpoint(), None);
    assert_eq!(network_state.preferred_highest_checkpoint(), Some(preferred_head));
}

#[test]
fn preferred_highest_checkpoint_avoids_high_slot_outlier() {
    let mut network_state = NetworkState::new(checkpoint(0x01, 0), checkpoint(0x01, 0));
    let shared_finalized = checkpoint(0x20, 10);
    connect_all(&mut network_state, &[1, 2, 3, 4, 5]);

    let preferred_head = checkpoint(0x33, 103);
    network_state.update_peer_checkpoints(peer(1), checkpoint(0x30, 100), shared_finalized);
    network_state.update_peer_checkpoints(peer(2), checkpoint(0x31, 101), shared_finalized);
    network_state.update_peer_checkpoints(peer(3), checkpoint(0x32, 102), shared_finalized);
    network_state.update_peer_checkpoints(peer(4), preferred_head, shared_finalized);
    network_state.update_peer_checkpoints(peer(5), checkpoint(0x40, 500), shared_finalized);

    assert_eq!(network_state.common_highest_checkpoint(), None);
    assert_eq!(network_state.preferred_highest_checkpoint(), Some(preferred_head));
}

#[test]
fn preferred_highest_checkpoint_uses_slot_cluster_when_finalized_checkpoints_split() {
    let mut network_state = NetworkState::new(checkpoint(0x01, 0), checkpoint(0x01, 0));
    connect_all(&mut network_state, &[1, 2, 3, 4, 5]);

    let preferred_head = checkpoint(0x33, 103);
    network_state.update_peer_checkpoints(peer(1), checkpoint(0x30, 100), checkpoint(0x50, 10));
    network_state.update_peer_checkpoints(peer(2), checkpoint(0x31, 101), checkpoint(0x51, 11));
    network_state.update_peer_checkpoints(peer(3), checkpoint(0x32, 102), checkpoint(0x52, 12));
    network_state.update_peer_checkpoints(peer(4), preferred_head, checkpoint(0x53, 13));
    network_state.update_peer_checkpoints(peer(5), checkpoint(0x40, 500), checkpoint(0x60, 400));

    assert_eq!(network_state.common_highest_checkpoint(), None);
    assert_eq!(network_state.common_finalized_checkpoint(), None);
    assert_eq!(network_state.preferred_highest_checkpoint(), Some(preferred_head));
}

#[test]
fn preferred_highest_checkpoint_avoids_low_slot_outlier() {
    let mut network_state = NetworkState::new(checkpoint(0x01, 0), checkpoint(0x01, 0));
    let shared_finalized = checkpoint(0x20, 10);
    connect_all(&mut network_state, &[1, 2, 3, 4, 5]);

    let preferred_head = checkpoint(0x34, 504);
    network_state.update_peer_checkpoints(peer(1), checkpoint(0x20, 100), shared_finalized);
    network_state.update_peer_checkpoints(peer(2), checkpoint(0x30, 500), shared_finalized);
    network_state.update_peer_checkpoints(peer(3), checkpoint(0x31, 501), shared_finalized);
    network_state.update_peer_checkpoints(peer(4), checkpoint(0x32, 502), shared_finalized);
    network_state.update_peer_checkpoints(peer(5), preferred_head, shared_finalized);

    assert_eq!(network_state.common_highest_checkpoint(), None);
    assert_eq!(network_state.preferred_highest_checkpoint(), Some(preferred_head));
}

#[test]
fn upsert_keeps_one_entry_per_peer_and_response_scores_saturate() {
    let mut network_state = NetworkState::new(checkpoint(0x01, 0), checkpoint(0x01, 0));
    network_state.upsert_peer(peer(1), Some(vec![1, 2, 3]), ConnectionState::Connecting, Direction::Inbound);
    network_state.upsert_peer(peer(1), None, ConnectionState::Connected, Direction::Outbound);
    assert_eq!(network_state.peer_table.len(), 1);
    assert_eq!(network_state.connected_peer_count(), 1);
    let cached = network_state.cached_peer(&peer(1)).unwrap();
    assert_eq!(cached.last_seen_p2p_address, Some(vec![1, 2, 3]));
    assert_eq!(cached.direction, Direction::Outbound);
    assert_eq!(cached.peer_score, 127);

    network_state.successful_response_from_peer(peer(1));
    assert_eq!(network_state.cached_peer(&peer(1)).unwrap().peer_score, 137);
    for _ in 0..20 {
        network_state.failed_response_from_peer(peer(1));
    }
    assert_eq!(network_state.cached_peer(&peer(1)).unwrap().peer_score, 0);
    for _ in 0..30 {
        network_state.successful_response_from_peer(peer(1));
    }
    assert_eq!(network_state.cached_peer(&peer(1)).unwrap().peer_score, 255);
}

#[test]
fn preferred_head_is_the_common_head_even_on_a_tie() {
    let mut network_state = NetworkState::new(checkpoint(0x01, 0), checkpoint(0x01, 0));
    connect_all(&mut network_state, &[1, 2, 3, 4]);
    // Two heads at the same slot, each reported by two peers: the first reported wins.
    let first = checkpoint(0x50, 60);
    let second = checkpoint(0x51, 60);
    network_state.update_peer_checkpoints(peer(1), second, checkpoint(0x20, 10));
    network_state.update_peer_checkpoints(peer(2), first, checkpoint(0x20, 10));
    network_state.update_peer_checkpoints(peer(3), first, checkpoint(0x20, 10));
    network_state.update_peer_checkpoints(peer(4), second, checkpoint(0x20, 10));

    let common = network_state.common_highest_checkpoint();
    assert_eq!(common, Some(second));
    assert_eq!(network_state.preferred_highest_checkpoint(), common);
}
