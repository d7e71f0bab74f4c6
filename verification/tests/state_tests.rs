use ream_networking::aggregator::AggregatorState;
use ream_networking::beacon_state::{CachedPeer, NetworkState};
use ream_networking::lean_state::{ConnectionState, Direction, PeerId};
use ream_networking::scoring::{PeerScoreManager, DEFAULT_BAN_DURATION_SECS};

fn peer(n: u8) -> PeerId {
    PeerId(vec![0x00, 0x24, 0x08, 0x01, n])
}

#[test]
fn test_peer_score_manager_memory_operations() {
    let mut manager = PeerScoreManager::new(DEFAULT_BAN_DURATION_SECS, 0);
    let peer_id = peer(1);

    assert!(!manager.is_banned(&peer_id));
    assert_eq!(manager.banned_count(), 0);

    manager.ban_peer_memory_only(peer(1));

    assert!(manager.is_banned(&peer_id));
    assert_eq!(manager.banned_count(), 1);

    let banned = manager.get_banned_peers();
    assert_eq!(banned.len(), 1);
    assert!(banned.iter().any(|p| p.0 == peer_id.0));

    assert!(manager.unban_peer(&peer_id));
    assert!(!manager.is_banned(&peer_id));
    assert_eq!(manager.banned_count(), 0);
}

#[test]
fn banning_twice_keeps_one_entry_and_cleanup_waits_its_interval() {
    let mut manager = PeerScoreManager::new(DEFAULT_BAN_DURATION_SECS, 1_000);
    manager.ban_peer_memory_only(peer(1));
    manager.ban_peer_memory_only(peer(1));
    manager.ban_peer_memory_only(peer(2));
    assert_eq!(manager.banned_count(), 2);
    assert!(!manager.unban_peer(&peer(3)));

    assert!(!manager.begin_cleanup(200_000, true));
    assert!(!manager.begin_cleanup(301_000, false));
    assert!(manager.begin_cleanup(301_000, true));
    assert!(!manager.begin_cleanup(301_001, true));
}

#[test]
fn aggregator_state_is_shared_by_clones() {
    let state = AggregatorState::new(true);
    assert!(state.is_enabled());
    let clone = state.clone();
    assert!(clone.set_enabled(false));
    assert!(!state.is_enabled());
    assert!(!state.set_enabled(true));
    assert!(clone.is_enabled());
}

#[test]
fn beacon_peer_table_tracks_custody_and_sampling() {
    let mut state = NetworkState::new();
    state.upsert_peer(peer(1), None, ConnectionState::Connected, Direction::Inbound, Some(vec![3, 7]), 10);
    state.upsert_peer(peer(2), None, ConnectionState::Connected, Direction::Outbound, None, 11);
    state.upsert_peer(peer(3), None, ConnectionState::Disconnected, Direction::Outbound, Some(vec![7]), 12);
    state.upsert_peer(peer(2), Some(vec![4, 4]), ConnectionState::Connected, Direction::Outbound, Some(vec![7, 9]), 13);
    assert_eq!(state.peer_table.len(), 3);

    let ids: Vec<Vec<u8>> = state.peers_for_column(7 + 128).into_iter().map(|p| p.0).collect();
    assert_eq!(ids, vec![peer(1).0, peer(2).0]);
    assert!(state.peers_for_column(9).iter().all(|p| p.0 == peer(2).0));
    assert_eq!(state.connected_peers().len(), 2);

    state.update_peer_state(&peer(1), ConnectionState::Disconnecting);
    assert_eq!(state.connected_peers().len(), 1);

    state.record_sampling_success(&peer(2));
    state.record_sampling_failure(&peer(2));
    state.record_sampling_failure(&peer(2));
    let entry: &CachedPeer = state.peer_table.iter().find(|p| p.peer_id.0 == peer(2).0).unwrap();
    assert_eq!(entry.sampling_requests, 3);
    assert_eq!(entry.sampling_successes, 1);
    assert_eq!(entry.sampling_failures, 2);
    assert_eq!(entry.sampling_score, 128 + 10 - 40);
    assert_eq!(entry.last_seen, 11);
    assert_eq!(entry.last_seen_p2p_address, Some(vec![4, 4]));
    assert_eq!(entry.status, None);
    assert_eq!(entry.meta_data, None);
}

#[test]
fn a_new_beacon_peer_starts_at_the_sampling_midpoint_with_nothing_received() {
    let p = CachedPeer::new(peer(5), Some(vec![1]), ConnectionState::Connected, Direction::Inbound, None, 42);
    assert_eq!(p.sampling_score, 128);
    assert_eq!((p.sampling_requests, p.sampling_successes, p.sampling_failures), (0, 0, 0));
    assert_eq!(p.status, None);
    assert_eq!(p.meta_data, None);
    assert_eq!(p.last_seen, 42);
}
