use ream_networking::discovery_config::{query_result, QueryType, SubnetRotation};
use ream_networking::enr_fields::EnrFields;
use ream_networking::subnet::{AttestationSubnets, SubnetError};

fn peer_with(attnet_byte0: Option<u8>, syncnets: Option<u8>) -> EnrFields {
    EnrFields {
        attnets: attnet_byte0.map(|b| vec![0x88, b, 0, 0, 0, 0, 0, 0, 0]),
        syncnets: syncnets.map(|b| vec![b]),
        quic: None,
    }
}

fn found() -> Vec<EnrFields> {
    vec![
        peer_with(Some(0b0000_1000), None),
        peer_with(Some(0b0010_0000), Some(0b0000_0010)),
        peer_with(None, Some(0b0000_0001)),
    ]
}

fn attnets_of(peers: &[EnrFields]) -> Vec<Option<Vec<u8>>> {
    peers.iter().map(|p| p.attnets.clone()).collect()
}

#[test]
fn failed_queries_yield_nothing() {
    assert!(query_result(&QueryType::Peers, Err(())).is_none());
    assert!(query_result(&QueryType::AttestationSubnetPeers(vec![3]), Err(())).is_none());
}

#[test]
fn peer_queries_keep_every_peer_found() {
    let kept = query_result(&QueryType::Peers, Ok(found())).unwrap();
    assert_eq!(attnets_of(&kept), attnets_of(&found()));
}

#[test]
fn subnet_queries_keep_the_peers_that_serve_a_subnet_asked_for() {
    let kept = query_result(&QueryType::AttestationSubnetPeers(vec![3]), Ok(found())).unwrap();
    assert_eq!(attnets_of(&kept), vec![found()[0].attnets.clone()]);

    let kept = query_result(&QueryType::AttestationSubnetPeers(vec![5, 3]), Ok(found())).unwrap();
    assert_eq!(kept.len(), 2);
    assert_eq!(attnets_of(&kept), attnets_of(&found()[..2]));

    // No peer serves an attestation subnet id of 64 or more.
    assert!(query_result(&QueryType::AttestationSubnetPeers(vec![3, 64]), Ok(found())).unwrap().is_empty());

    let kept = query_result(&QueryType::SyncCommitteeSubnetPeers(vec![0]), Ok(found())).unwrap();
    assert_eq!(kept.len(), 1);
    assert_eq!(kept[0].syncnets, Some(vec![0b0000_0001]));
    assert!(query_result(&QueryType::SyncCommitteeSubnetPeers(vec![4]), Ok(found())).unwrap().is_empty());
}

fn rotation() -> SubnetRotation {
    let mut current = AttestationSubnets::new();
    current.set(1, true).unwrap();
    SubnetRotation { last_checked_slot: 100, subscription_epoch: 3, current }
}

#[test]
fn rotation_is_due_once_per_new_slot_after_a_full_subscription() {
    let mut r = rotation();
    // Not a later slot: nothing recorded.
    assert!(!r.rotation_due(100));
    assert_eq!(r.last_checked_slot, 100);
    // A later slot, but epoch 200 is only 197 epochs after the subscription.
    assert!(!r.rotation_due(200 * 32));
    assert_eq!(r.last_checked_slot, 200 * 32);
    // Epoch 259 is 256 epochs after it.
    assert!(r.rotation_due(259 * 32));
    assert_eq!(r.last_checked_slot, 259 * 32);
    assert_eq!(r.subscription_epoch, 3);
}

#[test]
fn rotation_targets_renew_or_replace_the_subscriptions() {
    let mut r = rotation();
    assert_eq!(r.rotation_target(259 * 32, &vec![1, 64]).unwrap_err(), SubnetError::OutOfBounds);
    assert_eq!(r.subscription_epoch, 3);

    // The same subnets renew the subscription.
    assert!(r.rotation_target(259 * 32, &vec![1]).unwrap().is_none());
    assert_eq!(r.subscription_epoch, 259);

    // Other subnets are given back, and recorded once committed.
    let target = r.rotation_target(600 * 32, &vec![7, 2]).unwrap().unwrap();
    assert_eq!(r.subscription_epoch, 259);
    assert!(target.get(7).unwrap() && target.get(2).unwrap() && !target.get(1).unwrap());
    r.commit_rotation(target, 600 * 32);
    assert_eq!(r.subscription_epoch, 600);
    assert!(r.current.get(7).unwrap());
}
