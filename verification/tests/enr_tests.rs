use ream_networking::discovery_config::{sync_subnet_join_epoch, NetworkConfig};
use ream_networking::enr_fields::{quic_from_enr, EnrFields};
use ream_networking::eth2::{EnrForkId, Fork, FAR_FUTURE_EPOCH};
use ream_networking::messages::{
    AttestationSubnetRequest, AttestationSubnetResponse, LeanBlocksByRangeV1Request,
    LeanBlocksByRootV1Request, LeanStatus,
};
use ream_networking::subnet::Subnet;

#[test]
fn test_serialization() {
    let fork_id = EnrForkId {
        fork_digest: [1, 2, 3, 4],
        next_fork_version: [5, 6, 7, 8],
        next_fork_epoch: 100,
    };

    let buffer = fork_id.encode();
    let deserialized = EnrForkId::decode(&buffer).unwrap();

    assert_eq!(fork_id.fork_digest, deserialized.fork_digest);
    assert_eq!(fork_id.next_fork_version, deserialized.next_fork_version);
    assert_eq!(fork_id.next_fork_epoch, deserialized.next_fork_epoch);
}

#[test]
fn fork_id_bytes_are_ssz_inside_rlp() {
    let fork_id = EnrForkId {
        fork_digest: [1, 2, 3, 4],
        next_fork_version: [5, 6, 7, 8],
        next_fork_epoch: 0x0102,
    };
    assert_eq!(
        fork_id.encode(),
        vec![0x90, 1, 2, 3, 4, 5, 6, 7, 8, 0x02, 0x01, 0, 0, 0, 0, 0, 0]
    );
    assert_eq!(EnrForkId::from_ssz_bytes(&[0; 15]), None);
    assert_eq!(EnrForkId::decode(&[0xc0]), None);
}

#[test]
fn fork_id_names_the_next_fork() {
    let forks = vec![
        Fork { epoch: 0, current_version: [0, 0, 0, 0] },
        Fork { epoch: 10, current_version: [1, 0, 0, 0] },
        Fork { epoch: 20, current_version: [2, 0, 0, 0] },
    ];
    let id = EnrForkId::current([9, 9, 9, 9], [1, 0, 0, 0], &forks, &vec![], 12);
    assert_eq!(id.fork_digest, [9, 9, 9, 9]);
    assert_eq!((id.next_fork_version, id.next_fork_epoch), ([2, 0, 0, 0], 20));

    let id = EnrForkId::current([9, 9, 9, 9], [1, 0, 0, 0], &forks, &vec![30, 15, 5], 12);
    assert_eq!((id.next_fork_version, id.next_fork_epoch), ([1, 0, 0, 0], 15));

    let id = EnrForkId::current([9, 9, 9, 9], [1, 0, 0, 0], &forks, &vec![20], 12);
    assert_eq!((id.next_fork_version, id.next_fork_epoch), ([2, 0, 0, 0], 20));

    let id = EnrForkId::current([9, 9, 9, 9], [2, 0, 0, 0], &forks, &vec![], 25);
    assert_eq!((id.next_fork_version, id.next_fork_epoch), ([2, 0, 0, 0], FAR_FUTURE_EPOCH));
}

#[test]
fn quic_port_is_read_as_an_rlp_integer() {
    let enr = |quic: Option<Vec<u8>>| EnrFields { attnets: None, syncnets: None, quic };
    assert_eq!(quic_from_enr(&enr(Some(vec![0x82, 0x23, 0x28]))), Some(9000));
    assert_eq!(quic_from_enr(&enr(Some(vec![0x80]))), Some(0));
    assert_eq!(quic_from_enr(&enr(Some(vec![0x05]))), Some(5));
    assert_eq!(quic_from_enr(&enr(Some(vec![0x81, 0xff]))), Some(255));
    assert_eq!(quic_from_enr(&enr(Some(vec![0x00]))), None);
    assert_eq!(quic_from_enr(&enr(Some(vec![0x81, 0x05]))), None);
    assert_eq!(quic_from_enr(&enr(Some(vec![0x82, 0x00, 0x05]))), None);
    assert_eq!(quic_from_enr(&enr(Some(vec![0x83, 1, 2, 3]))), None);
    assert_eq!(quic_from_enr(&enr(None)), None);
}

#[test]
fn sync_subnet_join_epochs() {
    assert_eq!(sync_subnet_join_epoch(100, 256, 3), 253);
    assert_eq!(sync_subnet_join_epoch(254, 256, 3), 254);
    assert_eq!(sync_subnet_join_epoch(253, 256, 3), 253);

    let mut config = NetworkConfig::default_config();
    assert_eq!(config.socket_port, 9000);
    assert!(config.subnets.is_active(Subnet::Attestation(0)).unwrap());
    assert!(config.subnets.is_active(Subnet::Attestation(1)).unwrap());
    assert!(!config.subnets.is_active(Subnet::Attestation(2)).unwrap());
    config.subscribe_to_sync_committee_subnet(3).unwrap();
    assert!(config.subnets.is_active(Subnet::SyncCommittee(3)).unwrap());
    config.unsubscribe_from_sync_committee_subnet(3).unwrap();
    assert!(!config.subnets.is_active(Subnet::SyncCommittee(3)).unwrap());

    for _ in 0..50 {
        let offset = config.calculate_sync_subnet_join_epoch_offset();
        assert!((1..=4).contains(&offset));
        let epoch = config.calculate_sync_subnet_join_epoch(100, 256);
        assert!((252..=255).contains(&epoch));
    }
}

#[test]
fn request_messages_hold_their_fields() {
    let range = LeanBlocksByRangeV1Request::new(5, 10);
    assert_eq!(range, LeanBlocksByRangeV1Request { start_slot: 5, count: 10 });
    let request = AttestationSubnetRequest::new(3, 100, 200, true);
    assert_eq!(request.subnet_id, 3);
    assert_eq!(request.end_slot, 200);
    assert!(request.needs_aggregator);
    let status = LeanStatus::new([1; 32], 7, [2; 32], 9);
    assert_eq!(status.finalized_root, [1; 32]);
    assert_eq!(status.head_slot, 9);

    let roots = vec![[1u8; 32], [2u8; 32]];
    assert_eq!(LeanBlocksByRootV1Request::new(roots.clone()).roots(), roots);
    assert_eq!(AttestationSubnetResponse::new(roots.clone()).roots(), roots);
}
