use ream_networking::gossip_config::{
    max_compressed_len, max_message_size, message_id, message_id_input, MAX_PAYLOAD_SIZE,
};
use ream_networking::gossip_protocol::{GossipsubProtocol, ProtocolId, SnappyTransform};
use ream_networking::gossip_topics::{GossipTopic, GossipTopicKind};

#[test]
fn beacon_topic_strings_use_the_hex_fork_digest() {
    let topic = GossipTopic { fork: [0x01, 0x02, 0x03, 0x04], kind: GossipTopicKind::BeaconBlock };
    assert_eq!(topic.to_string(), "/eth2/01020304/ssz_snappy/beacon_block");

    let topic = GossipTopic {
        fork: [0xab, 0xcd, 0xef, 0x10],
        kind: GossipTopicKind::BeaconAttestation(5),
    };
    assert_eq!(topic.to_string(), "/eth2/abcdef10/ssz_snappy/beacon_attestation_5");
}

#[test]
fn beacon_topic_kind_names() {
    assert_eq!(GossipTopicKind::BeaconBlock.to_string(), "beacon_block");
    assert_eq!(
        GossipTopicKind::BeaconAggregateAndProof.to_string(),
        "beacon_aggregate_and_proof"
    );
    assert_eq!(GossipTopicKind::BeaconAttestation(63).to_string(), "beacon_attestation_63");
    assert_eq!(GossipTopicKind::VoluntaryExit.to_string(), "voluntary_exit");
    assert_eq!(GossipTopicKind::ProposerSlashing.to_string(), "proposer_slashing");
    assert_eq!(GossipTopicKind::AttesterSlashing.to_string(), "attester_slashing");
}

#[test]
fn message_size_limits() {
    assert_eq!(max_compressed_len(0), 32);
    assert_eq!(max_compressed_len(600), 32 + 600 + 100);
    assert_eq!(max_compressed_len(MAX_PAYLOAD_SIZE), 12233418);
    assert_eq!(max_message_size(), 12234442);
}

#[test]
fn message_id_hashes_domain_topic_length_topic_and_data() {
    let topic = "/eth2/01020304/ssz_snappy/beacon_block";
    let input = message_id_input(topic, b"hello");
    let mut expected = vec![1, 0, 0, 0, 38, 0, 0, 0, 0, 0, 0, 0];
    expected.extend_from_slice(topic.as_bytes());
    expected.extend_from_slice(b"hello");
    assert_eq!(input, expected);

    assert_eq!(
        message_id(topic, b"hello"),
        vec![78, 208, 251, 239, 24, 96, 0, 61, 19, 49, 69, 14, 21, 27, 231, 88, 38, 163, 192, 85]
    );
}

#[test]
fn protocol_info_lists_the_protocols_in_order() {
    let protocol = GossipsubProtocol {
        protocol_ids: vec![
            ProtocolId { protocol_id: "/meshsub/1.1.0".to_string() },
            ProtocolId { protocol_id: "/meshsub/1.0.0".to_string() },
        ],
    };
    let info = protocol.protocol_info();
    assert_eq!(info.len(), 2);
    assert_eq!(info[0].as_str(), "/meshsub/1.1.0");
    assert_eq!(info[1].as_str(), "/meshsub/1.0.0");
    let _transform = SnappyTransform::new(max_message_size() as usize);
}

#[test]
fn valid_message_id_computation() {
    let topic = "test_topic";
    let raw_data = b"raw_test_data";
    let message_id_1 = message_id(topic, raw_data);
    assert_eq!(message_id_1.len(), 20);
    let message_id_2 = message_id(topic, raw_data);
    assert_eq!(message_id_1, message_id_2);
}

#[test]
fn consistant_message_id_caching() {
    let topic = "test_topic";
    let data = b"test_data";
    assert_eq!(message_id(topic, data), message_id(topic, data));
    let data_2 = data.to_vec();
    let data_3 = data.to_vec();
    assert_eq!(message_id(topic, &data_2), message_id(topic, &data_3));
}

#[test]
fn message_instantiation_edge_cases() {
    let big_data = vec![b'y'; 5000];
    let long_topic = "x".repeat(1000);
    let odd_topic: String = String::from_utf8_lossy(b"\x00\xff\x01\xfe").into();
    let edge_cases: Vec<(&str, &[u8])> = vec![
        ("", b""),
        ("topic", b"data1"),
        ("topic", b"data2"),
        ("topic1", b"data"),
        ("topic2", b"data"),
        (&long_topic, &big_data),
        (&odd_topic, b"\x00\x01\x02\x03\x04\x05\x06\x07\x08\x09\x0a\x0b\x0c\x0d\x0e\x0f"),
    ];
    for (topic, data) in edge_cases {
        let id = message_id(topic, data);
        assert_eq!(id.len(), 20);
        assert_eq!(id, message_id(topic, data));
    }
}

#[test]
fn message_collisions() {
    let top_nul_ic = String::from_utf8(b"top\x00ic".to_vec()).unwrap();
    let test_cases: Vec<(&str, &[u8])> = vec![
        ("topic1", b"data"),
        ("topic2", b"data"),
        ("topic", b"data1"),
        ("topic", b"data2"),
        ("abc", b"def"),
        ("def", b"abc"),
        ("topic", b"data"),
        (&top_nul_ic, b"data"),
    ];
    let ids: Vec<Vec<u8>> = test_cases.iter().map(|(t, d)| message_id(t, d)).collect();
    for (i, a) in ids.iter().enumerate() {
        assert_eq!(a.len(), 20);
        for b in ids.iter().skip(i + 1) {
            assert_ne!(a, b);
        }
    }
}

use ream_networking::beacon_topics::{
    gossip_topics, GossipTopic as BeaconTopic, GossipTopicKind as BeaconTopicKind,
};

#[test]
fn gossip_topics_cover_every_subnet_once() {
    let fork = [0x01, 0x02, 0x03, 0x04];
    let topics = gossip_topics(fork, 64, 9);
    assert_eq!(topics.len(), 9 + 64 + 4 + 9 + 128);
    assert!(topics.iter().all(|t| t.fork == fork));
    let distinct: std::collections::HashSet<BeaconTopic> = topics.iter().copied().collect();
    assert_eq!(distinct.len(), topics.len());

    let at = |i: usize| topics[i].kind;
    assert_eq!(at(0), BeaconTopicKind::BeaconBlock);
    assert_eq!(at(1), BeaconTopicKind::AggregateAndProof);
    assert_eq!(at(5), BeaconTopicKind::SyncCommitteeContributionAndProof);
    assert_eq!(at(8), BeaconTopicKind::LightClientOptimisticUpdate);
    assert_eq!(at(9), BeaconTopicKind::BeaconAttestation(0));
    assert_eq!(at(72), BeaconTopicKind::BeaconAttestation(63));
    assert_eq!(at(73), BeaconTopicKind::SyncCommittee(0));
    assert_eq!(at(76), BeaconTopicKind::SyncCommittee(3));
    assert_eq!(at(77), BeaconTopicKind::BlobSidecar(0));
    assert_eq!(at(85), BeaconTopicKind::BlobSidecar(8));
    assert_eq!(at(86), BeaconTopicKind::DataColumnSidecar(0));
    assert_eq!(at(213), BeaconTopicKind::DataColumnSidecar(127));
}

#[test]
fn gossip_topics_without_attestation_or_blob_subnets() {
    let topics = gossip_topics([0; 4], 0, 0);
    assert_eq!(topics.len(), 9 + 4 + 128);
    assert_eq!(topics[9].kind, BeaconTopicKind::SyncCommittee(0));
    assert_eq!(topics[13].kind, BeaconTopicKind::DataColumnSidecar(0));
}
