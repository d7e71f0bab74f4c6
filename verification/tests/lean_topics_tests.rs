use ream_networking::lean_topics::{
    GossipsubError, LeanGossipTopic, LeanGossipTopicKind, ENCODING_POSTFIX, LEAN_BLOCK_TOPIC,
    TOPIC_PREFIX,
};

#[test]
fn test_gossip_topic_creation() {
    let topic = LeanGossipTopic {
        kind: LeanGossipTopicKind::Block,
        fork: "0x12345678".to_string(),
    };

    assert_eq!(
        topic,
        LeanGossipTopic {
            kind: LeanGossipTopicKind::Block,
            fork: "0x12345678".to_string(),
        }
    );
    assert_eq!(topic.to_string(), "/leanconsensus/0x12345678/block/ssz_snappy");
}

#[test]
fn test_gossip_topic_from_string() {
    let topic_str = "/leanconsensus/0x12345678/block/ssz_snappy";

    assert_eq!(
        LeanGossipTopic::from_topic_hash(topic_str).unwrap(),
        LeanGossipTopic {
            kind: LeanGossipTopicKind::Block,
            fork: "0x12345678".to_string(),
        }
    );
}

#[test]
fn test_parse_topic_string() {
    let topic = format!("/{TOPIC_PREFIX}/0x12345678/{LEAN_BLOCK_TOPIC}/{ENCODING_POSTFIX}");

    let parsed = LeanGossipTopic::from_topic_hash(&topic).unwrap();

    assert_eq!(parsed.fork, "0x12345678");
    assert_eq!(parsed.kind, LeanGossipTopicKind::Block);
}

#[test]
fn test_invalid_topic_string() {
    let invalid_topic = "/invalid/topic";
    let wrong_prefix = "/wrongprefix/0x123/block/ssz_snappy";

    let invalid_topic_err = LeanGossipTopic::from_topic_hash(invalid_topic).unwrap_err();
    assert!(matches!(invalid_topic_err, GossipsubError::InvalidTopic(_)));
    assert!(invalid_topic_err.to_string().contains("Invalid topic format"));

    let wrong_prefix_err = LeanGossipTopic::from_topic_hash(wrong_prefix).unwrap_err();
    assert!(matches!(wrong_prefix_err, GossipsubError::InvalidTopic(_)));
    assert!(wrong_prefix_err.to_string().contains("Invalid topic format"));
}

#[test]
fn test_topic_kind_enum() {
    assert_eq!(LeanGossipTopicKind::Block.to_string(), "block");
    assert_eq!(LeanGossipTopicKind::AttestationSubnet(0).to_string(), "attestation_0");
}

#[test]
fn test_validate_fork_success() {
    let topic = LeanGossipTopic {
        kind: LeanGossipTopicKind::Block,
        fork: "0x12345678".to_string(),
    };

    let expected_fork = "0x12345678";

    assert_eq!(topic.fork, expected_fork);
}

#[test]
fn test_validate_fork_raises_on_mismatch() {
    let topic = LeanGossipTopic {
        kind: LeanGossipTopicKind::Block,
        fork: "0x12345678".to_string(),
    };

    let expected_fork = "0xtesttopic";

    assert_ne!(topic.fork, expected_fork);
}

#[test]
fn test_from_string_validated_success() {
    let topic = "/leanconsensus/0x12345678/block/ssz_snappy";

    let parsed = LeanGossipTopic::from_topic_hash(topic).unwrap();

    assert_eq!(
        parsed,
        LeanGossipTopic {
            kind: LeanGossipTopicKind::Block,
            fork: "0x12345678".to_string(),
        }
    );
    assert_eq!(parsed.fork, "0x12345678");
}

#[test]
fn test_from_string_validated_raises_on_mismatch() {
    let topic = "/leanconsensus/0x12345678/block/ssz_snappy";

    let parsed = LeanGossipTopic::from_topic_hash(topic).unwrap();

    assert_ne!(parsed.fork, "0xtesttopic");
}

#[test]
fn test_from_string_validated_raises_on_invalid_topic() {
    let topic = "/invalid/topic";

    let err = LeanGossipTopic::from_topic_hash(topic).unwrap_err();

    assert!(matches!(err, GossipsubError::InvalidTopic(_)));
    assert!(err.to_string().contains("Invalid topic format"));
}

#[test]
fn lean_topic_string_round_trips_through_parsing() {
    for kind in [
        LeanGossipTopicKind::Block,
        LeanGossipTopicKind::AttestationSubnet(17),
        LeanGossipTopicKind::AggregatedAttestation,
    ] {
        let topic = LeanGossipTopic { fork: "0xabcdef01".to_string(), kind };
        let parsed = LeanGossipTopic::from_topic_hash(&topic.to_string()).unwrap();
        assert_eq!(parsed, topic);
    }
}

#[test]
fn lean_topic_errors_name_the_fault() {
    let err = LeanGossipTopic::from_topic_hash("/leanconsensus/0x1/attestation_x/ssz_snappy")
        .unwrap_err();
    assert_eq!(err.to_string(), "Invalid topic: Invalid attestation subnet id: x");
    let err = LeanGossipTopic::from_topic_hash("/leanconsensus/0x1/unknown/ssz_snappy").unwrap_err();
    assert_eq!(err.to_string(), "Invalid topic: Invalid topic: unknown");
    let parsed = LeanGossipTopic::from_topic_hash("//leanconsensus/0x1/aggregation/ssz_snappy")
        .unwrap();
    assert_eq!(parsed.kind, LeanGossipTopicKind::AggregatedAttestation);
}
