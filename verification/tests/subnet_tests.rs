use ream_networking::enr_fields::EnrFields;
use ream_networking::subnet::{
    compute_subnet_for_sync_committee_index, compute_subnets_for_sync_committee,
    subnet_predicate, AttestationSubnets, Subnet, SubnetError, Subnets, SyncCommitteeSubnets,
    SYNC_COMMITTEE_SUBNET_COUNT,
};
use ssz_types::typenum::U64;
use ssz_types::BitVector;

#[test]
fn test_compute_subnet_for_sync_committee_index() {
    assert_eq!(compute_subnet_for_sync_committee_index(0), 0);
    assert_eq!(compute_subnet_for_sync_committee_index(1), 1);
    assert_eq!(compute_subnet_for_sync_committee_index(2), 2);
    assert_eq!(compute_subnet_for_sync_committee_index(3), 3);
    assert_eq!(compute_subnet_for_sync_committee_index(4), 0);
    assert_eq!(compute_subnet_for_sync_committee_index(5), 1);

    assert_eq!(compute_subnet_for_sync_committee_index(100), 0);
    assert_eq!(compute_subnet_for_sync_committee_index(101), 1);
    assert_eq!(compute_subnet_for_sync_committee_index(102), 2);
    assert_eq!(compute_subnet_for_sync_committee_index(103), 3);
}

#[test]
fn test_compute_subnets_for_sync_committee() {
    let indices = vec![0, 4, 8, 12];
    assert_eq!(compute_subnets_for_sync_committee(&indices), vec![0, 0, 0, 0]);

    let indices = vec![1, 5, 9, 13];
    assert_eq!(compute_subnets_for_sync_committee(&indices), vec![1, 1, 1, 1]);

    let indices = vec![0, 1, 2, 3, 4, 5, 6, 7];
    assert_eq!(
        compute_subnets_for_sync_committee(&indices),
        vec![0, 1, 2, 3, 0, 1, 2, 3]
    );

    let indices = vec![2, 6, 10, 14];
    assert_eq!(compute_subnets_for_sync_committee(&indices), vec![2, 2, 2, 2]);
}

#[test]
fn test_subnets_sync_committee() {
    let mut subnets = Subnets::new();

    assert!(!subnets.is_active(Subnet::SyncCommittee(0)).unwrap_or(false));
    subnets.enable_subnet(Subnet::SyncCommittee(0)).unwrap();
    assert!(subnets.is_active(Subnet::SyncCommittee(0)).unwrap_or(false));

    subnets.enable_subnet(Subnet::SyncCommittee(1)).unwrap();
    assert!(subnets.is_active(Subnet::SyncCommittee(1)).unwrap_or(false));

    subnets.disable_subnet(Subnet::SyncCommittee(0)).unwrap();
    assert!(!subnets.is_active(Subnet::SyncCommittee(0)).unwrap_or(false));
    assert!(subnets.is_active(Subnet::SyncCommittee(1)).unwrap_or(false));

    let result = subnets.enable_subnet(Subnet::SyncCommittee(10));
    assert!(result.is_ok());
    assert!(!subnets.is_active(Subnet::SyncCommittee(10)).unwrap_or(false));
}

#[test]
fn test_subnets_attestation_and_sync_committee() {
    let mut subnets = Subnets::new();

    subnets.enable_subnet(Subnet::Attestation(5)).unwrap();
    subnets.enable_subnet(Subnet::SyncCommittee(2)).unwrap();

    assert!(subnets.is_active(Subnet::Attestation(5)).unwrap_or(false));
    assert!(subnets.is_active(Subnet::SyncCommittee(2)).unwrap_or(false));

    subnets.disable_subnet(Subnet::Attestation(5)).unwrap();
    assert!(!subnets.is_active(Subnet::Attestation(5)).unwrap_or(false));
    assert!(subnets.is_active(Subnet::SyncCommittee(2)).unwrap_or(false));
}

/// The `attnets` value of an ENR: the RLP byte string of eight SSZ bytes.
fn attnets_value(bytes: [u8; 8]) -> Vec<u8> {
    let mut value = vec![0x88];
    value.extend_from_slice(&bytes);
    value
}

#[test]
fn test_decodes_subnets() {
    // The `attnets` entry of a mainnet ENR that announces subnets 60 and 61.
    let attnets = attnets_value([0, 0, 0, 0, 0, 0, 0, 48]);
    let expected = BitVector::<U64>::from_bytes(vec![0, 0, 0, 0, 0, 0, 0, 48].into()).unwrap();
    let subnets = Subnets::decode(&attnets).unwrap();
    if let Some(actual) = &subnets.attestation_bits {
        for i in 0..64 {
            assert_eq!(actual.get(i).unwrap(), expected.get(i).unwrap());
        }
    } else {
        panic!("Expected attestation_bits to be Some, got None");
    }

    // The `attnets` entry of an ENR that announces every attestation subnet.
    let attnets = attnets_value([255; 8]);
    let expected = BitVector::<U64>::from_bytes(vec![255; 8].into()).unwrap();
    let subnets = Subnets::decode(&attnets).unwrap();
    if let Some(actual) = &subnets.attestation_bits {
        for i in 0..64 {
            assert_eq!(actual.get(i).unwrap(), expected.get(i).unwrap());
        }
    } else {
        panic!("Expected attestation_bits to be Some, got None");
    }
}

#[test]
fn test_encode_decode_subnet_fields() {
    let mut subnets = Subnets::new();
    subnets.enable_subnet(Subnet::Attestation(1)).unwrap();
    subnets.enable_subnet(Subnet::Attestation(5)).unwrap();
    subnets.enable_subnet(Subnet::SyncCommittee(0)).unwrap();
    subnets.enable_subnet(Subnet::SyncCommittee(2)).unwrap();

    let mut attestation_subnets = AttestationSubnets::new();
    attestation_subnets.set(1, true).unwrap();
    attestation_subnets.set(5, true).unwrap();

    let mut sync_committee_subnets = SyncCommitteeSubnets::new();
    sync_committee_subnets.set(0, true).unwrap();
    sync_committee_subnets.set(2, true).unwrap();

    let enr = EnrFields {
        attnets: Some(attestation_subnets.encode()),
        syncnets: Some(sync_committee_subnets.encode()),
        quic: None,
    };

    let decoded_attnets = Subnets::decode(enr.attnets.as_ref().unwrap()).unwrap();
    assert!(decoded_attnets.is_active(Subnet::Attestation(1)).unwrap());
    assert!(decoded_attnets.is_active(Subnet::Attestation(5)).unwrap());
    assert!(!decoded_attnets.is_active(Subnet::Attestation(0)).unwrap());
    assert!(!decoded_attnets.is_active(Subnet::Attestation(10)).unwrap());

    let decoded_syncnets = SyncCommitteeSubnets::decode(enr.syncnets.as_ref().unwrap()).unwrap();

    let mut subnets_from_sync = Subnets::new();
    if let Some(bits) = &mut subnets_from_sync.sync_committee_bits {
        for i in 0..SYNC_COMMITTEE_SUBNET_COUNT {
            if decoded_syncnets.get(i).unwrap() {
                bits.set(i, true).unwrap();
            }
        }
    }

    assert!(subnets_from_sync.is_active(Subnet::SyncCommittee(0)).unwrap());
    assert!(subnets_from_sync.is_active(Subnet::SyncCommittee(2)).unwrap());
    assert!(!subnets_from_sync.is_active(Subnet::SyncCommittee(1)).unwrap());
    assert!(!subnets_from_sync.is_active(Subnet::SyncCommittee(3)).unwrap());
}

#[test]
fn test_new_subnet_types() {
    let mut attestation_subnets = AttestationSubnets::new();
    attestation_subnets.set(3, true).unwrap();
    attestation_subnets.set(42, true).unwrap();

    let mut sync_committee_subnets = SyncCommitteeSubnets::new();
    sync_committee_subnets.set(0, true).unwrap();
    sync_committee_subnets.set(2, true).unwrap();

    let enr = EnrFields {
        attnets: Some(attestation_subnets.encode()),
        syncnets: Some(sync_committee_subnets.encode()),
        quic: None,
    };

    let decoded_attnets = AttestationSubnets::decode(enr.attnets.as_ref().unwrap()).unwrap();
    assert!(decoded_attnets.get(3).unwrap());
    assert!(decoded_attnets.get(42).unwrap());
    assert!(!decoded_attnets.get(0).unwrap());
    assert!(!decoded_attnets.get(10).unwrap());

    let decoded_syncnets = SyncCommitteeSubnets::decode(enr.syncnets.as_ref().unwrap()).unwrap();
    assert!(decoded_syncnets.get(0).unwrap());
    assert!(decoded_syncnets.get(2).unwrap());
    assert!(!decoded_syncnets.get(1).unwrap());
    assert!(!decoded_syncnets.get(3).unwrap());

    let attestation_subnet = Subnet::Attestation(3);
    let sync_committee_subnet = Subnet::SyncCommittee(2);

    let predicate = subnet_predicate(vec![attestation_subnet, sync_committee_subnet]);
    assert!(predicate.matches(&enr));

    let predicate = subnet_predicate(vec![attestation_subnet]);
    assert!(predicate.matches(&enr));

    let predicate = subnet_predicate(vec![sync_committee_subnet]);
    assert!(predicate.matches(&enr));

    let predicate = subnet_predicate(vec![Subnet::Attestation(10), Subnet::SyncCommittee(1)]);
    assert!(!predicate.matches(&enr));
}

#[test]
fn test_backward_compatibility() {
    let mut attestation_subnets = AttestationSubnets::new();
    attestation_subnets.set(5, true).unwrap();

    let mut sync_committee_subnets = SyncCommitteeSubnets::new();
    sync_committee_subnets.set(1, true).unwrap();

    let enr = EnrFields {
        attnets: Some(attestation_subnets.encode()),
        syncnets: Some(sync_committee_subnets.encode()),
        quic: None,
    };

    let attestation_subnet = Subnet::Attestation(5);
    let sync_committee_subnet = Subnet::SyncCommittee(1);

    let predicate = subnet_predicate(vec![attestation_subnet, sync_committee_subnet]);
    assert!(predicate.matches(&enr));

    let predicate = subnet_predicate(vec![attestation_subnet]);
    assert!(predicate.matches(&enr));

    let predicate = subnet_predicate(vec![sync_committee_subnet]);
    assert!(predicate.matches(&enr));

    let predicate = subnet_predicate(vec![Subnet::Attestation(10), Subnet::SyncCommittee(2)]);
    assert!(!predicate.matches(&enr));
}

#[test]
fn long_rlp_strings_decode_and_short_length_headers_are_refused() {
    // 0xb8 announces one length byte; 60 bytes follow.
    let mut long = vec![0xb8, 60];
    long.extend_from_slice(&[0xff; 60]);
    let subnets = Subnets::decode(&long).unwrap();
    assert!(subnets.attestation_bits.is_none());
    assert!(subnets.sync_committee_bits.is_none());
    // A long header whose length is below 56 is not canonical.
    let mut short_in_long = vec![0xb8, 8];
    short_in_long.extend_from_slice(&[0xff; 8]);
    assert_eq!(Subnets::decode(&short_in_long).unwrap_err(), SubnetError::InvalidRlp);
    // A leading zero in the length is refused, as is a length past the end.
    assert_eq!(Subnets::decode(&[0xb9, 0x00, 60]).unwrap_err(), SubnetError::InvalidRlp);
    let mut truncated = vec![0xb8, 60];
    truncated.extend_from_slice(&[0xff; 59]);
    assert_eq!(Subnets::decode(&truncated).unwrap_err(), SubnetError::InvalidRlp);
}
