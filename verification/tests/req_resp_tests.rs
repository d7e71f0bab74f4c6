use ream_networking::req_resp::{
    decode_payload, encode_payload, InboundRequest, InboundSSZSnappyCodec, OutboundRequest,
    OutboundSSZSnappyCodec, ReqRespError, ResponseCode, SupportedProtocol,
};

#[test]
fn response_codes_map_bytes_both_ways() {
    assert_eq!(ResponseCode::from(0u8), ResponseCode::Success);
    assert_eq!(ResponseCode::from(1u8), ResponseCode::InvalidRequest);
    assert_eq!(ResponseCode::from(2u8), ResponseCode::ServerError);
    assert_eq!(ResponseCode::from(3u8), ResponseCode::ResourceUnavailable);
    assert_eq!(ResponseCode::from(4u8), ResponseCode::ReservedCode(4));
    assert_eq!(ResponseCode::from(127u8), ResponseCode::ReservedCode(127));
    assert_eq!(ResponseCode::from(128u8), ResponseCode::ErroneousCode(128));
    assert_eq!(ResponseCode::from(255u8), ResponseCode::ErroneousCode(255));
    for byte in 0..=255u8 {
        assert_eq!(u8::from(ResponseCode::from(byte)), byte);
        assert_eq!(ResponseCode::from_byte(byte).to_byte(), byte);
    }
    assert_eq!(u8::from(ResponseCode::ReservedCode(200)), 200);
}

#[test]
fn a_framed_payload_reads_back() {
    let payload: Vec<u8> = (0..300u32).map(|i| (i % 7) as u8).collect();
    let frame = encode_payload(&payload).unwrap();
    // The length prefix is the varint of 300.
    assert_eq!(&frame[..2], &[0xac, 0x02]);
    // Snappy frames follow it, starting with the stream identifier: not the raw payload.
    assert_eq!(&frame[2..12], &[0xff, 0x06, 0x00, 0x00, b's', b'N', b'a', b'P', b'p', b'Y']);
    assert_eq!(decode_payload(&frame).unwrap(), Some(payload.clone()));

    let mut longer = frame.clone();
    longer.extend_from_slice(&[9, 9, 9]);
    assert_eq!(decode_payload(&longer).unwrap(), Some(payload));
}

#[test]
fn decoding_waits_for_a_complete_length_prefix() {
    assert_eq!(decode_payload(&[]).unwrap(), None);
    assert_eq!(decode_payload(&[0x80, 0x80]).unwrap(), None);
}

#[test]
fn bad_length_prefixes_are_refused() {
    match decode_payload(&[0x80, 0x00]) {
        Err(ReqRespError::IoError(m)) => assert_eq!(m, "encoding is not minimal"),
        other => panic!("unexpected {other:?}"),
    }
    match decode_payload(&[0xff; 11]) {
        Err(ReqRespError::IoError(m)) => assert_eq!(m, "input bytes exceed maximum"),
        other => panic!("unexpected {other:?}"),
    }
    // A length of five with no snappy frames behind it.
    assert!(matches!(decode_payload(&[0x05]), Err(ReqRespError::IoError(_))));
}

#[test]
fn oversized_payloads_are_refused() {
    let payload = vec![0u8; 12234443];
    match encode_payload(&payload) {
        Err(ReqRespError::Anyhow(m)) => {
            assert_eq!(m, "Message size exceeds maximum: 12234443 > 12234442")
        }
        other => panic!("unexpected {other:?}"),
    }
}

#[test]
fn codecs_frame_requests_and_responses() {
    let payload = vec![1, 2, 3, 4, 5];
    let outbound = OutboundSSZSnappyCodec::new(SupportedProtocol::StatusV1);
    let request = outbound.encode(&OutboundRequest::Payload(payload.clone())).unwrap();
    assert_eq!(request, encode_payload(&payload).unwrap());
    assert!(outbound.encode(&OutboundRequest::MetaData).unwrap().is_empty());

    let inbound = InboundSSZSnappyCodec::new(SupportedProtocol::StatusV1);
    match inbound.decode(&request).unwrap() {
        Some(InboundRequest::Payload(p)) => assert_eq!(p, payload),
        other => panic!("unexpected {other:?}"),
    }
    let meta = InboundSSZSnappyCodec::new(SupportedProtocol::GetMetaDataV2);
    assert!(matches!(meta.decode(&[]).unwrap(), Some(InboundRequest::MetaData)));

    let response = inbound.encode(&payload).unwrap();
    assert_eq!(response[0], 0);
    assert_eq!(&response[1..], &request[..]);

    assert!(outbound.decode(&[0x05]).unwrap().is_none());
}

fn meta_data_bytes(seq_number: u64, attnets: [u8; 8], syncnets: u8) -> Vec<u8> {
    let mut bytes = seq_number.to_le_bytes().to_vec();
    bytes.extend_from_slice(&attnets);
    bytes.push(syncnets);
    bytes
}

#[test]
fn metadata_responses_decode_to_their_fields() {
    let codec = OutboundSSZSnappyCodec::new(SupportedProtocol::GetMetaDataV2);
    let payload = meta_data_bytes(0x0102_0304_0506_0708, [0b0000_0101, 0, 0, 0, 0, 0, 0, 0x80], 0b0000_1001);
    let frame = encode_payload(&payload).unwrap();
    let meta = codec.decode(&frame).unwrap().unwrap();
    assert_eq!(meta.seq_number, 0x0102_0304_0506_0708);
    assert!(meta.attnets.get(0).unwrap());
    assert!(!meta.attnets.get(1).unwrap());
    assert!(meta.attnets.get(2).unwrap());
    assert!(meta.attnets.get(63).unwrap());
    assert!(meta.syncnets.get(0).unwrap());
    assert!(!meta.syncnets.get(1).unwrap());
    assert!(meta.syncnets.get(3).unwrap());
    assert!(codec.decode(&[0x11]).unwrap().is_none());
}

#[test]
fn malformed_metadata_is_invalid_data() {
    let codec = OutboundSSZSnappyCodec::new(SupportedProtocol::GetMetaDataV2);
    let short = encode_payload(&meta_data_bytes(1, [0; 8], 0)[..16]).unwrap();
    match codec.decode(&short) {
        Err(ReqRespError::InvalidData(m)) => assert_eq!(
            m,
            "Failed to decode ssz: InvalidByteLength { len: 16, expected: 17 }"
        ),
        other => panic!("unexpected {other:?}"),
    }
    let excess = encode_payload(&meta_data_bytes(1, [0; 8], 0x10)).unwrap();
    match codec.decode(&excess) {
        Err(ReqRespError::InvalidData(m)) => assert_eq!(
            m,
            "Failed to decode ssz: BytesInvalid(\"BitVector failed to decode: ExcessBits\")"
        ),
        other => panic!("unexpected {other:?}"),
    }
}
