use rtc_datachannel::sctp::{
    read_sctp_packet, write_sctp_packet, SctpChunk, SctpPacket, SctpReadError, SctpWriteError,
};

fn all_chunks() -> Vec<SctpChunk> {
    vec![
        SctpChunk::Data { chunk_flags: 7, tsn: 1, stream_id: 2, stream_seq: 3, proto_id: 51, user_data: b"hey".to_vec() },
        SctpChunk::Init { initiate_tag: 9, window_credit: 10, num_outbound_streams: 11, num_inbound_streams: 12, initial_tsn: 13 },
        SctpChunk::InitAck { initiate_tag: 9, window_credit: 10, num_outbound_streams: 11, num_inbound_streams: 12, initial_tsn: 13, state_cookie: b"cookie!".to_vec() },
        SctpChunk::SAck { cumulative_tsn_ack: 5, adv_recv_window: 6, num_gap_ack_blocks: 7, num_dup_tsn: 8 },
        SctpChunk::Heartbeat { heartbeat_info: Some(vec![1, 2]) },
        SctpChunk::HeartbeatAck { heartbeat_info: None },
        SctpChunk::Abort,
        SctpChunk::Shutdown { cumulative_tsn_ack: 77 },
        SctpChunk::ShutdownAck,
        SctpChunk::CookieEcho { state_cookie: vec![4, 5, 6, 7, 8] },
        SctpChunk::CookieAck,
        SctpChunk::ForwardTsn { new_cumulative_tsn: 0xFFFF_FFFE },
        SctpChunk::Unknown { chunk_type: 0x81, chunk_flags: 1, body: vec![1, 2, 3] },
    ]
}

#[test]
fn round_trip_every_chunk_kind() {
    let packet = SctpPacket { source_port: 5000, dest_port: 5001, verification_tag: 0xABCD_EF01, chunks: all_chunks() };
    let bytes = match write_sctp_packet(&packet) {
        Ok(b) => b,
        Err(_) => panic!("encode failed"),
    };
    assert_eq!(bytes.len() % 4, 0);
    let back = match read_sctp_packet(&bytes, true) {
        Ok(p) => p,
        Err(_) => panic!("decode failed"),
    };
    assert_eq!(back.source_port, 5000);
    assert_eq!(back.dest_port, 5001);
    assert_eq!(back.verification_tag, 0xABCD_EF01);
    assert_eq!(format!("{:?}", back.chunks), format!("{:?}", all_chunks()));
}

#[test]
fn common_header_layout() {
    let packet = SctpPacket { source_port: 0x1234, dest_port: 0x5678, verification_tag: 0x9ABC_DEF0, chunks: vec![SctpChunk::CookieAck] };
    let bytes = match write_sctp_packet(&packet) {
        Ok(b) => b,
        Err(_) => panic!("encode failed"),
    };
    assert_eq!(&bytes[0..8], &[0x12, 0x34, 0x56, 0x78, 0x9A, 0xBC, 0xDE, 0xF0]);
    assert_eq!(&bytes[12..16], &[11, 0, 0, 4]);
    assert_eq!(bytes.len(), 16);
    // The checksum is CRC32c over the packet with the field zeroed, stored little-endian.
    let mut zeroed = bytes.clone();
    zeroed[8..12].copy_from_slice(&[0, 0, 0, 0]);
    let crc = crc::Crc::<u32>::new(&crc::CRC_32_ISCSI).checksum(&zeroed);
    assert_eq!(&bytes[8..12], &crc.to_le_bytes());
    assert_ne!(crc, 0);
}

#[test]
fn crc32c_known_value() {
    // CRC32c of "123456789" is 0xE3069283.
    assert_eq!(crc::Crc::<u32>::new(&crc::CRC_32_ISCSI).checksum(b"123456789"), 0xE306_9283);
}

#[test]
fn bad_checksum_is_rejected() {
    let packet = SctpPacket { source_port: 1, dest_port: 2, verification_tag: 3, chunks: vec![SctpChunk::Abort] };
    let mut bytes = match write_sctp_packet(&packet) {
        Ok(b) => b,
        Err(_) => panic!("encode failed"),
    };
    bytes[8] ^= 0xFF;
    assert!(matches!(read_sctp_packet(&bytes, true), Err(SctpReadError::BadChecksum)));
    assert!(read_sctp_packet(&bytes, false).is_ok());
}

#[test]
fn short_and_malformed_packets() {
    assert!(matches!(read_sctp_packet(&[0; 15], false), Err(SctpReadError::BadPacket)));
    // A chunk length under four.
    let mut bytes = vec![0u8; 12];
    bytes.extend_from_slice(&[6, 0, 0, 2, 0, 0, 0, 0]);
    assert!(matches!(read_sctp_packet(&bytes, false), Err(SctpReadError::BadPacket)));
    // A DATA chunk too short for its fixed fields.
    let mut bytes = vec![0u8; 12];
    bytes.extend_from_slice(&[0, 3, 0, 8, 1, 2, 3, 4]);
    assert!(matches!(read_sctp_packet(&bytes, false), Err(SctpReadError::BadPacket)));
}

#[test]
fn too_many_chunks() {
    let packet = SctpPacket { source_port: 1, dest_port: 2, verification_tag: 3, chunks: (0..17).map(|_| SctpChunk::Shutdown { cumulative_tsn_ack: 1 }).collect() };
    let bytes = match write_sctp_packet(&packet) {
        Ok(b) => b,
        Err(_) => panic!("encode failed"),
    };
    assert!(matches!(read_sctp_packet(&bytes, true), Err(SctpReadError::TooManyChunks)));
    let packet = SctpPacket { source_port: 1, dest_port: 2, verification_tag: 3, chunks: (0..16).map(|_| SctpChunk::CookieAck).collect() };
    let bytes = match write_sctp_packet(&packet) {
        Ok(b) => b,
        Err(_) => panic!("encode failed"),
    };
    match read_sctp_packet(&bytes, true) {
        Ok(p) => assert_eq!(p.chunks.len(), 16),
        Err(_) => panic!("decode failed"),
    }
}

#[test]
fn write_errors() {
    let empty = SctpPacket { source_port: 1, dest_port: 2, verification_tag: 3, chunks: vec![] };
    assert!(matches!(write_sctp_packet(&empty), Err(SctpWriteError::NoChunks)));
    let big = SctpPacket {
        source_port: 1,
        dest_port: 2,
        verification_tag: 3,
        chunks: vec![SctpChunk::CookieEcho { state_cookie: vec![0; 16384] }],
    };
    assert!(matches!(write_sctp_packet(&big), Err(SctpWriteError::BufferSize)));
    // Exactly the largest packet: 12 header bytes, 4 chunk header bytes.
    let exact = SctpPacket {
        source_port: 1,
        dest_port: 2,
        verification_tag: 3,
        chunks: vec![SctpChunk::CookieEcho { state_cookie: vec![0; 16384 - 16] }],
    };
    match write_sctp_packet(&exact) {
        Ok(b) => assert_eq!(b.len(), 16384),
        Err(_) => panic!("largest packet should encode"),
    }
}
