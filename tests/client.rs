use rtc_datachannel::client::{
    Client, ClientError, DtlsState, MessageType, SctpState, SCTP_BUFFER_SIZE,
};
use rtc_datachannel::sctp::{
    read_sctp_packet, write_sctp_packet, SctpChunk, SctpPacket, SCTP_FLAG_COMPLETE_UNRELIABLE,
};

const COOKIE: &[u8] = b"WEBRTC-UNRELIABLE-COOKIE";

fn encode(verification_tag: u32, chunks: Vec<SctpChunk>) -> Vec<u8> {
    let packet = SctpPacket { source_port: 5000, dest_port: 5000, verification_tag, chunks };
    match write_sctp_packet(&packet) {
        Ok(bytes) => bytes,
        Err(_) => panic!("test packet does not encode"),
    }
}

fn decode_all(packets: Vec<Vec<u8>>) -> Vec<SctpPacket> {
    packets
        .iter()
        .map(|p| match read_sctp_packet(p, true) {
            Ok(packet) => packet,
            Err(_) => panic!("outbound packet does not decode"),
        })
        .collect()
}

fn data(tsn: u32, proto_id: u32, user_data: &[u8]) -> SctpChunk {
    SctpChunk::Data {
        chunk_flags: SCTP_FLAG_COMPLETE_UNRELIABLE,
        tsn,
        stream_id: 0,
        stream_seq: 0,
        proto_id,
        user_data: user_data.to_vec(),
    }
}

/// Drives a client through DTLS and the INIT / COOKIE-ECHO exchange; returns it with the
/// initial TSN it chose.
fn established_client() -> (Client, u32) {
    let mut client = Client::new(0);
    client.handshake_finished();
    let init = SctpChunk::Init {
        initiate_tag: 0xDEADBEEF,
        window_credit: 0x20000,
        num_outbound_streams: 1024,
        num_inbound_streams: 1024,
        initial_tsn: 100,
    };
    client.receive_incoming_packet(&encode(0, vec![init]), 10).unwrap();
    let out = decode_all(client.take_outgoing_packets());
    let local_tsn = match &out[0].chunks[0] {
        SctpChunk::InitAck { initial_tsn, .. } => *initial_tsn,
        _ => panic!("expected INIT-ACK"),
    };
    let echo = SctpChunk::CookieEcho { state_cookie: COOKIE.to_vec() };
    client.receive_incoming_packet(&encode(0xDEADBEEF, vec![echo]), 20).unwrap();
    client.take_outgoing_packets();
    (client, local_tsn)
}

#[test]
fn handshake_completion() {
    let mut client = Client::new(0);
    assert_eq!(client.dtls_state(), DtlsState::Handshake);
    assert_eq!(client.sctp_state(), SctpState::Shutdown);
    // A datagram during the handshake belongs to the DTLS layer alone.
    assert!(client.receive_incoming_packet(&[22, 254, 253, 0, 0], 1).is_ok());
    assert_eq!(client.dtls_state(), DtlsState::Handshake);
    client.handshake_finished();
    assert_eq!(client.dtls_state(), DtlsState::Established);
    assert_eq!(client.sctp_state(), SctpState::Shutdown);
    assert!(!client.is_established());
    assert!(!client.is_shutdown());
}

#[test]
fn association_open() {
    let mut client = Client::new(0);
    client.handshake_finished();
    let init = SctpChunk::Init {
        initiate_tag: 0xDEADBEEF,
        window_credit: 0x20000,
        num_outbound_streams: 1024,
        num_inbound_streams: 512,
        initial_tsn: 100,
    };
    client.receive_incoming_packet(&encode(0, vec![init]), 7).unwrap();
    assert_eq!(client.sctp_state(), SctpState::InitAck);
    assert_eq!(client.last_activity(), 7);
    assert_eq!(client.last_sent(), 7);
    let out = decode_all(client.take_outgoing_packets());
    assert_eq!(out.len(), 1);
    assert_eq!(out[0].verification_tag, 0xDEADBEEF);
    assert_eq!(out[0].source_port, 5000);
    assert_eq!(out[0].dest_port, 5000);
    assert_eq!(out[0].chunks.len(), 1);
    match &out[0].chunks[0] {
        SctpChunk::InitAck {
            window_credit,
            num_outbound_streams,
            num_inbound_streams,
            state_cookie,
            ..
        } => {
            assert_eq!(*window_credit, SCTP_BUFFER_SIZE);
            assert_eq!(*window_credit, 0x40000);
            assert_eq!(*num_outbound_streams, 1024);
            assert_eq!(*num_inbound_streams, 512);
            assert_eq!(state_cookie.as_slice(), COOKIE);
        }
        _ => panic!("expected INIT-ACK"),
    }
}

#[test]
fn cookie_echo_establishes() {
    let mut client = Client::new(0);
    client.handshake_finished();
    let init = SctpChunk::Init {
        initiate_tag: 0xDEADBEEF,
        window_credit: 0x20000,
        num_outbound_streams: 1,
        num_inbound_streams: 1,
        initial_tsn: 100,
    };
    client.receive_incoming_packet(&encode(0, vec![init]), 1).unwrap();
    client.take_outgoing_packets();
    let echo = SctpChunk::CookieEcho { state_cookie: COOKIE.to_vec() };
    client.receive_incoming_packet(&encode(0xDEADBEEF, vec![echo]), 2).unwrap();
    let out = decode_all(client.take_outgoing_packets());
    assert_eq!(out.len(), 1);
    assert!(matches!(out[0].chunks[0], SctpChunk::CookieAck));
    assert_eq!(client.sctp_state(), SctpState::Established);
    assert!(client.is_established());
}

#[test]
fn wrong_cookie_is_ignored() {
    let mut client = Client::new(0);
    client.handshake_finished();
    let init = SctpChunk::Init {
        initiate_tag: 1,
        window_credit: 0,
        num_outbound_streams: 1,
        num_inbound_streams: 1,
        initial_tsn: 5,
    };
    client.receive_incoming_packet(&encode(0, vec![init]), 1).unwrap();
    client.take_outgoing_packets();
    let echo = SctpChunk::CookieEcho { state_cookie: b"not the cookie".to_vec() };
    client.receive_incoming_packet(&encode(1, vec![echo]), 2).unwrap();
    assert!(client.take_outgoing_packets().is_empty());
    assert_eq!(client.sctp_state(), SctpState::InitAck);
}

#[test]
fn dcep_and_message_exchange() {
    let (mut client, local_tsn) = established_client();
    client.receive_incoming_packet(&encode(0xDEADBEEF, vec![data(100, 50, &[0x03])]), 30).unwrap();
    let out = decode_all(client.take_outgoing_packets());
    assert_eq!(out.len(), 2);
    match &out[0].chunks[0] {
        SctpChunk::Data { tsn, stream_id, proto_id, user_data, chunk_flags, .. } => {
            assert_eq!(*proto_id, 50);
            assert_eq!(user_data.as_slice(), &[0x02]);
            assert_eq!(*stream_id, 0);
            assert_eq!(*tsn, local_tsn);
            assert_eq!(*chunk_flags, SCTP_FLAG_COMPLETE_UNRELIABLE);
        }
        _ => panic!("expected DATA_CHANNEL_ACK"),
    }
    match &out[1].chunks[0] {
        SctpChunk::SAck { cumulative_tsn_ack, adv_recv_window, num_gap_ack_blocks, num_dup_tsn } => {
            assert_eq!(*cumulative_tsn_ack, 100);
            assert_eq!(*adv_recv_window, 0x40000);
            assert_eq!(*num_gap_ack_blocks, 0);
            assert_eq!(*num_dup_tsn, 0);
        }
        _ => panic!("expected SACK"),
    }
    client.receive_incoming_packet(&encode(0xDEADBEEF, vec![data(101, 51, b"hello")]), 40).unwrap();
    let messages = client.receive_messages();
    assert_eq!(messages, vec![(MessageType::Text, b"hello".to_vec())]);
    assert!(client.receive_messages().is_empty());
    let out = decode_all(client.take_outgoing_packets());
    assert_eq!(out.len(), 1);
    match &out[0].chunks[0] {
        SctpChunk::SAck { cumulative_tsn_ack, .. } => assert_eq!(*cumulative_tsn_ack, 101),
        _ => panic!("expected SACK"),
    }
    assert_eq!(client.last_activity(), 40);
}

#[test]
fn binary_and_unknown_ppid() {
    let (mut client, _) = established_client();
    client.receive_incoming_packet(&encode(0xDEADBEEF, vec![data(100, 53, &[1, 2, 3])]), 30).unwrap();
    client.receive_incoming_packet(&encode(0xDEADBEEF, vec![data(101, 99, &[9])]), 31).unwrap();
    assert_eq!(client.receive_messages(), vec![(MessageType::Binary, vec![1, 2, 3])]);
    // Both chunks are acknowledged, the unknown one too.
    let out = decode_all(client.take_outgoing_packets());
    assert_eq!(out.len(), 2);
    assert!(matches!(out[1].chunks[0], SctpChunk::SAck { cumulative_tsn_ack: 101, .. }));
}

#[test]
fn sack_uses_serial_number_maximum() {
    let (mut client, _) = established_client();
    // An older TSN does not move the cumulative ack back.
    client.receive_incoming_packet(&encode(0xDEADBEEF, vec![data(90, 51, b"x")]), 30).unwrap();
    let out = decode_all(client.take_outgoing_packets());
    assert!(matches!(out[0].chunks[0], SctpChunk::SAck { cumulative_tsn_ack: 100, .. }));
    // FORWARD-TSN sets the remote TSN as given, here just below the wrap.
    let fwd = SctpChunk::ForwardTsn { new_cumulative_tsn: 0xFFFF_FFFF };
    client.receive_incoming_packet(&encode(0xDEADBEEF, vec![fwd]), 31).unwrap();
    assert!(client.take_outgoing_packets().is_empty());
    client.receive_incoming_packet(&encode(0xDEADBEEF, vec![data(1, 51, b"y")]), 32).unwrap();
    let out = decode_all(client.take_outgoing_packets());
    assert!(matches!(out[0].chunks[0], SctpChunk::SAck { cumulative_tsn_ack: 1, .. }));
}

#[test]
fn sent_messages_carry_consecutive_tsns() {
    let (mut client, local_tsn) = established_client();
    client.send_message(MessageType::Text, b"a", 100).unwrap();
    client.send_message(MessageType::Binary, b"b", 100).unwrap();
    client.send_message(MessageType::Text, b"c", 100).unwrap();
    let out = decode_all(client.take_outgoing_packets());
    assert_eq!(out.len(), 3);
    let expected = [(51u32, b"a"), (53, b"b"), (51, b"c")];
    for (i, packet) in out.iter().enumerate() {
        assert_eq!(packet.verification_tag, 0xDEADBEEF);
        match &packet.chunks[0] {
            SctpChunk::Data { tsn, proto_id, user_data, stream_id, stream_seq, chunk_flags } => {
                assert_eq!(*tsn, local_tsn.wrapping_add(i as u32));
                assert_eq!(*proto_id, expected[i].0);
                assert_eq!(user_data.as_slice(), expected[i].1);
                assert_eq!(*stream_id, 0);
                assert_eq!(*stream_seq, 0);
                assert_eq!(*chunk_flags, 0x07);
            }
            _ => panic!("expected DATA"),
        }
    }
}

#[test]
fn send_errors() {
    let mut client = Client::new(0);
    assert_eq!(client.send_message(MessageType::Text, b"x", 100), Err(ClientError::NotConnected));
    client.handshake_finished();
    assert_eq!(client.send_message(MessageType::Text, b"x", 100), Err(ClientError::NotEstablished));
    let (mut client, _) = established_client();
    let big = vec![0u8; 20000];
    assert_eq!(client.send_message(MessageType::Binary, &big, 100), Err(ClientError::IncompletePacketWrite));
    assert!(client.take_outgoing_packets().is_empty());
}

#[test]
fn no_send_after_start_shutdown() {
    let (mut client, _) = established_client();
    client.start_shutdown(50).unwrap();
    assert_eq!(client.send_message(MessageType::Text, b"x", 100), Err(ClientError::NotConnected));
    assert_eq!(client.send_message(MessageType::Binary, b"", 100), Err(ClientError::NotConnected));
    assert_eq!(client.dtls_state(), DtlsState::ShuttingDown);
    assert_eq!(client.sctp_state(), SctpState::Shutdown);
    let out = decode_all(client.take_outgoing_packets());
    assert_eq!(out.len(), 1);
    assert!(matches!(out[0].chunks[0], SctpChunk::Abort));
    assert_eq!(out[0].verification_tag, 0xDEADBEEF);
    assert_eq!(client.last_sent(), 50);
}

#[test]
fn start_shutdown_before_established_is_noop() {
    let mut client = Client::new(0);
    client.start_shutdown(5).unwrap();
    assert_eq!(client.dtls_state(), DtlsState::Handshake);
    assert!(client.take_outgoing_packets().is_empty());
}

#[test]
fn take_outgoing_twice_is_empty() {
    let (mut client, _) = established_client();
    client.send_message(MessageType::Text, b"a", 100).unwrap();
    assert_eq!(client.take_outgoing_packets().len(), 1);
    assert!(client.take_outgoing_packets().is_empty());
}

#[test]
fn heartbeat_ack_is_quiet() {
    let (mut client, _) = established_client();
    let ack = SctpChunk::HeartbeatAck { heartbeat_info: Some(b"WEBRTC-UNRELIABLE-HEARTBEAT".to_vec()) };
    client.receive_incoming_packet(&encode(0xDEADBEEF, vec![ack]), 777).unwrap();
    assert_eq!(client.last_activity(), 777);
    assert!(client.take_outgoing_packets().is_empty());
}

#[test]
fn heartbeat_is_echoed() {
    let (mut client, _) = established_client();
    let hb = SctpChunk::Heartbeat { heartbeat_info: Some(vec![1, 2, 3, 4, 5]) };
    client.receive_incoming_packet(&encode(0xDEADBEEF, vec![hb]), 60).unwrap();
    let out = decode_all(client.take_outgoing_packets());
    match &out[0].chunks[0] {
        SctpChunk::HeartbeatAck { heartbeat_info: Some(info) } => assert_eq!(info, &vec![1, 2, 3, 4, 5]),
        _ => panic!("expected HEARTBEAT-ACK"),
    }
}

#[test]
fn heartbeat_when_idle() {
    let (mut client, _) = established_client();
    let start = client.last_sent();
    client.generate_periodic(start + 3000).unwrap();
    assert!(client.take_outgoing_packets().is_empty());
    client.generate_periodic(start + 4000).unwrap();
    let out = decode_all(client.take_outgoing_packets());
    assert_eq!(out.len(), 1);
    match &out[0].chunks[0] {
        SctpChunk::Heartbeat { heartbeat_info: Some(info) } => {
            assert_eq!(info.as_slice(), b"WEBRTC-UNRELIABLE-HEARTBEAT")
        }
        _ => panic!("expected HEARTBEAT"),
    }
    assert_eq!(client.last_sent(), start + 4000);
}

#[test]
fn no_heartbeat_before_established() {
    let mut client = Client::new(0);
    client.handshake_finished();
    client.generate_periodic(10_000).unwrap();
    assert!(client.take_outgoing_packets().is_empty());
}

#[test]
fn sack_with_gaps_forwards_tsn() {
    let (mut client, local_tsn) = established_client();
    let sack = SctpChunk::SAck { cumulative_tsn_ack: 0, adv_recv_window: 0, num_gap_ack_blocks: 2, num_dup_tsn: 0 };
    client.receive_incoming_packet(&encode(0xDEADBEEF, vec![sack]), 70).unwrap();
    let out = decode_all(client.take_outgoing_packets());
    assert!(matches!(out[0].chunks[0], SctpChunk::ForwardTsn { new_cumulative_tsn } if new_cumulative_tsn == local_tsn));
    assert_eq!(client.last_activity(), 70);
}

#[test]
fn shutdown_is_acknowledged() {
    let (mut client, _) = established_client();
    let shutdown = SctpChunk::Shutdown { cumulative_tsn_ack: 3 };
    client.receive_incoming_packet(&encode(0xDEADBEEF, vec![shutdown]), 70).unwrap();
    let out = decode_all(client.take_outgoing_packets());
    assert!(matches!(out[0].chunks[0], SctpChunk::ShutdownAck));
    assert_eq!(client.last_sent(), 70);
}

#[test]
fn abort_shuts_down() {
    let (mut client, _) = established_client();
    client.receive_incoming_packet(&encode(0xDEADBEEF, vec![SctpChunk::Abort]), 80).unwrap();
    assert!(!client.is_established());
    assert_eq!(client.sctp_state(), SctpState::Shutdown);
    assert_eq!(client.dtls_state(), DtlsState::ShuttingDown);
    // No ABORT goes back in answer to an ABORT.
    assert!(client.take_outgoing_packets().is_empty());
    client.close_notify_received();
    assert!(client.is_shutdown());
    assert_eq!(
        client.receive_incoming_packet(&[0u8; 20], 90),
        Err(ClientError::NotConnected)
    );
}

#[test]
fn malformed_packet_is_dropped() {
    let (mut client, _) = established_client();
    assert!(client.receive_incoming_packet(&[1, 2, 3], 90).is_ok());
    assert!(client.is_established());
    assert!(client.take_outgoing_packets().is_empty());
}

#[test]
fn init_adopts_given_tag_and_tsn() {
    let mut client = Client::new(0);
    client.handshake_finished();
    let init = SctpChunk::Init {
        initiate_tag: 0xDEADBEEF,
        window_credit: 0x20000,
        num_outbound_streams: 3,
        num_inbound_streams: 4,
        initial_tsn: 100,
    };
    let packet = SctpPacket { source_port: 5000, dest_port: 6000, verification_tag: 0, chunks: vec![init] };
    client.receive_sctp_packet(&packet, 9, 0x1234_5678, 555).unwrap();
    let out = decode_all(client.take_outgoing_packets());
    assert_eq!(out[0].source_port, 6000);
    assert_eq!(out[0].dest_port, 5000);
    match &out[0].chunks[0] {
        SctpChunk::InitAck { initiate_tag, initial_tsn, .. } => {
            assert_eq!(*initiate_tag, 0x1234_5678);
            assert_eq!(*initial_tsn, 555);
        }
        _ => panic!("expected INIT-ACK"),
    }
    let echo = SctpChunk::CookieEcho { state_cookie: COOKIE.to_vec() };
    let packet = SctpPacket { source_port: 5000, dest_port: 6000, verification_tag: 0x1234_5678, chunks: vec![echo] };
    client.receive_sctp_packet(&packet, 10, 0, 0).unwrap();
    client.take_outgoing_packets();
    client.send_message(MessageType::Text, b"m", 100).unwrap();
    let out = decode_all(client.take_outgoing_packets());
    assert!(matches!(out[0].chunks[0], SctpChunk::Data { tsn: 555, .. }));
}

#[test]
fn chunks_after_abort_are_not_handled() {
    let (mut client, _) = established_client();
    let packet = SctpPacket {
        source_port: 5000,
        dest_port: 5000,
        verification_tag: 0xDEADBEEF,
        chunks: vec![SctpChunk::Abort, data(100, 51, b"late")],
    };
    client.receive_sctp_packet(&packet, 5, 0, 0).unwrap();
    assert!(client.receive_messages().is_empty());
    assert!(client.take_outgoing_packets().is_empty());
}

#[test]
fn error_messages() {
    assert_eq!(ClientError::NotConnected.message(), "client is not connected");
    assert_eq!(
        ClientError::NotEstablished.message(),
        "client does not have an established WebRTC data channel"
    );
    assert_eq!(ClientError::IncompletePacketRead.message(), "WebRTC connection packet not completely read");
    assert_eq!(ClientError::IncompletePacketWrite.message(), "WebRTC connection packet not completely written");
    assert_eq!(ClientError::TlsError.message(), "TLS error");
    assert_eq!(ClientError::OpenSslError.message(), "TLS setup error");
}

#[test]
fn send_updates_last_sent() {
    let (mut client, _) = established_client();
    client.send_message(MessageType::Text, b"x", 1234).unwrap();
    assert_eq!(client.last_sent(), 1234);
    assert!(client.send_message(MessageType::Text, &vec![0u8; 20000], 2000).is_err());
    assert_eq!(client.last_sent(), 1234);
}

#[test]
fn repeated_cookie_echo_counts_as_activity() {
    let (mut client, _) = established_client();
    let echo = SctpChunk::CookieEcho { state_cookie: COOKIE.to_vec() };
    client.receive_incoming_packet(&encode(0xDEADBEEF, vec![echo]), 500).unwrap();
    let out = decode_all(client.take_outgoing_packets());
    assert!(matches!(out[0].chunks[0], SctpChunk::CookieAck));
    assert_eq!(client.last_activity(), 500);
    assert_eq!(client.last_sent(), 500);
    assert!(client.is_established());
}

#[test]
fn tls_failure_terminates() {
    let (mut client, _) = established_client();
    client.tls_failed();
    assert!(client.is_shutdown());
    assert!(!client.is_established());
    assert_eq!(client.sctp_state(), SctpState::Shutdown);
    assert_eq!(client.send_message(MessageType::Text, b"x", 1), Err(ClientError::NotConnected));
    assert_eq!(client.receive_incoming_packet(&[0u8; 16], 2), Err(ClientError::NotConnected));
}

#[test]
fn abort_after_other_chunks() {
    let (mut client, _) = established_client();
    let packet = SctpPacket {
        source_port: 5000,
        dest_port: 5000,
        verification_tag: 0xDEADBEEF,
        chunks: vec![data(100, 51, b"first"), SctpChunk::Abort],
    };
    client.receive_sctp_packet(&packet, 5, 0, 0).unwrap();
    assert!(!client.is_established());
    assert_eq!(client.sctp_state(), SctpState::Shutdown);
    assert_eq!(client.dtls_state(), DtlsState::ShuttingDown);
    assert_eq!(client.receive_messages().len(), 1);
}

#[test]
fn several_heartbeat_acks_are_quiet() {
    let (mut client, _) = established_client();
    let sent = client.last_sent();
    let packet = SctpPacket {
        source_port: 5000,
        dest_port: 5000,
        verification_tag: 0xDEADBEEF,
        chunks: vec![
            SctpChunk::HeartbeatAck { heartbeat_info: None },
            SctpChunk::HeartbeatAck { heartbeat_info: Some(vec![1]) },
        ],
    };
    client.receive_sctp_packet(&packet, 900, 0, 0).unwrap();
    assert_eq!(client.last_activity(), 900);
    assert_eq!(client.last_sent(), sent);
    assert!(client.take_outgoing_packets().is_empty());
}
