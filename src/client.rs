use vstd::prelude::*;
use vstd::string::StringSliceAdditionalSpecFns;

use crate::bytes::push_all;
use crate::sctp::{
    opt_view, parse_packet, read_result_view, SctpReadError,
    chunk_body, chunk_bytes, chunks_bytes, encode_packet, encoded_len, read_sctp_packet, write_sctp_packet, ChunkView, PacketView,
    SctpChunk, SctpPacket, MAX_SCTP_PACKET_SIZE, SCTP_FLAG_COMPLETE_UNRELIABLE,
};
use crate::tsn::{max_tsn, spec_max_tsn, tsn_add};
use rand::Rng;

verus! {

/// Heartbeats are sent when nothing has been sent for longer than this, in milliseconds.
pub const HEARTBEAT_INTERVAL_MS: u64 = 3000;

pub const MAX_UDP_PAYLOAD_SIZE: usize = 65507;
pub const MAX_DTLS_MESSAGE_SIZE: usize = 16384;

/// Receive window advertised to the peer.
pub const SCTP_BUFFER_SIZE: u32 = 0x40000;

/// State cookie handed out in INIT-ACK and expected back in COOKIE-ECHO.
pub const SCTP_COOKIE: &'static str = "WEBRTC-UNRELIABLE-COOKIE";
/// Heartbeat information carried by the heartbeats this side sends.
pub const SCTP_HEARTBEAT: &'static str = "WEBRTC-UNRELIABLE-HEARTBEAT";

pub const DATA_CHANNEL_PROTO_CONTROL: u32 = 50;
pub const DATA_CHANNEL_PROTO_STRING: u32 = 51;
pub const DATA_CHANNEL_PROTO_BINARY: u32 = 53;

pub const DATA_CHANNEL_MESSAGE_ACK: u8 = 2;
pub const DATA_CHANNEL_MESSAGE_OPEN: u8 = 3;

#[derive(Copy, Clone, Eq, PartialEq, Debug, Structural)]
pub enum MessageType {
    Text,
    Binary,
}

#[derive(Copy, Clone, Eq, PartialEq, Debug, Structural)]
pub enum ClientError {
    /// The TLS library reported an error it cannot recover from.
    TlsError,
    /// The TLS library failed while setting up the handshake.
    OpenSslError,
    /// The operation needs an established DTLS session.
    NotConnected,
    /// The operation needs an established SCTP association.
    NotEstablished,
    /// An inbound datagram was larger than the buffer it was read into.
    IncompletePacketRead,
    /// An outbound SCTP packet did not fit in `MAX_SCTP_PACKET_SIZE`.
    IncompletePacketWrite,
}

pub open spec fn client_error_text(e: ClientError) -> Seq<char> {
    match e {
        ClientError::TlsError => "TLS error"@,
        ClientError::OpenSslError => "TLS setup error"@,
        ClientError::NotConnected => "client is not connected"@,
        ClientError::NotEstablished => "client does not have an established WebRTC data channel"@,
        ClientError::IncompletePacketRead => "WebRTC connection packet not completely read"@,
        ClientError::IncompletePacketWrite => "WebRTC connection packet not completely written"@,
    }
}

impl ClientError {
    /// A sentence that describes the error.
    pub fn message(&self) -> (r: &'static str)
        ensures
            r@ == client_error_text(*self),
    {
        match self {
            ClientError::TlsError => "TLS error",
            ClientError::OpenSslError => "TLS setup error",
            ClientError::NotConnected => "client is not connected",
            ClientError::NotEstablished => "client does not have an established WebRTC data channel",
            ClientError::IncompletePacketRead => "WebRTC connection packet not completely read",
            ClientError::IncompletePacketWrite => "WebRTC connection packet not completely written",
        }
    }
}

/// Phase of the DTLS session that carries the association.
#[derive(Copy, Clone, Eq, PartialEq, Debug, Structural)]
pub enum DtlsState {
    Handshake,
    Established,
    ShuttingDown,
    Shutdown,
}

/// Phase of the SCTP association.
#[derive(Copy, Clone, Eq, PartialEq, Debug, Structural)]
pub enum SctpState {
    Shutdown,
    InitAck,
    Established,
}

/// One peer's data channel. The DTLS layer around it reports its progress through
/// `handshake_finished` and `close_notify_received`, hands in each decrypted record, and
/// encrypts what `take_outgoing_packets` yields. Times are milliseconds on the owner's clock.
pub struct Client {
    dtls_state: DtlsState,
    sctp_state: SctpState,
    sctp_local_port: u16,
    sctp_remote_port: u16,
    sctp_local_verification_tag: u32,
    sctp_remote_verification_tag: u32,
    sctp_local_tsn: u32,
    sctp_remote_tsn: u32,
    last_activity: u64,
    last_sent: u64,
    received_messages: Vec<(MessageType, Vec<u8>)>,
    outgoing: Vec<Vec<u8>>,
}

pub ghost struct ClientView {
    pub dtls: DtlsState,
    pub sctp: SctpState,
    pub local_port: u16,
    pub remote_port: u16,
    pub local_tag: u32,
    pub remote_tag: u32,
    pub local_tsn: u32,
    pub remote_tsn: u32,
    pub last_activity: u64,
    pub last_sent: u64,
    /// Application messages received and not yet drained.
    pub received: Seq<(MessageType, Seq<u8>)>,
    /// Encoded SCTP packets waiting for the DTLS layer.
    pub outgoing: Seq<Seq<u8>>,
}

pub open spec fn messages_view(s: Seq<(MessageType, Vec<u8>)>) -> Seq<(MessageType, Seq<u8>)> {
    s.map_values(|m: (MessageType, Vec<u8>)| (m.0, m.1@))
}

pub open spec fn packets_view(s: Seq<Vec<u8>>) -> Seq<Seq<u8>> {
    s.map_values(|p: Vec<u8>| p@)
}

impl View for Client {
    type V = ClientView;

    closed spec fn view(&self) -> ClientView {
        ClientView {
            dtls: self.dtls_state,
            sctp: self.sctp_state,
            local_port: self.sctp_local_port,
            remote_port: self.sctp_remote_port,
            local_tag: self.sctp_local_verification_tag,
            remote_tag: self.sctp_remote_verification_tag,
            local_tsn: self.sctp_local_tsn,
            remote_tsn: self.sctp_remote_tsn,
            last_activity: self.last_activity,
            last_sent: self.last_sent,
            received: messages_view(self.received_messages@),
            outgoing: packets_view(self.outgoing@),
        }
    }
}

/// Whether both layers are established.
pub open spec fn established(s: ClientView) -> bool {
    s.dtls == DtlsState::Established && s.sctp == SctpState::Established
}

/// The association exists only inside an established DTLS session, and every queued
/// packet fits in one DTLS record.
pub open spec fn client_wf(s: ClientView) -> bool {
    &&& s.dtls != DtlsState::Established ==> s.sctp == SctpState::Shutdown
    &&& forall|i: int| 0 <= i < s.outgoing.len() ==> #[trigger] s.outgoing[i].len() <= MAX_SCTP_PACKET_SIZE
}

pub open spec fn cookie() -> Seq<u8> {
    SCTP_COOKIE.spec_bytes()
}

pub open spec fn heartbeat_info() -> Seq<u8> {
    SCTP_HEARTBEAT.spec_bytes()
}

/// The packet that carries one chunk from this side to the peer.
pub open spec fn out_packet(s: ClientView, c: ChunkView) -> PacketView {
    PacketView {
        source_port: s.local_port,
        dest_port: s.remote_port,
        verification_tag: s.remote_tag,
        chunks: seq![c],
    }
}

/// Queues a packet holding `c`, or fails where it would not fit.
pub open spec fn send_chunk(s: ClientView, c: ChunkView) -> Result<ClientView, ClientError> {
    if encoded_len(out_packet(s, c)) > MAX_SCTP_PACKET_SIZE {
        Err(ClientError::IncompletePacketWrite)
    } else {
        Ok(ClientView { outgoing: s.outgoing.push(encode_packet(out_packet(s, c))), ..s })
    }
}

/// The DATA chunk this side sends with the given stream, protocol and payload.
pub open spec fn data_chunk(tsn: u32, stream_id: u16, proto_id: u32, payload: Seq<u8>) -> ChunkView {
    ChunkView::Data {
        chunk_flags: SCTP_FLAG_COMPLETE_UNRELIABLE,
        tsn,
        stream_id,
        stream_seq: 0,
        proto_id,
        user_data: payload,
    }
}

/// The SACK sent after every received DATA chunk.
pub open spec fn sack_chunk(remote_tsn: u32) -> ChunkView {
    ChunkView::SAck {
        cumulative_tsn_ack: remote_tsn,
        adv_recv_window: SCTP_BUFFER_SIZE,
        num_gap_ack_blocks: 0,
        num_dup_tsn: 0,
    }
}

pub open spec fn proto_of(kind: MessageType) -> u32 {
    match kind {
        MessageType::Text => DATA_CHANNEL_PROTO_STRING,
        MessageType::Binary => DATA_CHANNEL_PROTO_BINARY,
    }
}

pub open spec fn next_tsn(t: u32) -> u32 {
    if t == u32::MAX { 0 } else { (t + 1) as u32 }
}

/// What `take_outgoing_packets` yields, and the state it leaves: once shut down, nothing
/// is yielded and nothing changes.
pub open spec fn take_outgoing_spec(s: ClientView) -> (Seq<Seq<u8>>, ClientView) {
    if s.dtls == DtlsState::Shutdown {
        (Seq::empty(), s)
    } else {
        (s.outgoing, ClientView { outgoing: Seq::empty(), ..s })
    }
}

/// What `start_shutdown` does: an established session aborts the association (where it is
/// not already down) and starts closing DTLS; any other phase is left as it is.
pub open spec fn start_shutdown_spec(s: ClientView, now: u64) -> ClientView {
    if s.dtls == DtlsState::Established {
        if s.sctp != SctpState::Shutdown {
            ClientView {
                dtls: DtlsState::ShuttingDown,
                sctp: SctpState::Shutdown,
                outgoing: s.outgoing.push(encode_packet(out_packet(s, ChunkView::Abort))),
                last_sent: now,
                ..s
            }
        } else {
            ClientView { dtls: DtlsState::ShuttingDown, ..s }
        }
    } else {
        s
    }
}

/// What `send_message` does.
pub open spec fn send_message_spec(s: ClientView, kind: MessageType, msg: Seq<u8>, now: u64) -> Result<ClientView, ClientError> {
    if s.dtls != DtlsState::Established {
        Err(ClientError::NotConnected)
    } else if s.sctp != SctpState::Established {
        Err(ClientError::NotEstablished)
    } else {
        match send_chunk(s, data_chunk(s.local_tsn, 0, proto_of(kind), msg)) {
            Ok(s1) => Ok(ClientView { local_tsn: next_tsn(s.local_tsn), last_sent: now, ..s1 }),
            Err(e) => Err(e),
        }
    }
}

/// The state after a received DATA chunk's payload was handled, before its SACK.
pub open spec fn data_payload_step(s: ClientView, stream_id: u16, proto_id: u32, payload: Seq<u8>) -> Result<ClientView, ClientError> {
    if proto_id == DATA_CHANNEL_PROTO_CONTROL {
        if payload.len() > 0 && payload[0] == DATA_CHANNEL_MESSAGE_OPEN {
            match send_chunk(s, data_chunk(s.local_tsn, stream_id, DATA_CHANNEL_PROTO_CONTROL, seq![DATA_CHANNEL_MESSAGE_ACK])) {
                Ok(s1) => Ok(ClientView { local_tsn: next_tsn(s.local_tsn), ..s1 }),
                Err(e) => Err(e),
            }
        } else {
            Ok(s)
        }
    } else if proto_id == DATA_CHANNEL_PROTO_STRING {
        Ok(ClientView { received: s.received.push((MessageType::Text, payload)), ..s })
    } else if proto_id == DATA_CHANNEL_PROTO_BINARY {
        Ok(ClientView { received: s.received.push((MessageType::Binary, payload)), ..s })
    } else {
        Ok(s)
    }
}

/// How one received chunk changes the client. `src_port` and `dst_port` come from the
/// packet's header; `tag` and `tsn` are the values an INIT adopts for this side.
pub open spec fn chunk_step(
    s: ClientView,
    c: ChunkView,
    src_port: u16,
    dst_port: u16,
    now: u64,
    tag: u32,
    tsn: u32,
) -> Result<ClientView, ClientError> {
    match c {
        ChunkView::Init { initiate_tag, num_outbound_streams, num_inbound_streams, initial_tsn, .. } => {
            let s1 = ClientView {
                local_port: dst_port,
                remote_port: src_port,
                local_tag: tag,
                remote_tag: initiate_tag,
                local_tsn: tsn,
                remote_tsn: initial_tsn,
                ..s
            };
            let ack = ChunkView::InitAck {
                initiate_tag: tag,
                window_credit: SCTP_BUFFER_SIZE,
                num_outbound_streams,
                num_inbound_streams,
                initial_tsn: tsn,
                state_cookie: cookie(),
            };
            match send_chunk(s1, ack) {
                Ok(s2) => Ok(ClientView { sctp: SctpState::InitAck, last_activity: now, last_sent: now, ..s2 }),
                Err(e) => Err(e),
            }
        },
        ChunkView::CookieEcho { state_cookie } => {
            if state_cookie == cookie() && s.sctp != SctpState::Shutdown {
                match send_chunk(s, ChunkView::CookieAck) {
                    Ok(s1) => if s.sctp == SctpState::InitAck {
                        Ok(ClientView { sctp: SctpState::Established, last_activity: now, last_sent: now, ..s1 })
                    } else {
                        Ok(ClientView { last_activity: now, last_sent: now, ..s1 })
                    },
                    Err(e) => Err(e),
                }
            } else {
                Ok(s)
            }
        },
        ChunkView::Data { tsn: t, stream_id, proto_id, user_data, .. } => {
            let s1 = ClientView { remote_tsn: spec_max_tsn(s.remote_tsn, t), ..s };
            match data_payload_step(s1, stream_id, proto_id, user_data) {
                Ok(s2) => match send_chunk(s2, sack_chunk(s2.remote_tsn)) {
                    Ok(s3) => Ok(ClientView { last_activity: now, last_sent: now, ..s3 }),
                    Err(e) => Err(e),
                },
                Err(e) => Err(e),
            }
        },
        ChunkView::Heartbeat { heartbeat_info } => {
            match send_chunk(s, ChunkView::HeartbeatAck { heartbeat_info }) {
                Ok(s1) => Ok(ClientView { last_activity: now, last_sent: now, ..s1 }),
                Err(e) => Err(e),
            }
        },
        ChunkView::HeartbeatAck { .. } => Ok(ClientView { last_activity: now, ..s }),
        ChunkView::SAck { num_gap_ack_blocks, .. } => {
            if num_gap_ack_blocks > 0 {
                match send_chunk(s, ChunkView::ForwardTsn { new_cumulative_tsn: s.local_tsn }) {
                    Ok(s1) => Ok(ClientView { last_activity: now, last_sent: now, ..s1 }),
                    Err(e) => Err(e),
                }
            } else {
                Ok(ClientView { last_activity: now, ..s })
            }
        },
        ChunkView::Shutdown { .. } => match send_chunk(s, ChunkView::ShutdownAck) {
            Ok(s1) => Ok(ClientView { last_sent: now, ..s1 }),
            Err(e) => Err(e),
        },
        ChunkView::ShutdownAck => Ok(start_shutdown_spec(ClientView { sctp: SctpState::Shutdown, ..s }, now)),
        ChunkView::Abort => Ok(start_shutdown_spec(ClientView { sctp: SctpState::Shutdown, ..s }, now)),
        ChunkView::ForwardTsn { new_cumulative_tsn } => Ok(ClientView { remote_tsn: new_cumulative_tsn, ..s }),
        _ => Ok(s),
    }
}

/// How a packet's chunks change the client, one after another; handling stops at the first
/// error and once the DTLS session is no longer established.
pub open spec fn chunks_step(
    s: ClientView,
    cs: Seq<ChunkView>,
    src_port: u16,
    dst_port: u16,
    now: u64,
    tag: u32,
    tsn: u32,
) -> Result<ClientView, ClientError>
    decreases cs.len(),
{
    if cs.len() == 0 || s.dtls != DtlsState::Established {
        Ok(s)
    } else {
        match chunk_step(s, cs[0], src_port, dst_port, now, tag, tsn) {
            Ok(s1) => chunks_step(s1, cs.skip(1), src_port, dst_port, now, tag, tsn),
            Err(e) => Err(e),
        }
    }
}

#[verifier::opaque]
pub open spec fn packet_step(s: ClientView, p: PacketView, now: u64, tag: u32, tsn: u32) -> Result<ClientView, ClientError> {
    chunks_step(s, p.chunks, p.source_port, p.dest_port, now, tag, tsn)
}


/// Whether `generate_periodic` at `now` sends a heartbeat.
pub open spec fn periodic_due(s: ClientView, now: u64) -> bool {
    now > s.last_sent && now - s.last_sent > HEARTBEAT_INTERVAL_MS && established(s)
}

/// A HEARTBEAT carrying this side's heartbeat information.
pub open spec fn heartbeat_chunk() -> ChunkView {
    ChunkView::Heartbeat { heartbeat_info: Some(heartbeat_info()) }
}

/// Relies on rand's `thread_rng` and `Rng::gen::<u32>`: a random value, of which nothing
/// is known.
#[verifier::external_body]
fn random_u32() -> u32 {
    rand::thread_rng().gen::<u32>()
}

fn bytes_eq(a: &[u8], b: &[u8]) -> (r: bool)
    ensures
        r == (a@ == b@),
{
    if a.len() != b.len() {
        return false;
    }
    let mut i: usize = 0;
    while i < a.len()
        invariant
            a@.len() == b@.len(),
            i <= a@.len(),
            forall|k: int| 0 <= k < i ==> a@[k] == b@[k],
        decreases a@.len() - i,
    {
        if a[i] != b[i] {
            return false;
        }
        i = i + 1;
    }
    assert(a@ =~= b@);
    true
}

fn copy_bytes(src: &[u8]) -> (r: Vec<u8>)
    ensures
        r@ == src@,
{
    let mut v: Vec<u8> = Vec::new();
    push_all(&mut v, src);
    assert(v@ =~= src@);
    v
}

impl Client {
    /// A client at the start of its DTLS handshake, with no association.
    pub fn new(now: u64) -> (c: Client)
        ensures
            c@ == (ClientView {
                dtls: DtlsState::Handshake,
                sctp: SctpState::Shutdown,
                local_port: 0,
                remote_port: 0,
                local_tag: 0,
                remote_tag: 0,
                local_tsn: 0,
                remote_tsn: 0,
                last_activity: now,
                last_sent: now,
                received: Seq::empty(),
                outgoing: Seq::empty(),
            }),
            client_wf(c@),
    {
        let c = Client {
            dtls_state: DtlsState::Handshake,
            sctp_state: SctpState::Shutdown,
            sctp_local_port: 0,
            sctp_remote_port: 0,
            sctp_local_verification_tag: 0,
            sctp_remote_verification_tag: 0,
            sctp_local_tsn: 0,
            sctp_remote_tsn: 0,
            last_activity: now,
            last_sent: now,
            received_messages: Vec::new(),
            outgoing: Vec::new(),
        };
        assert(messages_view(c.received_messages@) =~= Seq::empty());
        assert(packets_view(c.outgoing@) =~= Seq::empty());
        c
    }

    /// DTLS and SCTP are both established: application messages may be sent.
    pub fn is_established(&self) -> (r: bool)
        ensures
            r == established(self@),
            r ==> self@.dtls == DtlsState::Established && self@.sctp == SctpState::Established,
    {
        self.dtls_state == DtlsState::Established && self.sctp_state == SctpState::Established
    }

    /// Time of the last inbound sign of a working connection.
    pub fn last_activity(&self) -> (r: u64)
        ensures
            r == self@.last_activity,
    {
        self.last_activity
    }

    /// Time the last outbound packet was produced.
    pub fn last_sent(&self) -> (r: u64)
        ensures
            r == self@.last_sent,
    {
        self.last_sent
    }

    pub fn dtls_state(&self) -> (r: DtlsState)
        ensures
            r == self@.dtls,
    {
        self.dtls_state
    }

    pub fn sctp_state(&self) -> (r: SctpState)
        ensures
            r == self@.sctp,
    {
        self.sctp_state
    }

    /// The connection has finished shutting down.
    pub fn is_shutdown(&self) -> (r: bool)
        ensures
            r == (self@.dtls == DtlsState::Shutdown),
    {
        self.dtls_state == DtlsState::Shutdown
    }

    /// The DTLS handshake has completed.
    pub fn handshake_finished(&mut self)
        ensures
            final(self)@ == (if old(self)@.dtls == DtlsState::Handshake {
                ClientView { dtls: DtlsState::Established, ..old(self)@ }
            } else {
                old(self)@
            }),
            client_wf(old(self)@) ==> client_wf(final(self)@),
    {
        if self.dtls_state == DtlsState::Handshake {
            self.dtls_state = DtlsState::Established;
        }
    }

    /// The peer's close-notify has arrived while this side was closing: the connection is down.
    pub fn close_notify_received(&mut self)
        ensures
            final(self)@ == (if old(self)@.dtls == DtlsState::ShuttingDown {
                ClientView { dtls: DtlsState::Shutdown, ..old(self)@ }
            } else {
                old(self)@
            }),
            client_wf(old(self)@) ==> client_wf(final(self)@),
    {
        if self.dtls_state == DtlsState::ShuttingDown {
            self.dtls_state = DtlsState::Shutdown;
        }
    }

    fn send_chunk(&mut self, c: SctpChunk) -> (r: Result<(), ClientError>)
        ensures
            match send_chunk(old(self)@, c@) {
                Ok(s) => r is Ok && final(self)@ == s,
                Err(e) => r == Err::<(), ClientError>(e) && final(self)@ == old(self)@,
            },
            client_wf(old(self)@) ==> client_wf(final(self)@),
    {
        let ghost cv = c@;
        let packet = SctpPacket {
            source_port: self.sctp_local_port,
            dest_port: self.sctp_remote_port,
            verification_tag: self.sctp_remote_verification_tag,
            chunks: vec![c],
        };
        assert(packet@.chunks =~= seq![cv]);
        assert(packet@ == out_packet(self@, cv));
        match write_sctp_packet(&packet) {
            Ok(bytes) => {
                let ghost before = self.outgoing@;
                self.outgoing.push(bytes);
                assert(packets_view(self.outgoing@) =~= packets_view(before).push(bytes@));
                assert(bytes@.len() <= MAX_SCTP_PACKET_SIZE);
                Ok(())
            },
            Err(_) => Err(ClientError::IncompletePacketWrite),
        }
    }

    /// Aborts the association (where it is up) and starts closing an established DTLS
    /// session; in any other phase nothing changes. The DTLS layer then sends its close-notify.
    pub fn start_shutdown(&mut self, now: u64) -> (r: Result<(), ClientError>)
        ensures
            r is Ok,
            final(self)@ == start_shutdown_spec(old(self)@, now),
            client_wf(old(self)@) ==> client_wf(final(self)@),
    {
        if self.dtls_state == DtlsState::Established {
            if self.sctp_state != SctpState::Shutdown {
                proof {
                    reveal(chunk_body);
                    lemma_small_chunk_fits(self@, ChunkView::Abort);
                }
                let _ = self.send_chunk(SctpChunk::Abort);
                self.last_sent = now;
                self.sctp_state = SctpState::Shutdown;
            }
            self.dtls_state = DtlsState::ShuttingDown;
        }
        Ok(())
    }

    /// Sends a heartbeat where both layers are established and nothing has been sent for
    /// longer than `HEARTBEAT_INTERVAL_MS`.
    pub fn generate_periodic(&mut self, now: u64) -> (r: Result<(), ClientError>)
        ensures
            !periodic_due(old(self)@, now) ==> r is Ok && final(self)@ == old(self)@,
            periodic_due(old(self)@, now) ==> match send_chunk(old(self)@, heartbeat_chunk()) {
                Ok(s) => r is Ok && final(self)@ == (ClientView { last_sent: now, ..s }),
                Err(e) => r == Err::<(), ClientError>(e),
            },
            client_wf(old(self)@) ==> client_wf(final(self)@),
    {
        if now > self.last_sent && now - self.last_sent > HEARTBEAT_INTERVAL_MS
            && self.dtls_state == DtlsState::Established
            && self.sctp_state == SctpState::Established {
            let info = copy_bytes(SCTP_HEARTBEAT.as_bytes());
            let r = self.send_chunk(SctpChunk::Heartbeat { heartbeat_info: Some(info) });
            if r.is_ok() {
                self.last_sent = now;
            }
            r
        } else {
            Ok(())
        }
    }

    /// Yields and clears every packet waiting for the DTLS layer, in order; nothing once
    /// the connection is shut down.
    pub fn take_outgoing_packets(&mut self) -> (r: Vec<Vec<u8>>)
        ensures
            (packets_view(r@), final(self)@) == take_outgoing_spec(old(self)@),
            client_wf(old(self)@) ==> client_wf(final(self)@),
    {
        let mut out: Vec<Vec<u8>> = Vec::new();
        if self.dtls_state == DtlsState::Shutdown {
            assert(packets_view(out@) =~= Seq::empty());
            return out;
        }
        std::mem::swap(&mut out, &mut self.outgoing);
        assert(packets_view(self.outgoing@) =~= Seq::empty());
        out
    }

    /// The TLS layer failed beyond recovery: the client is terminated.
    pub fn tls_failed(&mut self)
        ensures
            final(self)@ == (ClientView { dtls: DtlsState::Shutdown, sctp: SctpState::Shutdown, ..old(self)@ }),
            client_wf(old(self)@) ==> client_wf(final(self)@),
    {
        self.dtls_state = DtlsState::Shutdown;
        self.sctp_state = SctpState::Shutdown;
    }

    /// Sends one application message as a single DATA chunk at time `now`.
    pub fn send_message(&mut self, message_type: MessageType, message: &[u8], now: u64) -> (r: Result<(), ClientError>)
        ensures
            match send_message_spec(old(self)@, message_type, message@, now) {
                Ok(s) => r is Ok && final(self)@ == s,
                Err(e) => r == Err::<(), ClientError>(e) && final(self)@ == old(self)@,
            },
            client_wf(old(self)@) ==> client_wf(final(self)@),
    {
        if self.dtls_state != DtlsState::Established {
            return Err(ClientError::NotConnected);
        }
        if self.sctp_state != SctpState::Established {
            return Err(ClientError::NotEstablished);
        }
        let proto_id = match message_type {
            MessageType::Text => DATA_CHANNEL_PROTO_STRING,
            MessageType::Binary => DATA_CHANNEL_PROTO_BINARY,
        };
        let chunk = SctpChunk::Data {
            chunk_flags: SCTP_FLAG_COMPLETE_UNRELIABLE,
            tsn: self.sctp_local_tsn,
            stream_id: 0,
            stream_seq: 0,
            proto_id,
            user_data: copy_bytes(message),
        };
        self.send_chunk(chunk)?;
        self.sctp_local_tsn = self.sctp_local_tsn.wrapping_add(1);
        self.last_sent = now;
        Ok(())
    }

    /// Yields and clears the application messages received so far, in order.
    pub fn receive_messages(&mut self) -> (r: Vec<(MessageType, Vec<u8>)>)
        ensures
            messages_view(r@) == old(self)@.received,
            final(self)@ == (ClientView { received: Seq::empty(), ..old(self)@ }),
            client_wf(old(self)@) ==> client_wf(final(self)@),
    {
        let mut out: Vec<(MessageType, Vec<u8>)> = Vec::new();
        std::mem::swap(&mut out, &mut self.received_messages);
        assert(messages_view(self.received_messages@) =~= Seq::empty());
        out
    }
}

/// What a call that drew `tag` and `tsn` for a possible INIT leaves behind.
pub open spec fn packet_outcome(
    s: ClientView,
    p: PacketView,
    now: u64,
    tag: u32,
    tsn: u32,
    r: Result<(), ClientError>,
    f: ClientView,
) -> bool {
    match packet_step(s, p, now, tag, tsn) {
        Ok(s2) => r is Ok && f == s2,
        Err(e) => r == Err::<(), ClientError>(e),
    }
}

/// The outcome of handling `p` for some tag and TSN that an INIT would adopt.
pub open spec fn packet_received(
    s: ClientView,
    p: PacketView,
    now: u64,
    r: Result<(), ClientError>,
    f: ClientView,
) -> bool {
    exists|tag: u32, tsn: u32| #[trigger] packet_outcome(s, p, now, tag, tsn, r, f)
}

fn copy_info(info: &Option<Vec<u8>>) -> (r: Option<Vec<u8>>)
    ensures
        opt_view(r) == opt_view(*info),
{
    match info {
        Some(v) => Some(copy_bytes(v.as_slice())),
        None => None,
    }
}

impl Client {
    fn receive_data_payload(&mut self, stream_id: u16, proto_id: u32, payload: &Vec<u8>) -> (r: Result<(), ClientError>)
        ensures
            match data_payload_step(old(self)@, stream_id, proto_id, payload@) {
                Ok(s) => r is Ok && final(self)@ == s,
                Err(e) => r == Err::<(), ClientError>(e),
            },
            client_wf(old(self)@) ==> client_wf(final(self)@),
    {
        if proto_id == DATA_CHANNEL_PROTO_CONTROL {
            if payload.len() > 0 && payload[0] == DATA_CHANNEL_MESSAGE_OPEN {
                let mut body: Vec<u8> = Vec::new();
                body.push(DATA_CHANNEL_MESSAGE_ACK);
                assert(body@ =~= seq![DATA_CHANNEL_MESSAGE_ACK]);
                let ack = SctpChunk::Data {
                    chunk_flags: SCTP_FLAG_COMPLETE_UNRELIABLE,
                    tsn: self.sctp_local_tsn,
                    stream_id,
                    stream_seq: 0,
                    proto_id: DATA_CHANNEL_PROTO_CONTROL,
                    user_data: body,
                };
                self.send_chunk(ack)?;
                self.sctp_local_tsn = self.sctp_local_tsn.wrapping_add(1);
            }
            Ok(())
        } else if proto_id == DATA_CHANNEL_PROTO_STRING || proto_id == DATA_CHANNEL_PROTO_BINARY {
            let kind = if proto_id == DATA_CHANNEL_PROTO_STRING {
                MessageType::Text
            } else {
                MessageType::Binary
            };
            let ghost before = self.received_messages@;
            let m = copy_bytes(payload.as_slice());
            let ghost mv = m@;
            self.received_messages.push((kind, m));
            assert(messages_view(self.received_messages@) =~= messages_view(before).push((kind, mv)));
            Ok(())
        } else {
            Ok(())
        }
    }

    fn receive_chunk(
        &mut self,
        c: &SctpChunk,
        src_port: u16,
        dst_port: u16,
        now: u64,
        tag: u32,
        tsn: u32,
    ) -> (r: Result<(), ClientError>)
        requires
            old(self)@.dtls == DtlsState::Established,
        ensures
            match chunk_step(old(self)@, c@, src_port, dst_port, now, tag, tsn) {
                Ok(s) => r is Ok && final(self)@ == s,
                Err(e) => r == Err::<(), ClientError>(e),
            },
            client_wf(old(self)@) ==> client_wf(final(self)@),
    {
        match c {
            SctpChunk::Init { initiate_tag, num_outbound_streams, num_inbound_streams, initial_tsn, .. } => {
                self.sctp_local_port = dst_port;
                self.sctp_remote_port = src_port;
                self.sctp_local_verification_tag = tag;
                self.sctp_remote_verification_tag = *initiate_tag;
                self.sctp_local_tsn = tsn;
                self.sctp_remote_tsn = *initial_tsn;
                let ack = SctpChunk::InitAck {
                    initiate_tag: tag,
                    window_credit: SCTP_BUFFER_SIZE,
                    num_outbound_streams: *num_outbound_streams,
                    num_inbound_streams: *num_inbound_streams,
                    initial_tsn: tsn,
                    state_cookie: copy_bytes(SCTP_COOKIE.as_bytes()),
                };
                self.send_chunk(ack)?;
                self.sctp_state = SctpState::InitAck;
                self.last_activity = now;
                self.last_sent = now;
                Ok(())
            },
            SctpChunk::CookieEcho { state_cookie } => {
                if bytes_eq(state_cookie.as_slice(), SCTP_COOKIE.as_bytes()) && self.sctp_state
                    != SctpState::Shutdown {
                    self.send_chunk(SctpChunk::CookieAck)?;
                    self.last_sent = now;
                    self.last_activity = now;
                    if self.sctp_state == SctpState::InitAck {
                        self.sctp_state = SctpState::Established;
                    }
                }
                Ok(())
            },
            SctpChunk::Data { tsn: t, stream_id, proto_id, user_data, .. } => {
                self.sctp_remote_tsn = max_tsn(self.sctp_remote_tsn, *t);
                self.receive_data_payload(*stream_id, *proto_id, user_data)?;
                let sack = SctpChunk::SAck {
                    cumulative_tsn_ack: self.sctp_remote_tsn,
                    adv_recv_window: SCTP_BUFFER_SIZE,
                    num_gap_ack_blocks: 0,
                    num_dup_tsn: 0,
                };
                self.send_chunk(sack)?;
                self.last_activity = now;
                self.last_sent = now;
                Ok(())
            },
            SctpChunk::Heartbeat { heartbeat_info } => {
                self.send_chunk(SctpChunk::HeartbeatAck { heartbeat_info: copy_info(heartbeat_info) })?;
                self.last_activity = now;
                self.last_sent = now;
                Ok(())
            },
            SctpChunk::HeartbeatAck { .. } => {
                self.last_activity = now;
                Ok(())
            },
            SctpChunk::SAck { num_gap_ack_blocks, .. } => {
                if *num_gap_ack_blocks > 0 {
                    self.send_chunk(SctpChunk::ForwardTsn { new_cumulative_tsn: self.sctp_local_tsn })?;
                    self.last_sent = now;
                }
                self.last_activity = now;
                Ok(())
            },
            SctpChunk::Shutdown { .. } => {
                self.send_chunk(SctpChunk::ShutdownAck)?;
                self.last_sent = now;
                Ok(())
            },
            SctpChunk::ShutdownAck => {
                self.sctp_state = SctpState::Shutdown;
                self.start_shutdown(now)
            },
            SctpChunk::Abort => {
                self.sctp_state = SctpState::Shutdown;
                self.start_shutdown(now)
            },
            SctpChunk::ForwardTsn { new_cumulative_tsn } => {
                self.sctp_remote_tsn = *new_cumulative_tsn;
                Ok(())
            },
            _ => Ok(()),
        }
    }

    /// Handles the chunks of a received packet in order. `init_tag` and `init_tsn` are the
    /// verification tag and initial TSN this side adopts should the packet hold an INIT.
    pub fn receive_sctp_packet(&mut self, packet: &SctpPacket, now: u64, init_tag: u32, init_tsn: u32) -> (r: Result<(), ClientError>)
        ensures
            match packet_step(old(self)@, packet@, now, init_tag, init_tsn) {
                Ok(s) => r is Ok && final(self)@ == s,
                Err(e) => r == Err::<(), ClientError>(e),
            },
            client_wf(old(self)@) ==> client_wf(final(self)@),
    {
        self.dispatch_chunks(packet, now, init_tag, init_tsn)
    }

    fn dispatch_chunks(&mut self, packet: &SctpPacket, now: u64, init_tag: u32, init_tsn: u32) -> (r: Result<(), ClientError>)
        ensures
            match packet_step(old(self)@, packet@, now, init_tag, init_tsn) {
                Ok(s) => r is Ok && final(self)@ == s,
                Err(e) => r == Err::<(), ClientError>(e),
            },
            client_wf(old(self)@) ==> client_wf(final(self)@),
    {
        let ghost cs = packet@.chunks;
        let mut i: usize = 0;
        assert(cs.skip(0) =~= cs);
        reveal(packet_step);
        while i < packet.chunks.len()
            invariant
                i <= cs.len(),
                cs == packet@.chunks,
                cs.len() == packet.chunks@.len(),
                client_wf(old(self)@) ==> client_wf(self@),
                packet_step(old(self)@, packet@, now, init_tag, init_tsn) == chunks_step(
                    self@,
                    cs.skip(i as int),
                    packet.source_port,
                    packet.dest_port,
                    now,
                    init_tag,
                    init_tsn,
                ),
            decreases cs.len() - i,
        {
            if self.dtls_state != DtlsState::Established {
                return Ok(());
            }
            let ghost rest = cs.skip(i as int);
            assert(rest[0] == cs[i as int]);
            assert(rest.skip(1) =~= cs.skip(i + 1));
            assert(cs[i as int] == packet.chunks@[i as int]@);
            self.receive_chunk(&packet.chunks[i], packet.source_port, packet.dest_port, now, init_tag, init_tsn)?;
            i = i + 1;
        }
        assert(cs.skip(i as int) =~= Seq::<ChunkView>::empty());
        Ok(())
    }

    /// Takes one decrypted record from the DTLS layer. Outside an established session the
    /// record belongs to the DTLS layer alone; once shut down, nothing is taken. A record that
    /// is no valid SCTP packet is dropped and the association goes on.
    pub fn receive_incoming_packet(&mut self, packet: &[u8], now: u64) -> (r: Result<(), ClientError>)
        ensures
            old(self)@.dtls == DtlsState::Shutdown ==> r == Err::<(), ClientError>(
                ClientError::NotConnected,
            ) && final(self)@ == old(self)@,
            old(self)@.dtls == DtlsState::Handshake || old(self)@.dtls == DtlsState::ShuttingDown
                ==> r is Ok && final(self)@ == old(self)@,
            old(self)@.dtls == DtlsState::Established ==> match parse_packet(packet@, false) {
                Err(_) => r is Ok && final(self)@ == old(self)@,
                Ok(p) => packet_received(old(self)@, p, now, r, final(self)@),
            },
            client_wf(old(self)@) ==> client_wf(final(self)@),
    {
        match self.dtls_state {
            DtlsState::Shutdown => Err(ClientError::NotConnected),
            DtlsState::Established => {
                let parsed = read_sctp_packet(packet, false);
                assert(read_result_view(parsed) == parse_packet(packet@, false));
                match parsed {
                    Ok(p) => {
                        let tag = random_u32();
                        let tsn = random_u32();
                        let ghost old_view = self@;
                        let r = self.receive_sctp_packet(&p, now, tag, tsn);
                        assert(packet_outcome(old_view, p@, now, tag, tsn, r, self@));
                        assert(parse_packet(packet@, false) == Ok::<PacketView, SctpReadError>(p@));
                        assert(packet_received(old_view, p@, now, r, self@));
                        r
                    },
                    Err(_) => Ok(()),
                }
            },
            _ => Ok(()),
        }
    }
}

/// A chunk handled in an established session either leaves the session established or
/// starts closing it with the association down.
proof fn lemma_chunk_step_phases(s: ClientView, c: ChunkView, src_port: u16, dst_port: u16, now: u64, tag: u32, tsn: u32)
    requires
        s.dtls == DtlsState::Established,
        chunk_step(s, c, src_port, dst_port, now, tag, tsn) is Ok,
    ensures
        ({
            let f = chunk_step(s, c, src_port, dst_port, now, tag, tsn)->Ok_0;
            f.dtls == DtlsState::Established || (f.dtls == DtlsState::ShuttingDown && f.sctp == SctpState::Shutdown)
        }),
        (c is Abort || c is ShutdownAck) ==> chunk_step(s, c, src_port, dst_port, now, tag, tsn)->Ok_0.dtls
            == DtlsState::ShuttingDown,
{
}

proof fn lemma_small_chunk_fits(s: ClientView, c: ChunkView)
    requires
        chunk_body(c).len() <= 1024,
    ensures
        send_chunk(s, c) == Ok::<ClientView, ClientError>(ClientView { outgoing: s.outgoing.push(encode_packet(out_packet(s, c))), ..s }),
{
    assert(seq![c].drop_last() =~= Seq::<ChunkView>::empty());
    assert(chunks_bytes(Seq::<ChunkView>::empty()) == Seq::<u8>::empty());
    assert(Seq::<u8>::empty() + chunk_bytes(c) =~= chunk_bytes(c));
    assert(chunks_bytes(seq![c]) == chunk_bytes(c));
}


/// After `start_shutdown`, every `send_message` fails, whatever its kind and bytes.
pub proof fn lemma_no_send_after_shutdown(s: ClientView, now: u64, kind: MessageType, msg: Seq<u8>, send_now: u64)
    ensures
        send_message_spec(start_shutdown_spec(s, now), kind, msg, send_now) is Err,
{
}

/// A DATA chunk that is handled without error leaves, as the last packet queued, a SACK
/// whose cumulative TSN is the serial-number maximum of the previous remote TSN and the
/// chunk's TSN.
pub proof fn lemma_data_chunk_acked(
    s: ClientView,
    c: ChunkView,
    src_port: u16,
    dst_port: u16,
    now: u64,
    tag: u32,
    tsn: u32,
)
    requires
        c is Data,
        chunk_step(s, c, src_port, dst_port, now, tag, tsn) is Ok,
    ensures
        ({
            let f = chunk_step(s, c, src_port, dst_port, now, tag, tsn)->Ok_0;
            &&& f.outgoing.len() > s.outgoing.len()
            &&& f.outgoing.last() == encode_packet(out_packet(s, sack_chunk(spec_max_tsn(s.remote_tsn, c->Data_tsn))))
            &&& f.remote_tsn == spec_max_tsn(s.remote_tsn, c->Data_tsn)
        }),
{
    let s1 = ClientView { remote_tsn: spec_max_tsn(s.remote_tsn, c->Data_tsn), ..s };
    let s2 = data_payload_step(s1, c->Data_stream_id, c->Data_proto_id, c->Data_user_data)->Ok_0;
    assert(s2.remote_tsn == s1.remote_tsn && s2.local_port == s.local_port && s2.remote_port == s.remote_port
        && s2.remote_tag == s.remote_tag && s2.outgoing.len() >= s.outgoing.len());
    assert(out_packet(s2, sack_chunk(s2.remote_tsn)) == out_packet(s, sack_chunk(s1.remote_tsn)));
}

/// Handling a packet's chunks is handling its first `i` chunks, then the rest.
pub proof fn lemma_chunks_step_split(
    s: ClientView,
    cs: Seq<ChunkView>,
    i: int,
    src_port: u16,
    dst_port: u16,
    now: u64,
    tag: u32,
    tsn: u32,
)
    requires
        0 <= i <= cs.len(),
    ensures
        chunks_step(s, cs, src_port, dst_port, now, tag, tsn) == match chunks_step(s, cs.take(i), src_port, dst_port, now, tag, tsn) {
            Ok(m) => chunks_step(m, cs.skip(i), src_port, dst_port, now, tag, tsn),
            Err(e) => Err(e),
        },
    decreases i,
{
    if i == 0 {
        assert(cs.take(0) =~= Seq::<ChunkView>::empty());
        assert(cs.skip(0) =~= cs);
    } else if s.dtls == DtlsState::Established {
        assert(cs.take(i)[0] == cs[0]);
        match chunk_step(s, cs[0], src_port, dst_port, now, tag, tsn) {
            Ok(s1) => {
                assert(cs.take(i).skip(1) =~= cs.skip(1).take(i - 1));
                assert(cs.skip(i) =~= cs.skip(1).skip(i - 1));
                lemma_chunks_step_split(s1, cs.skip(1), i - 1, src_port, dst_port, now, tag, tsn);
            },
            Err(_) => {},
        }
    }
}

/// A DATA chunk at any position of a packet handled while DTLS is established: once it is
/// handled without error, the last packet queued is a SACK whose cumulative TSN is the
/// serial-number maximum of the remote TSN just before the chunk and the chunk's TSN.
pub proof fn lemma_data_acked_in_packet(s: ClientView, p: PacketView, i: int, now: u64, tag: u32, tsn: u32)
    requires
        0 <= i < p.chunks.len(),
        p.chunks[i] is Data,
        chunks_step(s, p.chunks.take(i), p.source_port, p.dest_port, now, tag, tsn) is Ok,
        chunks_step(s, p.chunks.take(i), p.source_port, p.dest_port, now, tag, tsn)->Ok_0.dtls == DtlsState::Established,
        chunk_step(
            chunks_step(s, p.chunks.take(i), p.source_port, p.dest_port, now, tag, tsn)->Ok_0,
            p.chunks[i],
            p.source_port,
            p.dest_port,
            now,
            tag,
            tsn,
        ) is Ok,
    ensures
        ({
            let mid = chunks_step(s, p.chunks.take(i), p.source_port, p.dest_port, now, tag, tsn)->Ok_0;
            let after = chunks_step(s, p.chunks.take(i + 1), p.source_port, p.dest_port, now, tag, tsn);
            &&& after is Ok
            &&& after->Ok_0.outgoing.len() > mid.outgoing.len()
            &&& after->Ok_0.outgoing.last() == encode_packet(
                out_packet(mid, sack_chunk(spec_max_tsn(mid.remote_tsn, p.chunks[i]->Data_tsn))),
            )
            &&& after->Ok_0.remote_tsn == spec_max_tsn(mid.remote_tsn, p.chunks[i]->Data_tsn)
        }),
{
    let cs = p.chunks;
    let t = cs.take(i + 1);
    let mid = chunks_step(s, cs.take(i), p.source_port, p.dest_port, now, tag, tsn)->Ok_0;
    lemma_chunks_step_split(s, t, i, p.source_port, p.dest_port, now, tag, tsn);
    assert(t.take(i) =~= cs.take(i));
    let one = t.skip(i);
    assert(one =~= seq![cs[i]]);
    assert(one.skip(1) =~= Seq::<ChunkView>::empty());
    let s2 = chunk_step(mid, cs[i], p.source_port, p.dest_port, now, tag, tsn)->Ok_0;
    assert(chunks_step(s2, one.skip(1), p.source_port, p.dest_port, now, tag, tsn) == Ok::<ClientView, ClientError>(s2));
    lemma_data_chunk_acked(mid, cs[i], p.source_port, p.dest_port, now, tag, tsn);
}

/// A HEARTBEAT-ACK at any position of a packet, reached while DTLS is still established,
/// sets `last_activity` to `now` and queues nothing.
pub proof fn lemma_heartbeat_ack_in_packet(s: ClientView, p: PacketView, i: int, now: u64, tag: u32, tsn: u32)
    requires
        0 <= i < p.chunks.len(),
        p.chunks[i] is HeartbeatAck,
        chunks_step(s, p.chunks.take(i), p.source_port, p.dest_port, now, tag, tsn) is Ok,
        chunks_step(s, p.chunks.take(i), p.source_port, p.dest_port, now, tag, tsn)->Ok_0.dtls == DtlsState::Established,
    ensures
        ({
            let mid = chunks_step(s, p.chunks.take(i), p.source_port, p.dest_port, now, tag, tsn)->Ok_0;
            chunks_step(s, p.chunks.take(i + 1), p.source_port, p.dest_port, now, tag, tsn)
                == Ok::<ClientView, ClientError>(ClientView { last_activity: now, ..mid })
        }),
{
    let cs = p.chunks;
    let t = cs.take(i + 1);
    let mid = chunks_step(s, cs.take(i), p.source_port, p.dest_port, now, tag, tsn)->Ok_0;
    lemma_chunks_step_split(s, t, i, p.source_port, p.dest_port, now, tag, tsn);
    assert(t.take(i) =~= cs.take(i));
    let one = t.skip(i);
    assert(one =~= seq![cs[i]]);
    assert(one.skip(1) =~= Seq::<ChunkView>::empty());
    let s2 = ClientView { last_activity: now, ..mid };
    assert(chunk_step(mid, cs[i], p.source_port, p.dest_port, now, tag, tsn) == Ok::<ClientView, ClientError>(s2));
    assert(chunks_step(s2, one.skip(1), p.source_port, p.dest_port, now, tag, tsn) == Ok::<ClientView, ClientError>(s2));
}

/// A packet received while both layers are established that holds an ABORT anywhere, and
/// is handled without error, leaves the association down and DTLS closing.
pub proof fn lemma_abort_in_packet(s: ClientView, p: PacketView, i: int, now: u64, tag: u32, tsn: u32)
    requires
        established(s),
        0 <= i < p.chunks.len(),
        p.chunks[i] is Abort,
        packet_step(s, p, now, tag, tsn) is Ok,
    ensures
        ({
            let f = packet_step(s, p, now, tag, tsn)->Ok_0;
            &&& !established(f)
            &&& f.sctp == SctpState::Shutdown
            &&& f.dtls == DtlsState::ShuttingDown
        }),
{
    reveal(packet_step);
    lemma_abort_in_chunks(s, p.chunks, i, p.source_port, p.dest_port, now, tag, tsn);
}

proof fn lemma_abort_in_chunks(
    s: ClientView,
    cs: Seq<ChunkView>,
    i: int,
    src_port: u16,
    dst_port: u16,
    now: u64,
    tag: u32,
    tsn: u32,
)
    requires
        s.dtls == DtlsState::Established,
        0 <= i < cs.len(),
        cs[i] is Abort,
        chunks_step(s, cs, src_port, dst_port, now, tag, tsn) is Ok,
    ensures
        chunks_step(s, cs, src_port, dst_port, now, tag, tsn)->Ok_0.sctp == SctpState::Shutdown,
        chunks_step(s, cs, src_port, dst_port, now, tag, tsn)->Ok_0.dtls == DtlsState::ShuttingDown,
    decreases i,
{
    let s1 = chunk_step(s, cs[0], src_port, dst_port, now, tag, tsn)->Ok_0;
    lemma_chunk_step_phases(s, cs[0], src_port, dst_port, now, tag, tsn);
    if s1.dtls == DtlsState::Established {
        assert(cs.skip(1)[i - 1] == cs[i]);
        lemma_abort_in_chunks(s1, cs.skip(1), i - 1, src_port, dst_port, now, tag, tsn);
    }
}

proof fn lemma_heartbeat_acks(
    s: ClientView,
    cs: Seq<ChunkView>,
    src_port: u16,
    dst_port: u16,
    now: u64,
    tag: u32,
    tsn: u32,
)
    requires
        s.dtls == DtlsState::Established,
        cs.len() > 0,
        forall|k: int| 0 <= k < cs.len() ==> #[trigger] cs[k] is HeartbeatAck,
    ensures
        chunks_step(s, cs, src_port, dst_port, now, tag, tsn) == Ok::<ClientView, ClientError>(
            ClientView { last_activity: now, ..s },
        ),
    decreases cs.len(),
{
    let s1 = ClientView { last_activity: now, ..s };
    assert(cs[0] is HeartbeatAck);
    assert(chunk_step(s, cs[0], src_port, dst_port, now, tag, tsn) == Ok::<ClientView, ClientError>(s1));
    let rest = cs.skip(1);
    if rest.len() > 0 {
        assert forall|k: int| 0 <= k < rest.len() implies #[trigger] rest[k] is HeartbeatAck by {
            assert(rest[k] == cs[k + 1]);
        }
        lemma_heartbeat_acks(s1, rest, src_port, dst_port, now, tag, tsn);
        assert(ClientView { last_activity: now, ..s1 } == s1);
    }
}

/// A packet of HEARTBEAT-ACK chunks alone, received while DTLS is established, updates
/// `last_activity` and changes nothing else: nothing is queued and `last_sent` is kept.
pub proof fn lemma_heartbeat_ack_quiet(s: ClientView, p: PacketView, now: u64, tag: u32, tsn: u32)
    requires
        s.dtls == DtlsState::Established,
        p.chunks.len() > 0,
        forall|k: int| 0 <= k < p.chunks.len() ==> #[trigger] p.chunks[k] is HeartbeatAck,
    ensures
        packet_step(s, p, now, tag, tsn) == Ok::<ClientView, ClientError>(ClientView { last_activity: now, ..s }),
{
    reveal(packet_step);
    lemma_heartbeat_acks(s, p.chunks, p.source_port, p.dest_port, now, tag, tsn);
}

/// Draining the outgoing packets twice in a row yields nothing the second time.
pub proof fn lemma_take_outgoing_twice(s: ClientView)
    ensures
        take_outgoing_spec(take_outgoing_spec(s).1).0 == Seq::<Seq<u8>>::empty(),
{
}

/// Sends of `msgs` (kind, bytes, time) one after another, stopping at the first failure.
pub open spec fn send_all(s: ClientView, msgs: Seq<(MessageType, Seq<u8>, u64)>) -> Result<ClientView, ClientError>
    decreases msgs.len(),
{
    if msgs.len() == 0 {
        Ok(s)
    } else {
        match send_message_spec(s, msgs[0].0, msgs[0].1, msgs[0].2) {
            Ok(s1) => send_all(s1, msgs.skip(1)),
            Err(e) => Err(e),
        }
    }
}

proof fn lemma_next_tsn_add(t: u32, i: int)
    requires
        0 <= i,
    ensures
        next_tsn(tsn_add(t, i)) == tsn_add(t, i + 1),
{
    let a = tsn_add(t, i) as int;
    assert(a == (t as int + i) % 0x1_0000_0000);
    assert((t as int + i + 1) % 0x1_0000_0000 == if a == 0xffff_ffff { 0 } else { a + 1 }) by (nonlinear_arith)
        requires
            a == (t as int + i) % 0x1_0000_0000,
            0 <= a < 0x1_0000_0000,
            t as int + i >= 0,
    {
    }
}

/// Messages sent one after another, all successfully, go out as DATA chunks whose TSNs run
/// from the local TSN upwards by one each, modulo 2^32, in the order of the calls.
pub proof fn lemma_send_tsns(s: ClientView, msgs: Seq<(MessageType, Seq<u8>, u64)>)
    requires
        send_all(s, msgs) is Ok,
    ensures
        ({
            let f = send_all(s, msgs)->Ok_0;
            &&& f.outgoing.len() == s.outgoing.len() + msgs.len()
            &&& f.outgoing.take(s.outgoing.len() as int) == s.outgoing
            &&& forall|i: int| 0 <= i < msgs.len() ==> #[trigger] f.outgoing[s.outgoing.len() + i]
                == encode_packet(out_packet(s, data_chunk(tsn_add(s.local_tsn, i), 0, proto_of(msgs[i].0), msgs[i].1)))
            &&& f.local_tsn == tsn_add(s.local_tsn, msgs.len() as int)
            &&& f.local_port == s.local_port && f.remote_port == s.remote_port && f.remote_tag == s.remote_tag
        }),
    decreases msgs.len(),
{
    if msgs.len() == 0 {
        assert(s.outgoing.take(s.outgoing.len() as int) =~= s.outgoing);
        assert(tsn_add(s.local_tsn, 0) == s.local_tsn);
    } else {
        let s1 = send_message_spec(s, msgs[0].0, msgs[0].1, msgs[0].2)->Ok_0;
        let rest = msgs.skip(1);
        lemma_send_tsns(s1, rest);
        let f = send_all(s, msgs)->Ok_0;
        assert(f == send_all(s1, rest)->Ok_0);
        assert(tsn_add(s.local_tsn, 0) == s.local_tsn);
        assert(s1.local_tsn == tsn_add(s.local_tsn, 1)) by {
            lemma_next_tsn_add(s.local_tsn, 0);
        }
        assert(s1.outgoing == s.outgoing.push(encode_packet(out_packet(s, data_chunk(s.local_tsn, 0, proto_of(msgs[0].0), msgs[0].1)))));
        assert forall|i: int| 0 <= i < msgs.len() implies #[trigger] f.outgoing[s.outgoing.len() + i]
            == encode_packet(out_packet(s, data_chunk(tsn_add(s.local_tsn, i), 0, proto_of(msgs[i].0), msgs[i].1))) by {
            if i == 0 {
                assert(f.outgoing.take(s1.outgoing.len() as int)[s.outgoing.len() as int] == f.outgoing[s.outgoing.len() as int]);
            } else {
                assert(rest[i - 1] == msgs[i]);
                assert(f.outgoing[s1.outgoing.len() + (i - 1)] == f.outgoing[s.outgoing.len() + i]);
                assert(out_packet(s1, data_chunk(tsn_add(s1.local_tsn, i - 1), 0, proto_of(rest[i - 1].0), rest[i - 1].1))
                    == out_packet(s, data_chunk(tsn_add(s1.local_tsn, i - 1), 0, proto_of(msgs[i].0), msgs[i].1)));
                assert(tsn_add(s1.local_tsn, i - 1) == tsn_add(s.local_tsn, i)) by (nonlinear_arith)
                    requires
                        s1.local_tsn == tsn_add(s.local_tsn, 1),
                        i >= 1,
                {
                }
            }
        }
        assert(tsn_add(s1.local_tsn, rest.len() as int) == tsn_add(s.local_tsn, msgs.len() as int)) by (nonlinear_arith)
            requires
                s1.local_tsn == tsn_add(s.local_tsn, 1),
                rest.len() + 1 == msgs.len(),
        {
        }
        assert(f.outgoing.take(s.outgoing.len() as int) =~= s.outgoing) by {
            assert(f.outgoing.take(s1.outgoing.len() as int) == s1.outgoing);
            assert forall|k: int| 0 <= k < s.outgoing.len() implies f.outgoing[k] == s.outgoing[k] by {
                assert(f.outgoing.take(s1.outgoing.len() as int)[k] == f.outgoing[k]);
            }
        }
    }
}

} // verus!
