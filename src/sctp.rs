use vstd::prelude::*;

use crate::bytes::{
    lemma_be16_round_trip, lemma_be32_round_trip, lemma_le32_round_trip,
    be16, be16_at, be32, be32_at, copy_range, le32, le32_at, push_all, push_be16, push_be32,
    push_zeros, read_be16, read_be32, read_le32, zeros,
};

verus! {

/// Largest SCTP packet carried in one DTLS record.
pub const MAX_SCTP_PACKET_SIZE: usize = 16384;

/// Most chunks that one received packet may hold.
pub const SCTP_MAX_CHUNKS: usize = 16;

pub const SCTP_FLAG_END_FRAGMENT: u8 = 0x01;
pub const SCTP_FLAG_BEGIN_FRAGMENT: u8 = 0x02;
pub const SCTP_FLAG_UNRELIABLE: u8 = 0x04;
/// Begin, end and unordered together: a complete unreliable message.
pub const SCTP_FLAG_COMPLETE_UNRELIABLE: u8 = 0x07;

pub const CHUNK_TYPE_DATA: u8 = 0x00;
pub const CHUNK_TYPE_INIT: u8 = 0x01;
pub const CHUNK_TYPE_INIT_ACK: u8 = 0x02;
pub const CHUNK_TYPE_SACK: u8 = 0x03;
pub const CHUNK_TYPE_HEARTBEAT: u8 = 0x04;
pub const CHUNK_TYPE_HEARTBEAT_ACK: u8 = 0x05;
pub const CHUNK_TYPE_ABORT: u8 = 0x06;
pub const CHUNK_TYPE_SHUTDOWN: u8 = 0x07;
pub const CHUNK_TYPE_SHUTDOWN_ACK: u8 = 0x08;
pub const CHUNK_TYPE_COOKIE_ECHO: u8 = 0x0a;
pub const CHUNK_TYPE_COOKIE_ACK: u8 = 0x0b;
pub const CHUNK_TYPE_FORWARD_TSN: u8 = 0xc0;

/// Parameter type of the state cookie in INIT-ACK.
pub const PARAM_STATE_COOKIE: u16 = 0x07;
/// Parameter type of the heartbeat information in HEARTBEAT and HEARTBEAT-ACK.
pub const PARAM_HEARTBEAT_INFO: u16 = 0x07;
/// Parameter that announces support for FORWARD-TSN (partial reliability).
pub const PARAM_FORWARD_TSN: u16 = 0xc000;

/// One chunk of an SCTP packet.
#[derive(Debug)]
pub enum SctpChunk {
    Data {
        chunk_flags: u8,
        tsn: u32,
        stream_id: u16,
        stream_seq: u16,
        proto_id: u32,
        user_data: Vec<u8>,
    },
    Init {
        initiate_tag: u32,
        window_credit: u32,
        num_outbound_streams: u16,
        num_inbound_streams: u16,
        initial_tsn: u32,
    },
    InitAck {
        initiate_tag: u32,
        window_credit: u32,
        num_outbound_streams: u16,
        num_inbound_streams: u16,
        initial_tsn: u32,
        state_cookie: Vec<u8>,
    },
    SAck { cumulative_tsn_ack: u32, adv_recv_window: u32, num_gap_ack_blocks: u16, num_dup_tsn: u16 },
    Heartbeat { heartbeat_info: Option<Vec<u8>> },
    HeartbeatAck { heartbeat_info: Option<Vec<u8>> },
    Abort,
    Shutdown { cumulative_tsn_ack: u32 },
    ShutdownAck,
    CookieEcho { state_cookie: Vec<u8> },
    CookieAck,
    ForwardTsn { new_cumulative_tsn: u32 },
    /// A chunk of a type this association does not handle, kept as it came.
    Unknown { chunk_type: u8, chunk_flags: u8, body: Vec<u8> },
}

/// The value of a chunk, with byte strings as sequences.
pub ghost enum ChunkView {
    Data {
        chunk_flags: u8,
        tsn: u32,
        stream_id: u16,
        stream_seq: u16,
        proto_id: u32,
        user_data: Seq<u8>,
    },
    Init {
        initiate_tag: u32,
        window_credit: u32,
        num_outbound_streams: u16,
        num_inbound_streams: u16,
        initial_tsn: u32,
    },
    InitAck {
        initiate_tag: u32,
        window_credit: u32,
        num_outbound_streams: u16,
        num_inbound_streams: u16,
        initial_tsn: u32,
        state_cookie: Seq<u8>,
    },
    SAck { cumulative_tsn_ack: u32, adv_recv_window: u32, num_gap_ack_blocks: u16, num_dup_tsn: u16 },
    Heartbeat { heartbeat_info: Option<Seq<u8>> },
    HeartbeatAck { heartbeat_info: Option<Seq<u8>> },
    Abort,
    Shutdown { cumulative_tsn_ack: u32 },
    ShutdownAck,
    CookieEcho { state_cookie: Seq<u8> },
    CookieAck,
    ForwardTsn { new_cumulative_tsn: u32 },
    Unknown { chunk_type: u8, chunk_flags: u8, body: Seq<u8> },
}

pub open spec fn opt_view(o: Option<Vec<u8>>) -> Option<Seq<u8>> {
    match o {
        Some(v) => Some(v@),
        None => None,
    }
}

impl View for SctpChunk {
    type V = ChunkView;

    open spec fn view(&self) -> ChunkView {
        match self {
            SctpChunk::Data { chunk_flags, tsn, stream_id, stream_seq, proto_id, user_data } =>
                ChunkView::Data {
                chunk_flags: *chunk_flags,
                tsn: *tsn,
                stream_id: *stream_id,
                stream_seq: *stream_seq,
                proto_id: *proto_id,
                user_data: user_data@,
            },
            SctpChunk::Init {
                initiate_tag,
                window_credit,
                num_outbound_streams,
                num_inbound_streams,
                initial_tsn,
            } => ChunkView::Init {
                initiate_tag: *initiate_tag,
                window_credit: *window_credit,
                num_outbound_streams: *num_outbound_streams,
                num_inbound_streams: *num_inbound_streams,
                initial_tsn: *initial_tsn,
            },
            SctpChunk::InitAck {
                initiate_tag,
                window_credit,
                num_outbound_streams,
                num_inbound_streams,
                initial_tsn,
                state_cookie,
            } => ChunkView::InitAck {
                initiate_tag: *initiate_tag,
                window_credit: *window_credit,
                num_outbound_streams: *num_outbound_streams,
                num_inbound_streams: *num_inbound_streams,
                initial_tsn: *initial_tsn,
                state_cookie: state_cookie@,
            },
            SctpChunk::SAck { cumulative_tsn_ack, adv_recv_window, num_gap_ack_blocks, num_dup_tsn } =>
                ChunkView::SAck {
                cumulative_tsn_ack: *cumulative_tsn_ack,
                adv_recv_window: *adv_recv_window,
                num_gap_ack_blocks: *num_gap_ack_blocks,
                num_dup_tsn: *num_dup_tsn,
            },
            SctpChunk::Heartbeat { heartbeat_info } => ChunkView::Heartbeat {
                heartbeat_info: opt_view(*heartbeat_info),
            },
            SctpChunk::HeartbeatAck { heartbeat_info } => ChunkView::HeartbeatAck {
                heartbeat_info: opt_view(*heartbeat_info),
            },
            SctpChunk::Abort => ChunkView::Abort,
            SctpChunk::Shutdown { cumulative_tsn_ack } => ChunkView::Shutdown {
                cumulative_tsn_ack: *cumulative_tsn_ack,
            },
            SctpChunk::ShutdownAck => ChunkView::ShutdownAck,
            SctpChunk::CookieEcho { state_cookie } => ChunkView::CookieEcho {
                state_cookie: state_cookie@,
            },
            SctpChunk::CookieAck => ChunkView::CookieAck,
            SctpChunk::ForwardTsn { new_cumulative_tsn } => ChunkView::ForwardTsn {
                new_cumulative_tsn: *new_cumulative_tsn,
            },
            SctpChunk::Unknown { chunk_type, chunk_flags, body } => ChunkView::Unknown {
                chunk_type: *chunk_type,
                chunk_flags: *chunk_flags,
                body: body@,
            },
        }
    }
}

/// An SCTP packet: the common header (less its checksum) and the chunks.
#[derive(Debug)]
pub struct SctpPacket {
    pub source_port: u16,
    pub dest_port: u16,
    pub verification_tag: u32,
    pub chunks: Vec<SctpChunk>,
}

pub open spec fn chunks_view(s: Seq<SctpChunk>) -> Seq<ChunkView> {
    s.map_values(|c: SctpChunk| c@)
}

pub ghost struct PacketView {
    pub source_port: u16,
    pub dest_port: u16,
    pub verification_tag: u32,
    pub chunks: Seq<ChunkView>,
}

impl View for SctpPacket {
    type V = PacketView;

    open spec fn view(&self) -> PacketView {
        PacketView {
            source_port: self.source_port,
            dest_port: self.dest_port,
            verification_tag: self.verification_tag,
            chunks: chunks_view(self.chunks@),
        }
    }
}

#[derive(Copy, Clone, Eq, PartialEq, Debug, Structural)]
pub enum SctpWriteError {
    /// The encoded packet would exceed `MAX_SCTP_PACKET_SIZE`.
    BufferSize,
    /// A packet must hold at least one chunk.
    NoChunks,
}

#[derive(Copy, Clone, Eq, PartialEq, Debug, Structural)]
pub enum SctpReadError {
    BadPacket,
    BadChecksum,
    TooManyChunks,
}

/// CRC32c (Castagnoli) of a byte string.
pub uninterp spec fn crc32c(bytes: Seq<u8>) -> u32;

/// Relies on crc's `Crc::<u32>::checksum` with the `CRC_32_ISCSI` algorithm (CRC32c):
/// the checksum depends on the bytes alone.
#[verifier::external_body]
fn checksum_crc32c(bytes: &[u8]) -> (r: u32)
    ensures
        r == crc32c(bytes@),
{
    crc::Crc::<u32>::new(&crc::CRC_32_ISCSI).checksum(bytes)
}

/// Zero bytes that pad a length of `n` up to a multiple of four.
pub open spec fn pad4(n: nat) -> nat {
    if n % 4 == 0 {
        0
    } else {
        (4 - n % 4) as nat
    }
}

pub open spec fn chunk_type_of(c: ChunkView) -> u8 {
    match c {
        ChunkView::Data { .. } => CHUNK_TYPE_DATA,
        ChunkView::Init { .. } => CHUNK_TYPE_INIT,
        ChunkView::InitAck { .. } => CHUNK_TYPE_INIT_ACK,
        ChunkView::SAck { .. } => CHUNK_TYPE_SACK,
        ChunkView::Heartbeat { .. } => CHUNK_TYPE_HEARTBEAT,
        ChunkView::HeartbeatAck { .. } => CHUNK_TYPE_HEARTBEAT_ACK,
        ChunkView::Abort => CHUNK_TYPE_ABORT,
        ChunkView::Shutdown { .. } => CHUNK_TYPE_SHUTDOWN,
        ChunkView::ShutdownAck => CHUNK_TYPE_SHUTDOWN_ACK,
        ChunkView::CookieEcho { .. } => CHUNK_TYPE_COOKIE_ECHO,
        ChunkView::CookieAck => CHUNK_TYPE_COOKIE_ACK,
        ChunkView::ForwardTsn { .. } => CHUNK_TYPE_FORWARD_TSN,
        ChunkView::Unknown { chunk_type, .. } => chunk_type,
    }
}

pub open spec fn chunk_flags_of(c: ChunkView) -> u8 {
    match c {
        ChunkView::Data { chunk_flags, .. } => chunk_flags,
        ChunkView::Unknown { chunk_flags, .. } => chunk_flags,
        _ => 0,
    }
}

/// The optional heartbeat-information parameter.
pub open spec fn heartbeat_body(info: Option<Seq<u8>>) -> Seq<u8> {
    match info {
        Some(i) => be16(PARAM_HEARTBEAT_INFO) + be16((i.len() + 4) as u16) + i,
        None => Seq::empty(),
    }
}

/// The body of a chunk, after its four header bytes and before padding.
#[verifier::opaque]
pub open spec fn chunk_body(c: ChunkView) -> Seq<u8> {
    match c {
        ChunkView::Data { tsn, stream_id, stream_seq, proto_id, user_data, .. } => be32(tsn) + be16(
            stream_id,
        ) + be16(stream_seq) + be32(proto_id) + user_data,
        ChunkView::Init {
            initiate_tag,
            window_credit,
            num_outbound_streams,
            num_inbound_streams,
            initial_tsn,
        } => be32(initiate_tag) + be32(window_credit) + be16(num_outbound_streams) + be16(
            num_inbound_streams,
        ) + be32(initial_tsn),
        ChunkView::InitAck {
            initiate_tag,
            window_credit,
            num_outbound_streams,
            num_inbound_streams,
            initial_tsn,
            state_cookie,
        } => be32(initiate_tag) + be32(window_credit) + be16(num_outbound_streams) + be16(
            num_inbound_streams,
        ) + be32(initial_tsn) + be16(PARAM_STATE_COOKIE) + be16((state_cookie.len() + 4) as u16)
            + state_cookie + zeros(pad4(state_cookie.len())) + be16(PARAM_FORWARD_TSN) + be16(4),
        ChunkView::SAck { cumulative_tsn_ack, adv_recv_window, num_gap_ack_blocks, num_dup_tsn } =>
            be32(cumulative_tsn_ack) + be32(adv_recv_window) + be16(num_gap_ack_blocks) + be16(
            num_dup_tsn,
        ),
        ChunkView::Heartbeat { heartbeat_info } => heartbeat_body(heartbeat_info),
        ChunkView::HeartbeatAck { heartbeat_info } => heartbeat_body(heartbeat_info),
        ChunkView::Shutdown { cumulative_tsn_ack } => be32(cumulative_tsn_ack),
        ChunkView::CookieEcho { state_cookie } => state_cookie,
        ChunkView::ForwardTsn { new_cumulative_tsn } => be32(new_cumulative_tsn),
        ChunkView::Unknown { body, .. } => body,
        _ => Seq::empty(),
    }
}

/// A chunk on the wire: type, flags, length (header included, padding not), body, padding.
pub open spec fn chunk_bytes(c: ChunkView) -> Seq<u8> {
    let b = chunk_body(c);
    seq![chunk_type_of(c), chunk_flags_of(c)] + be16((b.len() + 4) as u16) + b + zeros(
        pad4(b.len()),
    )
}

pub open spec fn chunks_bytes(cs: Seq<ChunkView>) -> Seq<u8>
    decreases cs.len(),
{
    if cs.len() == 0 {
        Seq::empty()
    } else {
        chunks_bytes(cs.drop_last()) + chunk_bytes(cs.last())
    }
}

/// The common header with the given checksum field, then every chunk.
pub open spec fn packet_bytes(p: PacketView, checksum: u32) -> Seq<u8> {
    be16(p.source_port) + be16(p.dest_port) + be32(p.verification_tag) + le32(checksum)
        + chunks_bytes(p.chunks)
}

/// A packet on the wire: its checksum is the CRC32c of the packet with the field zeroed.
pub open spec fn encode_packet(p: PacketView) -> Seq<u8> {
    packet_bytes(p, crc32c(packet_bytes(p, 0)))
}

/// The number of bytes `encode_packet` produces.
pub open spec fn encoded_len(p: PacketView) -> int {
    packet_bytes(p, 0).len() as int
}

proof fn lemma_chunks_bytes_take(cs: Seq<ChunkView>, i: int)
    requires
        0 <= i < cs.len(),
    ensures
        chunks_bytes(cs.take(i + 1)) == chunks_bytes(cs.take(i)) + chunk_bytes(cs[i]),
{
    assert(cs.take(i + 1).drop_last() =~= cs.take(i));
}

proof fn lemma_chunks_bytes_grow(cs: Seq<ChunkView>, i: int)
    requires
        0 <= i <= cs.len(),
    ensures
        chunks_bytes(cs.take(i)).len() <= chunks_bytes(cs).len(),
    decreases cs.len() - i,
{
    if i < cs.len() {
        lemma_chunks_bytes_take(cs, i);
        lemma_chunks_bytes_grow(cs, i + 1);
    } else {
        assert(cs.take(i) =~= cs);
    }
}

fn push_heartbeat_info(out: &mut Vec<u8>, info: &Option<Vec<u8>>) -> (ok: bool)
    ensures
        ok ==> final(out)@ == old(out)@ + heartbeat_body(opt_view(*info)),
        !ok ==> final(out)@ == old(out)@ && heartbeat_body(opt_view(*info)).len() > MAX_SCTP_PACKET_SIZE,
{
    match info {
        Some(i) => {
            if i.len() > MAX_SCTP_PACKET_SIZE {
                return false;
            }
            push_be16(out, PARAM_HEARTBEAT_INFO);
            push_be16(out, (i.len() + 4) as u16);
            push_all(out, i.as_slice());
            assert(final(out)@ =~= old(out)@ + heartbeat_body(opt_view(*info)));
            true
        },
        None => {
            assert(final(out)@ =~= old(out)@ + heartbeat_body(opt_view(*info)));
            true
        },
    }
}

/// The body of `c`, or `None` where it alone is longer than a packet may be.
fn chunk_body_of(c: &SctpChunk) -> (r: Option<Vec<u8>>)
    ensures
        r matches Some(b) ==> b@ == chunk_body(c@),
        r is None ==> chunk_body(c@).len() > MAX_SCTP_PACKET_SIZE,
{
    reveal(chunk_body);
    let mut b: Vec<u8> = Vec::new();
    match c {
        SctpChunk::Data { tsn, stream_id, stream_seq, proto_id, user_data, .. } => {
            if user_data.len() > MAX_SCTP_PACKET_SIZE {
                return None;
            }
            push_be32(&mut b, *tsn);
            push_be16(&mut b, *stream_id);
            push_be16(&mut b, *stream_seq);
            push_be32(&mut b, *proto_id);
            push_all(&mut b, user_data.as_slice());
        },
        SctpChunk::Init {
            initiate_tag,
            window_credit,
            num_outbound_streams,
            num_inbound_streams,
            initial_tsn,
        } => {
            push_be32(&mut b, *initiate_tag);
            push_be32(&mut b, *window_credit);
            push_be16(&mut b, *num_outbound_streams);
            push_be16(&mut b, *num_inbound_streams);
            push_be32(&mut b, *initial_tsn);
        },
        SctpChunk::InitAck {
            initiate_tag,
            window_credit,
            num_outbound_streams,
            num_inbound_streams,
            initial_tsn,
            state_cookie,
        } => {
            if state_cookie.len() > MAX_SCTP_PACKET_SIZE {
                return None;
            }
            push_be32(&mut b, *initiate_tag);
            push_be32(&mut b, *window_credit);
            push_be16(&mut b, *num_outbound_streams);
            push_be16(&mut b, *num_inbound_streams);
            push_be32(&mut b, *initial_tsn);
            push_be16(&mut b, PARAM_STATE_COOKIE);
            push_be16(&mut b, (state_cookie.len() + 4) as u16);
            push_all(&mut b, state_cookie.as_slice());
            let rem = state_cookie.len() % 4;
            push_zeros(&mut b, if rem == 0 { 0 } else { 4 - rem });
            push_be16(&mut b, PARAM_FORWARD_TSN);
            push_be16(&mut b, 4);
        },
        SctpChunk::SAck { cumulative_tsn_ack, adv_recv_window, num_gap_ack_blocks, num_dup_tsn } => {
            push_be32(&mut b, *cumulative_tsn_ack);
            push_be32(&mut b, *adv_recv_window);
            push_be16(&mut b, *num_gap_ack_blocks);
            push_be16(&mut b, *num_dup_tsn);
        },
        SctpChunk::Heartbeat { heartbeat_info } => {
            if !push_heartbeat_info(&mut b, heartbeat_info) {
                return None;
            }
        },
        SctpChunk::HeartbeatAck { heartbeat_info } => {
            if !push_heartbeat_info(&mut b, heartbeat_info) {
                return None;
            }
        },
        SctpChunk::Shutdown { cumulative_tsn_ack } => {
            push_be32(&mut b, *cumulative_tsn_ack);
        },
        SctpChunk::CookieEcho { state_cookie } => {
            push_all(&mut b, state_cookie.as_slice());
        },
        SctpChunk::ForwardTsn { new_cumulative_tsn } => {
            push_be32(&mut b, *new_cumulative_tsn);
        },
        SctpChunk::Unknown { body, .. } => {
            push_all(&mut b, body.as_slice());
        },
        _ => {},
    }
    assert(b@ =~= chunk_body(c@));
    Some(b)
}

fn chunk_type_flags(c: &SctpChunk) -> (r: (u8, u8))
    ensures
        r.0 == chunk_type_of(c@),
        r.1 == chunk_flags_of(c@),
{
    match c {
        SctpChunk::Data { chunk_flags, .. } => (CHUNK_TYPE_DATA, *chunk_flags),
        SctpChunk::Init { .. } => (CHUNK_TYPE_INIT, 0),
        SctpChunk::InitAck { .. } => (CHUNK_TYPE_INIT_ACK, 0),
        SctpChunk::SAck { .. } => (CHUNK_TYPE_SACK, 0),
        SctpChunk::Heartbeat { .. } => (CHUNK_TYPE_HEARTBEAT, 0),
        SctpChunk::HeartbeatAck { .. } => (CHUNK_TYPE_HEARTBEAT_ACK, 0),
        SctpChunk::Abort => (CHUNK_TYPE_ABORT, 0),
        SctpChunk::Shutdown { .. } => (CHUNK_TYPE_SHUTDOWN, 0),
        SctpChunk::ShutdownAck => (CHUNK_TYPE_SHUTDOWN_ACK, 0),
        SctpChunk::CookieEcho { .. } => (CHUNK_TYPE_COOKIE_ECHO, 0),
        SctpChunk::CookieAck => (CHUNK_TYPE_COOKIE_ACK, 0),
        SctpChunk::ForwardTsn { .. } => (CHUNK_TYPE_FORWARD_TSN, 0),
        SctpChunk::Unknown { chunk_type, chunk_flags, .. } => (*chunk_type, *chunk_flags),
    }
}

/// Encodes a packet with its CRC32c checksum.
pub fn write_sctp_packet(packet: &SctpPacket) -> (r: Result<Vec<u8>, SctpWriteError>)
    ensures
        packet@.chunks.len() == 0 ==> r matches Err(SctpWriteError::NoChunks),
        packet@.chunks.len() > 0 && encoded_len(packet@) > MAX_SCTP_PACKET_SIZE ==> r matches Err(
            SctpWriteError::BufferSize,
        ),
        packet@.chunks.len() > 0 && encoded_len(packet@) <= MAX_SCTP_PACKET_SIZE ==> (r matches Ok(
            v) && v@ == encode_packet(packet@) && v@.len() == encoded_len(packet@)),
{
    let ghost p = packet@;
    if packet.chunks.len() == 0 {
        return Err(SctpWriteError::NoChunks);
    }
    let mut out: Vec<u8> = Vec::new();
    push_be16(&mut out, packet.source_port);
    push_be16(&mut out, packet.dest_port);
    push_be32(&mut out, packet.verification_tag);
    push_be32(&mut out, 0);
    assert(be32(0) =~= le32(0));
    let ghost header = out@;
    let mut i: usize = 0;
    while i < packet.chunks.len()
        invariant
            i <= packet.chunks@.len(),
            p == packet@,
            header.len() == 12,
            header + chunks_bytes(p.chunks) == packet_bytes(p, 0),
            out@ == header + chunks_bytes(p.chunks.take(i as int)),
            out@.len() <= MAX_SCTP_PACKET_SIZE,
        decreases packet.chunks@.len() - i,
    {
        let c = &packet.chunks[i];
        assert(p.chunks[i as int] == c@);
        proof {
            lemma_chunks_bytes_take(p.chunks, i as int);
            lemma_chunks_bytes_grow(p.chunks, i as int + 1);
        }
        let body = match chunk_body_of(c) {
            Some(b) => b,
            None => {
                return Err(SctpWriteError::BufferSize);
            },
        };
        if body.len() > MAX_SCTP_PACKET_SIZE {
            return Err(SctpWriteError::BufferSize);
        }
        let rem = body.len() % 4;
        let pad: usize = if rem == 0 { 0 } else { 4 - rem };
        if out.len() + 4 + body.len() + pad > MAX_SCTP_PACKET_SIZE {
            return Err(SctpWriteError::BufferSize);
        }
        let (ty, flags) = chunk_type_flags(c);
        out.push(ty);
        out.push(flags);
        push_be16(&mut out, (body.len() + 4) as u16);
        push_all(&mut out, body.as_slice());
        push_zeros(&mut out, pad);
        assert(out@ =~= header + chunks_bytes(p.chunks.take(i as int + 1)));
        i = i + 1;
    }
    assert(p.chunks.take(i as int) =~= p.chunks);
    let crc = checksum_crc32c(out.as_slice());
    out[8] = (crc % 256) as u8;
    out[9] = ((crc / 256) % 256) as u8;
    out[10] = ((crc / 0x1_0000) % 256) as u8;
    out[11] = (crc / 0x100_0000) as u8;
    assert(out@ =~= encode_packet(p));
    Ok(out)
}


/// The heartbeat-information parameter at the start of a HEARTBEAT body, if it is well formed.
pub open spec fn parse_heartbeat_info(b: Seq<u8>) -> Option<Seq<u8>> {
    if b.len() >= 4 && be16_at(b, 0) == PARAM_HEARTBEAT_INFO && 4 <= be16_at(b, 2) <= b.len() {
        Some(b.subrange(4, be16_at(b, 2) as int))
    } else {
        None
    }
}

/// The chunk that a type, flags and body stand for; `None` where the body is malformed.
#[verifier::opaque]
pub open spec fn parse_chunk_body(ty: u8, flags: u8, b: Seq<u8>) -> Option<ChunkView> {
    if ty == CHUNK_TYPE_DATA {
        if b.len() < 12 {
            None
        } else {
            Some(
                ChunkView::Data {
                    chunk_flags: flags,
                    tsn: be32_at(b, 0),
                    stream_id: be16_at(b, 4),
                    stream_seq: be16_at(b, 6),
                    proto_id: be32_at(b, 8),
                    user_data: b.subrange(12, b.len() as int),
                },
            )
        }
    } else if ty == CHUNK_TYPE_INIT {
        if b.len() < 16 {
            None
        } else {
            Some(
                ChunkView::Init {
                    initiate_tag: be32_at(b, 0),
                    window_credit: be32_at(b, 4),
                    num_outbound_streams: be16_at(b, 8),
                    num_inbound_streams: be16_at(b, 10),
                    initial_tsn: be32_at(b, 12),
                },
            )
        }
    } else if ty == CHUNK_TYPE_INIT_ACK {
        if b.len() < 20 || be16_at(b, 16) != PARAM_STATE_COOKIE || be16_at(b, 18) < 4 || 16
            + be16_at(b, 18) > b.len() {
            None
        } else {
            Some(
                ChunkView::InitAck {
                    initiate_tag: be32_at(b, 0),
                    window_credit: be32_at(b, 4),
                    num_outbound_streams: be16_at(b, 8),
                    num_inbound_streams: be16_at(b, 10),
                    initial_tsn: be32_at(b, 12),
                    state_cookie: b.subrange(20, 16 + be16_at(b, 18)),
                },
            )
        }
    } else if ty == CHUNK_TYPE_SACK {
        if b.len() < 12 {
            None
        } else {
            Some(
                ChunkView::SAck {
                    cumulative_tsn_ack: be32_at(b, 0),
                    adv_recv_window: be32_at(b, 4),
                    num_gap_ack_blocks: be16_at(b, 8),
                    num_dup_tsn: be16_at(b, 10),
                },
            )
        }
    } else if ty == CHUNK_TYPE_HEARTBEAT {
        Some(ChunkView::Heartbeat { heartbeat_info: parse_heartbeat_info(b) })
    } else if ty == CHUNK_TYPE_HEARTBEAT_ACK {
        Some(ChunkView::HeartbeatAck { heartbeat_info: parse_heartbeat_info(b) })
    } else if ty == CHUNK_TYPE_ABORT {
        Some(ChunkView::Abort)
    } else if ty == CHUNK_TYPE_SHUTDOWN {
        if b.len() < 4 {
            None
        } else {
            Some(ChunkView::Shutdown { cumulative_tsn_ack: be32_at(b, 0) })
        }
    } else if ty == CHUNK_TYPE_SHUTDOWN_ACK {
        Some(ChunkView::ShutdownAck)
    } else if ty == CHUNK_TYPE_COOKIE_ECHO {
        Some(ChunkView::CookieEcho { state_cookie: b })
    } else if ty == CHUNK_TYPE_COOKIE_ACK {
        Some(ChunkView::CookieAck)
    } else if ty == CHUNK_TYPE_FORWARD_TSN {
        if b.len() < 4 {
            None
        } else {
            Some(ChunkView::ForwardTsn { new_cumulative_tsn: be32_at(b, 0) })
        }
    } else {
        Some(ChunkView::Unknown { chunk_type: ty, chunk_flags: flags, body: b })
    }
}

/// The chunks that `rest` holds, at most `room` of them; fewer than four trailing bytes
/// are ignored.
#[verifier::opaque]
pub open spec fn parse_chunks(rest: Seq<u8>, room: nat) -> Result<Seq<ChunkView>, SctpReadError>
    decreases rest.len(),
{
    if rest.len() < 4 {
        Ok(Seq::empty())
    } else if room == 0 {
        Err(SctpReadError::TooManyChunks)
    } else {
        let len = be16_at(rest, 2) as nat;
        let next = len + pad4(len);
        if len < 4 || next > rest.len() {
            Err(SctpReadError::BadPacket)
        } else {
            match parse_chunk_body(rest[0], rest[1], rest.subrange(4, len as int)) {
                None => Err(SctpReadError::BadPacket),
                Some(c) => match parse_chunks(rest.subrange(next as int, rest.len() as int), (room - 1) as nat) {
                    Ok(t) => Ok(seq![c] + t),
                    Err(e) => Err(e),
                },
            }
        }
    }
}

/// The packet that `src` holds. With `check_crc`, the checksum field must equal the CRC32c
/// of the packet with that field zeroed.
pub open spec fn parse_packet(src: Seq<u8>, check_crc: bool) -> Result<PacketView, SctpReadError> {
    if src.len() < 16 {
        Err(SctpReadError::BadPacket)
    } else if check_crc && le32_at(src, 8) != crc32c(
        src.subrange(0, 8) + zeros(4) + src.subrange(12, src.len() as int),
    ) {
        Err(SctpReadError::BadChecksum)
    } else {
        match parse_chunks(src.subrange(12, src.len() as int), SCTP_MAX_CHUNKS as nat) {
            Ok(cs) => Ok(
                PacketView {
                    source_port: be16_at(src, 0),
                    dest_port: be16_at(src, 2),
                    verification_tag: be32_at(src, 4),
                    chunks: cs,
                },
            ),
            Err(e) => Err(e),
        }
    }
}

pub open spec fn prepend_chunks(acc: Seq<ChunkView>, r: Result<Seq<ChunkView>, SctpReadError>) -> Result<Seq<ChunkView>, SctpReadError> {
    match r {
        Ok(t) => Ok(acc + t),
        Err(e) => Err(e),
    }
}

pub open spec fn read_result_view(r: Result<SctpPacket, SctpReadError>) -> Result<PacketView, SctpReadError> {
    match r {
        Ok(p) => Ok(p@),
        Err(e) => Err(e),
    }
}

fn read_heartbeat_info(src: &[u8], start: usize, end: usize) -> (r: Option<Vec<u8>>)
    requires
        start <= end <= src@.len(),
    ensures
        opt_view(r) == parse_heartbeat_info(src@.subrange(start as int, end as int)),
{
    let ghost b = src@.subrange(start as int, end as int);
    if end - start >= 4 {
        let ty = read_be16(src, start);
        let plen = read_be16(src, start + 2) as usize;
        assert(ty == be16_at(b, 0));
        assert(plen == be16_at(b, 2));
        if ty == PARAM_HEARTBEAT_INFO && 4 <= plen && plen <= end - start {
            let v = copy_range(src, start + 4, start + plen);
            assert(v@ =~= b.subrange(4, plen as int));
            return Some(v);
        }
    }
    None
}

/// Decodes the body `src[start..end]` of a chunk of type `ty`.
fn read_chunk_body(src: &[u8], ty: u8, flags: u8, start: usize, end: usize) -> (r: Option<SctpChunk>)
    requires
        start <= end <= src@.len(),
    ensures
        r matches Some(c) ==> parse_chunk_body(ty, flags, src@.subrange(start as int, end as int)) == Some(c@),
        r is None ==> parse_chunk_body(ty, flags, src@.subrange(start as int, end as int)) is None,
{
    reveal(parse_chunk_body);
    let ghost b = src@.subrange(start as int, end as int);
    let len = end - start;
    assert forall|k: int| 0 <= k < b.len() implies b[k] == src@[start + k] by {}
    if ty == CHUNK_TYPE_DATA {
        if len < 12 {
            return None;
        }
        let c = SctpChunk::Data {
            chunk_flags: flags,
            tsn: read_be32(src, start),
            stream_id: read_be16(src, start + 4),
            stream_seq: read_be16(src, start + 6),
            proto_id: read_be32(src, start + 8),
            user_data: copy_range(src, start + 12, end),
        };
        assert(c@->user_data =~= b.subrange(12, b.len() as int));
        Some(c)
    } else if ty == CHUNK_TYPE_INIT {
        if len < 16 {
            return None;
        }
        Some(
            SctpChunk::Init {
                initiate_tag: read_be32(src, start),
                window_credit: read_be32(src, start + 4),
                num_outbound_streams: read_be16(src, start + 8),
                num_inbound_streams: read_be16(src, start + 10),
                initial_tsn: read_be32(src, start + 12),
            },
        )
    } else if ty == CHUNK_TYPE_INIT_ACK {
        if len < 20 {
            return None;
        }
        let pty = read_be16(src, start + 16);
        let plen = read_be16(src, start + 18) as usize;
        if pty != PARAM_STATE_COOKIE || plen < 4 || 16 + plen > len {
            return None;
        }
        let c = SctpChunk::InitAck {
            initiate_tag: read_be32(src, start),
            window_credit: read_be32(src, start + 4),
            num_outbound_streams: read_be16(src, start + 8),
            num_inbound_streams: read_be16(src, start + 10),
            initial_tsn: read_be32(src, start + 12),
            state_cookie: copy_range(src, start + 20, start + 16 + plen),
        };
        assert(c@->InitAck_state_cookie =~= b.subrange(20, 16 + plen));
        Some(c)
    } else if ty == CHUNK_TYPE_SACK {
        if len < 12 {
            return None;
        }
        Some(
            SctpChunk::SAck {
                cumulative_tsn_ack: read_be32(src, start),
                adv_recv_window: read_be32(src, start + 4),
                num_gap_ack_blocks: read_be16(src, start + 8),
                num_dup_tsn: read_be16(src, start + 10),
            },
        )
    } else if ty == CHUNK_TYPE_HEARTBEAT {
        Some(SctpChunk::Heartbeat { heartbeat_info: read_heartbeat_info(src, start, end) })
    } else if ty == CHUNK_TYPE_HEARTBEAT_ACK {
        Some(SctpChunk::HeartbeatAck { heartbeat_info: read_heartbeat_info(src, start, end) })
    } else if ty == CHUNK_TYPE_ABORT {
        Some(SctpChunk::Abort)
    } else if ty == CHUNK_TYPE_SHUTDOWN {
        if len < 4 {
            return None;
        }
        Some(SctpChunk::Shutdown { cumulative_tsn_ack: read_be32(src, start) })
    } else if ty == CHUNK_TYPE_SHUTDOWN_ACK {
        Some(SctpChunk::ShutdownAck)
    } else if ty == CHUNK_TYPE_COOKIE_ECHO {
        Some(SctpChunk::CookieEcho { state_cookie: copy_range(src, start, end) })
    } else if ty == CHUNK_TYPE_COOKIE_ACK {
        Some(SctpChunk::CookieAck)
    } else if ty == CHUNK_TYPE_FORWARD_TSN {
        if len < 4 {
            return None;
        }
        Some(SctpChunk::ForwardTsn { new_cumulative_tsn: read_be32(src, start) })
    } else {
        Some(SctpChunk::Unknown { chunk_type: ty, chunk_flags: flags, body: copy_range(src, start, end) })
    }
}

proof fn lemma_parse_chunks_step(rest: Seq<u8>, room: nat, c: ChunkView, next: nat)
    requires
        rest.len() >= 4,
        room > 0,
        4 <= be16_at(rest, 2),
        next == be16_at(rest, 2) as nat + pad4(be16_at(rest, 2) as nat),
        next <= rest.len(),
        parse_chunk_body(rest[0], rest[1], rest.subrange(4, be16_at(rest, 2) as int)) == Some(c),
    ensures
        parse_chunks(rest, room) == prepend_chunks(
            seq![c],
            parse_chunks(rest.subrange(next as int, rest.len() as int), (room - 1) as nat),
        ),
{
    reveal(parse_chunks);
}

proof fn lemma_parse_chunks_stop(rest: Seq<u8>, room: nat)
    ensures
        rest.len() < 4 ==> parse_chunks(rest, room) == Ok::<Seq<ChunkView>, SctpReadError>(Seq::empty()),
        rest.len() >= 4 && room == 0 ==> parse_chunks(rest, room) == Err::<Seq<ChunkView>, SctpReadError>(SctpReadError::TooManyChunks),
        rest.len() >= 4 && room > 0 && (be16_at(rest, 2) < 4 || be16_at(rest, 2) as nat + pad4(be16_at(rest, 2) as nat) > rest.len()) ==> parse_chunks(rest, room) == Err::<Seq<ChunkView>, SctpReadError>(SctpReadError::BadPacket),
        rest.len() >= 4 && room > 0 && be16_at(rest, 2) >= 4 && be16_at(rest, 2) as nat + pad4(be16_at(rest, 2) as nat) <= rest.len()
            && parse_chunk_body(rest[0], rest[1], rest.subrange(4, be16_at(rest, 2) as int)) is None ==> parse_chunks(rest, room) == Err::<Seq<ChunkView>, SctpReadError>(SctpReadError::BadPacket),
{
    reveal(parse_chunks);
}

/// Decodes an SCTP packet; with `check_crc` the checksum is verified too.
#[verifier::rlimit(40)]
pub fn read_sctp_packet(src: &[u8], check_crc: bool) -> (r: Result<SctpPacket, SctpReadError>)
    ensures
        read_result_view(r) == parse_packet(src@, check_crc),
{
    let len = src.len();
    if len < 16 {
        return Err(SctpReadError::BadPacket);
    }
    if check_crc {
        let mut zeroed = copy_range(src, 0, len);
        zeroed[8] = 0;
        zeroed[9] = 0;
        zeroed[10] = 0;
        zeroed[11] = 0;
        assert(zeroed@ =~= src@.subrange(0, 8) + zeros(4) + src@.subrange(12, len as int));
        if read_le32(src, 8) != checksum_crc32c(zeroed.as_slice()) {
            return Err(SctpReadError::BadChecksum);
        }
    }
    let ghost whole = src@.subrange(12, len as int);
    assert(parse_packet(src@, check_crc) == match parse_chunks(whole, SCTP_MAX_CHUNKS as nat) {
        Ok(cs) => Ok(
            PacketView {
                source_port: be16_at(src@, 0),
                dest_port: be16_at(src@, 2),
                verification_tag: be32_at(src@, 4),
                chunks: cs,
            },
        ),
        Err(e) => Err(e),
    });
    let mut chunks: Vec<SctpChunk> = Vec::new();
    let mut pos: usize = 12;
    assert(src@.subrange(pos as int, len as int) =~= whole);
    assert(chunks_view(chunks@) =~= Seq::<ChunkView>::empty());
    while len - pos >= 4
        invariant
            len == src@.len(),
            12 <= pos <= len,
            whole == src@.subrange(12, len as int),
            parse_packet(src@, check_crc) == match parse_chunks(whole, SCTP_MAX_CHUNKS as nat) {
                Ok(cs) => Ok(
                    PacketView {
                        source_port: be16_at(src@, 0),
                        dest_port: be16_at(src@, 2),
                        verification_tag: be32_at(src@, 4),
                        chunks: cs,
                    },
                ),
                Err(e) => Err::<PacketView, SctpReadError>(e),
            },
            chunks@.len() <= SCTP_MAX_CHUNKS,
            parse_chunks(whole, SCTP_MAX_CHUNKS as nat) == prepend_chunks(
                chunks_view(chunks@),
                parse_chunks(src@.subrange(pos as int, len as int), (SCTP_MAX_CHUNKS - chunks@.len()) as nat),
            ),
        decreases len - pos,
    {
        let ghost rest = src@.subrange(pos as int, len as int);
        let ghost room = (SCTP_MAX_CHUNKS - chunks@.len()) as nat;
        let ghost before = chunks_view(chunks@);
        proof {
            lemma_parse_chunks_stop(rest, room);
        }
        if chunks.len() >= SCTP_MAX_CHUNKS {
            assert(parse_chunks(rest, room) == Err::<Seq<ChunkView>, SctpReadError>(SctpReadError::TooManyChunks));
            return Err(SctpReadError::TooManyChunks);
        }
        let ty = src[pos];
        let flags = src[pos + 1];
        let clen = read_be16(src, pos + 2) as usize;
        assert(clen == be16_at(rest, 2));
        let rem = clen % 4;
        let next: usize = if rem == 0 { clen } else { clen + 4 - rem };
        assert(next == clen + pad4(clen as nat));
        if clen < 4 || next > len - pos {
            assert(parse_chunks(rest, room) == Err::<Seq<ChunkView>, SctpReadError>(SctpReadError::BadPacket));
            return Err(SctpReadError::BadPacket);
        }
        assert(src@.subrange(pos as int + 4, pos as int + clen) =~= rest.subrange(4, clen as int));
        assert(rest[0] == ty && rest[1] == flags);
        let c = match read_chunk_body(src, ty, flags, pos + 4, pos + clen) {
            Some(c) => c,
            None => {
                assert(parse_chunks(rest, room) == Err::<Seq<ChunkView>, SctpReadError>(SctpReadError::BadPacket));
                return Err(SctpReadError::BadPacket);
            },
        };
        let ghost cv = c@;
        proof {
            lemma_parse_chunks_step(rest, room, cv, next as nat);
        }
        chunks.push(c);
        assert(chunks_view(chunks@) =~= before.push(cv));
        assert(rest.subrange(next as int, rest.len() as int) =~= src@.subrange(pos + next, len as int));
        pos = pos + next;
        proof {
            let t = parse_chunks(src@.subrange(pos as int, len as int), (room - 1) as nat);
            assert((SCTP_MAX_CHUNKS - chunks@.len()) as nat == (room - 1) as nat);
            match t {
                Ok(tt) => {
                    assert(before + (seq![cv] + tt) =~= before.push(cv) + tt);
                },
                Err(_) => {},
            }
        }
    }
    let ghost rest = src@.subrange(pos as int, len as int);
    proof {
        lemma_parse_chunks_stop(rest, (SCTP_MAX_CHUNKS - chunks@.len()) as nat);
    }
    assert(parse_chunks(rest, (SCTP_MAX_CHUNKS - chunks@.len()) as nat) == Ok::<Seq<ChunkView>, SctpReadError>(Seq::empty()));
    assert(chunks_view(chunks@) + Seq::<ChunkView>::empty() =~= chunks_view(chunks@));
    let p = SctpPacket {
        source_port: read_be16(src, 0),
        dest_port: read_be16(src, 2),
        verification_tag: read_be32(src, 4),
        chunks,
    };
    Ok(p)
}


/// Chunk types that `parse_chunk_body` decodes into a variant of their own.
pub open spec fn known_chunk_type(ty: u8) -> bool {
    ty == CHUNK_TYPE_DATA || ty == CHUNK_TYPE_INIT || ty == CHUNK_TYPE_INIT_ACK || ty
        == CHUNK_TYPE_SACK || ty == CHUNK_TYPE_HEARTBEAT || ty == CHUNK_TYPE_HEARTBEAT_ACK || ty
        == CHUNK_TYPE_ABORT || ty == CHUNK_TYPE_SHUTDOWN || ty == CHUNK_TYPE_SHUTDOWN_ACK || ty
        == CHUNK_TYPE_COOKIE_ECHO || ty == CHUNK_TYPE_COOKIE_ACK || ty == CHUNK_TYPE_FORWARD_TSN
}

/// A chunk that survives encoding: an `Unknown` chunk must not claim a known type.
pub open spec fn chunk_supported(c: ChunkView) -> bool {
    match c {
        ChunkView::Unknown { chunk_type, .. } => !known_chunk_type(chunk_type),
        _ => true,
    }
}

proof fn lemma_chunks_bytes_cons(c: ChunkView, rest: Seq<ChunkView>)
    ensures
        chunks_bytes(seq![c] + rest) == chunk_bytes(c) + chunks_bytes(rest),
    decreases rest.len(),
{
    let s = seq![c] + rest;
    if rest.len() == 0 {
        assert(s =~= seq![c]);
        assert(s.drop_last() =~= Seq::<ChunkView>::empty());
        assert(chunks_bytes(Seq::<ChunkView>::empty()) == Seq::<u8>::empty());
        assert(chunks_bytes(s) =~= chunk_bytes(c) + chunks_bytes(rest));
    } else {
        assert(s.drop_last() =~= seq![c] + rest.drop_last());
        assert(s.last() == rest.last());
        lemma_chunks_bytes_cons(c, rest.drop_last());
        assert(chunks_bytes(s) =~= chunk_bytes(c) + chunks_bytes(rest));
    }
}

proof fn lemma_be16_in(a: Seq<u8>, x: u16, b: Seq<u8>)
    ensures
        be16_at(a + be16(x) + b, a.len() as int) == x,
{
    lemma_be16_round_trip(x);
    let s = a + be16(x) + b;
    assert(s[a.len() as int] == be16(x)[0]);
    assert(s[a.len() as int + 1] == be16(x)[1]);
}

proof fn lemma_be32_in(a: Seq<u8>, x: u32, b: Seq<u8>)
    ensures
        be32_at(a + be32(x) + b, a.len() as int) == x,
{
    lemma_be32_round_trip(x);
    let s = a + be32(x) + b;
    assert(s[a.len() as int] == be32(x)[0]);
    assert(s[a.len() as int + 1] == be32(x)[1]);
    assert(s[a.len() as int + 2] == be32(x)[2]);
    assert(s[a.len() as int + 3] == be32(x)[3]);
}

proof fn lemma_data_round_trip(c: ChunkView)
    requires
        c is Data,
    ensures
        parse_chunk_body(chunk_type_of(c), chunk_flags_of(c), chunk_body(c)) == Some(c),
{
    reveal(chunk_body);
    reveal(parse_chunk_body);
    let b = chunk_body(c);
    let e = Seq::<u8>::empty();
    let chunk_flags = c->Data_chunk_flags;
    let tsn = c->Data_tsn;
    let stream_id = c->Data_stream_id;
    let stream_seq = c->Data_stream_seq;
    let proto_id = c->Data_proto_id;
    let user_data = c->Data_user_data;
    let t = be32(proto_id) + user_data;
    lemma_be32_in(e, tsn, be16(stream_id) + be16(stream_seq) + t);
    lemma_be16_in(be32(tsn), stream_id, be16(stream_seq) + t);
    lemma_be16_in(be32(tsn) + be16(stream_id), stream_seq, t);
    lemma_be32_in(be32(tsn) + be16(stream_id) + be16(stream_seq), proto_id, user_data);
    assert(e + be32(tsn) + (be16(stream_id) + be16(stream_seq) + t) =~= b);
    assert(be32(tsn) + be16(stream_id) + (be16(stream_seq) + t) =~= b);
    assert(be32(tsn) + be16(stream_id) + be16(stream_seq) + t =~= b);
    assert(be32(tsn) + be16(stream_id) + be16(stream_seq) + be32(proto_id) + user_data =~= b);
    assert(b.subrange(12, b.len() as int) =~= user_data);
}

proof fn lemma_init_round_trip(c: ChunkView)
    requires
        c is Init,
    ensures
        parse_chunk_body(chunk_type_of(c), chunk_flags_of(c), chunk_body(c)) == Some(c),
{
    reveal(chunk_body);
    reveal(parse_chunk_body);
    lemma_fixed_fields(
        c->Init_initiate_tag,
        c->Init_window_credit,
        c->Init_num_outbound_streams,
        c->Init_num_inbound_streams,
        c->Init_initial_tsn,
    );
}

proof fn lemma_init_ack_round_trip(c: ChunkView)
    requires
        c is InitAck,
        chunk_body(c).len() <= MAX_SCTP_PACKET_SIZE,
    ensures
        parse_chunk_body(chunk_type_of(c), chunk_flags_of(c), chunk_body(c)) == Some(c),
{
    reveal(chunk_body);
    reveal(parse_chunk_body);
    let initiate_tag = c->InitAck_initiate_tag;
    let window_credit = c->InitAck_window_credit;
    let num_outbound_streams = c->InitAck_num_outbound_streams;
    let num_inbound_streams = c->InitAck_num_inbound_streams;
    let initial_tsn = c->InitAck_initial_tsn;
    let state_cookie = c->InitAck_state_cookie;
    let cl = (state_cookie.len() + 4) as u16;
    let b = chunk_body(c);
    let f = be32(initiate_tag) + be32(window_credit) + be16(num_outbound_streams) + be16(num_inbound_streams)
        + be32(initial_tsn) + be16(PARAM_STATE_COOKIE) + be16(cl);
    let tail = state_cookie + zeros(pad4(state_cookie.len())) + be16(PARAM_FORWARD_TSN) + be16(4);
    assert(b =~= f + tail);
    assert(f.len() == 20);
    assert(cl == state_cookie.len() + 4);
    lemma_fixed_fields(initiate_tag, window_credit, num_outbound_streams, num_inbound_streams, initial_tsn);
    let g = be32(initiate_tag) + be32(window_credit) + be16(num_outbound_streams) + be16(num_inbound_streams)
        + be32(initial_tsn);
    lemma_be16_in(g, PARAM_STATE_COOKIE, be16(cl));
    assert(g + be16(PARAM_STATE_COOKIE) + be16(cl) =~= f);
    lemma_be16_in(g + be16(PARAM_STATE_COOKIE), cl, Seq::<u8>::empty());
    assert(g + be16(PARAM_STATE_COOKIE) + be16(cl) + Seq::<u8>::empty() =~= f);
    assert forall|k: int| 0 <= k < 16 implies #[trigger] b[k] == g[k] by {
        assert(b[k] == f[k]);
    }
    assert(b[16] == f[16] && b[17] == f[17] && b[18] == f[18] && b[19] == f[19]);
    assert(b.subrange(20, 16 + cl) =~= state_cookie);
}

/// The five fixed fields that open INIT and INIT-ACK read back from their bytes.
proof fn lemma_fixed_fields(initiate_tag: u32, window_credit: u32, outbound: u16, inbound: u16, initial_tsn: u32)
    ensures
        ({
            let g = be32(initiate_tag) + be32(window_credit) + be16(outbound) + be16(inbound) + be32(initial_tsn);
            &&& g.len() == 16
            &&& be32_at(g, 0) == initiate_tag
            &&& be32_at(g, 4) == window_credit
            &&& be16_at(g, 8) == outbound
            &&& be16_at(g, 10) == inbound
            &&& be32_at(g, 12) == initial_tsn
        }),
{
    let e = Seq::<u8>::empty();
    let g = be32(initiate_tag) + be32(window_credit) + be16(outbound) + be16(inbound) + be32(initial_tsn);
    lemma_be32_in(e, initiate_tag, be32(window_credit) + be16(outbound) + be16(inbound) + be32(initial_tsn));
    assert(e + be32(initiate_tag) + (be32(window_credit) + be16(outbound) + be16(inbound) + be32(initial_tsn)) =~= g);
    lemma_be32_in(be32(initiate_tag), window_credit, be16(outbound) + be16(inbound) + be32(initial_tsn));
    assert(be32(initiate_tag) + be32(window_credit) + (be16(outbound) + be16(inbound) + be32(initial_tsn)) =~= g);
    lemma_be16_in(be32(initiate_tag) + be32(window_credit), outbound, be16(inbound) + be32(initial_tsn));
    assert(be32(initiate_tag) + be32(window_credit) + be16(outbound) + (be16(inbound) + be32(initial_tsn)) =~= g);
    lemma_be16_in(be32(initiate_tag) + be32(window_credit) + be16(outbound), inbound, be32(initial_tsn));
    lemma_be32_in(be32(initiate_tag) + be32(window_credit) + be16(outbound) + be16(inbound), initial_tsn, e);
    assert(be32(initiate_tag) + be32(window_credit) + be16(outbound) + be16(inbound) + be32(initial_tsn) + e =~= g);
}

proof fn lemma_sack_round_trip(c: ChunkView)
    requires
        c is SAck,
    ensures
        parse_chunk_body(chunk_type_of(c), chunk_flags_of(c), chunk_body(c)) == Some(c),
{
    reveal(chunk_body);
    reveal(parse_chunk_body);
    let cum = c->SAck_cumulative_tsn_ack;
    let adv = c->SAck_adv_recv_window;
    let gaps = c->SAck_num_gap_ack_blocks;
    let dups = c->SAck_num_dup_tsn;
    let e = Seq::<u8>::empty();
    let b = chunk_body(c);
    assert(b == be32(cum) + be32(adv) + be16(gaps) + be16(dups));
    lemma_be32_in(e, cum, be32(adv) + be16(gaps) + be16(dups));
    assert(e + be32(cum) + (be32(adv) + be16(gaps) + be16(dups)) =~= b);
    lemma_be32_in(be32(cum), adv, be16(gaps) + be16(dups));
    assert(be32(cum) + be32(adv) + (be16(gaps) + be16(dups)) =~= b);
    lemma_be16_in(be32(cum) + be32(adv), gaps, be16(dups));
    lemma_be16_in(be32(cum) + be32(adv) + be16(gaps), dups, e);
    assert(be32(cum) + be32(adv) + be16(gaps) + be16(dups) + e =~= b);
}

proof fn lemma_chunk_body_round_trip(c: ChunkView)
    requires
        chunk_supported(c),
        chunk_body(c).len() <= MAX_SCTP_PACKET_SIZE,
    ensures
        parse_chunk_body(chunk_type_of(c), chunk_flags_of(c), chunk_body(c)) == Some(c),
{
    reveal(chunk_body);
    reveal(parse_chunk_body);
    let b = chunk_body(c);
    let e = Seq::<u8>::empty();
    match c {
        ChunkView::Data { .. } => lemma_data_round_trip(c),
        ChunkView::Init { .. } => lemma_init_round_trip(c),
        ChunkView::InitAck { .. } => lemma_init_ack_round_trip(c),
        ChunkView::SAck { .. } => lemma_sack_round_trip(c),
        ChunkView::Heartbeat { heartbeat_info } => {
            lemma_heartbeat_round_trip(heartbeat_info);
        },
        ChunkView::HeartbeatAck { heartbeat_info } => {
            lemma_heartbeat_round_trip(heartbeat_info);
        },
        ChunkView::Shutdown { cumulative_tsn_ack } => {
            lemma_be32_in(e, cumulative_tsn_ack, e);
            assert(e + be32(cumulative_tsn_ack) + e =~= b);
        },
        ChunkView::ForwardTsn { new_cumulative_tsn } => {
            lemma_be32_in(e, new_cumulative_tsn, e);
            assert(e + be32(new_cumulative_tsn) + e =~= b);
        },
        _ => {},
    }
}

proof fn lemma_heartbeat_round_trip(info: Option<Seq<u8>>)
    requires
        heartbeat_body(info).len() <= MAX_SCTP_PACKET_SIZE,
    ensures
        parse_heartbeat_info(heartbeat_body(info)) == info,
{
    let b = heartbeat_body(info);
    let e = Seq::<u8>::empty();
    match info {
        Some(i) => {
            let l = (i.len() + 4) as u16;
            lemma_be16_in(e, PARAM_HEARTBEAT_INFO, be16(l) + i);
            assert(e + be16(PARAM_HEARTBEAT_INFO) + (be16(l) + i) =~= b);
            lemma_be16_in(be16(PARAM_HEARTBEAT_INFO), l, i);
            assert(be16(PARAM_HEARTBEAT_INFO) + be16(l) + i =~= b);
            assert(b.subrange(4, l as int) =~= i);
        },
        None => {},
    }
}

proof fn lemma_chunks_round_trip(cs: Seq<ChunkView>, room: nat)
    requires
        forall|i: int| 0 <= i < cs.len() ==> chunk_supported(#[trigger] cs[i]),
        cs.len() <= room,
        chunks_bytes(cs).len() <= MAX_SCTP_PACKET_SIZE,
    ensures
        parse_chunks(chunks_bytes(cs), room) == Ok::<Seq<ChunkView>, SctpReadError>(cs),
    decreases cs.len(),
{
    if cs.len() == 0 {
        reveal(parse_chunks);
        assert(chunks_bytes(cs) == Seq::<u8>::empty());
        assert(cs =~= Seq::<ChunkView>::empty());
    } else {
        let c = cs[0];
        let rest = cs.skip(1);
        assert(cs =~= seq![c] + rest);
        lemma_chunks_bytes_cons(c, rest);
        let cb = chunk_bytes(c);
        let body = chunk_body(c);
        let bytes = cb + chunks_bytes(rest);
        assert(chunks_bytes(cs) == bytes);
        let len = (body.len() + 4) as u16;
        lemma_be16_in(seq![chunk_type_of(c), chunk_flags_of(c)], len, body + zeros(pad4(body.len())) + chunks_bytes(rest));
        assert(seq![chunk_type_of(c), chunk_flags_of(c)] + be16(len) + (body + zeros(pad4(body.len())) + chunks_bytes(rest)) =~= bytes);
        assert(len as nat == body.len() + 4);
        assert(pad4(len as nat) == pad4(body.len()));
        assert(bytes.subrange(4, len as int) =~= body);
        assert(bytes[0] == chunk_type_of(c) && bytes[1] == chunk_flags_of(c));
        lemma_chunk_body_round_trip(c);
        let next = len as nat + pad4(len as nat);
        assert(next == cb.len());
        assert(bytes.subrange(next as int, bytes.len() as int) =~= chunks_bytes(rest));
        lemma_parse_chunks_step(bytes, room, c, next);
        assert forall|i: int| 0 <= i < rest.len() implies chunk_supported(#[trigger] rest[i]) by {
            assert(rest[i] == cs[i + 1]);
        }
        lemma_chunks_round_trip(rest, (room - 1) as nat);
    }
}

/// Encoding a packet of supported chunks (at least one, at most `SCTP_MAX_CHUNKS`) that fits
/// in `MAX_SCTP_PACKET_SIZE`, then parsing the bytes with the checksum verified, gives the
/// packet back.
pub proof fn lemma_round_trip(p: PacketView)
    requires
        1 <= p.chunks.len() <= SCTP_MAX_CHUNKS,
        forall|i: int| 0 <= i < p.chunks.len() ==> chunk_supported(#[trigger] p.chunks[i]),
        encoded_len(p) <= MAX_SCTP_PACKET_SIZE,
    ensures
        parse_packet(encode_packet(p), true) == Ok::<PacketView, SctpReadError>(p),
{
    let z = packet_bytes(p, 0);
    let crc = crc32c(z);
    let b = encode_packet(p);
    let cb = chunks_bytes(p.chunks);
    lemma_chunks_bytes_grow(p.chunks, 1);
    assert(p.chunks.take(1).drop_last() =~= Seq::<ChunkView>::empty());
    assert(chunks_bytes(Seq::<ChunkView>::empty()) == Seq::<u8>::empty());
    assert(chunks_bytes(p.chunks.take(1)).len() >= 4);
    assert(b.len() >= 16);
    let e = Seq::<u8>::empty();
    lemma_be16_in(e, p.source_port, b.subrange(2, b.len() as int));
    assert(e + be16(p.source_port) + b.subrange(2, b.len() as int) =~= b);
    lemma_be16_in(be16(p.source_port), p.dest_port, b.subrange(4, b.len() as int));
    assert(be16(p.source_port) + be16(p.dest_port) + b.subrange(4, b.len() as int) =~= b);
    lemma_be32_in(be16(p.source_port) + be16(p.dest_port), p.verification_tag, b.subrange(8, b.len() as int));
    assert(be16(p.source_port) + be16(p.dest_port) + be32(p.verification_tag) + b.subrange(8, b.len() as int) =~= b);
    lemma_le32_round_trip(crc);
    assert(le32_at(b, 8) == le32_at(le32(crc), 0));
    assert(le32(0) =~= zeros(4));
    assert(b.subrange(0, 8) + zeros(4) + b.subrange(12, b.len() as int) =~= z);
    assert(b.subrange(12, b.len() as int) =~= cb);
    lemma_chunks_round_trip(p.chunks, SCTP_MAX_CHUNKS as nat);
}

} // verus!
