use vstd::prelude::*;

use crate::bytes::push_all;

verus! {

/// Why a read from the datagram queues gave nothing.
#[derive(Copy, Clone, Eq, PartialEq, Debug, Structural)]
pub enum ShimReadError {
    /// No datagram is waiting.
    WouldBlock,
    /// The next datagram was longer than the reader's buffer; it has been dropped.
    IncompletePacketRead,
}

/// The byte stream a TLS library reads and writes, backed by whole UDP datagrams: each
/// read yields exactly one inbound datagram and each write queues exactly one outbound
/// datagram, so record boundaries survive.
pub struct ClientSslPackets {
    incoming_udp: Vec<Vec<u8>>,
    outgoing_udp: Vec<Vec<u8>>,
}

pub ghost struct PacketQueuesView {
    pub incoming: Seq<Seq<u8>>,
    pub outgoing: Seq<Seq<u8>>,
}

pub open spec fn datagrams_view(s: Seq<Vec<u8>>) -> Seq<Seq<u8>> {
    s.map_values(|p: Vec<u8>| p@)
}

impl View for ClientSslPackets {
    type V = PacketQueuesView;

    closed spec fn view(&self) -> PacketQueuesView {
        PacketQueuesView {
            incoming: datagrams_view(self.incoming_udp@),
            outgoing: datagrams_view(self.outgoing_udp@),
        }
    }
}

impl ClientSslPackets {
    pub fn new() -> (r: ClientSslPackets)
        ensures
            r@.incoming == Seq::<Seq<u8>>::empty(),
            r@.outgoing == Seq::<Seq<u8>>::empty(),
    {
        let r = ClientSslPackets { incoming_udp: Vec::new(), outgoing_udp: Vec::new() };
        assert(datagrams_view(r.incoming_udp@) =~= Seq::empty());
        assert(datagrams_view(r.outgoing_udp@) =~= Seq::empty());
        r
    }

    /// Queues a datagram that arrived from the peer.
    pub fn push_incoming(&mut self, datagram: Vec<u8>)
        ensures
            final(self)@ == (PacketQueuesView {
                incoming: old(self)@.incoming.push(datagram@),
                ..old(self)@
            }),
    {
        let ghost before = self.incoming_udp@;
        self.incoming_udp.push(datagram);
        assert(datagrams_view(self.incoming_udp@) =~= datagrams_view(before).push(datagram@));
    }

    /// Takes the oldest inbound datagram for a reader whose buffer holds `buf_len` bytes.
    pub fn read(&mut self, buf_len: usize) -> (r: Result<Vec<u8>, ShimReadError>)
        ensures
            old(self)@.incoming.len() == 0 ==> r == Err::<Vec<u8>, ShimReadError>(
                ShimReadError::WouldBlock,
            ) && final(self)@ == old(self)@,
            old(self)@.incoming.len() > 0 ==> final(self)@ == (PacketQueuesView {
                incoming: old(self)@.incoming.skip(1),
                ..old(self)@
            }),
            old(self)@.incoming.len() > 0 && old(self)@.incoming[0].len() > buf_len ==> r
                == Err::<Vec<u8>, ShimReadError>(ShimReadError::IncompletePacketRead),
            old(self)@.incoming.len() > 0 && old(self)@.incoming[0].len() <= buf_len ==> (r matches Ok(
                d,
            ) && d@ == old(self)@.incoming[0]),
    {
        if self.incoming_udp.len() == 0 {
            return Err(ShimReadError::WouldBlock);
        }
        let ghost before = self.incoming_udp@;
        let next = self.incoming_udp.remove(0);
        assert(datagrams_view(self.incoming_udp@) =~= datagrams_view(before).skip(1));
        if next.len() > buf_len {
            Err(ShimReadError::IncompletePacketRead)
        } else {
            Ok(next)
        }
    }

    /// Queues `bytes` as one outbound datagram; all of it is taken.
    pub fn write(&mut self, bytes: &[u8]) -> (r: usize)
        ensures
            r == bytes@.len(),
            final(self)@ == (PacketQueuesView {
                outgoing: old(self)@.outgoing.push(bytes@),
                ..old(self)@
            }),
    {
        let mut d: Vec<u8> = Vec::new();
        push_all(&mut d, bytes);
        assert(d@ =~= bytes@);
        let ghost before = self.outgoing_udp@;
        self.outgoing_udp.push(d);
        assert(datagrams_view(self.outgoing_udp@) =~= datagrams_view(before).push(bytes@));
        bytes.len()
    }

    /// Yields and clears the outbound datagrams, in the order they were written.
    pub fn take_outgoing(&mut self) -> (r: Vec<Vec<u8>>)
        ensures
            datagrams_view(r@) == old(self)@.outgoing,
            final(self)@ == (PacketQueuesView {
                outgoing: Seq::<Seq<u8>>::empty(),
                ..old(self)@
            }),
    {
        let mut out: Vec<Vec<u8>> = Vec::new();
        std::mem::swap(&mut out, &mut self.outgoing_udp);
        assert(datagrams_view(self.outgoing_udp@) =~= Seq::empty());
        out
    }
}

} // verus!
