//! Frames in the order in which they go out.
//!
//! A [`Transmission`] stands for frames that are still to be sent. The next one is asked for with
//! `Downstreamer::frame` and, once it is on its way, ticked off with `Downstreamer::sent`. If a
//! frame cannot be sent the transmission is dropped, and what was ticked off before stays.
use vstd::prelude::*;

use crate::addr::SocketAddrV4;
use crate::packet::{TcpKind, IPV4_HEADER_SIZE, TCP_HEADER_SIZE, UDP_HEADER_SIZE};

verus! {

/// Represents the MSS of packet sending from local to source, this will become an option in the
/// future.
pub const MSS: usize = 1200;

/// Represents the most bytes of payload of a TCP segment.
pub const MAX_SEGMENT: usize = 1160;

/// Represents the most bytes of an IPv4 packet after its header.
pub const MAX_DATAGRAM: usize = 1180;

/// Represents frames that are still to be sent.
pub enum Transmission {
    /// There are no more frames.
    Complete,
    /// An ARP reply.
    ArpReply,
    /// A TCP segment without payload.
    Control { kind: TcpKind, dst: SocketAddrV4, src_port: u16 },
    /// TCP segments for the bytes of `payload` from `offset` on, where the first byte of `payload`
    /// has the number `sequence`.
    Stream { dst: SocketAddrV4, src_port: u16, sequence: u32, payload: Vec<u8>, offset: usize },
    /// IPv4 packets for a datagram, which is an UDP header and `payload`, of which `sent` tells the
    /// bytes of `payload` in the packets before, if there were any.
    Datagram { dst: SocketAddrV4, src_port: u16, payload: Vec<u8>, sent: Option<usize> },
}

/// The contents of a [`Transmission`].
#[verifier::ext_equal]
pub enum Outgoing {
    Complete,
    ArpReply,
    Control { kind: TcpKind, dst: SocketAddrV4, src_port: u16 },
    Stream { dst: SocketAddrV4, src_port: u16, sequence: u32, payload: Seq<u8>, offset: int },
    Datagram { dst: SocketAddrV4, src_port: u16, payload: Seq<u8>, offset: int },
}

impl View for Transmission {
    type V = Outgoing;

    open spec fn view(&self) -> Outgoing {
        match *self {
            Transmission::Complete => Outgoing::Complete,
            Transmission::ArpReply => Outgoing::ArpReply,
            Transmission::Control { kind, dst, src_port } => Outgoing::Control {
                kind,
                dst,
                src_port,
            },
            Transmission::Stream { dst, src_port, sequence, payload, offset } => Outgoing::Stream {
                dst,
                src_port,
                sequence,
                payload: payload@,
                offset: offset as int,
            },
            Transmission::Datagram { dst, src_port, payload, sent } => Outgoing::Datagram {
                dst,
                src_port,
                payload: payload@,
                offset: match sent {
                    Some(n) => UDP_HEADER_SIZE + n,
                    None => 0,
                },
            },
        }
    }
}

/// The number of bytes of the TCP segment that starts at `offset` of a payload of `len` bytes.
pub open spec fn segment_len(len: int, offset: int) -> int {
    if len - offset < MAX_SEGMENT {
        len - offset
    } else {
        MAX_SEGMENT as int
    }
}

/// Whether what is left of a datagram of `size` bytes from `offset` on goes out in one packet.
pub open spec fn is_last_packet(size: int, offset: int) -> bool {
    size - offset <= MAX_DATAGRAM
}

/// The number of bytes of the IPv4 packet that starts at `offset` of a datagram of `size` bytes:
/// all that is left if it fits, otherwise as many units of 8 bytes as fit, or one unit less if the
/// last packet would be left with less than a unit.
pub open spec fn packet_len(size: int, offset: int) -> int {
    let rest = size - offset;
    if rest <= MAX_DATAGRAM {
        rest
    } else if rest - 1176 < 8 {
        1168
    } else {
        1176
    }
}

impl Outgoing {
    /// Whether `offset` is a place where a segment or a packet starts or the payload ends.
    pub open spec fn wf(self) -> bool {
        match self {
            Outgoing::Stream { payload, offset, .. } => {
                &&& payload.len() <= u32::MAX
                &&& 0 <= offset <= payload.len()
            },
            Outgoing::Datagram { payload, offset, .. } => {
                &&& offset == 0 || UDP_HEADER_SIZE <= offset
                &&& offset <= UDP_HEADER_SIZE + payload.len()
            },
            _ => true,
        }
    }

    /// Whether there are no more frames.
    pub open spec fn is_complete(self) -> bool {
        match self {
            Outgoing::Complete => true,
            Outgoing::ArpReply => false,
            Outgoing::Control { .. } => false,
            Outgoing::Stream { payload, offset, .. } => offset >= payload.len(),
            Outgoing::Datagram { payload, offset, .. } => offset >= UDP_HEADER_SIZE + payload.len(),
        }
    }

    /// The transmission without its next frame.
    pub open spec fn rest(self) -> Outgoing {
        match self {
            Outgoing::Stream { dst, src_port, sequence, payload, offset } => Outgoing::Stream {
                dst,
                src_port,
                sequence,
                payload,
                offset: offset + segment_len(payload.len() as int, offset),
            },
            Outgoing::Datagram { dst, src_port, payload, offset } => Outgoing::Datagram {
                dst,
                src_port,
                payload,
                offset: offset + packet_len((UDP_HEADER_SIZE + payload.len()) as int, offset),
            },
            _ => Outgoing::Complete,
        }
    }

    /// An upper bound on the number of frames.
    pub open spec fn left(self) -> nat {
        match self {
            Outgoing::Complete => 0,
            Outgoing::ArpReply => 1,
            Outgoing::Control { .. } => 1,
            Outgoing::Stream { payload, offset, .. } => if offset < payload.len() {
                (payload.len() - offset) as nat
            } else {
                0
            },
            Outgoing::Datagram { payload, offset, .. } => if offset < UDP_HEADER_SIZE
                + payload.len() {
                (UDP_HEADER_SIZE + payload.len() - offset) as nat
            } else {
                0
            },
        }
    }
}

impl Transmission {
    /// Returns the number of bytes of the TCP segment that starts at `offset` of a payload of
    /// `len` bytes.
    pub(crate) fn get_segment_len(len: usize, offset: usize) -> (result: usize)
        requires
            offset <= len,
        ensures
            result == segment_len(len as int, offset as int),
    {
        let max_payload_size: usize = MSS - (IPV4_HEADER_SIZE + TCP_HEADER_SIZE);
        if len - offset < max_payload_size {
            len - offset
        } else {
            max_payload_size
        }
    }

    /// Returns the number of bytes of payload in the next IPv4 packet of a datagram with `left`
    /// bytes of payload to go, where the first packet also takes the UDP header, and if that packet
    /// is the last one.
    pub(crate) fn get_packet_len(left: usize, is_first: bool) -> (result: (usize, bool))
        ensures
            ({
                let header: int = if is_first {
                    UDP_HEADER_SIZE as int
                } else {
                    0
                };
                &&& result.0 + header == packet_len(header + left, 0)
                &&& result.1 == is_last_packet(header + left, 0)
            }),
    {
        let header: usize = if is_first {
            UDP_HEADER_SIZE
        } else {
            0
        };
        let max_packet_size: usize = MSS - IPV4_HEADER_SIZE;
        if left <= max_packet_size - header {
            return (left, true);
        }

        // Alignment
        let mut length: usize = max_packet_size / 8 * 8 - header;

        // Leave at least 8 Bytes for last fragment
        if left - length < 8 {
            length = length - 8;
        }
        (length, false)
    }
}

/// A transmission is seen as it is, with bytes as sequences and the place in a datagram counted
/// from its UDP header on.
pub proof fn law_transmission_is_seen_as_it_is(transmission: Transmission)
    ensures
        transmission is Complete <==> transmission@ is Complete,
        transmission is ArpReply <==> transmission@ is ArpReply,
        transmission matches Transmission::Control { kind, dst, src_port } ==> transmission@
            == (Outgoing::Control { kind, dst, src_port }),
        transmission matches Transmission::Stream {
            dst,
            src_port,
            sequence,
            payload,
            offset,
        } ==> (transmission@ matches Outgoing::Stream {
            dst: d,
            src_port: s,
            sequence: n,
            payload: p,
            offset: o,
        } && d == dst && s == src_port && n == sequence && p == payload@ && o == offset),
        transmission matches Transmission::Datagram { dst, src_port, payload, sent } ==> (
        transmission@ matches Outgoing::Datagram { dst: d, src_port: s, payload: p, offset: o } && d
            == dst && s == src_port && p == payload@ && o == (match sent {
            Some(n) => 8 + n,
            None => 0,
        })),
{
}

} // verus!
