//! What holds of the traffic to the source as a whole.
use vstd::prelude::*;

#[allow(unused_imports)]
use crate::addr::{flow, HardwareAddr, Ipv4Addr, SocketAddrV4};
#[allow(unused_imports)]
use crate::cacher::{Buffered, CacheError};
#[allow(unused_imports)]
use crate::downstream::{tcp_layer, value_or, DownstreamState, Downstreamer};
#[allow(unused_imports)]
use crate::packet::{
    Frame, FrameView, Ipv4, LayerType, Network, TcpKind, Transport, IPV4_HEADER_SIZE,
    UDP_HEADER_SIZE,
};
#[allow(unused_imports)]
use crate::sequence::{
    advanced, gap, law_advance_adds_up, law_gap_undoes_advance, MAX_U32_WINDOW_SIZE,
};
#[allow(unused_imports)]
use crate::transmission::{
    is_last_packet, packet_len, segment_len, Outgoing, Transmission, MAX_SEGMENT, MSS,
};

verus! {

/// The frames of a transmission, if all of them can be sent.
pub open spec fn frames(state: DownstreamState, outgoing: Outgoing) -> Seq<FrameView>
    decreases outgoing.left(),
{
    if !outgoing.wf() || outgoing.is_complete() {
        Seq::empty()
    } else {
        seq![state.next_frame(outgoing)] + frames(state.after(outgoing), outgoing.rest())
    }
}

/// The state after all frames of a transmission were sent.
pub open spec fn settled(state: DownstreamState, outgoing: Outgoing) -> DownstreamState
    decreases outgoing.left(),
{
    if !outgoing.wf() || outgoing.is_complete() {
        state
    } else {
        settled(state.after(outgoing), outgoing.rest())
    }
}

/// The state after the first `k` frames of a transmission were sent and the next one was not.
pub open spec fn stopped(state: DownstreamState, outgoing: Outgoing, k: nat) -> DownstreamState
    decreases k,
{
    if k == 0 || !outgoing.wf() || outgoing.is_complete() {
        state
    } else {
        stopped(state.after(outgoing), outgoing.rest(), (k - 1) as nat)
    }
}

/// The payload of a frame.
pub open spec fn payload_of(frame: FrameView) -> Seq<u8> {
    match frame.payload {
        Some(payload) => payload,
        None => Seq::empty(),
    }
}

/// The payload of `frames`, one after another.
pub open spec fn carried(frames: Seq<FrameView>) -> Seq<u8>
    decreases frames.len(),
{
    if frames.len() == 0 {
        Seq::empty()
    } else {
        payload_of(frames[0]) + carried(frames.skip(1))
    }
}

/// The IPv4 layer of a frame.
pub open spec fn ipv4_of(frame: FrameView) -> Ipv4 {
    match frame.indicator.network {
        Some(Network::Ipv4(ipv4)) => ipv4,
        _ => arbitrary(),
    }
}

/// The number of bytes of an IPv4 packet after its header.
pub open spec fn ipv4_content_len(frame: FrameView) -> int {
    payload_of(frame).len() + (match frame.indicator.transport {
        Some(Transport::Tcp(tcp)) => tcp.header_size as int,
        Some(Transport::Udp(_)) => UDP_HEADER_SIZE as int,
        None => 0,
    })
}

/// The identification that is `n` packets after `identification`.
pub open spec fn identification_after(identification: u16, n: int) -> u16 {
    ((identification + n) % 0x1_0000) as u16
}

/// The segments of a TCP transmission, one after another, carry what is left of its payload.
pub proof fn law_segments_carry_payload(
    state: DownstreamState,
    dst: SocketAddrV4,
    src_port: u16,
    sequence: u32,
    payload: Seq<u8>,
    offset: int,
)
    requires
        (Outgoing::Stream { dst, src_port, sequence, payload, offset }).wf(),
    ensures
        carried(frames(state, Outgoing::Stream { dst, src_port, sequence, payload, offset }))
            == payload.skip(offset),
    decreases payload.len() - offset,
{
    let outgoing = Outgoing::Stream { dst, src_port, sequence, payload, offset };
    if offset < payload.len() {
        let next = offset + segment_len(payload.len() as int, offset);
        law_segments_carry_payload(state.after(outgoing), dst, src_port, sequence, payload, next);
        let all = frames(state, outgoing);
        assert(all.skip(1) =~= frames(state.after(outgoing), outgoing.rest()));
    }
}

/// The segments of a TCP transmission fit in the MSS, are not empty, are numbered one after
/// another, and acknowledge and announce what the connection did at the start.
pub proof fn law_segments_are_consecutive(
    state: DownstreamState,
    dst: SocketAddrV4,
    src_port: u16,
    sequence: u32,
    payload: Seq<u8>,
    offset: int,
    i: int,
)
    requires
        (Outgoing::Stream { dst, src_port, sequence, payload, offset }).wf(),
        0 <= i < frames(
            state,
            Outgoing::Stream { dst, src_port, sequence, payload, offset },
        ).len(),
    ensures
        ({
            let frame = frames(
                state,
                Outgoing::Stream { dst, src_port, sequence, payload, offset },
            )[i];
            let start = offset + i * MAX_SEGMENT;
            let key = flow(src_port, dst);
            &&& start < payload.len()
            &&& payload_of(frame) == payload.subrange(
                start,
                start + segment_len(payload.len() as int, start),
            )
            &&& frame.indicator.transport == Some(
                Transport::Tcp(
                    tcp_layer(
                        TcpKind::Ack,
                        dst,
                        state.src_ip_addr,
                        src_port,
                        advanced(sequence, start),
                        state.acknowledgement(key),
                        state.window(key),
                    ),
                ),
            )
            &&& 0 < payload_of(frame).len()
            &&& IPV4_HEADER_SIZE + ipv4_content_len(frame) <= MSS
            &&& ipv4_of(frame).identification == identification_after(
                state.identification(dst.ip),
                i,
            )
            &&& !ipv4_of(frame).fragmented()
        }),
    decreases payload.len() - offset,
{
    let outgoing = Outgoing::Stream { dst, src_port, sequence, payload, offset };
    let after = state.after(outgoing);
    if i > 0 {
        let next = offset + segment_len(payload.len() as int, offset);
        law_segments_are_consecutive(after, dst, src_port, sequence, payload, next, i - 1);
    }
}

/// A TCP transmission leaves all but the identification of its packets and the sequence number of
/// its connection as it was, and each packet takes one identification.
pub proof fn law_segments_settle(
    state: DownstreamState,
    dst: SocketAddrV4,
    src_port: u16,
    sequence: u32,
    payload: Seq<u8>,
    offset: int,
)
    requires
        (Outgoing::Stream { dst, src_port, sequence, payload, offset }).wf(),
    ensures
        ({
            let outgoing = Outgoing::Stream { dst, src_port, sequence, payload, offset };
            let after = settled(state, outgoing);
            let key = flow(src_port, dst);
            &&& after == DownstreamState {
                identifications: after.identifications,
                sequences: after.sequences,
                ..state
            }
            &&& after.identification(dst.ip) == identification_after(
                state.identification(dst.ip),
                frames(state, outgoing).len() as int,
            )
            &&& forall|ip: Ipv4Addr|
                ip != dst.ip ==> #[trigger] after.identification(ip) == state.identification(ip)
            &&& forall|other: u64|
                other != key ==> #[trigger] after.sequence(other) == state.sequence(other)
        }),
    decreases payload.len() - offset,
{
    let outgoing = Outgoing::Stream { dst, src_port, sequence, payload, offset };
    if offset < payload.len() {
        let next = offset + segment_len(payload.len() as int, offset);
        law_segments_settle(state.after(outgoing), dst, src_port, sequence, payload, next);
    }
}

/// A TCP transmission that starts at the recorded sequence number of its connection moves that
/// number past its last byte.
pub proof fn law_segments_move_sequence(
    state: DownstreamState,
    dst: SocketAddrV4,
    src_port: u16,
    sequence: u32,
    payload: Seq<u8>,
    offset: int,
)
    requires
        (Outgoing::Stream { dst, src_port, sequence, payload, offset }).wf(),
        state.sequence(flow(src_port, dst)) == advanced(sequence, offset),
    ensures
        settled(
            state,
            Outgoing::Stream { dst, src_port, sequence, payload, offset },
        ).sequence(flow(src_port, dst)) == advanced(sequence, payload.len() as int),
    decreases payload.len() - offset,
{
    let outgoing = Outgoing::Stream { dst, src_port, sequence, payload, offset };
    if offset < payload.len() {
        let len = segment_len(payload.len() as int, offset);
        law_advance_adds_up(sequence, offset, len);
        law_gap_undoes_advance(advanced(sequence, offset), len);
        law_segments_move_sequence(
            state.after(outgoing),
            dst,
            src_port,
            sequence,
            payload,
            offset + len,
        );
    }
}

/// A TCP transmission has as many segments as it takes to carry what is left of its payload, so
/// none for an empty one.
pub proof fn law_segments_are_as_few_as_can_be(
    state: DownstreamState,
    dst: SocketAddrV4,
    src_port: u16,
    sequence: u32,
    payload: Seq<u8>,
    offset: int,
)
    requires
        (Outgoing::Stream { dst, src_port, sequence, payload, offset }).wf(),
    ensures
        frames(state, Outgoing::Stream { dst, src_port, sequence, payload, offset }).len() == (
        payload.len() - offset + MAX_SEGMENT - 1) / (MAX_SEGMENT as int),
    decreases payload.len() - offset,
{
    let outgoing = Outgoing::Stream { dst, src_port, sequence, payload, offset };
    if offset < payload.len() {
        let next = offset + segment_len(payload.len() as int, offset);
        law_segments_are_as_few_as_can_be(
            state.after(outgoing),
            dst,
            src_port,
            sequence,
            payload,
            next,
        );
    }
}

/// A TCP transmission that stops after `k` segments has taken `k` identifications and leaves all
/// else but the sequence number of its connection as it was, among it both caches. If it started at
/// the recorded sequence number, that number has moved past the last byte of the `k` segments.
pub proof fn law_stopped_segments_move_by_segment(
    state: DownstreamState,
    dst: SocketAddrV4,
    src_port: u16,
    sequence: u32,
    payload: Seq<u8>,
    offset: int,
    k: nat,
)
    requires
        (Outgoing::Stream { dst, src_port, sequence, payload, offset }).wf(),
        k <= frames(
            state,
            Outgoing::Stream { dst, src_port, sequence, payload, offset },
        ).len(),
    ensures
        ({
            let outgoing = Outgoing::Stream { dst, src_port, sequence, payload, offset };
            let after = stopped(state, outgoing, k);
            let key = flow(src_port, dst);
            let end = offset + k * MAX_SEGMENT;
            &&& after == DownstreamState {
                identifications: after.identifications,
                sequences: after.sequences,
                ..state
            }
            &&& after.identification(dst.ip) == identification_after(
                state.identification(dst.ip),
                k as int,
            )
            &&& forall|ip: Ipv4Addr|
                ip != dst.ip ==> #[trigger] after.identification(ip) == state.identification(ip)
            &&& forall|other: u64|
                other != key ==> #[trigger] after.sequence(other) == state.sequence(other)
            &&& state.sequence(key) == advanced(sequence, offset) ==> after.sequence(key)
                == advanced(
                sequence,
                if end < payload.len() {
                    end
                } else {
                    payload.len() as int
                },
            )
        }),
    decreases k,
{
    let outgoing = Outgoing::Stream { dst, src_port, sequence, payload, offset };
    if k > 0 {
        let len = segment_len(payload.len() as int, offset);
        law_advance_adds_up(sequence, offset, len);
        law_gap_undoes_advance(advanced(sequence, offset), len);
        law_stopped_segments_move_by_segment(
            state.after(outgoing),
            dst,
            src_port,
            sequence,
            payload,
            offset + len,
            (k - 1) as nat,
        );
    }
}

/// Sending bytes again that lie before the recorded sequence number of a connection, at most
/// `u32::MAX - 262144` bytes back, leaves that number as it was, wherever the transmission stops.
pub proof fn law_resent_segments_keep_sequence(
    state: DownstreamState,
    dst: SocketAddrV4,
    src_port: u16,
    sequence: u32,
    payload: Seq<u8>,
    offset: int,
    k: nat,
)
    requires
        (Outgoing::Stream { dst, src_port, sequence, payload, offset }).wf(),
        payload.len() <= gap(sequence, state.sequence(flow(src_port, dst))) <= u32::MAX
            - MAX_U32_WINDOW_SIZE,
    ensures
        ({
            let outgoing = Outgoing::Stream { dst, src_port, sequence, payload, offset };
            let key = flow(src_port, dst);
            &&& stopped(state, outgoing, k).sequence(key) == state.sequence(key)
            &&& settled(state, outgoing).sequence(key) == state.sequence(key)
        }),
    decreases payload.len() - offset,
{
    let outgoing = Outgoing::Stream { dst, src_port, sequence, payload, offset };
    if offset < payload.len() {
        let len = segment_len(payload.len() as int, offset);
        law_advance_adds_up(sequence, offset, len);
        law_resent_segments_keep_sequence(
            state.after(outgoing),
            dst,
            src_port,
            sequence,
            payload,
            offset + len,
            if k > 0 {
                (k - 1) as nat
            } else {
                0
            },
        );
    }
}

/// The number of bytes of the datagram in the packets before the one with the index `i`.
pub open spec fn content_before(frames: Seq<FrameView>, i: int) -> int
    decreases i,
{
    if i <= 0 {
        0
    } else {
        content_before(frames, i - 1) + ipv4_content_len(frames[i - 1])
    }
}

proof fn lemma_content_before_tail(frames: Seq<FrameView>, i: int)
    requires
        0 < i <= frames.len(),
    ensures
        content_before(frames, i) == ipv4_content_len(frames[0]) + content_before(
            frames.skip(1),
            i - 1,
        ),
    decreases i,
{
    reveal_with_fuel(content_before, 2);
    if i > 1 {
        lemma_content_before_tail(frames, i - 1);
    }
}

proof fn lemma_packets_carry_payload(
    state: DownstreamState,
    dst: SocketAddrV4,
    src_port: u16,
    payload: Seq<u8>,
    offset: int,
)
    requires
        (Outgoing::Datagram { dst, src_port, payload, offset }).wf(),
    ensures
        carried(frames(state, Outgoing::Datagram { dst, src_port, payload, offset }))
            == payload.skip(
            if offset == 0 {
                0
            } else {
                offset - UDP_HEADER_SIZE
            },
        ),
    decreases UDP_HEADER_SIZE + payload.len() - offset,
{
    let outgoing = Outgoing::Datagram { dst, src_port, payload, offset };
    let size = UDP_HEADER_SIZE + payload.len();
    let start = if offset == 0 {
        0
    } else {
        offset - UDP_HEADER_SIZE
    };
    if offset < size {
        let next = offset + packet_len(size, offset);
        lemma_packets_carry_payload(state.after(outgoing), dst, src_port, payload, next);
        let all = frames(state, outgoing);
        assert(all.skip(1) =~= frames(state.after(outgoing), outgoing.rest()));
        assert(payload.skip(start) =~= payload.subrange(start, next - UDP_HEADER_SIZE)
            + payload.skip(next - UDP_HEADER_SIZE));
    }
}

/// The packets of a datagram, one after another, carry its payload.
pub proof fn law_packets_carry_payload(
    state: DownstreamState,
    dst: SocketAddrV4,
    src_port: u16,
    payload: Seq<u8>,
)
    ensures
        carried(frames(state, Outgoing::Datagram { dst, src_port, payload, offset: 0 })) == payload,
{
    lemma_packets_carry_payload(state, dst, src_port, payload, 0);
}

/// What holds of the packet with the index `i` among the `packets` of a datagram from `offset` on.
pub open spec fn is_proper_packet(
    state: DownstreamState,
    dst: SocketAddrV4,
    packets: Seq<FrameView>,
    offset: int,
    i: int,
) -> bool {
    let frame = packets[i];
    let start = offset + content_before(packets, i);
    let is_last = i == packets.len() - 1;
    // Packets of one datagram share an identification
    &&& ipv4_of(frame).identification == state.identification(
        dst.ip,
    )
    // They fit in the MSS
    &&& 0 < ipv4_content_len(frame)
    &&& IPV4_HEADER_SIZE + ipv4_content_len(frame)
        <= MSS
    // Each tells its place in the datagram, and all but the last that there are more
    &&& start % 8 == 0
    &&& ipv4_of(frame).fragment_offset == start / 8 % 0x1_0000
    &&& ipv4_of(frame).more_fragments == !is_last
    &&& is_last || ipv4_content_len(frame) % 8
        == 0
    // The last one has at least 8 bytes
    &&& 8 <= ipv4_content_len(
        frame,
    )
    // Only the first one has the UDP header
    &&& frame.indicator.transport is Some <==> start == 0
}

proof fn lemma_packets_are_proper(
    state: DownstreamState,
    dst: SocketAddrV4,
    src_port: u16,
    payload: Seq<u8>,
    offset: int,
    i: int,
)
    requires
        (Outgoing::Datagram { dst, src_port, payload, offset }).wf(),
        offset % 8 == 0,
        UDP_HEADER_SIZE + payload.len() - offset >= 8,
        0 <= i < frames(state, Outgoing::Datagram { dst, src_port, payload, offset }).len(),
    ensures
        is_proper_packet(
            state,
            dst,
            frames(state, Outgoing::Datagram { dst, src_port, payload, offset }),
            offset,
            i,
        ),
    decreases UDP_HEADER_SIZE + payload.len() - offset,
{
    let outgoing = Outgoing::Datagram { dst, src_port, payload, offset };
    let size = UDP_HEADER_SIZE + payload.len();
    let packets = frames(state, outgoing);
    let after = state.after(outgoing);
    let next = offset + packet_len(size, offset);
    let rest = frames(after, outgoing.rest());
    assert(packets.skip(1) =~= rest);
    if !is_last_packet(size, offset) && i > 0 {
        lemma_packets_are_proper(after, dst, src_port, payload, next, i - 1);
        lemma_content_before_tail(packets, i);
    }
}

/// The packets of a datagram share an identification, fit in the MSS, tell their place in the
/// datagram, and are cut at multiples of 8 bytes with at least 8 bytes left for the last one.
pub proof fn law_packets_are_proper(
    state: DownstreamState,
    dst: SocketAddrV4,
    src_port: u16,
    payload: Seq<u8>,
    i: int,
)
    requires
        0 <= i < frames(state, Outgoing::Datagram { dst, src_port, payload, offset: 0 }).len(),
    ensures
        is_proper_packet(
            state,
            dst,
            frames(state, Outgoing::Datagram { dst, src_port, payload, offset: 0 }),
            0,
            i,
        ),
{
    lemma_packets_are_proper(state, dst, src_port, payload, 0, i);
}

/// A datagram leaves all but the identification of its address as it was, and takes one
/// identification, whatever the number of its packets.
pub proof fn law_packets_settle(
    state: DownstreamState,
    dst: SocketAddrV4,
    src_port: u16,
    payload: Seq<u8>,
    offset: int,
)
    requires
        (Outgoing::Datagram { dst, src_port, payload, offset }).wf(),
        offset < UDP_HEADER_SIZE + payload.len(),
    ensures
        settled(state, Outgoing::Datagram { dst, src_port, payload, offset }) == state.identified(
            dst.ip,
        ),
    decreases UDP_HEADER_SIZE + payload.len() - offset,
{
    let outgoing = Outgoing::Datagram { dst, src_port, payload, offset };
    let size = UDP_HEADER_SIZE + payload.len();
    let next = offset + packet_len(size, offset);
    if is_last_packet(size, offset) {
        assert(settled(state.after(outgoing), outgoing.rest()) == state.after(outgoing));
    } else {
        law_packets_settle(state.after(outgoing), dst, src_port, payload, next);
    }
}

/// A datagram that stops before its last packet leaves the state as it was.
pub proof fn law_stopped_packets_change_nothing(
    state: DownstreamState,
    dst: SocketAddrV4,
    src_port: u16,
    payload: Seq<u8>,
    offset: int,
    k: nat,
)
    requires
        (Outgoing::Datagram { dst, src_port, payload, offset }).wf(),
        k < frames(state, Outgoing::Datagram { dst, src_port, payload, offset }).len(),
    ensures
        stopped(state, Outgoing::Datagram { dst, src_port, payload, offset }, k) == state,
    decreases k,
{
    let outgoing = Outgoing::Datagram { dst, src_port, payload, offset };
    let size = UDP_HEADER_SIZE + payload.len();
    if k > 0 {
        if is_last_packet(size, offset) {
            assert(frames(state.after(outgoing), outgoing.rest()).len() == 0);
        }
        law_stopped_packets_change_nothing(
            state.after(outgoing),
            dst,
            src_port,
            payload,
            offset + packet_len(size, offset),
            (k - 1) as nat,
        );
    }
}

/// All packets of a datagram carry the identification of its address. The identification moves on
/// by one when the last packet was sent, and stays if the datagram stops before that. The other
/// identifications and all that is related to connections stay in either case.
pub proof fn law_datagram_takes_one_identification(
    state: DownstreamState,
    dst: SocketAddrV4,
    src_port: u16,
    payload: Seq<u8>,
    k: nat,
)
    ensures
        ({
            let outgoing = Outgoing::Datagram { dst, src_port, payload, offset: 0 };
            let packets = frames(state, outgoing);
            let after = settled(state, outgoing);
            &&& packets.len() > 0
            &&& forall|i: int|
                0 <= i < packets.len() ==> ipv4_of(#[trigger] packets[i]).identification
                    == state.identification(dst.ip)
            &&& after.identification(dst.ip) == identification_after(
                state.identification(dst.ip),
                1,
            )
            &&& forall|ip: Ipv4Addr|
                ip != dst.ip ==> #[trigger] after.identification(ip) == state.identification(ip)
            &&& after == DownstreamState { identifications: after.identifications, ..state }
            &&& k < packets.len() ==> stopped(state, outgoing, k) == state
            &&& k >= packets.len() ==> stopped(state, outgoing, k) == after
        }),
{
    let outgoing = Outgoing::Datagram { dst, src_port, payload, offset: 0 };
    let packets = frames(state, outgoing);
    assert forall|i: int| 0 <= i < packets.len() implies ipv4_of(
        #[trigger] packets[i],
    ).identification == state.identification(dst.ip) by {
        law_packets_are_proper(state, dst, src_port, payload, i);
    }
    law_packets_settle(state, dst, src_port, payload, 0);
    if k < packets.len() {
        law_stopped_packets_change_nothing(state, dst, src_port, payload, 0, k);
    } else {
        law_unstopped_transmission_settles(state, outgoing, k);
    }
}

/// A transmission that does not stop before its last frame is complete.
pub proof fn law_unstopped_transmission_settles(state: DownstreamState, outgoing: Outgoing, k: nat)
    requires
        k >= frames(state, outgoing).len(),
    ensures
        stopped(state, outgoing, k) == settled(state, outgoing),
    decreases k,
{
    if outgoing.wf() && !outgoing.is_complete() {
        law_unstopped_transmission_settles(state.after(outgoing), outgoing.rest(), (k - 1) as nat);
    }
}

/// Counting unsent bytes as sent loses none of them and keeps their order.
pub proof fn law_flush_keeps_bytes(state: DownstreamState, key: u64)
    requires
        state.unsent.contains_key(key),
    ensures
        ({
            let sent = value_or(
                state.sent,
                key,
                Buffered::fixed(state.unsent[key].sequence),
            ).bytes;
            let after = state.flushed(key);
            let sent_after = value_or(
                after.sent,
                key,
                Buffered::fixed(after.unsent[key].sequence),
            ).bytes;
            sent_after + after.unsent[key].bytes == sent + state.unsent[key].bytes
        }),
{
}

/// What happens to the bytes of a connection on their way to the source.
pub enum Act {
    /// Bytes are queued.
    Queue(Seq<u8>),
    /// The source acknowledges the bytes before a number.
    Acknowledge(u32),
    /// The source announces its window.
    Announce(u16),
}

/// The state after an act, before remaining data is sent.
pub open spec fn acted(state: DownstreamState, key: u64, act: Act) -> DownstreamState {
    match act {
        Act::Queue(payload) => state.queued(key, payload),
        Act::Acknowledge(sequence) => state.invalidated(key, sequence),
        Act::Announce(window) => DownstreamState {
            send_windows: state.send_windows.insert(key, window),
            ..state
        },
    }
}

/// The state after acts that were each followed by sending remaining data, and the bytes that were
/// handed out for sending, one after another.
pub open spec fn history(
    state: DownstreamState,
    dst: SocketAddrV4,
    src_port: u16,
    acts: Seq<Act>,
) -> (DownstreamState, Seq<u8>)
    decreases acts.len(),
{
    if acts.len() == 0 {
        (state, Seq::empty())
    } else {
        let key = flow(src_port, dst);
        let (before, bytes) = history(state, dst, src_port, acts.drop_last());
        let ready = acted(before, key, acts.last());
        let handed = match ready.flush(dst, src_port) {
            Outgoing::Stream { payload, .. } => payload,
            _ => Seq::empty(),
        };
        (ready.flushed(key), bytes + handed)
    }
}

/// The bytes that acts queue, one after another.
pub open spec fn queued_bytes(acts: Seq<Act>) -> Seq<u8>
    decreases acts.len(),
{
    if acts.len() == 0 {
        Seq::empty()
    } else {
        queued_bytes(acts.drop_last()) + (match acts.last() {
            Act::Queue(payload) => payload,
            _ => Seq::empty(),
        })
    }
}

/// The bytes of a connection that were not sent.
pub open spec fn unsent_bytes(state: DownstreamState, key: u64) -> Seq<u8> {
    if state.unsent.contains_key(key) {
        state.unsent[key].bytes
    } else {
        Seq::empty()
    }
}

/// Whatever the source acknowledges and announces, the bytes that are queued for it are handed out
/// in their order, each once, and what is not handed out waits.
pub proof fn law_queued_bytes_are_handed_out_in_order(
    state: DownstreamState,
    dst: SocketAddrV4,
    src_port: u16,
    acts: Seq<Act>,
)
    ensures
        ({
            let key = flow(src_port, dst);
            let (after, handed) = history(state, dst, src_port, acts);
            handed + unsent_bytes(after, key) == unsent_bytes(state, key) + queued_bytes(acts)
        }),
    decreases acts.len(),
{
    let key = flow(src_port, dst);
    if acts.len() > 0 {
        law_queued_bytes_are_handed_out_in_order(state, dst, src_port, acts.drop_last());
        let (before, bytes) = history(state, dst, src_port, acts.drop_last());
        let ready = acted(before, key, acts.last());
        let added = match acts.last() {
            Act::Queue(payload) => payload,
            _ => Seq::empty(),
        };
        assert(unsent_bytes(ready, key) =~= unsent_bytes(before, key) + added);
        let handed = match ready.flush(dst, src_port) {
            Outgoing::Stream { payload, .. } => payload,
            _ => Seq::empty(),
        };
        assert(handed + unsent_bytes(ready.flushed(key), key) =~= unsent_bytes(ready, key));
        assert((bytes + handed) + unsent_bytes(ready.flushed(key), key) =~= (bytes + unsent_bytes(
            before,
            key,
        )) + added);
        assert((unsent_bytes(state, key) + queued_bytes(acts.drop_last())) + added
            =~= unsent_bytes(state, key) + queued_bytes(acts));
    }
}

/// The bytes that wait for their acknowledgement never outgrow the send window by sending, and if
/// bytes stay unsent then the send window is used up.
pub proof fn law_flush_obeys_send_window(state: DownstreamState, key: u64)
    requires
        state.wf(),
    ensures
        state.flushed(key).wf(),
        state.flushed(key).sent_len(key) <= state.send_window(key) || state.flushed(key).sent_len(
            key,
        ) == state.sent_len(key),
        state.flushed(key).unsent_len(key) > 0 ==> state.flushed(key).sent_len(key)
            >= state.send_window(key),
{
}

/// Whether the unsent bytes of a connection are numbered right after the ones that were sent.
pub open spec fn is_contiguous(state: DownstreamState, key: u64) -> bool {
    state.sent.contains_key(key) && state.unsent.contains_key(key) ==> advanced(
        state.sent[key].sequence,
        state.sent[key].bytes.len() as int,
    ) == state.unsent[key].sequence
}

/// Sending keeps the numbers of sent and unsent bytes contiguous.
pub proof fn law_flush_keeps_contiguity(state: DownstreamState, key: u64)
    requires
        state.wf(),
        is_contiguous(state, key),
    ensures
        is_contiguous(state.flushed(key), key),
        is_opened(state, key) ==> is_opened(state.flushed(key), key),
{
    if state.unsent.contains_key(key) && state.send_window(key) > 0 {
        let unsent = state.unsent[key];
        let sent = value_or(state.sent, key, Buffered::fixed(unsent.sequence));
        let n = state.sendable(key);
        law_advance_adds_up(sent.sequence, sent.bytes.len() as int, n);
    }
}

/// Whether a connection with bytes that were sent has a cache for unsent bytes.
pub open spec fn is_opened(state: DownstreamState, key: u64) -> bool {
    state.sent.contains_key(key) ==> state.unsent.contains_key(key)
}

/// Bytes that are queued are numbered right after the ones before them.
pub proof fn law_queue_keeps_contiguity(state: DownstreamState, key: u64, payload: Seq<u8>)
    requires
        is_opened(state, key),
        is_contiguous(state, key),
    ensures
        is_opened(state.queued(key, payload), key),
        is_contiguous(state.queued(key, payload), key),
{
}

/// An acknowledgement of bytes that were sent keeps the numbers of sent and unsent bytes
/// contiguous.
pub proof fn law_acknowledgement_keeps_contiguity(state: DownstreamState, key: u64, n: int)
    requires
        state.wf(),
        is_opened(state, key),
        is_contiguous(state, key),
        state.sent.contains_key(key),
        0 <= n <= state.sent_len(key),
    ensures
        ({
            let after = state.invalidated(key, advanced(state.sent[key].sequence, n));
            &&& is_opened(after, key)
            &&& is_contiguous(after, key)
            &&& after.sent[key].bytes == state.sent[key].bytes.skip(n)
        }),
{
    let sent = state.sent[key];
    law_gap_undoes_advance(sent.sequence, n);
    law_advance_adds_up(sent.sequence, n, sent.bytes.len() - n);
}

/// Acknowledging the first `n` bytes that were sent keeps the rest, numbered as before, so that
/// they are what a retransmission sends.
pub proof fn law_acknowledged_bytes_are_not_resent(
    state: DownstreamState,
    dst: SocketAddrV4,
    src_port: u16,
    n: int,
)
    requires
        state.wf(),
        state.sent.contains_key(flow(src_port, dst)),
        0 <= n < state.sent_len(flow(src_port, dst)),
    ensures
        ({
            let key = flow(src_port, dst);
            let sent = state.sent[key];
            let sequence = advanced(sent.sequence, n);
            state.invalidated(key, sequence).retransmission(dst, src_port) == Outgoing::Stream {
                dst,
                src_port,
                sequence,
                payload: sent.bytes.skip(n),
                offset: 0,
            }
        }),
{
    let key = flow(src_port, dst);
    law_gap_undoes_advance(state.sent[key].sequence, n);
}

/// A connection has nothing to resend once all bytes that were sent are acknowledged.
pub proof fn law_all_acknowledged(state: DownstreamState, dst: SocketAddrV4, src_port: u16)
    requires
        state.wf(),
        state.sent.contains_key(flow(src_port, dst)),
    ensures
        ({
            let key = flow(src_port, dst);
            let sent = state.sent[key];
            let sequence = advanced(sent.sequence, sent.bytes.len() as int);
            state.invalidated(key, sequence).retransmission(dst, src_port) == Outgoing::Complete
        }),
{
    let key = flow(src_port, dst);
    law_gap_undoes_advance(state.sent[key].sequence, state.sent[key].bytes.len() as int);
}

/// Whether two states agree on all that is related to a connection.
pub open spec fn agree_on(a: DownstreamState, b: DownstreamState, key: u64) -> bool {
    &&& a.send_window(key) == b.send_window(key)
    &&& a.sequence(key) == b.sequence(key)
    &&& a.acknowledgement(key) == b.acknowledgement(key)
    &&& a.window(key) == b.window(key)
    &&& a.sent.contains_key(key) == b.sent.contains_key(key)
    &&& a.sent.contains_key(key) ==> a.sent[key] == b.sent[key]
    &&& a.unsent.contains_key(key) == b.unsent.contains_key(key)
    &&& a.unsent.contains_key(key) ==> a.unsent[key] == b.unsent[key]
}

/// What is done for one connection leaves the others as they were.
pub proof fn law_connections_are_independent(
    state: DownstreamState,
    key: u64,
    other: u64,
    payload: Seq<u8>,
    sequence: u32,
)
    requires
        key != other,
    ensures
        agree_on(state.removed(key), state, other),
        agree_on(state.invalidated(key, sequence), state, other),
        agree_on(state.opened(key), state, other),
        agree_on(state.queued(key, payload), state, other),
        agree_on(state.flushed(key), state, other),
        agree_on(state.recorded(key, sequence), state, other),
{
}

/// What is sent for one connection leaves the others as they were, wherever the transmission stops,
/// and so do ARP replies and datagrams.
pub proof fn law_transmissions_are_independent(
    state: DownstreamState,
    outgoing: Outgoing,
    other: u64,
    k: nat,
)
    requires
        match outgoing {
            Outgoing::Control { dst, src_port, .. } => flow(src_port, dst) != other,
            Outgoing::Stream { dst, src_port, .. } => flow(src_port, dst) != other,
            _ => true,
        },
    ensures
        agree_on(stopped(state, outgoing, k), state, other),
        agree_on(settled(state, outgoing), state, other),
    decreases outgoing.left(),
{
    if outgoing.wf() && !outgoing.is_complete() {
        law_transmissions_are_independent(
            state.after(outgoing),
            outgoing.rest(),
            other,
            if k > 0 {
                (k - 1) as nat
            } else {
                0
            },
        );
    }
}

/// A removed connection is like one that never was.
pub proof fn law_removed_is_forgotten(state: DownstreamState, dst: SocketAddrV4, src_port: u16)
    ensures
        ({
            let key = flow(src_port, dst);
            let after = state.removed(key);
            &&& after.sequence(key) == 0
            &&& after.acknowledgement(key) == 0
            &&& after.window(key) == 65535
            &&& after.send_window(key) == 0
            &&& after.sent_len(key) + after.unsent_len(key) == 0
            &&& after.retransmission(dst, src_port) == Outgoing::Complete
            &&& after.flush(dst, src_port) == Outgoing::Complete
            &&& after.removed(key) == after
        }),
{
}

/// An ARP reply tells the source, from the local hardware address, that the local IP address
/// belongs to it.
pub proof fn law_arp_reply_names_local(state: DownstreamState)
    ensures
        ({
            let all = frames(state, Outgoing::ArpReply);
            &&& all.len() == 1
            &&& all[0].indicator.link.src == state.local_hardware_addr
            &&& all[0].indicator.link.dst == state.src_hardware_addr
            &&& all[0].indicator.link.kind == LayerType::Arp
            &&& all[0].indicator.network matches Some(Network::Arp(arp)) && {
                &&& !arp.is_request
                &&& arp.src_hardware_addr == state.local_hardware_addr
                &&& arp.src_ip_addr == state.local_ip_addr
                &&& arp.dst_hardware_addr == state.src_hardware_addr
                &&& arp.dst_ip_addr == state.src_ip_addr
            }
            &&& all[0].indicator.transport is None
            &&& all[0].payload is None
            &&& settled(state, Outgoing::ArpReply) == state
        }),
{
    let outgoing = Outgoing::ArpReply;
    assert(frames(state.after(outgoing), outgoing.rest()) =~= Seq::empty());
    assert(settled(state.after(outgoing), outgoing.rest()) == state.after(outgoing));
}

/// Every frame of every transmission goes from the local hardware address to the hardware address
/// of the source. All but ARP replies hold an IPv4 packet without options from the IP address of
/// the destination to the IP address of the source.
pub proof fn law_frames_go_to_the_source(state: DownstreamState, outgoing: Outgoing, i: int)
    requires
        0 <= i < frames(state, outgoing).len(),
    ensures
        ({
            let frame = frames(state, outgoing)[i];
            &&& frame.indicator.link.src == state.local_hardware_addr
            &&& frame.indicator.link.dst == state.src_hardware_addr
            &&& frame.indicator.network matches Some(network) && match network {
                Network::Arp(_) => {
                    &&& outgoing == Outgoing::ArpReply
                    &&& frame.indicator.link.kind == LayerType::Arp
                },
                Network::Ipv4(ipv4) => {
                    &&& frame.indicator.link.kind == LayerType::Ipv4
                    &&& ipv4.dst == state.src_ip_addr
                    &&& ipv4.header_size == 20
                    &&& match outgoing {
                        Outgoing::Control { dst, .. } => ipv4.src == dst.ip && ipv4.kind
                            == LayerType::Tcp,
                        Outgoing::Stream { dst, .. } => ipv4.src == dst.ip && ipv4.kind
                            == LayerType::Tcp,
                        Outgoing::Datagram { dst, .. } => ipv4.src == dst.ip && ipv4.kind
                            == LayerType::Udp,
                        _ => false,
                    }
                },
            }
        }),
    decreases outgoing.left(),
{
    if i > 0 {
        law_frames_go_to_the_source(state.after(outgoing), outgoing.rest(), i - 1);
    }
}

/// A segment without payload, of whatever kind, is one packet from the destination to the port of
/// the source. It has the recorded sequence number of its connection, its window, or 65535 if none
/// is recorded, and its acknowledgement, except that a RST alone acknowledges nothing. It takes one
/// identification, and one sequence number if it is a SYN, and leaves all else as it was.
pub proof fn law_control_segment_tells_connection(
    state: DownstreamState,
    kind: TcpKind,
    dst: SocketAddrV4,
    src_port: u16,
)
    ensures
        ({
            let outgoing = Outgoing::Control { kind, dst, src_port };
            let key = flow(src_port, dst);
            let all = frames(state, outgoing);
            let after = settled(state, outgoing);
            let number = if state.sequences.contains_key(key) {
                state.sequences[key]
            } else {
                0
            };
            let identification = if state.identifications.contains_key(dst.ip) {
                state.identifications[dst.ip]
            } else {
                0
            };
            &&& all.len() == 1
            &&& all[0].payload is None
            &&& ipv4_of(all[0]).identification == identification
            &&& !ipv4_of(all[0]).more_fragments
            &&& ipv4_of(all[0]).fragment_offset == 0
            &&& all[0].indicator.transport matches Some(Transport::Tcp(tcp)) && {
                &&& tcp.src_ip_addr == dst.ip && tcp.src == dst.port
                &&& tcp.dst_ip_addr == state.src_ip_addr && tcp.dst == src_port
                &&& tcp.sequence == number
                &&& tcp.acknowledgement == if kind != TcpKind::Rst
                    && state.acknowledgements.contains_key(key) {
                    state.acknowledgements[key]
                } else {
                    0
                }
                &&& tcp.window == if state.windows.contains_key(key) {
                    state.windows[key]
                } else {
                    65535
                }
                &&& tcp.is_ack <==> kind == TcpKind::Ack || kind == TcpKind::AckSyn || kind
                    == TcpKind::AckRst || kind == TcpKind::AckFin
                &&& tcp.is_rst <==> kind == TcpKind::AckRst || kind == TcpKind::Rst
                &&& tcp.is_syn <==> kind == TcpKind::AckSyn
                &&& tcp.is_fin <==> kind == TcpKind::AckFin
                &&& tcp.header_size == 20
            }
            &&& after == DownstreamState {
                identifications: after.identifications,
                sequences: after.sequences,
                ..state
            }
            &&& after.identifications == state.identifications.insert(
                dst.ip,
                ((identification + 1) % 0x1_0000) as u16,
            )
            &&& after.sequences == if kind == TcpKind::AckSyn {
                state.sequences.insert(key, ((number + 1) % 0x1_0000_0000) as u32)
            } else {
                state.sequences
            }
        }),
{
    let outgoing = Outgoing::Control { kind, dst, src_port };
    assert(frames(state.after(outgoing), outgoing.rest()) =~= Seq::empty());
    assert(settled(state.after(outgoing), outgoing.rest()) == state.after(outgoing));
}

/// The next segment of a TCP transmission is a plain ACK from the destination to the port of the
/// source, with up to 1160 bytes of payload from the place that was reached, numbered by that
/// place. Sending it takes one identification. It moves the recorded sequence number past its last
/// byte, if that lies less than 262144 bytes ahead, and leaves all else as it was.
pub proof fn law_next_segment_carries_next_bytes(
    state: DownstreamState,
    dst: SocketAddrV4,
    src_port: u16,
    sequence: u32,
    payload: Seq<u8>,
    offset: int,
)
    requires
        (Outgoing::Stream { dst, src_port, sequence, payload, offset }).wf(),
        offset < payload.len(),
    ensures
        ({
            let outgoing = Outgoing::Stream { dst, src_port, sequence, payload, offset };
            let key = flow(src_port, dst);
            let frame = state.next_frame(outgoing);
            let after = state.after(outgoing);
            let end = if offset + 1160 < payload.len() {
                offset + 1160
            } else {
                payload.len() as int
            };
            let number = if sequence + offset <= u32::MAX {
                sequence + offset
            } else {
                sequence + offset - u32::MAX
            };
            let next = if number + (end - offset) <= u32::MAX {
                number + (end - offset)
            } else {
                number + (end - offset) - u32::MAX
            };
            let recorded: int = if state.sequences.contains_key(key) {
                state.sequences[key] as int
            } else {
                0
            };
            let ahead = if recorded <= next {
                next - recorded
            } else {
                next - recorded + u32::MAX
            };
            &&& !outgoing.is_complete()
            &&& outgoing.rest() == Outgoing::Stream {
                dst,
                src_port,
                sequence,
                payload,
                offset: end,
            }
            &&& frame.payload == Some(payload.subrange(offset, end))
            &&& !ipv4_of(frame).more_fragments
            &&& ipv4_of(frame).fragment_offset == 0
            &&& ipv4_of(frame).identification == state.identification(dst.ip)
            &&& frame.indicator.transport matches Some(Transport::Tcp(tcp)) && {
                &&& tcp.src_ip_addr == dst.ip && tcp.src == dst.port
                &&& tcp.dst_ip_addr == state.src_ip_addr && tcp.dst == src_port
                &&& tcp.sequence == number
                &&& tcp.acknowledgement == if state.acknowledgements.contains_key(key) {
                    state.acknowledgements[key]
                } else {
                    0
                }
                &&& tcp.window == if state.windows.contains_key(key) {
                    state.windows[key]
                } else {
                    65535
                }
                &&& tcp.is_ack && !tcp.is_rst && !tcp.is_syn && !tcp.is_fin
                &&& tcp.header_size == 20
            }
            &&& after == DownstreamState {
                identifications: after.identifications,
                sequences: after.sequences,
                ..state
            }
            &&& after.identifications == state.identifications.insert(
                dst.ip,
                ((state.identification(dst.ip) + 1) % 0x1_0000) as u16,
            )
            &&& after.sequences == if ahead < 262144 {
                state.sequences.insert(key, next as u32)
            } else {
                state.sequences
            }
        }),
{
}

/// The next packet of a datagram carries the payload from the place that was reached. If more than
/// 1180 bytes are left it carries 1176 bytes of the datagram, or 1168 if less than 8 would be left
/// for the last packet, and tells that more follow. The first packet of every datagram, whether or
/// not more follow, has the UDP layer from the destination to the port of the source, and takes 8
/// bytes for it, and only the last one takes the identification.
pub proof fn law_next_packet_carries_next_bytes(
    state: DownstreamState,
    dst: SocketAddrV4,
    src_port: u16,
    payload: Seq<u8>,
    offset: int,
)
    requires
        (Outgoing::Datagram { dst, src_port, payload, offset }).wf(),
        offset < 8 + payload.len(),
    ensures
        ({
            let outgoing = Outgoing::Datagram { dst, src_port, payload, offset };
            let frame = state.next_frame(outgoing);
            let after = state.after(outgoing);
            let left = 8 + payload.len() - offset;
            let len = if left <= 1180 {
                left
            } else if left < 1184 {
                1168
            } else {
                1176
            };
            let start = if offset == 0 {
                0
            } else {
                offset - 8
            };
            &&& !outgoing.is_complete()
            &&& outgoing.rest() == Outgoing::Datagram {
                dst,
                src_port,
                payload,
                offset: offset + len,
            }
            &&& frame.payload == Some(payload.subrange(start, offset + len - 8))
            &&& ipv4_of(frame).identification == state.identification(dst.ip)
            &&& ipv4_of(frame).more_fragments == (left > 1180)
            &&& ipv4_of(frame).fragment_offset == offset / 8 % 0x1_0000
            &&& offset > 0 ==> frame.indicator.transport is None
            &&& offset == 0 ==> (frame.indicator.transport matches Some(Transport::Udp(udp)) && {
                &&& udp.src_ip_addr == dst.ip && udp.src == dst.port
                &&& udp.dst_ip_addr == state.src_ip_addr && udp.dst == src_port
            })
            &&& after == DownstreamState { identifications: after.identifications, ..state }
            &&& after.identifications == if left > 1180 {
                state.identifications
            } else {
                state.identifications.insert(
                    dst.ip,
                    ((state.identification(dst.ip) + 1) % 0x1_0000) as u16,
                )
            }
        }),
{
}

/// The bytes of a connection that were sent but not acknowledged.
pub open spec fn sent_bytes(state: DownstreamState, key: u64) -> Seq<u8> {
    if state.sent.contains_key(key) {
        state.sent[key].bytes
    } else {
        Seq::empty()
    }
}

/// Bytes are queued after the unsent bytes of their connection, which are numbered from the
/// recorded sequence number on if there were none before, and nothing else changes.
pub proof fn law_queue_appends(state: DownstreamState, key: u64, payload: Seq<u8>)
    ensures
        ({
            let after = state.queued(key, payload);
            &&& after == DownstreamState { unsent: after.unsent, ..state }
            &&& after.unsent.contains_key(key)
            &&& after.unsent == state.unsent.insert(key, after.unsent[key])
            &&& after.unsent[key].bytes == unsent_bytes(state, key) + payload
            &&& state.unsent.contains_key(key) ==> {
                &&& after.unsent[key].sequence == state.unsent[key].sequence
                &&& after.unsent[key].limit == state.unsent[key].limit
                &&& state.has_room_for(key, payload) <==> state.unsent[key].bytes.len()
                    + payload.len() <= state.unsent[key].limit
                &&& state.opened(key) == state
            }
            &&& !state.unsent.contains_key(key) ==> {
                &&& after.unsent[key].sequence == if state.sequences.contains_key(key) {
                    state.sequences[key]
                } else {
                    0
                }
                &&& after.unsent[key].limit == isize::MAX
                &&& state.has_room_for(key, payload) <==> payload.len() <= isize::MAX
                &&& state.opened(key) == state.queued(key, Seq::empty())
            }
        }),
{
    if state.unsent.contains_key(key) {
        assert(state.opened(key) =~= state);
    } else {
        assert(state.opened(key).unsent[key].bytes + Seq::<u8>::empty() =~= Seq::<u8>::empty());
        assert(state.opened(key) =~= state.queued(key, Seq::empty()));
    }
}

/// Sending remaining data takes from the front of the unsent bytes as many as the send window has
/// room for beside the bytes that were sent but not acknowledged, numbers them as they were queued,
/// and keeps them at the end of the sent bytes. Nothing else changes.
pub proof fn law_flush_sends_next_bytes(state: DownstreamState, dst: SocketAddrV4, src_port: u16)
    ensures
        ({
            let key = flow(src_port, dst);
            let after = state.flushed(key);
            let job = state.flush(dst, src_port);
            let window: int = if state.send_windows.contains_key(key) {
                state.send_windows[key] as int
            } else {
                0
            };
            let room = window - sent_bytes(state, key).len();
            let unsent = unsent_bytes(state, key);
            let n = if room <= 0 {
                0
            } else if room < unsent.len() {
                room
            } else {
                unsent.len() as int
            };
            &&& after == DownstreamState { sent: after.sent, unsent: after.unsent, ..state }
            &&& sent_bytes(after, key) == sent_bytes(state, key) + unsent.take(n)
            &&& unsent_bytes(after, key) == unsent.skip(n)
            &&& forall|other: u64| #![trigger after.sent.contains_key(other)]
                other != key ==> {
                    &&& after.sent.contains_key(other) == state.sent.contains_key(other)
                    &&& after.sent.contains_key(other) ==> after.sent[other] == state.sent[other]
                }
            &&& forall|other: u64| #![trigger after.unsent.contains_key(other)]
                other != key ==> {
                    &&& after.unsent.contains_key(other) == state.unsent.contains_key(other)
                    &&& after.unsent.contains_key(other) ==> after.unsent[other]
                        == state.unsent[other]
                }
            &&& n == 0 ==> job == Outgoing::Complete
            &&& n > 0 ==> {
                &&& job == Outgoing::Stream {
                    dst,
                    src_port,
                    sequence: state.unsent[key].sequence,
                    payload: unsent.take(n),
                    offset: 0,
                }
                &&& after.sent.contains_key(key)
                &&& after.sent[key].sequence == if state.sent.contains_key(key) {
                    state.sent[key].sequence
                } else {
                    state.unsent[key].sequence
                }
                &&& after.unsent[key].sequence == advanced(state.unsent[key].sequence, n)
            }
        }),
{
    let key = flow(src_port, dst);
    let n = state.sendable(key);
    assert(unsent_bytes(state, key).take(0) =~= Seq::empty());
    assert(unsent_bytes(state, key).skip(0) =~= unsent_bytes(state, key));
    assert(sent_bytes(state, key) + Seq::<u8>::empty() =~= sent_bytes(state, key));
}

/// A retransmission sends all bytes of a connection that were sent but not acknowledged, numbered
/// as they were.
pub proof fn law_retransmission_sends_all(state: DownstreamState, dst: SocketAddrV4, src_port: u16)
    ensures
        ({
            let key = flow(src_port, dst);
            let job = state.retransmission(dst, src_port);
            &&& sent_bytes(state, key).len() == 0 ==> job == Outgoing::Complete
            &&& sent_bytes(state, key).len() > 0 ==> job == Outgoing::Stream {
                dst,
                src_port,
                sequence: state.sent[key].sequence,
                payload: sent_bytes(state, key),
                offset: 0,
            }
        }),
{
}

/// What is left of bytes from the number `first` on when the bytes before the number `acknowledged`
/// leave, where numbers 262144 or more bytes ahead are taken as old.
pub open spec fn left_after(first: u32, bytes: Seq<u8>, acknowledged: u32) -> Seq<u8> {
    let n = if first <= acknowledged {
        acknowledged - first
    } else {
        acknowledged - first + u32::MAX
    };
    if n >= 262144 {
        bytes
    } else if n <= bytes.len() {
        bytes.skip(n)
    } else {
        Seq::empty()
    }
}

/// An acknowledgement takes the bytes before it from the sent bytes of its connection, and nothing
/// else changes.
pub proof fn law_acknowledged_bytes_leave(state: DownstreamState, key: u64, acknowledged: u32)
    ensures
        ({
            let after = state.invalidated(key, acknowledged);
            &&& after == DownstreamState { sent: after.sent, ..state }
            &&& !state.sent.contains_key(key) ==> after == state
            &&& state.sent.contains_key(key) ==> {
                let sent = state.sent[key];
                &&& after.sent.contains_key(key)
                &&& after.sent == state.sent.insert(key, after.sent[key])
                &&& after.sent[key].limit == sent.limit
                &&& after.sent[key].bytes == left_after(sent.sequence, sent.bytes, acknowledged)
                &&& after.sent[key].sequence == if gap(sent.sequence, acknowledged) < 262144 {
                    acknowledged
                } else {
                    sent.sequence
                }
            }
        }),
{
}

/// Removing a connection takes all that is recorded of it, and nothing else.
pub proof fn law_removal_takes_all_of_one(state: DownstreamState, key: u64)
    ensures
        ({
            let after = state.removed(key);
            &&& after.send_windows == state.send_windows.remove(key)
            &&& after.sequences == state.sequences.remove(key)
            &&& after.acknowledgements == state.acknowledgements.remove(key)
            &&& after.windows == state.windows.remove(key)
            &&& after.sent == state.sent.remove(key)
            &&& after.unsent == state.unsent.remove(key)
            &&& after.identifications == state.identifications
            &&& after.src_hardware_addr == state.src_hardware_addr
            &&& after.local_hardware_addr == state.local_hardware_addr
            &&& after.src_ip_addr == state.src_ip_addr
            &&& after.local_ip_addr == state.local_ip_addr
        }),
{
}

/// A new `Downstreamer` has the addresses it was given, and knows neither the hardware address of
/// the source nor any connection.
pub proof fn law_new_downstreamer_knows_nothing(
    local_hardware_addr: HardwareAddr,
    src_ip_addr: Ipv4Addr,
    local_ip_addr: Ipv4Addr,
    result: Downstreamer,
)
    requires
        call_ensures(
            Downstreamer::new,
            (local_hardware_addr, src_ip_addr, local_ip_addr),
            result,
        ),
    ensures
        result@.wf(),
        result@.local_hardware_addr == local_hardware_addr,
        result@.src_ip_addr == src_ip_addr,
        result@.local_ip_addr == local_ip_addr,
        result@.src_hardware_addr == HardwareAddr(0, 0, 0, 0, 0, 0),
        forall|ip: Ipv4Addr| !#[trigger] result@.identifications.contains_key(ip),
        forall|key: u64| !#[trigger] result@.send_windows.contains_key(key),
        forall|key: u64| !#[trigger] result@.sequences.contains_key(key),
        forall|key: u64| !#[trigger] result@.acknowledgements.contains_key(key),
        forall|key: u64| !#[trigger] result@.windows.contains_key(key),
        forall|key: u64| !#[trigger] result@.sent.contains_key(key),
        forall|key: u64| !#[trigger] result@.unsent.contains_key(key),
{
}

/// The hardware address that is set is where frames go, and nothing else changes.
pub proof fn law_set_src_hardware_addr(tx: &mut Downstreamer, hardware_addr: HardwareAddr)
    requires
        call_ensures(Downstreamer::set_src_hardware_addr, (tx, hardware_addr), ()),
    ensures
        final(tx)@ == (DownstreamState { src_hardware_addr: hardware_addr, ..old(tx)@ }),
{
}

/// The local IP address that is set is what ARP replies tell, and nothing else changes.
pub proof fn law_set_local_ip_addr(tx: &mut Downstreamer, ip_addr: Ipv4Addr)
    requires
        call_ensures(Downstreamer::set_local_ip_addr, (tx, ip_addr), ()),
    ensures
        final(tx)@ == (DownstreamState { local_ip_addr: ip_addr, ..old(tx)@ }),
{
}

/// The send window that is set is the one of the connection, and nothing else changes.
pub proof fn law_set_tcp_send_window(
    tx: &mut Downstreamer,
    dst: SocketAddrV4,
    src_port: u16,
    window: u16,
)
    requires
        call_ensures(Downstreamer::set_tcp_send_window, (tx, dst, src_port, window), ()),
    ensures
        final(tx)@ == (DownstreamState {
            send_windows: old(tx)@.send_windows.insert(flow(src_port, dst), window),
            ..old(tx)@
        }),
{
}

/// The acknowledgement that is set is what segments of the connection tell, and nothing else
/// changes.
pub proof fn law_set_tcp_acknowledgement(
    tx: &mut Downstreamer,
    dst: SocketAddrV4,
    src_port: u16,
    sequence: u32,
)
    requires
        call_ensures(Downstreamer::set_tcp_acknowledgement, (tx, dst, src_port, sequence), ()),
    ensures
        final(tx)@ == (DownstreamState {
            acknowledgements: old(tx)@.acknowledgements.insert(flow(src_port, dst), sequence),
            ..old(tx)@
        }),
{
}

/// The acknowledgement of the connection moves ahead by what is added, from 0 on if there was none,
/// and nothing else changes.
pub proof fn law_add_tcp_acknowledgement(
    tx: &mut Downstreamer,
    dst: SocketAddrV4,
    src_port: u16,
    n: u32,
)
    requires
        call_ensures(Downstreamer::add_tcp_acknowledgement, (tx, dst, src_port, n), ()),
    ensures
        ({
            let key = flow(src_port, dst);
            let before: int = if old(tx)@.acknowledgements.contains_key(key) {
                old(tx)@.acknowledgements[key] as int
            } else {
                0
            };
            let acknowledgement = if before + n <= u32::MAX {
                before + n
            } else {
                before + n - u32::MAX
            };
            final(tx)@ == DownstreamState {
                acknowledgements: old(tx)@.acknowledgements.insert(key, acknowledgement as u32),
                ..old(tx)@
            }
        }),
{
}

/// The window that is set is what segments of the connection tell, and nothing else changes.
pub proof fn law_set_tcp_window(
    tx: &mut Downstreamer,
    dst: SocketAddrV4,
    src_port: u16,
    window: u16,
)
    requires
        call_ensures(Downstreamer::set_tcp_window, (tx, dst, src_port, window), ()),
    ensures
        final(tx)@ == (DownstreamState {
            windows: old(tx)@.windows.insert(flow(src_port, dst), window),
            ..old(tx)@
        }),
{
}

/// The size of the cache of a connection counts the bytes that were sent but not acknowledged and
/// the unsent ones.
pub proof fn law_get_cache_size(
    tx: &Downstreamer,
    dst: SocketAddrV4,
    src_port: u16,
    result: usize,
)
    requires
        call_ensures(Downstreamer::get_cache_size, (tx, dst, src_port), result),
    ensures
        result == sent_bytes(tx@, flow(src_port, dst)).len() + unsent_bytes(
            tx@,
            flow(src_port, dst),
        ).len(),
{
}

/// Invalidating a cache takes the bytes before a number from the sent bytes, and none of the unsent
/// ones.
pub proof fn law_invalidate_cache_to(
    tx: &mut Downstreamer,
    dst: SocketAddrV4,
    src_port: u16,
    sequence: u32,
)
    requires
        call_ensures(Downstreamer::invalidate_cache_to, (tx, dst, src_port, sequence), ()),
    ensures
        ({
            let key = flow(src_port, dst);
            &&& final(tx)@ == DownstreamState { sent: final(tx)@.sent, ..old(tx)@ }
            &&& old(tx)@.sent.contains_key(key) ==> sent_bytes(final(tx)@, key) == left_after(
                old(tx)@.sent[key].sequence,
                sent_bytes(old(tx)@, key),
                sequence,
            )
            &&& !old(tx)@.sent.contains_key(key) ==> final(tx)@ == old(tx)@
            &&& final(tx)@ == old(tx)@.invalidated(key, sequence)
        }),
{
    law_acknowledged_bytes_leave(old(tx)@, flow(src_port, dst), sequence);
}

/// Removing a connection takes all that is recorded of it.
pub proof fn law_remove(tx: &mut Downstreamer, dst: SocketAddrV4, src_port: u16)
    requires
        call_ensures(Downstreamer::remove, (tx, dst, src_port), ()),
    ensures
        ({
            let key = flow(src_port, dst);
            &&& !final(tx)@.send_windows.contains_key(key)
            &&& !final(tx)@.sequences.contains_key(key)
            &&& !final(tx)@.acknowledgements.contains_key(key)
            &&& !final(tx)@.windows.contains_key(key)
            &&& !final(tx)@.sent.contains_key(key)
            &&& !final(tx)@.unsent.contains_key(key)
            &&& final(tx)@ == old(tx)@.removed(key)
        }),
{
}

/// Bytes that are appended to the cache of a connection follow those it holds, those that the send
/// window has room for are handed out, and bytes that do not fit leave what the cache holds as it
/// was.
pub proof fn law_append_to_cache(
    tx: &mut Downstreamer,
    dst: SocketAddrV4,
    src_port: u16,
    payload: &[u8],
    result: Result<Transmission, CacheError>,
)
    requires
        call_ensures(Downstreamer::append_to_cache, (tx, dst, src_port, payload), result),
    ensures
        ({
            let key = flow(src_port, dst);
            let before = sent_bytes(old(tx)@, key) + unsent_bytes(old(tx)@, key);
            let after = sent_bytes(final(tx)@, key) + unsent_bytes(final(tx)@, key);
            &&& result is Ok <==> old(tx)@.has_room_for(key, payload@)
            &&& result is Ok ==> {
                let queued = old(tx)@.queued(key, payload@);
                &&& after == before + payload@
                &&& final(tx)@ == queued.flushed(key)
                &&& result->Ok_0@ == queued.flush(dst, src_port)
            }
            &&& result matches Err(error) ==> {
                &&& error == CacheError::Full
                &&& after == before
                &&& final(tx)@ == old(tx)@.opened(key)
            }
        }),
{
    let key = flow(src_port, dst);
    let sent = sent_bytes(old(tx)@, key);
    let queued = old(tx)@.queued(key, payload@);
    law_queue_appends(old(tx)@, key, payload@);
    law_flush_sends_next_bytes(queued, dst, src_port);
    if old(tx)@.has_room_for(key, payload@) {
        let unsent = unsent_bytes(queued, key);
        let n = queued.sendable(key);
        assert(sent_bytes(queued, key) == sent);
        assert((sent + unsent.take(n)) + unsent.skip(n) =~= sent + unsent);
        assert(sent + (unsent_bytes(old(tx)@, key) + payload@) =~= (sent + unsent_bytes(
            old(tx)@,
            key,
        )) + payload@);
    } else {
        law_queue_appends(old(tx)@, key, Seq::empty());
        assert(unsent_bytes(old(tx)@, key) + Seq::<u8>::empty() =~= unsent_bytes(old(tx)@, key));
    }
}

/// Sending remaining data hands out unsent bytes and keeps them as sent.
pub proof fn law_send_tcp_ack(
    tx: &mut Downstreamer,
    dst: SocketAddrV4,
    src_port: u16,
    result: Transmission,
)
    requires
        call_ensures(Downstreamer::send_tcp_ack, (tx, dst, src_port), result),
    ensures
        ({
            let key = flow(src_port, dst);
            let handed = match result@ {
                Outgoing::Stream { payload, .. } => payload,
                _ => Seq::empty(),
            };
            &&& sent_bytes(final(tx)@, key) == sent_bytes(old(tx)@, key) + handed
            &&& handed + unsent_bytes(final(tx)@, key) == unsent_bytes(old(tx)@, key)
            &&& final(tx)@ == old(tx)@.flushed(key)
            &&& result@ == old(tx)@.flush(dst, src_port)
        }),
{
    let key = flow(src_port, dst);
    let unsent = unsent_bytes(old(tx)@, key);
    law_flush_sends_next_bytes(old(tx)@, dst, src_port);
    assert(unsent.take(0) =~= Seq::empty());
    assert(forall|n: int|
        0 <= n <= unsent.len() ==> #[trigger] unsent.take(n) + unsent.skip(n) =~= unsent);
}

/// A retransmission hands out all sent bytes of the connection.
pub proof fn law_resend_tcp_ack(
    tx: &Downstreamer,
    dst: SocketAddrV4,
    src_port: u16,
    result: Transmission,
)
    requires
        call_ensures(Downstreamer::resend_tcp_ack, (tx, dst, src_port), result),
    ensures
        ({
            let sent = sent_bytes(tx@, flow(src_port, dst));
            &&& sent.len() == 0 ==> result@ == Outgoing::Complete
            &&& sent.len() > 0 ==> result@ == Outgoing::Stream {
                dst,
                src_port,
                sequence: tx@.sent[flow(src_port, dst)].sequence,
                payload: sent,
                offset: 0,
            }
        }),
{
}

/// Each segment without payload has the flags that it is sent with.
pub proof fn law_answers_have_their_kinds(
    tx: &Downstreamer,
    dst: SocketAddrV4,
    src_port: u16,
    ack: Transmission,
    syn: Transmission,
    ack_rst: Transmission,
    fin: Transmission,
    rst: Transmission,
    arp: Transmission,
)
    requires
        call_ensures(Downstreamer::send_tcp_ack_0, (tx, dst, src_port), ack),
        call_ensures(Downstreamer::send_tcp_ack_syn, (tx, dst, src_port), syn),
        call_ensures(Downstreamer::send_tcp_ack_rst, (tx, dst, src_port), ack_rst),
        call_ensures(Downstreamer::send_tcp_ack_fin, (tx, dst, src_port), fin),
        call_ensures(Downstreamer::send_tcp_rst, (tx, dst, src_port), rst),
        call_ensures(Downstreamer::send_arp_reply, (tx,), arp),
    ensures
        ack@ == (Outgoing::Control { kind: TcpKind::Ack, dst, src_port }),
        syn@ == (Outgoing::Control { kind: TcpKind::AckSyn, dst, src_port }),
        ack_rst@ == (Outgoing::Control { kind: TcpKind::AckRst, dst, src_port }),
        fin@ == (Outgoing::Control { kind: TcpKind::AckFin, dst, src_port }),
        rst@ == (Outgoing::Control { kind: TcpKind::Rst, dst, src_port }),
        arp@ == Outgoing::ArpReply,
{
}

/// A datagram and bytes of a connection are handed out from their start.
pub proof fn law_payload_is_handed_out_from_its_start(
    tx: &Downstreamer,
    dst: SocketAddrV4,
    src_port: u16,
    sequence: u32,
    datagram: &[u8],
    bytes: Vec<u8>,
    packets: Transmission,
    segments: Transmission,
)
    requires
        call_ensures(Downstreamer::send_udp, (tx, dst, src_port, datagram), packets),
        call_ensures(
            Downstreamer::send_tcp_ack_raw,
            (dst, src_port, sequence, bytes),
            segments,
        ),
    ensures
        carried(frames(tx@, packets@)) == datagram@,
        packets@ == (Outgoing::Datagram { dst, src_port, payload: datagram@, offset: 0 }),
        segments@ == (Outgoing::Stream { dst, src_port, sequence, payload: bytes@, offset: 0 }),
{
    law_packets_carry_payload(tx@, dst, src_port, datagram@);
}

/// A transmission is asked for its frames one by one, until there are no more, and each frame that
/// was sent is accounted for.
pub proof fn law_frames_are_asked_for_one_by_one(
    tx: &mut Downstreamer,
    transmission: Transmission,
    frame: Option<Frame>,
    rest: Transmission,
)
    requires
        transmission@.wf(),
        !transmission@.is_complete(),
        call_ensures(Downstreamer::frame, (&*old(tx), &transmission), frame),
        call_ensures(Downstreamer::sent, (tx, transmission), rest),
    ensures
        frame matches Some(first) && frames(old(tx)@, transmission@) == seq![first@] + frames(
            final(tx)@,
            rest@,
        ),
        settled(old(tx)@, transmission@) == settled(final(tx)@, rest@),
        final(tx)@ == old(tx)@.after(transmission@),
        rest@ == transmission@.rest(),
{
}

/// A transmission has no next frame exactly when all its frames were sent.
pub proof fn law_complete_transmission_has_no_frame(
    tx: &Downstreamer,
    transmission: Transmission,
    frame: Option<Frame>,
)
    requires
        transmission@.wf(),
        call_ensures(Downstreamer::frame, (tx, &transmission), frame),
    ensures
        frame is None <==> frames(tx@, transmission@).len() == 0,
        frame matches Some(first) ==> first@ == frames(tx@, transmission@)[0],
{
}

} // verus!
