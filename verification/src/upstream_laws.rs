//! What holds of the traffic to the proxy as a whole.
use vstd::prelude::*;
#[allow(unused_imports)]
use vstd::relations::injective_on;
#[allow(unused_imports)]
use vstd::set_lib::{lemma_int_range, lemma_len_subset, lemma_map_size, set_int_range};

#[allow(unused_imports)]
use crate::addr::{flow, HardwareAddr, SocketAddrV4};
#[allow(unused_imports)]
use crate::cacher::{leading, lemma_leading, lemma_leading_is, Reordered, MAX_WINDOW};
#[allow(unused_imports)]
use crate::downstream::{tcp_layer, DownstreamState, Downstreamer};
#[allow(unused_imports)]
use crate::downstream_laws::{
    agree_on, frames, law_acknowledged_bytes_leave, law_flush_sends_next_bytes, left_after,
    sent_bytes, settled, unsent_bytes,
};
#[allow(unused_imports)]
use crate::packet::{Indicator, Ipv4, Network, Tcp, TcpKind, Transport, Udp};
#[allow(unused_imports)]
use crate::sequence::{advanced, gap, law_gap_undoes_advance, successor, MAX_U32_WINDOW_SIZE};
#[allow(unused_imports)]
use crate::step::{AfterTransmit, Command, Delivery, Failure, Next, Step};
#[allow(unused_imports)]
use crate::transmission::{Outgoing, Transmission};
#[allow(unused_imports)]
use crate::upstream::{
    datagram_sent, is_bindable, reply, tcp_dst, tcp_key, then, udp_dst, Reaction, Received,
    Reception, UpstreamState, Upstreamer, INITIAL_PORT, PORT_COUNT, RETRANSMISSION_INTERVAL,
    SOURCE_PORT_COUNT,
};

verus! {

/// Whether every byte that `cache` holds is the byte of `stream` with its number, where the cache
/// waits for the byte `at`.
pub open spec fn is_part_of(cache: Reordered, stream: Seq<u8>, at: int) -> bool {
    &&& 0 <= at
    &&& forall|i: int|
        0 <= i < cache.slots.len() && (#[trigger] cache.slots[i]) is Some ==> at + i < stream.len()
            && cache.slots[i]->0 == stream[at + i]
}

/// In whatever order, how often and with whatever overlap the segments of a stream arrive, the
/// bytes that leave the cache are the next bytes of the stream.
pub proof fn law_released_bytes_follow_the_stream(
    cache: Reordered,
    stream: Seq<u8>,
    at: int,
    sequence: u32,
    payload: Seq<u8>,
)
    requires
        cache.wf(),
        is_part_of(cache, stream, at),
        ({
            let start = at + gap(cache.sequence, sequence);
            &&& start + payload.len() <= stream.len()
            &&& payload == stream.subrange(start, start + payload.len())
        }),
    ensures
        ({
            let released = cache.released(sequence, payload);
            let after = cache.received(sequence, payload);
            &&& at + released.len() <= stream.len()
            &&& released == stream.subrange(at, at + released.len())
            &&& is_part_of(after, stream, at + released.len())
            &&& after.sequence == advanced(cache.sequence, released.len() as int)
        }),
{
    let slots = cache.written(sequence, payload);
    let n = leading(slots);
    lemma_leading(slots);
    assert forall|i: int| 0 <= i < slots.len() && (#[trigger] slots[i]) is Some implies at + i
        < stream.len() && slots[i]->0 == stream[at + i] by {}
    if n > 0 {
        assert(slots[n - 1] is Some);
    }
}

/// The cache after parts of `stream` have arrived, of which the first byte has the number `first`,
/// and the bytes that have left it, one after another. A part is given by its start and its end.
pub open spec fn arrived(first: u32, stream: Seq<u8>, parts: Seq<(int, int)>) -> (
    Reordered,
    Seq<u8>,
)
    decreases parts.len(),
{
    if parts.len() == 0 {
        (Reordered::empty(first), Seq::empty())
    } else {
        let (cache, bytes) = arrived(first, stream, parts.drop_last());
        let (start, end) = parts.last();
        let sequence = advanced(first, start);
        let payload = stream.subrange(start, end);
        if cache.is_stale(sequence) || !cache.has_room_for(sequence, payload) {
            (cache, bytes)
        } else {
            (cache.received(sequence, payload), bytes + cache.released(sequence, payload))
        }
    }
}

/// Whatever parts of a stream arrive, in whatever order, how often and with whatever overlap, the
/// bytes that have left the cache are a prefix of the stream, and the cache waits for the byte
/// after them.
pub proof fn law_stream_is_released_in_order(
    first: u32,
    stream: Seq<u8>,
    parts: Seq<(int, int)>,
)
    requires
        stream.len() <= u32::MAX - MAX_U32_WINDOW_SIZE,
        forall|i: int|
            0 <= i < parts.len() ==> 0 <= (#[trigger] parts[i]).0 < parts[i].1 <= stream.len(),
    ensures
        ({
            let (cache, bytes) = arrived(first, stream, parts);
            &&& bytes.len() <= stream.len()
            &&& bytes == stream.take(bytes.len() as int)
            &&& cache.wf()
            &&& cache.sequence == advanced(first, bytes.len() as int)
            &&& is_part_of(cache, stream, bytes.len() as int)
        }),
    decreases parts.len(),
{
    if parts.len() > 0 {
        law_stream_is_released_in_order(first, stream, parts.drop_last());
        let (cache, bytes) = arrived(first, stream, parts.drop_last());
        let at = bytes.len() as int;
        let (start, end) = parts.last();
        assert(parts[parts.len() - 1] == (start, end));
        let sequence = advanced(first, start);
        let payload = stream.subrange(start, end);
        if !cache.is_stale(sequence) && cache.has_room_for(sequence, payload) {
            assert(start >= at);
            assert(at + gap(cache.sequence, sequence) == start);
            law_released_bytes_follow_the_stream(cache, stream, at, sequence, payload);
            let released = cache.released(sequence, payload);
            assert(bytes + released =~= stream.take(at + released.len()));
            lemma_leading(cache.written(sequence, payload));
        }
    }
}

/// The segment that a cache waits for leaves it at once.
pub proof fn law_expected_segment_is_released(cache: Reordered, payload: Seq<u8>)
    requires
        cache.wf(),
    ensures
        payload.is_prefix_of(cache.released(cache.sequence, payload)),
{
    lemma_leading(cache.written(cache.sequence, payload));
}

/// A segment after the one that a cache waits for stays in it.
pub proof fn law_early_segment_is_kept(cache: Reordered, sequence: u32, payload: Seq<u8>)
    requires
        cache.wf(),
        gap(cache.sequence, sequence) > 0,
    ensures
        cache.released(sequence, payload) == Seq::<u8>::empty(),
        cache.received(sequence, payload).sequence == cache.sequence,
{
    lemma_leading(cache.written(sequence, payload));
}

/// Two segments of which the second arrives first are released together once the first arrives,
/// and the cache is then like one that they reached in order.
pub proof fn law_swapped_segments_are_joined(sequence: u32, first: Seq<u8>, second: Seq<u8>)
    requires
        first.len() > 0,
        first.len() + second.len() <= MAX_WINDOW,
    ensures
        ({
            let cache = Reordered::empty(sequence);
            let next = advanced(sequence, first.len() as int);
            let swapped = cache.received(next, second);
            let ordered = cache.received(sequence, first);
            &&& cache.released(next, second) == Seq::<u8>::empty()
            &&& swapped.released(sequence, first) == first + second
            &&& cache.released(sequence, first) == first
            &&& ordered.released(next, second) == second
            &&& swapped.received(sequence, first) == ordered.received(next, second)
        }),
{
    let cache = Reordered::empty(sequence);
    let m = first.len() as int;
    let next = advanced(sequence, m);
    law_gap_undoes_advance(sequence, m);
    let early = cache.written(next, second);
    lemma_leading_is(early, 0);
    let swapped = cache.received(next, second);
    let joined = swapped.written(sequence, first);
    lemma_leading_is(joined, (m + second.len()) as nat);
    let alone = cache.written(sequence, first);
    lemma_leading_is(alone, m as nat);
    let ordered = cache.received(sequence, first);
    let last = ordered.written(next, second);
    lemma_leading_is(last, second.len());
}

/// The number of bytes that were acknowledged keeps step with the bytes that were written to the
/// stream: what is not written is not acknowledged.
pub proof fn law_acknowledged_bytes_were_written(
    upstream: UpstreamState,
    downstream: DownstreamState,
    tcp: Tcp,
    payload: Seq<u8>,
)
    requires
        upstream.wf(),
        payload.len() > 0,
        downstream.acknowledgement(tcp_key(tcp)) == upstream.cache(
            tcp_key(tcp),
            tcp.sequence,
        ).sequence,
    ensures
        ({
            let key = tcp_key(tcp);
            let reaction = upstream.payload_reaction(downstream, tcp, payload);
            match reaction.step.next {
                Next::Write { key: written, payload: bytes, delivery } => {
                    let after = reaction.upstream.written_reaction(
                        reaction.downstream,
                        delivery,
                        true,
                    );
                    &&& written == key
                    &&& bytes.len() > 0
                    &&& after.downstream.acknowledgement(key) == advanced(
                        downstream.acknowledgement(key),
                        bytes.len() as int,
                    )
                    &&& after.upstream.caches.contains_key(key)
                    &&& after.downstream.acknowledgement(key)
                        == after.upstream.caches[key].sequence
                    &&& after.downstream.window(key) == after.upstream.caches[key].remaining()
                },
                _ => {
                    &&& reaction.downstream == downstream
                    &&& reaction.upstream.caches.contains_key(key)
                    &&& downstream.acknowledgement(key) == reaction.upstream.caches[key].sequence
                },
            }
        }),
{
    let cache = upstream.cache(tcp_key(tcp), tcp.sequence);
    lemma_leading(cache.written(tcp.sequence, payload));
}

/// After a SYN that could be answered the connection has a stream, the answer acknowledges the SYN,
/// and the next payload of the source is written to the stream at once and acknowledged.
pub proof fn law_handshake_opens_stream(
    upstream: UpstreamState,
    downstream: DownstreamState,
    syn: Tcp,
    now: u64,
    tcp: Tcp,
    payload: Seq<u8>,
)
    requires
        upstream.wf(),
        !syn.is_rst && !syn.is_ack && syn.is_syn,
        !upstream.streams.contains(tcp_key(syn)),
        tcp_dst(tcp) == tcp_dst(syn) && tcp.src == syn.src,
        tcp.sequence == successor(syn.sequence),
        0 < payload.len() <= MAX_WINDOW,
    ensures
        ({
            let key = tcp_key(syn);
            let dst = tcp_dst(syn);
            let asked = upstream.tcp_reaction(downstream, syn, Seq::empty());
            let answered = asked.upstream.connected_reaction(asked.downstream, syn, true);
            let job = Outgoing::Control { kind: TcpKind::AckSyn, dst, src_port: syn.src };
            let after = AfterTransmit::Established { dst, src_port: syn.src };
            let ready = answered.upstream.transmitted_reaction(
                settled(answered.downstream, job),
                after,
                true,
                now,
            );
            let given = ready.upstream.payload_reaction(ready.downstream, tcp, payload);
            &&& asked.step == then(Next::Connect { key, dst, remote: upstream.remote, tcp: syn })
            &&& answered.step == then(Next::Transmit { job, then: after })
            &&& frames(answered.downstream, job).len() == 1
            &&& frames(answered.downstream, job)[0].indicator.transport == Some(
                Transport::Tcp(
                    tcp_layer(
                        TcpKind::AckSyn,
                        dst,
                        downstream.src_ip_addr,
                        syn.src,
                        downstream.sequence(key),
                        successor(syn.sequence),
                        downstream.window(key),
                    ),
                ),
            )
            &&& ready.step == then(Next::Finish)
            &&& ready.upstream.streams.contains(key)
            &&& ready.downstream.sequence(key) == successor(downstream.sequence(key))
            &&& ready.downstream.acknowledgement(key) == successor(syn.sequence)
            &&& given.step == then(
                Next::Write {
                    key,
                    payload,
                    delivery: Delivery {
                        dst,
                        src_port: syn.src,
                        len: payload.len() as u32,
                        remaining: 65535,
                    },
                },
            )
        }),
{
    let dst = tcp_dst(syn);
    let asked = upstream.tcp_reaction(downstream, syn, Seq::empty());
    let answered = asked.upstream.connected_reaction(asked.downstream, syn, true);
    let job = Outgoing::Control { kind: TcpKind::AckSyn, dst, src_port: syn.src };
    assert(frames(answered.downstream.after(job), job.rest()) =~= Seq::empty());
    assert(settled(answered.downstream.after(job), job.rest()) == answered.downstream.after(job));
    let cache = Reordered::empty(tcp.sequence);
    let slots = cache.written(tcp.sequence, payload);
    lemma_leading_is(slots, payload.len());
    assert(cache.released(tcp.sequence, payload) =~= payload);
}

/// Segments of a connection without a stream change nothing, except that a SYN asks for a stream.
/// An ACK and a FIN are answered with a RST, a RST is not answered.
pub proof fn law_unknown_connection_is_refused(
    upstream: UpstreamState,
    downstream: DownstreamState,
    tcp: Tcp,
    payload: Seq<u8>,
)
    requires
        !upstream.streams.contains(tcp_key(tcp)),
        tcp.is_rst || tcp.is_ack || !tcp.is_syn,
    ensures
        ({
            let reaction = upstream.tcp_reaction(downstream, tcp, payload);
            &&& reaction.upstream == upstream
            &&& reaction.downstream == downstream
            &&& reaction.step == if !tcp.is_rst && (tcp.is_ack || tcp.is_fin) {
                reply(TcpKind::Rst, tcp_dst(tcp), tcp.src, AfterTransmit::Finish)
            } else {
                then(Next::Finish)
            }
        }),
{
}

/// A SYN of a connection with a stream changes nothing and is not answered.
pub proof fn law_repeated_syn_is_ignored(
    upstream: UpstreamState,
    downstream: DownstreamState,
    tcp: Tcp,
    payload: Seq<u8>,
)
    requires
        upstream.streams.contains(tcp_key(tcp)),
        !tcp.is_rst && !tcp.is_ack && tcp.is_syn,
    ensures
        upstream.tcp_reaction(downstream, tcp, payload) == upstream.ignore(downstream),
{
}

/// Whether nothing is known of a connection.
pub open spec fn is_forgotten(
    upstream: UpstreamState,
    downstream: DownstreamState,
    key: u64,
) -> bool {
    &&& !upstream.streams.contains(key)
    &&& !upstream.sequences.contains_key(key)
    &&& !upstream.acknowledgements.contains_key(key)
    &&& !upstream.duplicates.contains_key(key)
    &&& !upstream.retransmissions.contains_key(key)
    &&& !upstream.caches.contains_key(key)
    &&& !downstream.send_windows.contains_key(key)
    &&& !downstream.sequences.contains_key(key)
    &&& !downstream.acknowledgements.contains_key(key)
    &&& !downstream.windows.contains_key(key)
    &&& !downstream.sent.contains_key(key)
    &&& !downstream.unsent.contains_key(key)
}

/// A connection that ends, by a RST of the source, an ACK after its stream was closed or a stream
/// that cannot be written, is forgotten on both sides, and its worker is dropped. In the last case
/// a RST is sent to the source before, and `sent` stands for the other side after that.
pub proof fn law_ended_connection_is_forgotten(
    upstream: UpstreamState,
    downstream: DownstreamState,
    tcp: Tcp,
    payload: Seq<u8>,
    now: u64,
    delivery: Delivery,
    sent: DownstreamState,
)
    requires
        upstream.streams.contains(tcp_key(tcp)),
        delivery.dst == tcp_dst(tcp) && delivery.src_port == tcp.src,
    ensures
        ({
            let key = tcp_key(tcp);
            let dst = tcp_dst(tcp);
            let reset = upstream.rst_reaction(downstream, tcp);
            let closed = upstream.inspected_reaction(downstream, tcp, payload, true, now);
            let failed = upstream.written_reaction(downstream, delivery, false);
            let after = AfterTransmit::Reset { dst, src_port: tcp.src, failure: Failure::Stream };
            let end = failed.upstream.transmitted_reaction(sent, after, true, now);
            &&& is_forgotten(reset.upstream, reset.downstream, key)
            &&& reset.step.command == Command::Drop(key)
            &&& reset.step.next is Finish
            &&& is_forgotten(closed.upstream, closed.downstream, key)
            &&& closed.step.command == Command::Drop(key)
            &&& closed.step.next is Finish
            &&& failed.step == Step {
                command: Command::Drop(key),
                next: reply(TcpKind::AckRst, dst, tcp.src, after).next,
            }
            &&& is_forgotten(end.upstream, end.downstream, key)
            &&& end.step == then(Next::Fail(Failure::Stream))
        }),
{
}

/// A SYN for which no stream can be connected is acknowledged with a RST, and the connection is
/// then forgotten on both sides, where `sent` stands for the other side after the RST was sent.
pub proof fn law_refused_stream_is_forgotten(
    upstream: UpstreamState,
    downstream: DownstreamState,
    tcp: Tcp,
    now: u64,
    sent: DownstreamState,
)
    requires
        !upstream.streams.contains(tcp_key(tcp)),
    ensures
        ({
            let key = tcp_key(tcp);
            let dst = tcp_dst(tcp);
            let asked = upstream.syn_reaction(downstream, tcp);
            let refused = asked.upstream.connected_reaction(asked.downstream, tcp, false);
            let after = AfterTransmit::Reset { dst, src_port: tcp.src, failure: Failure::Connect };
            let end = refused.upstream.transmitted_reaction(sent, after, true, now);
            &&& refused.downstream.acknowledgement(key) == successor(tcp.sequence)
            &&& refused.step == reply(TcpKind::AckRst, dst, tcp.src, after)
            &&& is_forgotten(end.upstream, end.downstream, key)
            &&& end.step == then(Next::Fail(Failure::Connect))
        }),
{
}

/// A FIN of a connection with a stream closes the stream and is answered with a FIN exactly when no
/// byte waits to be sent or acknowledged, otherwise it changes nothing but lets waiting bytes go.
pub proof fn law_fin_waits_for_data(
    upstream: UpstreamState,
    downstream: DownstreamState,
    tcp: Tcp,
)
    requires
        upstream.streams.contains(tcp_key(tcp)),
    ensures
        ({
            let key = tcp_key(tcp);
            let reaction = upstream.fin_reaction(downstream, tcp);
            let is_done = downstream.sent_len(key) == 0 && downstream.unsent_len(key) == 0;
            &&& reaction.upstream == upstream
            &&& (reaction.step.command == Command::Close(key)) == is_done
            &&& is_done ==> reaction.downstream == downstream && reaction.step.next == reply(
                TcpKind::AckFin,
                tcp_dst(tcp),
                tcp.src,
                AfterTransmit::Finish,
            ).next
            &&& !is_done ==> reaction == upstream.flush(downstream, tcp_dst(tcp), tcp.src)
        }),
{
}

/// The state after the recorded acknowledgement was seen `n` more times.
pub open spec fn repeated(state: UpstreamState, key: u64, n: nat) -> UpstreamState
    decreases n,
{
    if n == 0 {
        state
    } else {
        let before = repeated(state, key, (n - 1) as nat);
        before.acknowledgement_seen(key, before.acknowledgement(key))
    }
}

/// Repeated acknowledgements are counted from the last new one on, up to `usize::MAX`.
pub proof fn law_duplicates_are_counted(state: UpstreamState, key: u64, n: nat)
    ensures
        repeated(state, key, n).duplicate(key) == if state.duplicate(key) + n <= usize::MAX {
            state.duplicate(key) + n
        } else {
            usize::MAX as int
        },
        repeated(state, key, n).acknowledgement(key) == state.acknowledgement(key),
        repeated(state, key, n).retransmissions == state.retransmissions,
    decreases n,
{
    if n > 0 {
        law_duplicates_are_counted(state, key, (n - 1) as nat);
    }
}

/// An acknowledgement of further bytes starts the count again.
pub proof fn law_new_acknowledgement_resets_count(
    state: UpstreamState,
    key: u64,
    acknowledgement: u32,
)
    requires
        0 < gap(state.acknowledgement(key), acknowledgement) < MAX_U32_WINDOW_SIZE,
    ensures
        state.acknowledgement_seen(key, acknowledgement).duplicate(key) == 0,
        state.acknowledgement_seen(key, acknowledgement).acknowledgement(key) == acknowledgement,
{
}

/// A connection whose count starts at 0 is due for its first retransmission with the fourth
/// repeated acknowledgement that leaves the window open, and not before.
pub proof fn law_retransmission_takes_duplicates(
    state: UpstreamState,
    tcp: Tcp,
    n: nat,
    now: u64,
)
    requires
        state.duplicate(tcp_key(tcp)) == 0,
        !state.retransmissions.contains_key(tcp_key(tcp)),
    ensures
        repeated(state, tcp_key(tcp), n).is_retransmission_due(tcp, now) == (n >= 4 && tcp.window
            > 0),
{
    law_duplicates_are_counted(state, tcp_key(tcp), n);
}

/// After a retransmission the next one is not due before four more repeated acknowledgements and
/// the end of the interval, and is due then, if the window is open.
pub proof fn law_retransmission_cools_down(
    state: UpstreamState,
    tcp: Tcp,
    before: u64,
    n: nat,
    now: u64,
)
    ensures
        repeated(
            state.retransmitted(tcp_key(tcp), before),
            tcp_key(tcp),
            n,
        ).is_retransmission_due(tcp, now) == (n >= 4 && tcp.window > 0 && now >= before
            + RETRANSMISSION_INTERVAL),
{
    law_duplicates_are_counted(state.retransmitted(tcp_key(tcp), before), tcp_key(tcp), n);
}

/// Whether two maps hold the same for `key`.
pub open spec fn same_at<V>(a: Map<u64, V>, b: Map<u64, V>, key: u64) -> bool {
    &&& a.contains_key(key) == b.contains_key(key)
    &&& a.contains_key(key) ==> a[key] == b[key]
}

/// Whether `a` and `b` know the same of the connection `key`.
pub open spec fn knows_same(a: UpstreamState, b: UpstreamState, key: u64) -> bool {
    &&& a.streams.contains(key) == b.streams.contains(key)
    &&& same_at(a.sequences, b.sequences, key)
    &&& same_at(a.acknowledgements, b.acknowledgements, key)
    &&& same_at(a.duplicates, b.duplicates, key)
    &&& same_at(a.retransmissions, b.retransmissions, key)
    &&& same_at(a.caches, b.caches, key)
}

/// Whether `a` and `b` have given the same local UDP ports.
pub open spec fn gave_same(a: UpstreamState, b: UpstreamState) -> bool {
    &&& a.datagrams == b.datagrams
    &&& a.datagram_map == b.datagram_map
    &&& a.datagram_reverse_map == b.datagram_reverse_map
    &&& a.next_udp_port == b.next_udp_port
}

/// Whether a reaction leaves the connection `key` and the UDP ports as they were.
pub open spec fn spares(
    reaction: Reaction,
    upstream: UpstreamState,
    downstream: DownstreamState,
    key: u64,
) -> bool {
    &&& knows_same(reaction.upstream, upstream, key)
    &&& gave_same(reaction.upstream, upstream)
    &&& agree_on(reaction.downstream, downstream, key)
}

/// What a segment of one connection brings about, from its arrival to the last step, leaves other
/// connections and the UDP ports as they were.
pub proof fn law_segments_spare_other_connections(
    upstream: UpstreamState,
    downstream: DownstreamState,
    tcp: Tcp,
    payload: Seq<u8>,
    flag: bool,
    now: u64,
    delivery: Delivery,
    after: AfterTransmit,
    other: u64,
)
    requires
        other != tcp_key(tcp),
        delivery.dst == tcp_dst(tcp) && delivery.src_port == tcp.src,
        match after {
            AfterTransmit::Finish => true,
            AfterTransmit::Flush { dst, src_port } => dst == tcp_dst(tcp) && src_port == tcp.src,
            AfterTransmit::Retransmitted { dst, src_port } => dst == tcp_dst(tcp) && src_port
                == tcp.src,
            AfterTransmit::Reset { dst, src_port, .. } => dst == tcp_dst(tcp) && src_port
                == tcp.src,
            AfterTransmit::Established { dst, src_port } => dst == tcp_dst(tcp) && src_port
                == tcp.src,
        },
    ensures
        spares(
            upstream.tcp_reaction(downstream, tcp, payload),
            upstream,
            downstream,
            other,
        ),
        spares(
            upstream.inspected_reaction(downstream, tcp, payload, flag, now),
            upstream,
            downstream,
            other,
        ),
        spares(
            upstream.written_reaction(downstream, delivery, flag),
            upstream,
            downstream,
            other,
        ),
        spares(
            upstream.connected_reaction(downstream, tcp, flag),
            upstream,
            downstream,
            other,
        ),
        spares(
            upstream.transmitted_reaction(downstream, after, flag, now),
            upstream,
            downstream,
            other,
        ),
{
}

/// The hardware address of the source is learned from the first packet of the source, and then
/// kept.
pub proof fn law_first_hardware_addr_is_kept(
    upstream: UpstreamState,
    downstream: DownstreamState,
    first: HardwareAddr,
    second: HardwareAddr,
)
    requires
        !upstream.is_tx_src_hardware_addr_set,
    ensures
        ({
            let (upstream1, downstream1) = upstream.source_seen(downstream, first);
            let (upstream2, downstream2) = upstream1.source_seen(downstream1, second);
            &&& downstream1.src_hardware_addr == first
            &&& upstream2 == upstream1
            &&& downstream2 == downstream1
        }),
{
}

/// Packets of other hosts change nothing and are not answered.
pub proof fn law_other_hosts_are_ignored(
    upstream: UpstreamState,
    downstream: DownstreamState,
    indicator: Indicator,
    buffer: Seq<u8>,
)
    requires
        match indicator.network {
            Some(Network::Arp(arp)) => arp.src_ip_addr != upstream.src_ip_addr,
            Some(Network::Ipv4(ipv4)) => ipv4.src != upstream.src_ip_addr,
            None => true,
        },
    ensures
        upstream.frame_reaction(downstream, Some(indicator), buffer) == upstream.ignore(downstream),
{
}

/// Ports of the source other than 0 are given different local UDP ports.
pub proof fn law_local_ports_are_distinct(state: UpstreamState, p: u16, q: u16)
    requires
        state.wf(),
        0 < p < SOURCE_PORT_COUNT,
        0 < q < SOURCE_PORT_COUNT,
        p != q,
        state.local_port(p) != 0,
        state.local_port(q) != 0,
    ensures
        state.local_port(p) != state.local_port(q),
{
}

/// A port of the source gets one of the local UDP ports when it first sends, and the same
/// one when it sends again.
pub proof fn law_local_port_is_kept(state: UpstreamState, src_port: u16)
    requires
        state.wf(),
        src_port < SOURCE_PORT_COUNT,
    ensures
        ({
            let after = state.port_given(src_port);
            &&& INITIAL_PORT <= after.local_port(src_port) < INITIAL_PORT + PORT_COUNT
            &&& after.port_given(src_port) == after
            &&& state.local_port(src_port) != 0 ==> after == state
        }),
{
}

/// The ports of the source other than 0 that have a local UDP port.
pub open spec fn holders(state: UpstreamState) -> Set<int> {
    Set::new(|p: int| 0 < p < SOURCE_PORT_COUNT && state.datagram_map[p] != 0)
}

/// Each port of the source other than 0 that has a local UDP port is the one that the local port
/// was given to, and there are never more of them than local ports.
pub proof fn law_local_ports_are_enough(state: UpstreamState)
    requires
        state.wf(),
    ensures
        forall|p: int| #[trigger]
            holders(state).contains(p) ==> INITIAL_PORT <= state.datagram_map[p] < INITIAL_PORT
                + PORT_COUNT && state.datagram_reverse_map[state.datagram_map[p] - INITIAL_PORT]
                == p,
        holders(state).finite(),
        holders(state).len() <= PORT_COUNT,
        INITIAL_PORT <= state.next_udp_port < INITIAL_PORT + PORT_COUNT,
{
    let all = holders(state);
    let place = |p: int| state.datagram_map[p] - INITIAL_PORT;
    let places = set_int_range(0, PORT_COUNT as int);
    lemma_int_range(0, SOURCE_PORT_COUNT as int);
    lemma_len_subset(all, set_int_range(0, SOURCE_PORT_COUNT as int));
    lemma_int_range(0, PORT_COUNT as int);
    assert(injective_on(place, all));
    lemma_map_size(all, all.map(place), place);
    lemma_len_subset(all.map(place), places);
}

/// Giving a port of the source a local UDP port keeps the tables proper, and takes the local port
/// of at most one other port of the source, which is not 0.
pub proof fn law_giving_takes_from_one(state: UpstreamState, src_port: u16, p: u16, q: u16)
    requires
        state.wf(),
        src_port < SOURCE_PORT_COUNT,
        p < SOURCE_PORT_COUNT && p != src_port,
        q < SOURCE_PORT_COUNT && q != src_port,
    ensures
        ({
            let after = state.port_given(src_port);
            &&& after.wf()
            &&& after.local_port(p) == state.local_port(p) || after.local_port(p) == 0
            &&& after.local_port(0) == state.local_port(0) || src_port == 0
            &&& after.local_port(p) != state.local_port(p) && after.local_port(q)
                != state.local_port(q) ==> p == q
        }),
{
}

/// The state after ports of the source have sent, one after another.
pub open spec fn ports_given(state: UpstreamState, src_ports: Seq<u16>) -> UpstreamState
    decreases src_ports.len(),
{
    if src_ports.len() == 0 {
        state
    } else {
        ports_given(state, src_ports.drop_last()).port_given(src_ports.last())
    }
}

/// The number of local UDP ports that are given before `port`.
pub open spec fn turn_of(state: UpstreamState, port: u16) -> int {
    (port - state.next_udp_port) % (PORT_COUNT as int)
}

proof fn lemma_port_stays(state: UpstreamState, src_port: u16, src_ports: Seq<u16>)
    requires
        state.wf(),
        src_port < SOURCE_PORT_COUNT,
        state.local_port(src_port) != 0,
        turn_of(state, state.local_port(src_port)) == PORT_COUNT - 1,
        src_ports.len() < PORT_COUNT,
        forall|i: int| 0 <= i < src_ports.len() ==> #[trigger] src_ports[i] < SOURCE_PORT_COUNT,
    ensures
        ports_given(state, src_ports).wf(),
        ports_given(state, src_ports).local_port(src_port) == state.local_port(src_port),
        turn_of(ports_given(state, src_ports), state.local_port(src_port)) >= PORT_COUNT - 1
            - src_ports.len(),
    decreases src_ports.len(),
{
    if src_ports.len() > 0 {
        let before = ports_given(state, src_ports.drop_last());
        lemma_port_stays(state, src_port, src_ports.drop_last());
        let index = before.next_udp_port - INITIAL_PORT;
        if before.datagram_reverse_map[index] != 0 {
            assert(before.datagram_map[before.datagram_reverse_map[index] as int]
                == before.next_udp_port);
        }
    }
}

/// A port of the source keeps the local UDP port that it was given until all other local ports were
/// given.
pub proof fn law_local_port_outlasts_others(
    state: UpstreamState,
    src_port: u16,
    src_ports: Seq<u16>,
)
    requires
        state.wf(),
        src_port < SOURCE_PORT_COUNT,
        state.local_port(src_port) == 0,
        src_ports.len() < PORT_COUNT,
        forall|i: int| 0 <= i < src_ports.len() ==> #[trigger] src_ports[i] < SOURCE_PORT_COUNT,
    ensures
        ports_given(state.port_given(src_port), src_ports).local_port(src_port)
            == state.port_given(src_port).local_port(src_port),
        state.port_given(src_port).local_port(src_port) == state.next_udp_port,
{
    let given = state.port_given(src_port);
    lemma_port_stays(given, src_port, src_ports);
}

/// A datagram of the source goes out, with its payload and to its destination, only through the
/// worker at its local UDP port, and when that worker serves the port that sent it.
pub proof fn law_datagram_goes_through_its_port(
    upstream: UpstreamState,
    downstream: DownstreamState,
    udp: Udp,
    payload: Seq<u8>,
    is_closed: bool,
    is_bound: bool,
)
    requires
        upstream.wf(),
        udp.src < SOURCE_PORT_COUNT,
    ensures
        ({
            let first = upstream.udp_reaction(downstream, udp, payload);
            let port = first.upstream.local_port(udp.src);
            let index = (port - INITIAL_PORT) as usize;
            let (upstream2, step2) = first.upstream.datagram_inspected(
                index,
                udp,
                payload,
                is_closed,
            );
            let (upstream3, step3) = first.upstream.datagram_bound(
                index,
                udp.src,
                udp_dst(udp),
                payload,
                is_bound,
            );
            let send = Next::<Outgoing, Seq<u8>>::SendDatagram {
                index,
                dst: udp_dst(udp),
                payload,
            };
            let bind = Next::Bind {
                index,
                src_port: udp.src,
                local_port: port,
                remote: upstream.remote,
                dst: udp_dst(udp),
                payload,
            };
            &&& INITIAL_PORT <= port < INITIAL_PORT + PORT_COUNT
            &&& first.step == then(
                if first.upstream.datagrams[index as int] is Some {
                    Next::InspectDatagram { index, udp, payload }
                } else {
                    bind
                },
            )
            &&& is_closed ==> step2 == then(bind)
            &&& step2.next == bind || {
                &&& step2.next == send
                &&& upstream2.datagrams[index as int] == Some(udp.src)
                &&& upstream2.datagrams != first.upstream.datagrams ==> step2.command
                    == Command::SetSource { index, src_port: udp.src }
            }
            &&& step3 == then(
                if is_bound {
                    send
                } else {
                    Next::Fail(Failure::Bind)
                },
            )
            &&& is_bound ==> upstream3.datagrams[index as int] == Some(udp.src)
        }),
{
    law_local_port_is_kept(upstream, udp.src);
}

/// Datagrams leave connections as they were.
pub proof fn law_datagrams_spare_connections(
    upstream: UpstreamState,
    downstream: DownstreamState,
    udp: Udp,
    payload: Seq<u8>,
    index: usize,
    flag: bool,
    key: u64,
)
    ensures
        ({
            let first = upstream.udp_reaction(downstream, udp, payload);
            let (upstream2, _) = upstream.datagram_inspected(index, udp, payload, flag);
            let (upstream3, _) = upstream.datagram_bound(
                index,
                udp.src,
                udp_dst(udp),
                payload,
                flag,
            );
            &&& knows_same(first.upstream, upstream, key)
            &&& first.downstream == downstream
            &&& knows_same(upstream2, upstream, key)
            &&& knows_same(upstream3, upstream, key)
        }),
{
}

/// Whether the outcome of a step can be handed back: a connection that is inspected has a stream,
/// and datagram workers are asked for by a place in their table.
pub open spec fn can_carry_on(upstream: UpstreamState, next: Next<Outgoing, Seq<u8>>) -> bool {
    match next {
        Next::Inspect { key, tcp, .. } => key == tcp_key(tcp) && upstream.streams.contains(key),
        Next::InspectDatagram { index, .. } => index < PORT_COUNT,
        Next::Bind { index, .. } => index < PORT_COUNT,
        _ => true,
    }
}

/// The outcome of what a frame, alone or reassembled, and the inspection of a datagram worker ask
/// for can be handed back.
pub proof fn law_steps_can_carry_on(
    upstream: UpstreamState,
    downstream: DownstreamState,
    indicator: Indicator,
    buffer: Seq<u8>,
    index: usize,
    udp: Udp,
    payload: Seq<u8>,
    is_closed: bool,
)
    requires
        upstream.wf(),
        index < PORT_COUNT,
    ensures
        upstream.admits(indicator, buffer.len() as int) ==> {
            let reaction = upstream.frame_reaction(downstream, Some(indicator), buffer);
            can_carry_on(reaction.upstream, reaction.step.next)
        },
        is_bindable(indicator, buffer.len() as int) ==> {
            let reaction = upstream.transport_reaction(downstream, indicator, buffer);
            can_carry_on(reaction.upstream, reaction.step.next)
        },
        ({
            let (after, step) = upstream.datagram_inspected(index, udp, payload, is_closed);
            can_carry_on(after, step.next)
        }),
{
    if let Some(Transport::Udp(udp)) = indicator.transport {
        if udp.src < SOURCE_PORT_COUNT {
            law_local_port_is_kept(upstream, udp.src);
            let (seen, _) = upstream.source_seen(downstream, indicator.link.src);
            law_local_port_is_kept(seen, udp.src);
        }
    }
}

/// The most outcomes that are still to come after a step.
pub open spec fn steps_left(next: Next<Outgoing, Seq<u8>>) -> nat {
    match next {
        Next::Finish => 0,
        Next::Fail(_) => 0,
        Next::Transmit { then, .. } => match then {
            AfterTransmit::Finish => 1,
            AfterTransmit::Flush { .. } => 2,
            AfterTransmit::Retransmitted { .. } => 2,
            AfterTransmit::Reset { .. } => 1,
            AfterTransmit::Established { .. } => 1,
        },
        Next::Write { .. } => 3,
        Next::Inspect { .. } => 4,
        Next::Connect { .. } => 2,
        Next::SendDatagram { .. } => 1,
        Next::Bind { .. } => 2,
        Next::InspectDatagram { .. } => 3,
        Next::Reassemble => 5,
    }
}

/// The handling of a frame ends after at most five outcomes: each outcome leaves fewer to come.
pub proof fn law_handling_ends(
    upstream: UpstreamState,
    downstream: DownstreamState,
    frame: Option<Indicator>,
    indicator: Indicator,
    buffer: Seq<u8>,
    tcp: Tcp,
    udp: Udp,
    payload: Seq<u8>,
    delivery: Delivery,
    after: AfterTransmit,
    index: usize,
    flag: bool,
    now: u64,
)
    ensures
        steps_left(upstream.frame_reaction(downstream, frame, buffer).step.next) <= 5,
        steps_left(upstream.transport_reaction(downstream, indicator, buffer).step.next)
            < steps_left(Next::Reassemble),
        steps_left(
            upstream.inspected_reaction(downstream, tcp, payload, flag, now).step.next,
        ) < steps_left(Next::Inspect { key: tcp_key(tcp), tcp, payload }),
        steps_left(upstream.written_reaction(downstream, delivery, flag).step.next) < steps_left(
            Next::Write { key: tcp_key(tcp), payload, delivery },
        ),
        steps_left(upstream.connected_reaction(downstream, tcp, flag).step.next) < steps_left(
            Next::Connect {
                key: tcp_key(tcp),
                dst: tcp_dst(tcp),
                remote: upstream.remote,
                tcp,
            },
        ),
        steps_left(
            upstream.transmitted_reaction(downstream, after, flag, now).step.next,
        ) < steps_left(Next::Transmit { job: Outgoing::Complete, then: after }),
        steps_left(upstream.datagram_inspected(index, udp, payload, flag).1.next) < steps_left(
            Next::InspectDatagram { index, udp, payload },
        ),
        steps_left(
            upstream.datagram_bound(index, udp.src, udp_dst(udp), payload, flag).1.next,
        ) < steps_left(upstream.bind(index, udp, payload)),
        steps_left(datagram_sent(flag).next) < steps_left(
            Next::SendDatagram { index, dst: udp_dst(udp), payload },
        ),
{
}

/// Whether a reaction leaves everything as it was and asks for nothing.
pub open spec fn is_ignored(
    reaction: Reaction,
    upstream: UpstreamState,
    downstream: DownstreamState,
) -> bool {
    &&& reaction.upstream == upstream
    &&& reaction.downstream == downstream
    &&& reaction.step.command == Command::Nothing
    &&& reaction.step.next is Finish
}

/// Whether a step sends one segment without payload, and then carries on with `after`.
pub open spec fn is_answer(
    step: Step<Outgoing, Seq<u8>>,
    kind: TcpKind,
    dst: SocketAddrV4,
    src_port: u16,
    after: AfterTransmit,
) -> bool {
    step.next matches Next::Transmit { job, then } && job == (Outgoing::Control {
        kind,
        dst,
        src_port,
    }) && then == after
}

/// A frame is answered as its layers ask. An ARP request of the source for the local IP address is
/// answered with an ARP reply, and no other ARP packet does anything. A fragment of the source
/// waits for the others. Either of them tells the hardware address of the source if it is not
/// known.
pub proof fn law_frames_are_told_apart(
    upstream: UpstreamState,
    downstream: DownstreamState,
    indicator: Indicator,
    buffer: Seq<u8>,
)
    ensures
        ({
            let reaction = upstream.frame_reaction(downstream, Some(indicator), buffer);
            &&& is_ignored(
                upstream.frame_reaction(downstream, None, buffer),
                upstream,
                downstream,
            )
            &&& match indicator.network {
                None => is_ignored(reaction, upstream, downstream),
                Some(Network::Arp(arp)) => if arp.is_request && arp.src_ip_addr
                    == upstream.src_ip_addr && upstream.local_ip_addr == Some(arp.dst_ip_addr) {
                    &&& reaction.step.command == Command::Nothing
                    &&& reaction.step.next matches Next::Transmit { job, then } && job
                        == Outgoing::ArpReply && then == AfterTransmit::Finish
                    &&& learns(reaction, upstream, downstream, arp.src_hardware_addr)
                } else {
                    is_ignored(reaction, upstream, downstream)
                },
                Some(Network::Ipv4(ipv4)) => if ipv4.src != upstream.src_ip_addr {
                    is_ignored(reaction, upstream, downstream)
                } else {
                    &&& ipv4.more_fragments || ipv4.fragment_offset > 0 ==> {
                        &&& reaction.step.command == Command::Nothing
                        &&& reaction.step.next is Reassemble
                        &&& learns(reaction, upstream, downstream, indicator.link.src)
                    }
                    &&& !ipv4.more_fragments && ipv4.fragment_offset == 0
                        && indicator.transport is None ==> {
                        &&& reaction.step.command == Command::Nothing
                        &&& reaction.step.next is Finish
                        &&& learns(reaction, upstream, downstream, indicator.link.src)
                    }
                    &&& reaction.upstream.is_tx_src_hardware_addr_set
                    &&& reaction.downstream.src_hardware_addr
                        == if upstream.is_tx_src_hardware_addr_set {
                        downstream.src_hardware_addr
                    } else {
                        indicator.link.src
                    }
                },
            }
        }),
{
}

/// Whether a reaction changes nothing but the hardware address of the source, which it sets if it
/// was not known.
pub open spec fn learns(
    reaction: Reaction,
    upstream: UpstreamState,
    downstream: DownstreamState,
    hardware_addr: HardwareAddr,
) -> bool {
    &&& reaction.upstream == UpstreamState { is_tx_src_hardware_addr_set: true, ..upstream }
    &&& reaction.downstream == DownstreamState {
        src_hardware_addr: if upstream.is_tx_src_hardware_addr_set {
            downstream.src_hardware_addr
        } else {
            hardware_addr
        },
        ..downstream
    }
}

/// The payload of a TCP segment of a connection with a stream is what follows its headers, however
/// long the IPv4 and the TCP header are, in a single packet as in a reassembled one.
pub proof fn law_segment_payload_follows_headers(
    upstream: UpstreamState,
    downstream: DownstreamState,
    indicator: Indicator,
    ipv4: Ipv4,
    tcp: Tcp,
    headers: Seq<u8>,
    payload: Seq<u8>,
)
    requires
        indicator.network == Some(Network::Ipv4(ipv4)),
        indicator.transport == Some(Transport::Tcp(tcp)),
        headers.len() == 14 + ipv4.header_size + tcp.header_size,
        ipv4.src == upstream.src_ip_addr,
        !ipv4.more_fragments && ipv4.fragment_offset == 0,
        tcp.is_ack && !tcp.is_rst,
        upstream.streams.contains(
            flow(tcp.src, SocketAddrV4 { ip: tcp.dst_ip_addr, port: tcp.dst }),
        ),
    ensures
        ({
            let key = flow(tcp.src, SocketAddrV4 { ip: tcp.dst_ip_addr, port: tcp.dst });
            let inspect = Next::<Outgoing, Seq<u8>>::Inspect { key, tcp, payload };
            let single = upstream.frame_reaction(downstream, Some(indicator), headers + payload);
            let whole = upstream.transport_reaction(downstream, indicator, headers + payload);
            &&& single.step.command == Command::Nothing
            &&& single.step.next == inspect
            &&& learns(single, upstream, downstream, indicator.link.src)
            &&& whole.step.command == Command::Nothing
            &&& whole.step.next == inspect
            &&& whole.upstream == upstream
            &&& whole.downstream == downstream
        }),
{
    assert((headers + payload).skip(headers.len() as int) =~= payload);
    if payload.len() == 0 {
        assert(payload =~= Seq::empty());
    }
}

/// The payload of a datagram is what follows its headers, however long the IPv4 header is, and goes
/// to the destination of the datagram, in a single packet as in a reassembled one.
pub proof fn law_datagram_payload_follows_headers(
    upstream: UpstreamState,
    downstream: DownstreamState,
    indicator: Indicator,
    ipv4: Ipv4,
    udp: Udp,
    headers: Seq<u8>,
    payload: Seq<u8>,
)
    requires
        upstream.wf(),
        indicator.network == Some(Network::Ipv4(ipv4)),
        indicator.transport == Some(Transport::Udp(udp)),
        headers.len() == 14 + ipv4.header_size + 8,
        ipv4.src == upstream.src_ip_addr,
        !ipv4.more_fragments && ipv4.fragment_offset == 0,
        udp.src < 65535,
    ensures
        ({
            let single = upstream.frame_reaction(downstream, Some(indicator), headers + payload);
            let whole = upstream.transport_reaction(downstream, indicator, headers + payload);
            &&& serves(single, upstream, udp, payload)
            &&& serves(whole, upstream, udp, payload)
            &&& whole.downstream == downstream
            &&& whole.upstream.is_tx_src_hardware_addr_set == upstream.is_tx_src_hardware_addr_set
            &&& single.upstream.is_tx_src_hardware_addr_set
            &&& single.downstream == DownstreamState {
                src_hardware_addr: if upstream.is_tx_src_hardware_addr_set {
                    downstream.src_hardware_addr
                } else {
                    indicator.link.src
                },
                ..downstream
            }
        }),
{
    assert((headers + payload).skip(headers.len() as int) =~= payload);
    if payload.len() == 0 {
        assert(payload =~= Seq::empty());
    }
}

/// Whether a reaction looks for the worker at the local UDP port of a datagram, or binds one.
pub open spec fn serves(
    reaction: Reaction,
    upstream: UpstreamState,
    udp: Udp,
    payload: Seq<u8>,
) -> bool {
    let port = reaction.upstream.datagram_map[udp.src as int];
    &&& port != 0
    &&& reaction.step.command == Command::Nothing
    &&& reaction.upstream == UpstreamState {
        is_tx_src_hardware_addr_set: reaction.upstream.is_tx_src_hardware_addr_set,
        ..upstream.port_given(udp.src)
    }
    &&& reaction.upstream.datagrams == upstream.datagrams
    &&& match reaction.step.next {
        Next::InspectDatagram { index, udp: inspected, payload: bytes } => {
            &&& index == port - 32768
            &&& inspected == udp
            &&& bytes == payload
            &&& upstream.datagrams[index as int] is Some
        },
        Next::Bind { index, src_port, local_port, remote, dst, payload: bytes } => {
            &&& index == port - 32768
            &&& src_port == udp.src
            &&& local_port == port
            &&& remote == upstream.remote
            &&& dst.ip == udp.dst_ip_addr && dst.port == udp.dst
            &&& bytes == payload
            &&& upstream.datagrams[index as int] is None
        },
        _ => false,
    }
}

/// A datagram goes out through an open worker that serves its port, which is told the port if it
/// served another one, and a worker that is closed is bound anew.
pub proof fn law_open_worker_sends_datagram(
    upstream: UpstreamState,
    index: usize,
    udp: Udp,
    payload: Seq<u8>,
    src_port: u16,
    is_bound: bool,
    is_sent: bool,
)
    requires
        upstream.wf(),
        index < 64,
        upstream.datagrams[index as int] == Some(src_port),
    ensures
        ({
            let dst = SocketAddrV4 { ip: udp.dst_ip_addr, port: udp.dst };
            let send = Next::<Outgoing, Seq<u8>>::SendDatagram { index, dst, payload };
            let (opened, step) = upstream.datagram_inspected(index, udp, payload, false);
            let (closed, again) = upstream.datagram_inspected(index, udp, payload, true);
            let (bound, last) = upstream.datagram_bound(index, udp.src, dst, payload, is_bound);
            &&& step.next == send
            &&& step.command == if src_port == udp.src {
                Command::Nothing
            } else {
                Command::SetSource { index, src_port: udp.src }
            }
            &&& opened == UpstreamState {
                datagrams: upstream.datagrams.update(index as int, Some(udp.src)),
                ..upstream
            }
            &&& closed == upstream
            &&& again.command == Command::Nothing
            &&& again.next == Next::<Outgoing, Seq<u8>>::Bind {
                index,
                src_port: udp.src,
                local_port: (32768 + index) as u16,
                remote: upstream.remote,
                dst,
                payload,
            }
            &&& last.command == Command::Nothing
            &&& is_bound ==> last.next == send && bound == UpstreamState {
                datagrams: upstream.datagrams.update(index as int, Some(udp.src)),
                ..upstream
            }
            &&& !is_bound ==> (last.next matches Next::Fail(failure) && failure == Failure::Bind)
                && bound == upstream
            &&& datagram_sent(true).command == Command::Nothing
            &&& datagram_sent(true).next is Finish
            &&& datagram_sent(false).command == Command::Nothing
            &&& datagram_sent(false).next matches Next::Fail(failure) && failure
                == Failure::Datagram
        }),
{
    let (opened, _) = upstream.datagram_inspected(index, udp, payload, false);
    assert(opened.datagrams =~= upstream.datagrams.update(index as int, Some(udp.src)));
}

/// A datagram for a local UDP port without a worker has one bound for it.
pub proof fn law_missing_worker_is_bound(
    upstream: UpstreamState,
    index: usize,
    udp: Udp,
    payload: Seq<u8>,
    is_closed: bool,
)
    requires
        index < 64,
        upstream.datagrams[index as int] is None,
    ensures
        ({
            let (after, step) = upstream.datagram_inspected(index, udp, payload, is_closed);
            &&& after == upstream
            &&& step.command == Command::Nothing
            &&& step.next == Next::<Outgoing, Seq<u8>>::Bind {
                index,
                src_port: udp.src,
                local_port: (32768 + index) as u16,
                remote: upstream.remote,
                dst: SocketAddrV4 { ip: udp.dst_ip_addr, port: udp.dst },
                payload,
            }
        }),
{
}

/// The first of the flags RST, ACK, SYN and FIN that is set decides what becomes of a segment. With
/// a stream, a RST ends the connection, an ACK is inspected, a SYN is ignored, and a FIN is
/// answered once no byte waits. Without a stream, a SYN asks for one, an ACK and a FIN are refused,
/// and a RST is ignored.
pub proof fn law_first_flag_decides(
    upstream: UpstreamState,
    downstream: DownstreamState,
    tcp: Tcp,
    payload: Seq<u8>,
)
    ensures
        ({
            let dst = SocketAddrV4 { ip: tcp.dst_ip_addr, port: tcp.dst };
            let key = flow(tcp.src, dst);
            let has_stream = upstream.streams.contains(key);
            let reaction = upstream.tcp_reaction(downstream, tcp, payload);
            if tcp.is_rst {
                if has_stream {
                    &&& is_forgotten(reaction.upstream, reaction.downstream, key)
                    &&& reaction.upstream == upstream.removed(key)
                    &&& reaction.downstream == downstream.removed(key)
                    &&& reaction.step.command == Command::Drop(key)
                    &&& reaction.step.next is Finish
                } else {
                    is_ignored(reaction, upstream, downstream)
                }
            } else if tcp.is_ack {
                &&& reaction.upstream == upstream
                &&& reaction.downstream == downstream
                &&& reaction.step.command == Command::Nothing
                &&& has_stream ==> reaction.step.next == Next::<Outgoing, Seq<u8>>::Inspect {
                    key,
                    tcp,
                    payload,
                }
                &&& !has_stream ==> is_answer(
                    reaction.step,
                    TcpKind::Rst,
                    dst,
                    tcp.src,
                    AfterTransmit::Finish,
                )
            } else if tcp.is_syn {
                if has_stream {
                    is_ignored(reaction, upstream, downstream)
                } else {
                    &&& reaction.downstream == downstream
                    &&& reaction.step.command == Command::Nothing
                    &&& reaction.step.next == Next::<Outgoing, Seq<u8>>::Connect {
                        key,
                        dst,
                        remote: upstream.remote,
                        tcp,
                    }
                    &&& reaction.upstream == UpstreamState {
                        sequences: reaction.upstream.sequences,
                        ..upstream
                    }
                    &&& notes_sequence(reaction.upstream, upstream, key, tcp.sequence)
                }
            } else if tcp.is_fin {
                &&& reaction.upstream == upstream
                &&& !has_stream ==> {
                    &&& reaction.downstream == downstream
                    &&& reaction.step.command == Command::Nothing
                    &&& is_answer(
                        reaction.step,
                        TcpKind::Rst,
                        dst,
                        tcp.src,
                        AfterTransmit::Finish,
                    )
                }
                &&& has_stream && sent_bytes(downstream, key).len() + unsent_bytes(
                    downstream,
                    key,
                ).len() == 0 ==> {
                    &&& reaction.downstream == downstream
                    &&& reaction.step.command == Command::Close(key)
                    &&& is_answer(
                        reaction.step,
                        TcpKind::AckFin,
                        dst,
                        tcp.src,
                        AfterTransmit::Finish,
                    )
                }
                &&& has_stream && sent_bytes(downstream, key).len() + unsent_bytes(
                    downstream,
                    key,
                ).len() > 0 ==> {
                    &&& reaction.step.command == Command::Nothing
                    &&& sends_remaining(reaction, downstream, dst, tcp.src)
                }
            } else {
                is_ignored(reaction, upstream, downstream)
            }
        }),
{
}

/// Whether a reaction sends remaining data of a connection, and asks for nothing after that.
pub open spec fn sends_remaining(
    reaction: Reaction,
    downstream: DownstreamState,
    dst: SocketAddrV4,
    src_port: u16,
) -> bool {
    &&& reaction.downstream == downstream.flushed(flow(src_port, dst))
    &&& reaction.step.next matches Next::Transmit { job, then } && job == downstream.flush(
        dst,
        src_port,
    ) && then == AfterTransmit::Finish
}

/// How far the number `to` lies ahead of `from`, where numbers past `u32::MAX` continue at 1.
pub open spec fn ahead(from: u32, to: u32) -> int {
    if from <= to {
        to - from
    } else {
        to - from + u32::MAX
    }
}

/// Whether `after` has noted a sequence number of the source that lies less than 262144 bytes ahead
/// of the one before, and no other.
pub open spec fn notes_sequence(
    after: UpstreamState,
    before: UpstreamState,
    key: u64,
    sequence: u32,
) -> bool {
    let recorded = if before.sequences.contains_key(key) {
        before.sequences[key]
    } else {
        0
    };
    after.sequences == if 0 < ahead(recorded, sequence) < 262144 {
        before.sequences.insert(key, sequence)
    } else {
        before.sequences
    }
}

/// Whether `after` has noted an acknowledgement of the source: one that lies less than 262144 bytes
/// ahead of the one before is recorded and starts the count of duplicates again, and the same one
/// is counted.
pub open spec fn notes_acknowledgement(
    after: UpstreamState,
    before: UpstreamState,
    key: u64,
    acknowledgement: u32,
) -> bool {
    let recorded = if before.acknowledgements.contains_key(key) {
        before.acknowledgements[key]
    } else {
        0
    };
    let count: int = if before.duplicates.contains_key(key) {
        before.duplicates[key] as int
    } else {
        0
    };
    let n = ahead(recorded, acknowledgement);
    if n == 0 {
        &&& after.acknowledgements == before.acknowledgements
        &&& after.duplicates.contains_key(key)
        &&& after.duplicates == before.duplicates.insert(key, after.duplicates[key])
        &&& after.duplicates[key] == if count < usize::MAX {
            count + 1
        } else {
            count
        }
    } else if n < 262144 {
        &&& after.acknowledgements == before.acknowledgements.insert(key, acknowledgement)
        &&& after.duplicates == before.duplicates.insert(key, 0)
    } else {
        &&& after.acknowledgements == before.acknowledgements
        &&& after.duplicates == before.duplicates
    }
}

/// Every ACK on an open stream, with or without payload, is noted: the bytes before its
/// acknowledgement leave the sent bytes of the connection, its window becomes the send window, and
/// its numbers are recorded. With payload no unsent byte is touched yet. Without payload all sent
/// bytes are sent again if the same acknowledgement came more than three times beside the first,
/// the window is open, and no retransmission was less than a second ago, and otherwise remaining
/// data is sent.
pub proof fn law_acknowledgement_is_noted(
    upstream: UpstreamState,
    downstream: DownstreamState,
    tcp: Tcp,
    payload: Seq<u8>,
    now: u64,
)
    ensures
        ({
            let dst = SocketAddrV4 { ip: tcp.dst_ip_addr, port: tcp.dst };
            let key = flow(tcp.src, dst);
            let reaction = upstream.inspected_reaction(downstream, tcp, payload, false, now);
            let after = reaction.downstream;
            let kept = if downstream.sent.contains_key(key) {
                left_after(
                    downstream.sent[key].sequence,
                    sent_bytes(downstream, key),
                    tcp.acknowledgement,
                )
            } else {
                Seq::empty()
            };
            let is_due = {
                &&& payload.len() == 0
                &&& reaction.upstream.duplicates.contains_key(key)
                &&& reaction.upstream.duplicates[key] >= 4
                &&& tcp.window > 0
                &&& upstream.retransmissions.contains_key(key) ==> now
                    >= upstream.retransmissions[key] + 1_000_000_000
            };
            &&& after == DownstreamState {
                send_windows: downstream.send_windows.insert(key, tcp.window),
                sent: after.sent,
                unsent: after.unsent,
                ..downstream
            }
            &&& notes_sequence(reaction.upstream, upstream, key, tcp.sequence)
            &&& notes_acknowledgement(reaction.upstream, upstream, key, tcp.acknowledgement)
            &&& reaction.upstream == UpstreamState {
                sequences: reaction.upstream.sequences,
                acknowledgements: reaction.upstream.acknowledgements,
                duplicates: reaction.upstream.duplicates,
                caches: reaction.upstream.caches,
                ..upstream
            }
            &&& reaction.step.command == Command::Nothing
            &&& payload.len() == 0 ==> reaction.upstream.caches == upstream.caches
            &&& payload.len() > 0 || is_due ==> {
                &&& sent_bytes(after, key) == kept
                &&& unsent_bytes(after, key) == unsent_bytes(downstream, key)
            }
            &&& downstream.sent.contains_key(key) ==> {
                &&& after.sent.contains_key(key)
                &&& after.sent[key].sequence == if ahead(
                    downstream.sent[key].sequence,
                    tcp.acknowledgement,
                ) < 262144 {
                    tcp.acknowledgement
                } else {
                    downstream.sent[key].sequence
                }
            }
            &&& is_due ==> (reaction.step.next matches Next::Transmit { job, then } && {
                &&& then == AfterTransmit::Retransmitted { dst, src_port: tcp.src }
                &&& kept.len() == 0 ==> job == Outgoing::Complete
                &&& kept.len() > 0 ==> job == Outgoing::Stream {
                    dst,
                    src_port: tcp.src,
                    sequence: after.sent[key].sequence,
                    payload: kept,
                    offset: 0,
                }
            })
            &&& payload.len() == 0 && !is_due ==> (reaction.step.next matches Next::Transmit {
                job,
                then,
            } && {
                let room = tcp.window - kept.len();
                let unsent = unsent_bytes(downstream, key);
                let n = if room <= 0 {
                    0
                } else if room < unsent.len() {
                    room
                } else {
                    unsent.len() as int
                };
                &&& then == AfterTransmit::Finish
                &&& sent_bytes(after, key) == kept + unsent.take(n)
                &&& unsent_bytes(after, key) == unsent.skip(n)
                &&& n == 0 ==> job == Outgoing::Complete
                &&& n > 0 ==> job == Outgoing::Stream {
                    dst,
                    src_port: tcp.src,
                    sequence: downstream.unsent[key].sequence,
                    payload: unsent.take(n),
                    offset: 0,
                }
            })
        }),
{
    let dst = SocketAddrV4 { ip: tcp.dst_ip_addr, port: tcp.dst };
    let key = flow(tcp.src, dst);
    let invalidated = downstream.invalidated(key, tcp.acknowledgement);
    let noted = DownstreamState {
        send_windows: invalidated.send_windows.insert(key, tcp.window),
        ..invalidated
    };
    law_acknowledged_bytes_leave(downstream, key, tcp.acknowledgement);
    law_flush_sends_next_bytes(noted, dst, tcp.src);
}

/// Payload on an open stream, with all bytes before it, is written to the stream at once and
/// accounted for. Payload that does not fit in the window of 65535 bytes is refused, and payload
/// that is old, or that comes early and stays in the cache, is answered with the acknowledgement of
/// the connection, after which remaining data is sent.
pub proof fn law_payload_is_written(
    upstream: UpstreamState,
    downstream: DownstreamState,
    tcp: Tcp,
    payload: Seq<u8>,
    now: u64,
)
    requires
        upstream.wf(),
        payload.len() > 0,
    ensures
        ({
            let dst = SocketAddrV4 { ip: tcp.dst_ip_addr, port: tcp.dst };
            let key = flow(tcp.src, dst);
            let reaction = upstream.inspected_reaction(downstream, tcp, payload, false, now);
            let slots = if upstream.caches.contains_key(key) {
                upstream.caches[key].slots
            } else {
                Seq::empty()
            };
            let first = if upstream.caches.contains_key(key) {
                upstream.caches[key].sequence
            } else {
                tcp.sequence
            };
            let n = ahead(first, tcp.sequence);
            let after = AfterTransmit::Flush { dst, src_port: tcp.src };
            &&& reaction.upstream.caches.contains_key(key)
            &&& reaction.upstream.caches == upstream.caches.insert(
                key,
                reaction.upstream.caches[key],
            )
            &&& n >= 262144 ==> {
                &&& is_answer(reaction.step, TcpKind::Ack, dst, tcp.src, after)
                &&& reaction.upstream.caches[key] == Reordered { sequence: first, slots }
            }
            &&& n < 262144 && n + payload.len() > 65535 ==> {
                &&& reaction.step.next matches Next::Fail(failure) && failure == Failure::Cache
                &&& reaction.upstream.caches[key] == Reordered { sequence: first, slots }
            }
            &&& 0 < n && n + payload.len() <= 65535 ==> {
                let cache = reaction.upstream.caches[key];
                &&& is_answer(reaction.step, TcpKind::Ack, dst, tcp.src, after)
                &&& cache.sequence == first
                &&& n + payload.len() <= cache.slots.len()
                &&& forall|i: int|
                    0 <= i < cache.slots.len() ==> #[trigger] cache.slots[i] == if n <= i < n
                        + payload.len() {
                        Some(payload[i - n])
                    } else if i < slots.len() {
                        slots[i]
                    } else {
                        None
                    }
            }
            &&& n == 0 && payload.len() <= 65535 ==> (reaction.step.next matches Next::Write {
                key: to,
                payload: bytes,
                delivery,
            } && {
                let cache = reaction.upstream.caches[key];
                &&& to == key
                &&& payload.len() <= bytes.len()
                &&& payload == bytes.take(payload.len() as int)
                &&& forall|i: int|
                    payload.len() <= i < bytes.len() ==> i < slots.len() && slots[i] == Some(
                        #[trigger] bytes[i],
                    )
                &&& bytes.len() < slots.len() ==> slots[bytes.len() as int] is None
                &&& slots.len() <= bytes.len() ==> cache.slots.len() == 0
                &&& bytes.len() < slots.len() ==> cache.slots == slots.skip(bytes.len() as int)
                &&& slots.len() == 0 ==> bytes == payload
                &&& cache.sequence == advanced(first, bytes.len() as int)
                &&& delivery.dst == dst && delivery.src_port == tcp.src
                &&& delivery.len == bytes.len()
                &&& delivery.remaining == 65535 - cache.slots.len()
            })
        }),
{
    let key = flow(tcp.src, SocketAddrV4 { ip: tcp.dst_ip_addr, port: tcp.dst });
    let cache = upstream.cache(key, tcp.sequence);
    let slots = cache.written(tcp.sequence, payload);
    lemma_leading(slots);
    let n = gap(cache.sequence, tcp.sequence);
    if !cache.is_stale(tcp.sequence) && cache.has_room_for(tcp.sequence, payload) {
        let count = leading(slots) as int;
        if n > 0 {
            law_early_segment_is_kept(cache, tcp.sequence, payload);
            assert(slots.skip(0) =~= slots);
        } else {
            law_expected_segment_is_released(cache, payload);
            let bytes = cache.released(tcp.sequence, payload);
            assert forall|i: int| payload.len() <= i < bytes.len() implies i < cache.slots.len()
                && cache.slots[i] == Some(#[trigger] bytes[i]) by {
                assert(slots[i] is Some);
            }
            if count < cache.slots.len() {
                assert(slots.skip(count) =~= cache.slots.skip(count));
            }
            if cache.slots.len() == 0 {
                assert(bytes =~= payload);
            }
        }
    }
}

/// Payload that was written is acknowledged byte by byte and the window is announced anew, after
/// which remaining data is sent. A write that failed drops the stream with all that is known of it
/// here, and is answered with a RST before the other side forgets the connection.
pub proof fn law_write_is_acknowledged(
    upstream: UpstreamState,
    downstream: DownstreamState,
    delivery: Delivery,
)
    ensures
        ({
            let dst = delivery.dst;
            let src_port = delivery.src_port;
            let key = flow(src_port, dst);
            let done = upstream.written_reaction(downstream, delivery, true);
            let failed = upstream.written_reaction(downstream, delivery, false);
            let before = if downstream.acknowledgements.contains_key(key) {
                downstream.acknowledgements[key]
            } else {
                0
            };
            &&& done.upstream == upstream
            &&& done.step.command == Command::Nothing
            &&& is_answer(
                done.step,
                TcpKind::Ack,
                dst,
                src_port,
                AfterTransmit::Flush { dst, src_port },
            )
            &&& done.downstream == DownstreamState {
                windows: downstream.windows.insert(key, delivery.remaining),
                acknowledgements: downstream.acknowledgements.insert(
                    key,
                    if before + delivery.len <= u32::MAX {
                        (before + delivery.len) as u32
                    } else {
                        (before + delivery.len - u32::MAX) as u32
                    },
                ),
                ..downstream
            }
            &&& failed.downstream == downstream
            &&& is_forgotten(failed.upstream, downstream.removed(key), key)
            &&& failed.upstream == upstream.removed(key)
            &&& failed.step.command == if upstream.streams.contains(key) {
                Command::Drop(key)
            } else {
                Command::Nothing
            }
            &&& is_answer(
                failed.step,
                TcpKind::AckRst,
                dst,
                src_port,
                AfterTransmit::Reset { dst, src_port, failure: Failure::Stream },
            )
        }),
{
}

/// A SYN is acknowledged with the number after it, with a SYN if the stream is connected, otherwise
/// with a RST.
pub proof fn law_syn_is_acknowledged(
    upstream: UpstreamState,
    downstream: DownstreamState,
    tcp: Tcp,
    is_connected: bool,
)
    ensures
        ({
            let dst = SocketAddrV4 { ip: tcp.dst_ip_addr, port: tcp.dst };
            let key = flow(tcp.src, dst);
            let reaction = upstream.connected_reaction(downstream, tcp, is_connected);
            &&& reaction.downstream == DownstreamState {
                acknowledgements: downstream.acknowledgements.insert(
                    key,
                    ((tcp.sequence + 1) % 0x1_0000_0000) as u32,
                ),
                ..downstream
            }
            &&& is_connected ==> {
                &&& reaction.upstream == upstream
                &&& reaction.step.command == Command::Nothing
                &&& is_answer(
                    reaction.step,
                    TcpKind::AckSyn,
                    dst,
                    tcp.src,
                    AfterTransmit::Established { dst, src_port: tcp.src },
                )
            }
            &&& !is_connected ==> {
                &&& is_forgotten(reaction.upstream, downstream.removed(key), key)
                &&& reaction.upstream == upstream.removed(key)
                &&& reaction.step.command == if upstream.streams.contains(key) {
                    Command::Drop(key)
                } else {
                    Command::Nothing
                }
                &&& is_answer(
                    reaction.step,
                    TcpKind::AckRst,
                    dst,
                    tcp.src,
                    AfterTransmit::Reset { dst, src_port: tcp.src, failure: Failure::Connect },
                )
            }
        }),
{
}

/// A transmission that failed is reported and changes nothing, except that a stream that was to be
/// used is dropped. One that was sent lets remaining data go where it is due, starts the count of
/// duplicates and the interval of retransmissions again, makes the other side forget a connection
/// that was reset, or puts a stream to use.
pub proof fn law_transmission_is_followed_up(
    upstream: UpstreamState,
    downstream: DownstreamState,
    dst: SocketAddrV4,
    src_port: u16,
    failure: Failure,
    after: AfterTransmit,
    now: u64,
)
    ensures
        ({
            let key = flow(src_port, dst);
            let finish = AfterTransmit::Finish;
            let flush = AfterTransmit::Flush { dst, src_port };
            let again = AfterTransmit::Retransmitted { dst, src_port };
            let reset = AfterTransmit::Reset { dst, src_port, failure };
            let ready = AfterTransmit::Established { dst, src_port };
            let lost = upstream.transmitted_reaction(downstream, after, false, now);
            let finished = upstream.transmitted_reaction(downstream, finish, true, now);
            let flushed = upstream.transmitted_reaction(downstream, flush, true, now);
            let resent = upstream.transmitted_reaction(downstream, again, true, now);
            let ended = upstream.transmitted_reaction(downstream, reset, true, now);
            let opened = upstream.transmitted_reaction(downstream, ready, true, now);
            &&& lost.upstream == upstream && lost.downstream == downstream
            &&& lost.step.next matches Next::Fail(failure) && failure == Failure::Link
            &&& lost.step.command == match after {
                AfterTransmit::Established { dst, src_port } => Command::Drop(
                    flow(src_port, dst),
                ),
                _ => Command::Nothing,
            }
            &&& is_ignored(finished, upstream, downstream)
            &&& flushed.upstream == upstream
            &&& flushed.step.command == Command::Nothing
            &&& sends_remaining(flushed, downstream, dst, src_port)
            &&& resent.upstream == UpstreamState {
                duplicates: upstream.duplicates.insert(key, 0),
                retransmissions: upstream.retransmissions.insert(key, now),
                ..upstream
            }
            &&& resent.step.command == Command::Nothing
            &&& sends_remaining(resent, downstream, dst, src_port)
            &&& ended.upstream == upstream
            &&& ended.downstream == downstream.removed(key)
            &&& ended.step.command == Command::Nothing
            &&& ended.step.next matches Next::Fail(reported) && reported == failure
            &&& opened.upstream == UpstreamState {
                streams: upstream.streams.insert(key),
                ..upstream
            }
            &&& opened.downstream == downstream
            &&& opened.step.command == Command::Nothing
            &&& opened.step.next is Finish
        }),
{
}

/// An ACK of a connection whose stream is closed makes both sides forget the connection, whatever
/// it carries.
pub proof fn law_closed_stream_is_dropped(
    upstream: UpstreamState,
    downstream: DownstreamState,
    tcp: Tcp,
    payload: Seq<u8>,
    now: u64,
)
    ensures
        ({
            let key = flow(tcp.src, SocketAddrV4 { ip: tcp.dst_ip_addr, port: tcp.dst });
            let reaction = upstream.inspected_reaction(downstream, tcp, payload, true, now);
            &&& is_forgotten(reaction.upstream, reaction.downstream, key)
            &&& reaction.upstream == upstream.removed(key)
            &&& reaction.downstream == downstream.removed(key)
            &&& reaction.step.next is Finish
            &&& reaction.step.command == if upstream.streams.contains(key) {
                Command::Drop(key)
            } else {
                Command::Nothing
            }
        }),
{
}

/// Local UDP ports are given in turn, from 32768 to 32831 and then from 32768 again, and a port of
/// the source that has one keeps it.
pub proof fn law_local_ports_are_given_in_turn(state: UpstreamState, src_port: u16)
    requires
        state.wf(),
        src_port < 65535,
    ensures
        ({
            let after = state.port_given(src_port);
            let is_new = state.datagram_map[src_port as int] == 0;
            &&& !is_new ==> after == state
            &&& is_new ==> {
                &&& after.datagram_map[src_port as int] == state.next_udp_port
                &&& after.datagram_reverse_map[state.next_udp_port - 32768] == src_port
                &&& after.next_udp_port == if state.next_udp_port == 32831 {
                    32768
                } else {
                    state.next_udp_port + 1
                }
            }
            &&& after == UpstreamState {
                datagram_map: after.datagram_map,
                datagram_reverse_map: after.datagram_reverse_map,
                next_udp_port: after.next_udp_port,
                ..state
            }
        }),
{
}

/// All frames can be handled but those of the source with an UDP layer, unfragmented, that come
/// from port 65535 or are shorter than their headers.
pub proof fn law_few_frames_are_inadmissible(
    state: UpstreamState,
    indicator: Indicator,
    len: int,
)
    ensures
        state.admits(indicator, len) <==> !({
            &&& indicator.network matches Some(Network::Ipv4(ipv4))
            &&& ipv4.src == state.src_ip_addr && !ipv4.more_fragments && ipv4.fragment_offset == 0
            &&& indicator.transport matches Some(Transport::Udp(udp))
            &&& udp.src == 65535 || len < 14 + ipv4.header_size + 8
        }),
{
}

/// A TCP segment of the source, whatever its flags, is handled with what follows its headers,
/// however long they are, as payload. A frame that ends with its headers, or before, has none.
pub proof fn law_segment_is_handled_without_headers(
    upstream: UpstreamState,
    downstream: DownstreamState,
    indicator: Indicator,
    ipv4: Ipv4,
    tcp: Tcp,
    buffer: Seq<u8>,
)
    requires
        indicator.network == Some(Network::Ipv4(ipv4)),
        indicator.transport == Some(Transport::Tcp(tcp)),
        ipv4.src == upstream.src_ip_addr,
        !ipv4.more_fragments && ipv4.fragment_offset == 0,
    ensures
        ({
            let size = 14 + ipv4.header_size + tcp.header_size;
            let payload = if size < buffer.len() {
                buffer.skip(size)
            } else {
                Seq::empty()
            };
            let known = UpstreamState { is_tx_src_hardware_addr_set: true, ..upstream };
            let linked = DownstreamState {
                src_hardware_addr: if upstream.is_tx_src_hardware_addr_set {
                    downstream.src_hardware_addr
                } else {
                    indicator.link.src
                },
                ..downstream
            };
            &&& upstream.frame_reaction(downstream, Some(indicator), buffer) == known.tcp_reaction(
                linked,
                tcp,
                payload,
            )
            &&& upstream.transport_reaction(downstream, indicator, buffer) == upstream.tcp_reaction(
                downstream,
                tcp,
                payload,
            )
        }),
{
    let known = UpstreamState { is_tx_src_hardware_addr_set: true, ..upstream };
    if upstream.is_tx_src_hardware_addr_set {
        assert(known =~= upstream);
        assert(DownstreamState {
            src_hardware_addr: downstream.src_hardware_addr,
            ..downstream
        } =~= downstream);
    }
}

/// A reassembled packet without a TCP or UDP layer does nothing.
pub proof fn law_other_layers_are_ignored(
    upstream: UpstreamState,
    downstream: DownstreamState,
    indicator: Indicator,
    buffer: Seq<u8>,
)
    requires
        indicator.transport is None,
    ensures
        is_ignored(
            upstream.transport_reaction(downstream, indicator, buffer),
            upstream,
            downstream,
        ),
{
}

/// Removing a connection takes all that is recorded of it, and nothing else.
pub proof fn law_upstream_removal_takes_all_of_one(state: UpstreamState, key: u64)
    ensures
        ({
            let after = state.removed(key);
            &&& after.streams == state.streams.remove(key)
            &&& after.sequences == state.sequences.remove(key)
            &&& after.acknowledgements == state.acknowledgements.remove(key)
            &&& after.duplicates == state.duplicates.remove(key)
            &&& after.retransmissions == state.retransmissions.remove(key)
            &&& after.caches == state.caches.remove(key)
            &&& after.is_tx_src_hardware_addr_set == state.is_tx_src_hardware_addr_set
            &&& after.src_ip_addr == state.src_ip_addr
            &&& after.local_ip_addr == state.local_ip_addr
            &&& after.remote == state.remote
            &&& gave_same(after, state)
        }),
{
}

/// A new `Upstreamer` has the addresses it was given, has no stream and no worker, gives local UDP
/// ports from 32768 on, and tells the other side its IP address if it has one.
pub proof fn law_new_upstreamer_knows_nothing(
    tx: &mut Downstreamer,
    src_ip_addr: u32,
    local_ip_addr: Option<u32>,
    remote: SocketAddrV4,
    result: Upstreamer,
)
    requires
        call_ensures(Upstreamer::new, (tx, src_ip_addr, local_ip_addr, remote), result),
    ensures
        result@.wf(),
        result@.src_ip_addr == src_ip_addr,
        result@.local_ip_addr == local_ip_addr,
        result@.remote == remote,
        !result@.is_tx_src_hardware_addr_set,
        result@.next_udp_port == 32768,
        forall|key: u64| !#[trigger] result@.streams.contains(key),
        forall|key: u64| !#[trigger] result@.sequences.contains_key(key),
        forall|key: u64| !#[trigger] result@.acknowledgements.contains_key(key),
        forall|key: u64| !#[trigger] result@.duplicates.contains_key(key),
        forall|key: u64| !#[trigger] result@.retransmissions.contains_key(key),
        forall|key: u64| !#[trigger] result@.caches.contains_key(key),
        forall|i: int| 0 <= i < 64 ==> (#[trigger] result@.datagrams[i]) is None,
        forall|i: int| 0 <= i < 64 ==> #[trigger] result@.datagram_reverse_map[i] == 0,
        forall|p: int| 0 <= p < 65535 ==> #[trigger] result@.datagram_map[p] == 0,
        final(tx)@ == (DownstreamState {
            local_ip_addr: match local_ip_addr {
                Some(local_ip_addr) => local_ip_addr,
                None => old(tx)@.local_ip_addr,
            },
            ..old(tx)@
        }),
{
}

/// A frame that is received is handled, after a timeout receiving goes on in 20 milliseconds, and
/// after a failure it stops.
pub proof fn law_reception_goes_on(
    up: &mut Upstreamer,
    tx: &mut Downstreamer,
    received: Received,
    result: Reception,
)
    requires
        call_ensures(Upstreamer::open, (up, tx, received), result),
    ensures
        match received {
            Received::Frame { indicator, buffer } => result matches Reception::Handle(step)
                && old(up)@.frame_reaction(old(tx)@, indicator, buffer@) == (Reaction {
                upstream: final(up)@,
                downstream: final(tx)@,
                step: step@,
            }),
            Received::TimedOut => {
                &&& result == Reception::Wait(20)
                &&& final(up)@ == old(up)@
                &&& final(tx)@ == old(tx)@
            },
            Received::Failed => {
                &&& result == Reception::Stop
                &&& final(up)@ == old(up)@
                &&& final(tx)@ == old(tx)@
            },
        },
{
}

/// A reassembled packet is handled like a single one, and nothing is done before it is complete.
pub proof fn law_reassembly_is_followed_up(
    up: &mut Upstreamer,
    tx: &mut Downstreamer,
    reassembled: Option<(Indicator, Vec<u8>)>,
    result: Step<Transmission, Vec<u8>>,
)
    requires
        call_ensures(Upstreamer::after_reassemble, (up, tx, reassembled), result),
    ensures
        ({
            let reaction = Reaction {
                upstream: final(up)@,
                downstream: final(tx)@,
                step: result@,
            };
            match reassembled {
                Some((indicator, buffer)) => reaction == old(up)@.transport_reaction(
                    old(tx)@,
                    indicator,
                    buffer@,
                ),
                None => is_ignored(reaction, old(up)@, old(tx)@),
            }
        }),
{
}

/// What is found out of a stream goes into the handling of its segment.
pub proof fn law_inspection_is_followed_up(
    up: &mut Upstreamer,
    tx: &mut Downstreamer,
    tcp: Tcp,
    payload: Vec<u8>,
    is_closed: bool,
    now: u64,
    result: Step<Transmission, Vec<u8>>,
)
    requires
        call_ensures(Upstreamer::after_inspect, (up, tx, tcp, payload, is_closed, now), result),
    ensures
        old(up)@.inspected_reaction(old(tx)@, tcp, payload@, is_closed, now) == (Reaction {
            upstream: final(up)@,
            downstream: final(tx)@,
            step: result@,
        }),
{
}

/// What came of a write goes into the handling of its segment.
pub proof fn law_write_is_followed_up(
    up: &mut Upstreamer,
    tx: &mut Downstreamer,
    delivery: Delivery,
    is_written: bool,
    result: Step<Transmission, Vec<u8>>,
)
    requires
        call_ensures(Upstreamer::after_write, (up, tx, delivery, is_written), result),
    ensures
        old(up)@.written_reaction(old(tx)@, delivery, is_written) == (Reaction {
            upstream: final(up)@,
            downstream: final(tx)@,
            step: result@,
        }),
{
}

/// What came of a connection goes into the handling of its SYN.
pub proof fn law_connection_is_followed_up(
    up: &mut Upstreamer,
    tx: &mut Downstreamer,
    tcp: Tcp,
    is_connected: bool,
    result: Step<Transmission, Vec<u8>>,
)
    requires
        call_ensures(Upstreamer::after_connect, (up, tx, tcp, is_connected), result),
    ensures
        old(up)@.connected_reaction(old(tx)@, tcp, is_connected) == (Reaction {
            upstream: final(up)@,
            downstream: final(tx)@,
            step: result@,
        }),
{
}

/// What came of a transmission goes into the handling of its frame.
pub proof fn law_transmission_goes_on(
    up: &mut Upstreamer,
    tx: &mut Downstreamer,
    after: AfterTransmit,
    is_sent: bool,
    now: u64,
    result: Step<Transmission, Vec<u8>>,
)
    requires
        call_ensures(Upstreamer::after_transmit, (up, tx, after, is_sent, now), result),
    ensures
        old(up)@.transmitted_reaction(old(tx)@, after, is_sent, now) == (Reaction {
            upstream: final(up)@,
            downstream: final(tx)@,
            step: result@,
        }),
{
}

/// What came of looking for a datagram worker, binding one and sending through it goes into the
/// handling of the datagram.
pub proof fn law_datagram_is_followed_up(
    inspecting: &mut Upstreamer,
    binding: &mut Upstreamer,
    index: usize,
    udp: Udp,
    dst: SocketAddrV4,
    payload: Vec<u8>,
    is_closed: bool,
    is_bound: bool,
    is_sent: bool,
    inspected: Step<Transmission, Vec<u8>>,
    bound: Step<Transmission, Vec<u8>>,
    sent: Step<Transmission, Vec<u8>>,
)
    requires
        call_ensures(
            Upstreamer::after_inspect_datagram,
            (inspecting, index, udp, payload, is_closed),
            inspected,
        ),
        call_ensures(
            Upstreamer::after_bind,
            (binding, index, udp.src, dst, payload, is_bound),
            bound,
        ),
        call_ensures(Upstreamer::after_send_datagram, (is_sent,), sent),
    ensures
        (final(inspecting)@, inspected@) == old(inspecting)@.datagram_inspected(
            index,
            udp,
            payload@,
            is_closed,
        ),
        (final(binding)@, bound@) == old(binding)@.datagram_bound(
            index,
            udp.src,
            dst,
            payload@,
            is_bound,
        ),
        sent@.command == Command::Nothing,
        is_sent ==> sent@.next is Finish,
        !is_sent ==> (sent@.next matches Next::Fail(failure) && failure == Failure::Datagram),
{
}

/// A port of the source is told the local UDP port that it has from then on.
pub proof fn law_local_port_is_told(up: &mut Upstreamer, src_port: u16, result: u16)
    requires
        call_ensures(Upstreamer::get_local_udp_port, (up, src_port), result),
    ensures
        32768 <= result <= 32831,
        result == final(up)@.datagram_map[src_port as int],
        final(up)@ == old(up)@.port_given(src_port),
{
}

/// The tests before a frame is handled tell if it can be.
pub proof fn law_admission_is_tested(
    up: &Upstreamer,
    indicator: &Indicator,
    len: usize,
    single: bool,
    whole: bool,
)
    requires
        call_ensures(Upstreamer::is_admissible, (up, indicator, len), single),
        call_ensures(Upstreamer::is_transport_admissible, (indicator, len), whole),
    ensures
        single == up@.admits(*indicator, len as int),
        whole == (indicator.transport matches Some(Transport::Udp(udp)) ==> udp.src < 65535
            && indicator.size() <= len),
{
}

} // verus!
