//! The channel of upstream traffic to the proxy.
use std::collections::{HashMap, HashSet};

use vstd::prelude::*;
use vstd::slice::{slice_subrange, slice_to_vec};

use crate::addr::{flow_key, HardwareAddr, Ipv4Addr, SocketAddrV4};
use crate::cacher::RandomCacher;
use crate::downstream::{get_or, Downstreamer};
use crate::packet::{Arp, Indicator, Ipv4, Network, Tcp, Transport, Udp};
use crate::sequence::{distance, following, MAX_U32_WINDOW_SIZE};
use crate::step::{AfterTransmit, Command, Delivery, Failure, Next, Step};
use crate::transmission::Transmission;

#[allow(unused_imports)]
use crate::addr::flow;
#[allow(unused_imports)]
use crate::cacher::Reordered;
#[allow(unused_imports)]
use crate::downstream::{value_or, DownstreamState};
#[allow(unused_imports)]
use crate::packet::TcpKind;
#[allow(unused_imports)]
use crate::sequence::{advanced, gap, successor};
#[allow(unused_imports)]
use crate::transmission::Outgoing;

verus! {

broadcast use vstd::std_specs::hash::group_hash_axioms;

/// Represents the initial UDP port for binding in local.
pub const INITIAL_PORT: u16 = 32768;

/// Represents the max limit of UDP port for binding in local.
pub const PORT_COUNT: usize = 64;

/// Represents the number of UDP ports of the source that can be bound.
pub const SOURCE_PORT_COUNT: usize = 65535;

/// Represents the wait time in milliseconds after a reception timed out.
pub const TIMEDOUT_WAIT: u64 = 20;

/// Represents the number of duplicate acknowledgements that a connection may meet before its bytes
/// are sent again.
pub const MAX_DUPLICATE: usize = 3;

/// Represents the nanoseconds between two retransmissions of a connection.
pub const RETRANSMISSION_INTERVAL: u64 = 1_000_000_000;

/// The contents of an [`Upstreamer`].
///
/// The maps are keyed by connection, and `streams` holds the connections with a stream worker.
/// `datagrams` tells for each local UDP port the port of the source that its datagram worker
/// serves, `datagram_map` for each UDP port of the source the local port it was given, or 0, and
/// `datagram_reverse_map` for each local UDP port the port of the source that it was given to, or
/// 0.
#[verifier::ext_equal]
pub struct UpstreamState {
    pub is_tx_src_hardware_addr_set: bool,
    pub src_ip_addr: Ipv4Addr,
    pub local_ip_addr: Option<Ipv4Addr>,
    pub remote: SocketAddrV4,
    pub streams: Set<u64>,
    pub sequences: Map<u64, u32>,
    pub acknowledgements: Map<u64, u32>,
    pub duplicates: Map<u64, usize>,
    pub retransmissions: Map<u64, u64>,
    pub caches: Map<u64, Reordered>,
    pub next_udp_port: u16,
    pub datagrams: Seq<Option<u16>>,
    pub datagram_map: Seq<u16>,
    pub datagram_reverse_map: Seq<u16>,
}

/// What comes of an event: the states after it, and the step that it asks for.
#[verifier::ext_equal]
pub struct Reaction {
    pub upstream: UpstreamState,
    pub downstream: DownstreamState,
    pub step: Step<Outgoing, Seq<u8>>,
}

/// The destination of a TCP segment.
pub open spec fn tcp_dst(tcp: Tcp) -> SocketAddrV4 {
    SocketAddrV4 { ip: tcp.dst_ip_addr, port: tcp.dst }
}

/// The key of the connection of a TCP segment.
pub open spec fn tcp_key(tcp: Tcp) -> u64 {
    flow(tcp.src, tcp_dst(tcp))
}

/// The destination of a datagram.
pub open spec fn udp_dst(udp: Udp) -> SocketAddrV4 {
    SocketAddrV4 { ip: udp.dst_ip_addr, port: udp.dst }
}

/// The bytes of a frame after its headers.
pub open spec fn content(indicator: Indicator, buffer: Seq<u8>) -> Seq<u8> {
    if buffer.len() > indicator.size() {
        buffer.skip(indicator.size())
    } else {
        Seq::empty()
    }
}

/// Whether a frame with an UDP layer has a source port that can be bound and all its headers.
pub open spec fn is_bindable(indicator: Indicator, len: int) -> bool {
    match indicator.transport {
        Some(Transport::Udp(udp)) => udp.src < SOURCE_PORT_COUNT && indicator.size() <= len,
        _ => true,
    }
}

/// The step that has nothing to be done at once.
pub open spec fn then(next: Next<Outgoing, Seq<u8>>) -> Step<Outgoing, Seq<u8>> {
    Step { command: Command::Nothing, next }
}

/// The step that sends a TCP segment without payload.
pub open spec fn reply(
    kind: TcpKind,
    dst: SocketAddrV4,
    src_port: u16,
    after: AfterTransmit,
) -> Step<Outgoing, Seq<u8>> {
    then(Next::Transmit { job: Outgoing::Control { kind, dst, src_port }, then: after })
}

impl UpstreamState {
    /// Whether the tables have their sizes, ports of the source other than 0 are given different
    /// local ports, and the caches are proper and belong to connections with a stream.
    pub open spec fn wf(self) -> bool {
        &&& self.datagrams.len() == PORT_COUNT
        &&& self.datagram_map.len() == SOURCE_PORT_COUNT
        &&& self.datagram_reverse_map.len() == PORT_COUNT
        &&& INITIAL_PORT <= self.next_udp_port < INITIAL_PORT + PORT_COUNT
        &&& forall|p: int|
            0 <= p < SOURCE_PORT_COUNT && #[trigger] self.datagram_map[p] != 0 ==> INITIAL_PORT
                <= self.datagram_map[p] < INITIAL_PORT + PORT_COUNT
        &&& forall|p: int|
            0 < p < SOURCE_PORT_COUNT && #[trigger] self.datagram_map[p] != 0
                ==> self.datagram_reverse_map[self.datagram_map[p] - INITIAL_PORT] == p
        &&& forall|i: int|
            0 <= i < PORT_COUNT && #[trigger] self.datagram_reverse_map[i] != 0
                ==> self.datagram_reverse_map[i] < SOURCE_PORT_COUNT
                && self.datagram_map[self.datagram_reverse_map[i] as int] == INITIAL_PORT + i
        &&& forall|key: u64| #[trigger]
            self.caches.contains_key(key) ==> self.streams.contains(key) && self.caches[key].wf()
    }

    /// The last sequence number of the source.
    pub open spec fn sequence(self, key: u64) -> u32 {
        value_or(self.sequences, key, 0)
    }

    /// The last acknowledgement of the source.
    pub open spec fn acknowledgement(self, key: u64) -> u32 {
        value_or(self.acknowledgements, key, 0)
    }

    /// The number of duplicate acknowledgements of the source.
    pub open spec fn duplicate(self, key: u64) -> usize {
        value_or(self.duplicates, key, 0)
    }

    /// The state without any information related to a connection.
    pub open spec fn removed(self, key: u64) -> UpstreamState {
        UpstreamState {
            streams: self.streams.remove(key),
            sequences: self.sequences.remove(key),
            acknowledgements: self.acknowledgements.remove(key),
            duplicates: self.duplicates.remove(key),
            retransmissions: self.retransmissions.remove(key),
            caches: self.caches.remove(key),
            ..self
        }
    }

    /// The command to drop the stream worker of a connection, if it has one.
    pub open spec fn drop_stream(self, key: u64) -> Command {
        if self.streams.contains(key) {
            Command::Drop(key)
        } else {
            Command::Nothing
        }
    }

    /// The state after a segment with the number `sequence` was seen: the number is recorded if it
    /// lies in the window after the recorded one.
    pub open spec fn sequence_seen(self, key: u64, sequence: u32) -> UpstreamState {
        if 0 < gap(self.sequence(key), sequence) < MAX_U32_WINDOW_SIZE {
            UpstreamState { sequences: self.sequences.insert(key, sequence), ..self }
        } else {
            self
        }
    }

    /// The state after an acknowledgement was seen: the recorded one counts as duplicate, one in
    /// the window after it is recorded.
    pub open spec fn acknowledgement_seen(self, key: u64, acknowledgement: u32) -> UpstreamState {
        let n = gap(self.acknowledgement(key), acknowledgement);
        if n == 0 {
            UpstreamState {
                duplicates: self.duplicates.insert(
                    key,
                    if self.duplicate(key) == usize::MAX {
                        usize::MAX
                    } else {
                        (self.duplicate(key) + 1) as usize
                    },
                ),
                ..self
            }
        } else if n < MAX_U32_WINDOW_SIZE {
            UpstreamState {
                acknowledgements: self.acknowledgements.insert(key, acknowledgement),
                duplicates: self.duplicates.insert(key, 0),
                ..self
            }
        } else {
            self
        }
    }

    /// Whether the bytes that were sent but not acknowledged are to be sent again at `now`.
    pub open spec fn is_retransmission_due(self, tcp: Tcp, now: u64) -> bool {
        let key = tcp_key(tcp);
        &&& self.duplicate(key) > MAX_DUPLICATE
        &&& tcp.window > 0
        &&& self.retransmissions.contains_key(key) ==> now - self.retransmissions[key]
            >= RETRANSMISSION_INTERVAL
    }

    /// The state after a retransmission at `now`.
    pub open spec fn retransmitted(self, key: u64, now: u64) -> UpstreamState {
        UpstreamState {
            duplicates: self.duplicates.insert(key, 0),
            retransmissions: self.retransmissions.insert(key, now),
            ..self
        }
    }

    /// The cache for the segments of a connection, which starts with `sequence` if it is new.
    pub open spec fn cache(self, key: u64, sequence: u32) -> Reordered {
        value_or(self.caches, key, Reordered::empty(sequence))
    }

    /// The state with a cache for the segments of a connection.
    pub open spec fn with_cache(self, key: u64, cache: Reordered) -> UpstreamState {
        UpstreamState { caches: self.caches.insert(key, cache), ..self }
    }

    /// The local UDP port after `port`.
    pub open spec fn port_after(port: u16) -> u16 {
        if port + 1 < INITIAL_PORT + PORT_COUNT {
            (port + 1) as u16
        } else {
            INITIAL_PORT
        }
    }

    /// The state after the UDP port `src_port` of the source was given a local port: the next one
    /// in turn, which is taken from its former owner, unless it has one.
    pub open spec fn port_given(self, src_port: u16) -> UpstreamState {
        if self.datagram_map[src_port as int] == 0 {
            let index = self.next_udp_port - INITIAL_PORT;
            let owner = self.datagram_reverse_map[index];
            let map = if owner != 0 {
                self.datagram_map.update(owner as int, 0)
            } else {
                self.datagram_map
            };
            UpstreamState {
                next_udp_port: UpstreamState::port_after(self.next_udp_port),
                datagram_map: map.update(src_port as int, self.next_udp_port),
                datagram_reverse_map: self.datagram_reverse_map.update(index, src_port),
                ..self
            }
        } else {
            self
        }
    }

    /// The local UDP port that was given to the port `src_port` of the source.
    pub open spec fn local_port(self, src_port: u16) -> u16 {
        self.datagram_map[src_port as int]
    }

    /// The states after the hardware address of the source was seen.
    pub open spec fn source_seen(
        self,
        downstream: DownstreamState,
        hardware_addr: HardwareAddr,
    ) -> (UpstreamState, DownstreamState) {
        if self.is_tx_src_hardware_addr_set {
            (self, downstream)
        } else {
            (
                UpstreamState { is_tx_src_hardware_addr_set: true, ..self },
                DownstreamState { src_hardware_addr: hardware_addr, ..downstream },
            )
        }
    }

    /// What comes of nothing to be done.
    pub open spec fn ignore(self, downstream: DownstreamState) -> Reaction {
        Reaction { upstream: self, downstream, step: then(Next::Finish) }
    }

    /// What comes of a failure.
    pub open spec fn fail(self, downstream: DownstreamState, failure: Failure) -> Reaction {
        Reaction { upstream: self, downstream, step: then(Next::Fail(failure)) }
    }

    /// What comes of sending remaining data.
    pub open spec fn flush(
        self,
        downstream: DownstreamState,
        dst: SocketAddrV4,
        src_port: u16,
    ) -> Reaction {
        Reaction {
            upstream: self,
            downstream: downstream.flushed(flow(src_port, dst)),
            step: then(
                Next::Transmit {
                    job: downstream.flush(dst, src_port),
                    then: AfterTransmit::Finish,
                },
            ),
        }
    }

    /// Whether a frame of `len` bytes can be handled.
    pub open spec fn admits(self, indicator: Indicator, len: int) -> bool {
        match indicator.network {
            Some(Network::Ipv4(ipv4)) => ipv4.src == self.src_ip_addr && !ipv4.fragmented()
                ==> is_bindable(indicator, len),
            _ => true,
        }
    }

    /// What comes of a frame.
    pub open spec fn frame_reaction(
        self,
        downstream: DownstreamState,
        indicator: Option<Indicator>,
        buffer: Seq<u8>,
    ) -> Reaction {
        match indicator {
            Some(indicator) => match indicator.network {
                Some(Network::Arp(arp)) => self.arp_reaction(downstream, arp),
                Some(Network::Ipv4(ipv4)) => self.ipv4_reaction(
                    downstream,
                    indicator,
                    ipv4,
                    buffer,
                ),
                None => self.ignore(downstream),
            },
            None => self.ignore(downstream),
        }
    }

    /// What comes of an ARP layer: a request of the source for the local IP address is answered.
    pub open spec fn arp_reaction(self, downstream: DownstreamState, arp: Arp) -> Reaction {
        if self.local_ip_addr is Some && arp.requests(self.src_ip_addr, self.local_ip_addr->0) {
            let (upstream, downstream) = self.source_seen(downstream, arp.src_hardware_addr);
            Reaction {
                upstream,
                downstream,
                step: then(
                    Next::Transmit { job: Outgoing::ArpReply, then: AfterTransmit::Finish },
                ),
            }
        } else {
            self.ignore(downstream)
        }
    }

    /// What comes of an IPv4 layer: packets of the source are handled, fragments once they are
    /// reassembled.
    pub open spec fn ipv4_reaction(
        self,
        downstream: DownstreamState,
        indicator: Indicator,
        ipv4: Ipv4,
        buffer: Seq<u8>,
    ) -> Reaction {
        if ipv4.src == self.src_ip_addr {
            let (upstream, downstream) = self.source_seen(downstream, indicator.link.src);
            if ipv4.fragmented() {
                Reaction { upstream, downstream, step: then(Next::Reassemble) }
            } else {
                upstream.transport_reaction(downstream, indicator, buffer)
            }
        } else {
            self.ignore(downstream)
        }
    }

    /// What comes of the layer inside an IPv4 layer.
    pub open spec fn transport_reaction(
        self,
        downstream: DownstreamState,
        indicator: Indicator,
        buffer: Seq<u8>,
    ) -> Reaction {
        match indicator.transport {
            Some(Transport::Tcp(tcp)) => self.tcp_reaction(
                downstream,
                tcp,
                content(indicator, buffer),
            ),
            Some(Transport::Udp(udp)) => self.udp_reaction(
                downstream,
                udp,
                content(indicator, buffer),
            ),
            None => self.ignore(downstream),
        }
    }

    /// What comes of a TCP layer: the first flag of RST, ACK, SYN and FIN that is set decides.
    pub open spec fn tcp_reaction(
        self,
        downstream: DownstreamState,
        tcp: Tcp,
        payload: Seq<u8>,
    ) -> Reaction {
        if tcp.is_rst {
            self.rst_reaction(downstream, tcp)
        } else if tcp.is_ack {
            self.ack_reaction(downstream, tcp, payload)
        } else if tcp.is_syn {
            self.syn_reaction(downstream, tcp)
        } else if tcp.is_fin {
            self.fin_reaction(downstream, tcp)
        } else {
            self.ignore(downstream)
        }
    }

    /// What comes of a RST: the connection is forgotten, if it has a stream.
    pub open spec fn rst_reaction(self, downstream: DownstreamState, tcp: Tcp) -> Reaction {
        let key = tcp_key(tcp);
        if self.streams.contains(key) {
            Reaction {
                upstream: self.removed(key),
                downstream: downstream.removed(key),
                step: Step { command: Command::Drop(key), next: Next::Finish },
            }
        } else {
            self.ignore(downstream)
        }
    }

    /// What comes of an ACK: it is refused with a RST if the connection has no stream.
    pub open spec fn ack_reaction(
        self,
        downstream: DownstreamState,
        tcp: Tcp,
        payload: Seq<u8>,
    ) -> Reaction {
        let key = tcp_key(tcp);
        Reaction {
            upstream: self,
            downstream,
            step: if self.streams.contains(key) {
                then(Next::Inspect { key, tcp, payload })
            } else {
                reply(TcpKind::Rst, tcp_dst(tcp), tcp.src, AfterTransmit::Finish)
            },
        }
    }

    /// What comes of an ACK once it is known if the stream is closed.
    pub open spec fn inspected_reaction(
        self,
        downstream: DownstreamState,
        tcp: Tcp,
        payload: Seq<u8>,
        is_closed: bool,
        now: u64,
    ) -> Reaction {
        let key = tcp_key(tcp);
        if is_closed {
            Reaction {
                upstream: self.removed(key),
                downstream: downstream.removed(key),
                step: Step { command: self.drop_stream(key), next: Next::Finish },
            }
        } else {
            let upstream = self.sequence_seen(key, tcp.sequence).acknowledgement_seen(
                key,
                tcp.acknowledgement,
            );
            let invalidated = downstream.invalidated(key, tcp.acknowledgement);
            let downstream = DownstreamState {
                send_windows: invalidated.send_windows.insert(key, tcp.window),
                ..invalidated
            };
            if payload.len() > 0 {
                upstream.payload_reaction(downstream, tcp, payload)
            } else if upstream.is_retransmission_due(tcp, now) {
                Reaction {
                    upstream,
                    downstream,
                    step: then(
                        Next::Transmit {
                            job: downstream.retransmission(tcp_dst(tcp), tcp.src),
                            then: AfterTransmit::Retransmitted {
                                dst: tcp_dst(tcp),
                                src_port: tcp.src,
                            },
                        },
                    ),
                }
            } else {
                upstream.flush(downstream, tcp_dst(tcp), tcp.src)
            }
        }
    }

    /// What comes of payload on a stream that is not closed: bytes that are complete by it are
    /// written to the stream, otherwise the connection repeats its acknowledgement.
    pub open spec fn payload_reaction(
        self,
        downstream: DownstreamState,
        tcp: Tcp,
        payload: Seq<u8>,
    ) -> Reaction {
        let key = tcp_key(tcp);
        let cache = self.cache(key, tcp.sequence);
        if cache.is_stale(tcp.sequence) {
            Reaction {
                upstream: self.with_cache(key, cache),
                downstream,
                step: reply(
                    TcpKind::Ack,
                    tcp_dst(tcp),
                    tcp.src,
                    AfterTransmit::Flush { dst: tcp_dst(tcp), src_port: tcp.src },
                ),
            }
        } else if !cache.has_room_for(tcp.sequence, payload) {
            self.with_cache(key, cache).fail(downstream, Failure::Cache)
        } else {
            let released = cache.released(tcp.sequence, payload);
            let received = cache.received(tcp.sequence, payload);
            Reaction {
                upstream: self.with_cache(key, received),
                downstream,
                step: if released.len() > 0 {
                    then(
                        Next::Write {
                            key,
                            payload: released,
                            delivery: Delivery {
                                dst: tcp_dst(tcp),
                                src_port: tcp.src,
                                len: released.len() as u32,
                                remaining: received.remaining() as u16,
                            },
                        },
                    )
                } else {
                    reply(
                        TcpKind::Ack,
                        tcp_dst(tcp),
                        tcp.src,
                        AfterTransmit::Flush { dst: tcp_dst(tcp), src_port: tcp.src },
                    )
                },
            }
        }
    }

    /// What comes of a write to a stream: bytes that were written are acknowledged, a stream that
    /// failed is reset.
    pub open spec fn written_reaction(
        self,
        downstream: DownstreamState,
        delivery: Delivery,
        is_written: bool,
    ) -> Reaction {
        let key = flow(delivery.src_port, delivery.dst);
        if is_written {
            Reaction {
                upstream: self,
                downstream: DownstreamState {
                    windows: downstream.windows.insert(key, delivery.remaining),
                    acknowledgements: downstream.acknowledgements.insert(
                        key,
                        advanced(downstream.acknowledgement(key), delivery.len as int),
                    ),
                    ..downstream
                },
                step: reply(
                    TcpKind::Ack,
                    delivery.dst,
                    delivery.src_port,
                    AfterTransmit::Flush { dst: delivery.dst, src_port: delivery.src_port },
                ),
            }
        } else {
            Reaction {
                upstream: self.removed(key),
                downstream,
                step: Step {
                    command: self.drop_stream(key),
                    next: reply(
                        TcpKind::AckRst,
                        delivery.dst,
                        delivery.src_port,
                        AfterTransmit::Reset {
                            dst: delivery.dst,
                            src_port: delivery.src_port,
                            failure: Failure::Stream,
                        },
                    ).next,
                },
            }
        }
    }

    /// What comes of a SYN: a stream is connected, unless the connection has one.
    pub open spec fn syn_reaction(self, downstream: DownstreamState, tcp: Tcp) -> Reaction {
        let key = tcp_key(tcp);
        if self.streams.contains(key) {
            self.ignore(downstream)
        } else {
            Reaction {
                upstream: self.sequence_seen(key, tcp.sequence),
                downstream,
                step: then(
                    Next::Connect { key, dst: tcp_dst(tcp), remote: self.remote, tcp },
                ),
            }
        }
    }

    /// What comes of a try to connect a stream: the SYN is acknowledged, with a SYN if the stream
    /// is connected, otherwise with a RST.
    pub open spec fn connected_reaction(
        self,
        downstream: DownstreamState,
        tcp: Tcp,
        is_connected: bool,
    ) -> Reaction {
        let key = tcp_key(tcp);
        let dst = tcp_dst(tcp);
        let downstream = DownstreamState {
            acknowledgements: downstream.acknowledgements.insert(key, successor(tcp.sequence)),
            ..downstream
        };
        if is_connected {
            Reaction {
                upstream: self,
                downstream,
                step: reply(
                    TcpKind::AckSyn,
                    dst,
                    tcp.src,
                    AfterTransmit::Established { dst, src_port: tcp.src },
                ),
            }
        } else {
            Reaction {
                upstream: self.removed(key),
                downstream,
                step: Step {
                    command: self.drop_stream(key),
                    next: reply(
                        TcpKind::AckRst,
                        dst,
                        tcp.src,
                        AfterTransmit::Reset { dst, src_port: tcp.src, failure: Failure::Connect },
                    ).next,
                },
            }
        }
    }

    /// What comes of a FIN: the stream is closed once all data is sent and acknowledged, and the
    /// segment is refused with a RST if the connection has no stream.
    pub open spec fn fin_reaction(self, downstream: DownstreamState, tcp: Tcp) -> Reaction {
        let key = tcp_key(tcp);
        let dst = tcp_dst(tcp);
        if !self.streams.contains(key) {
            Reaction {
                upstream: self,
                downstream,
                step: reply(TcpKind::Rst, dst, tcp.src, AfterTransmit::Finish),
            }
        } else if downstream.sent_len(key) + downstream.unsent_len(key) > 0 {
            self.flush(downstream, dst, tcp.src)
        } else {
            Reaction {
                upstream: self,
                downstream,
                step: Step {
                    command: Command::Close(key),
                    next: reply(TcpKind::AckFin, dst, tcp.src, AfterTransmit::Finish).next,
                },
            }
        }
    }

    /// What comes of a transmission.
    pub open spec fn transmitted_reaction(
        self,
        downstream: DownstreamState,
        after: AfterTransmit,
        is_sent: bool,
        now: u64,
    ) -> Reaction {
        match after {
            AfterTransmit::Finish => if is_sent {
                self.ignore(downstream)
            } else {
                self.fail(downstream, Failure::Link)
            },
            AfterTransmit::Flush { dst, src_port } => if is_sent {
                self.flush(downstream, dst, src_port)
            } else {
                self.fail(downstream, Failure::Link)
            },
            AfterTransmit::Retransmitted { dst, src_port } => if is_sent {
                self.retransmitted(flow(src_port, dst), now).flush(downstream, dst, src_port)
            } else {
                self.fail(downstream, Failure::Link)
            },
            AfterTransmit::Reset { dst, src_port, failure } => if is_sent {
                self.fail(downstream.removed(flow(src_port, dst)), failure)
            } else {
                self.fail(downstream, Failure::Link)
            },
            AfterTransmit::Established { dst, src_port } => {
                let key = flow(src_port, dst);
                if is_sent {
                    UpstreamState { streams: self.streams.insert(key), ..self }.ignore(downstream)
                } else {
                    Reaction {
                        upstream: self,
                        downstream,
                        step: Step {
                            command: Command::Drop(key),
                            next: Next::Fail(Failure::Link),
                        },
                    }
                }
            },
        }
    }

    /// What comes of an UDP layer: the port of the source is given a local port, for which a worker
    /// is bound if there is none.
    pub open spec fn udp_reaction(
        self,
        downstream: DownstreamState,
        udp: Udp,
        payload: Seq<u8>,
    ) -> Reaction {
        let upstream = self.port_given(udp.src);
        let index = (upstream.local_port(udp.src) - INITIAL_PORT) as usize;
        Reaction {
            upstream,
            downstream,
            step: then(
                if upstream.datagrams[index as int] is Some {
                    Next::InspectDatagram { index, udp, payload }
                } else {
                    upstream.bind(index, udp, payload)
                },
            ),
        }
    }

    /// The request for a datagram worker.
    pub open spec fn bind(self, index: usize, udp: Udp, payload: Seq<u8>) -> Next<
        Outgoing,
        Seq<u8>,
    > {
        Next::Bind {
            index,
            src_port: udp.src,
            local_port: (INITIAL_PORT + index) as u16,
            remote: self.remote,
            dst: udp_dst(udp),
            payload,
        }
    }

    /// What comes of an UDP layer once it is known if the worker is closed: a closed worker is
    /// replaced, and one that serves another port is told the new one.
    pub open spec fn datagram_inspected(
        self,
        index: usize,
        udp: Udp,
        payload: Seq<u8>,
        is_closed: bool,
    ) -> (UpstreamState, Step<Outgoing, Seq<u8>>) {
        let send = Next::SendDatagram { index, dst: udp_dst(udp), payload };
        if is_closed || self.datagrams[index as int] is None {
            (self, then(self.bind(index, udp, payload)))
        } else if self.datagrams[index as int] != Some(udp.src) {
            (
                UpstreamState {
                    datagrams: self.datagrams.update(index as int, Some(udp.src)),
                    ..self
                },
                Step { command: Command::SetSource { index, src_port: udp.src }, next: send },
            )
        } else {
            (self, then(send))
        }
    }

    /// What comes of a try to bind a datagram worker: the datagram is sent through it.
    pub open spec fn datagram_bound(
        self,
        index: usize,
        src_port: u16,
        dst: SocketAddrV4,
        payload: Seq<u8>,
        is_bound: bool,
    ) -> (UpstreamState, Step<Outgoing, Seq<u8>>) {
        if is_bound {
            (
                UpstreamState {
                    datagrams: self.datagrams.update(index as int, Some(src_port)),
                    ..self
                },
                then(Next::SendDatagram { index, dst, payload }),
            )
        } else {
            (self, then(Next::Fail(Failure::Bind)))
        }
    }
}

/// What comes of a try to send a datagram.
pub open spec fn datagram_sent(is_sent: bool) -> Step<Outgoing, Seq<u8>> {
    if is_sent {
        then(Next::Finish)
    } else {
        then(Next::Fail(Failure::Datagram))
    }
}

/// Represents what a receiver has to offer.
pub enum Received {
    /// A frame, with its layers if they are known.
    Frame { indicator: Option<Indicator>, buffer: Vec<u8> },
    /// Nothing came in time.
    TimedOut,
    /// The receiver failed.
    Failed,
}

/// Represents how receiving goes on.
pub enum Reception {
    /// Handle the frame, then receive the next one.
    Handle(Step<Transmission, Vec<u8>>),
    /// Wait for some milliseconds, then receive the next one.
    Wait(u64),
    /// Stop, and report the failure of the receiver.
    Stop,
}

/// Represents the channel upstream traffic to the proxy of SOCKS or loopback to the source.
pub struct Upstreamer {
    is_tx_src_hardware_addr_set: bool,
    src_ip_addr: Ipv4Addr,
    local_ip_addr: Option<Ipv4Addr>,
    remote: SocketAddrV4,
    streams: HashSet<u64>,
    tcp_sequence_map: HashMap<u64, u32>,
    tcp_acknowledgement_map: HashMap<u64, u32>,
    tcp_duplicate_map: HashMap<u64, usize>,
    tcp_last_retransmission_map: HashMap<u64, u64>,
    tcp_cache_map: HashMap<u64, RandomCacher>,
    next_udp_port: u16,
    datagrams: Vec<Option<u16>>,
    datagram_map: Vec<u16>,
    datagram_reverse_map: Vec<u16>,
}

impl View for Upstreamer {
    type V = UpstreamState;

    closed spec fn view(&self) -> UpstreamState {
        UpstreamState {
            is_tx_src_hardware_addr_set: self.is_tx_src_hardware_addr_set,
            src_ip_addr: self.src_ip_addr,
            local_ip_addr: self.local_ip_addr,
            remote: self.remote,
            streams: self.streams@,
            sequences: self.tcp_sequence_map@,
            acknowledgements: self.tcp_acknowledgement_map@,
            duplicates: self.tcp_duplicate_map@,
            retransmissions: self.tcp_last_retransmission_map@,
            caches: self.tcp_cache_map@.map_values(|cache: RandomCacher| cache@),
            next_udp_port: self.next_udp_port,
            datagrams: self.datagrams@,
            datagram_map: self.datagram_map@,
            datagram_reverse_map: self.datagram_reverse_map@,
        }
    }
}

impl Upstreamer {
    /// Creates a new `Upstreamer`.
    pub fn new(
        tx: &mut Downstreamer,
        src_ip_addr: Ipv4Addr,
        local_ip_addr: Option<Ipv4Addr>,
        remote: SocketAddrV4,
    ) -> (result: Upstreamer)
        ensures
            result@.wf(),
            result@ == (UpstreamState {
                is_tx_src_hardware_addr_set: false,
                src_ip_addr,
                local_ip_addr,
                remote,
                streams: Set::empty(),
                sequences: Map::empty(),
                acknowledgements: Map::empty(),
                duplicates: Map::empty(),
                retransmissions: Map::empty(),
                caches: Map::empty(),
                next_udp_port: INITIAL_PORT,
                datagrams: Seq::new(PORT_COUNT as nat, |i: int| None),
                datagram_map: Seq::new(SOURCE_PORT_COUNT as nat, |i: int| 0),
                datagram_reverse_map: Seq::new(PORT_COUNT as nat, |i: int| 0),
            }),
            final(tx)@ == (match local_ip_addr {
                Some(local_ip_addr) => DownstreamState { local_ip_addr, ..old(tx)@ },
                None => old(tx)@,
            }),
    {
        let upstreamer = Upstreamer {
            is_tx_src_hardware_addr_set: false,
            src_ip_addr,
            local_ip_addr,
            remote,
            streams: HashSet::new(),
            tcp_sequence_map: HashMap::new(),
            tcp_acknowledgement_map: HashMap::new(),
            tcp_duplicate_map: HashMap::new(),
            tcp_last_retransmission_map: HashMap::new(),
            tcp_cache_map: HashMap::new(),
            next_udp_port: INITIAL_PORT,
            datagrams: vec![None; PORT_COUNT],
            datagram_map: vec![0u16; SOURCE_PORT_COUNT],
            datagram_reverse_map: vec![0u16; PORT_COUNT],
        };
        if let Some(local_ip_addr) = local_ip_addr {
            tx.set_local_ip_addr(local_ip_addr);
        }
        upstreamer
    }

    /// Records the sequence number of a segment, if it lies ahead.
    fn update_tcp_sequence(&mut self, tcp: &Tcp)
        requires
            old(self)@.wf(),
        ensures
            final(self)@.wf(),
            final(self)@ == old(self)@.sequence_seen(tcp_key(*tcp), tcp.sequence),
    {
        let dst = SocketAddrV4::new(tcp.dst_ip_addr, tcp.dst);
        let key = flow_key(tcp.src, dst);
        let record_sequence = get_or(&self.tcp_sequence_map, key, 0);
        let sub_sequence = distance(record_sequence, tcp.sequence);

        if sub_sequence > 0 && (sub_sequence as usize) < MAX_U32_WINDOW_SIZE {
            self.tcp_sequence_map.insert(key, tcp.sequence);
        }
    }

    /// Records the acknowledgement of a segment, if it lies ahead, or counts it as duplicate.
    fn update_tcp_acknowledgement(&mut self, tcp: &Tcp)
        requires
            old(self)@.wf(),
        ensures
            final(self)@.wf(),
            final(self)@ == old(self)@.acknowledgement_seen(tcp_key(*tcp), tcp.acknowledgement),
    {
        let dst = SocketAddrV4::new(tcp.dst_ip_addr, tcp.dst);
        let key = flow_key(tcp.src, dst);
        let record_acknowledgement = get_or(&self.tcp_acknowledgement_map, key, 0);
        let sub_acknowledgement = distance(record_acknowledgement, tcp.acknowledgement);

        if sub_acknowledgement == 0 {
            // Duplicate
            let duplicate: usize = match get_or(&self.tcp_duplicate_map, key, 0).checked_add(1) {
                Some(duplicate) => duplicate,
                None => usize::MAX,
            };
            self.tcp_duplicate_map.insert(key, duplicate);
        } else if (sub_acknowledgement as usize) < MAX_U32_WINDOW_SIZE {
            self.tcp_acknowledgement_map.insert(key, tcp.acknowledgement);
            self.tcp_duplicate_map.insert(key, 0);
        }
    }

    /// Removes all information related to a TCP connection, and returns what becomes of its stream
    /// worker.
    fn remove(&mut self, key: u64) -> (result: Command)
        requires
            old(self)@.wf(),
        ensures
            final(self)@.wf(),
            final(self)@ == old(self)@.removed(key),
            result == old(self)@.drop_stream(key),
    {
        let is_exist = self.streams.remove(&key);
        self.tcp_sequence_map.remove(&key);
        self.tcp_acknowledgement_map.remove(&key);
        self.tcp_duplicate_map.remove(&key);
        self.tcp_last_retransmission_map.remove(&key);
        self.tcp_cache_map.remove(&key);
        assert(self@ =~= old(self)@.removed(key));
        if is_exist {
            Command::Drop(key)
        } else {
            Command::Nothing
        }
    }

    /// Returns the local UDP port of a port of the source, which is given the next one if it has
    /// none.
    pub fn get_local_udp_port(&mut self, src_port: u16) -> (result: u16)
        requires
            old(self)@.wf(),
            src_port < SOURCE_PORT_COUNT,
        ensures
            final(self)@.wf(),
            final(self)@ == old(self)@.port_given(src_port),
            result == final(self)@.local_port(src_port),
            INITIAL_PORT <= result < INITIAL_PORT + PORT_COUNT,
    {
        if self.datagram_map[src_port as usize] == 0 {
            let index: usize = (self.next_udp_port - INITIAL_PORT) as usize;

            let owner: u16 = self.datagram_reverse_map[index];
            if owner != 0 {
                self.datagram_map.set(owner as usize, 0);
            }
            self.datagram_map.set(src_port as usize, self.next_udp_port);
            self.datagram_reverse_map.set(index, src_port);

            // To next port
            self.next_udp_port = match self.next_udp_port.checked_add(1) {
                Some(next_udp_port) => next_udp_port,
                None => 0,
            };
            if self.next_udp_port > INITIAL_PORT + (PORT_COUNT as u16 - 1) || self.next_udp_port
                == 0 {
                self.next_udp_port = INITIAL_PORT;
            }
        }
        self.datagram_map[src_port as usize]
    }

    /// Opens an `Interface` for upstream: handles what its receiver has to offer.
    pub fn open(&mut self, tx: &mut Downstreamer, received: Received) -> (result: Reception)
        requires
            old(self)@.wf(),
            old(tx)@.wf(),
            received matches Received::Frame { indicator: Some(indicator), buffer } ==> old(
                self,
            )@.admits(indicator, buffer@.len() as int),
        ensures
            final(self)@.wf(),
            final(tx)@.wf(),
            match received {
                Received::Frame { indicator, buffer } => {
                    let reaction = old(self)@.frame_reaction(old(tx)@, indicator, buffer@);
                    &&& final(self)@ == reaction.upstream
                    &&& final(tx)@ == reaction.downstream
                    &&& result is Handle
                    &&& result->Handle_0@.wf()
                    &&& result->Handle_0@ == reaction.step
                },
                Received::TimedOut => {
                    &&& final(self)@ == old(self)@
                    &&& final(tx)@ == old(tx)@
                    &&& result == Reception::Wait(TIMEDOUT_WAIT)
                },
                Received::Failed => {
                    &&& final(self)@ == old(self)@
                    &&& final(tx)@ == old(tx)@
                    &&& result == Reception::Stop
                },
            },
    {
        match received {
            Received::Frame { indicator: Some(indicator), buffer } => {
                let step = match indicator.network {
                    Some(Network::Arp(arp)) => self.handle_arp(tx, &arp),
                    Some(Network::Ipv4(ipv4)) => self.handle_ipv4(
                        tx,
                        &indicator,
                        &ipv4,
                        buffer.as_slice(),
                    ),
                    None => Step { command: Command::Nothing, next: Next::Finish },
                };
                Reception::Handle(step)
            },
            Received::Frame { indicator: None, .. } => Reception::Handle(
                Step { command: Command::Nothing, next: Next::Finish },
            ),
            Received::TimedOut => Reception::Wait(TIMEDOUT_WAIT),
            Received::Failed => Reception::Stop,
        }
    }

    /// Returns whether a frame of `len` bytes can be handled.
    pub fn is_admissible(&self, indicator: &Indicator, len: usize) -> (result: bool)
        ensures
            result == self@.admits(*indicator, len as int),
    {
        match indicator.network {
            Some(Network::Ipv4(ipv4)) => ipv4.src != self.src_ip_addr || ipv4.is_fragment()
                || Self::is_transport_admissible(indicator, len),
            _ => true,
        }
    }

    /// Returns whether a reassembled frame of `len` bytes can be handled.
    pub fn is_transport_admissible(indicator: &Indicator, len: usize) -> (result: bool)
        ensures
            result == is_bindable(*indicator, len as int),
    {
        match indicator.transport {
            Some(Transport::Udp(udp)) => (udp.src as usize) < SOURCE_PORT_COUNT
                && indicator.get_size() <= len,
            _ => true,
        }
    }

    /// Sets the hardware address of the source, the first time it is seen.
    fn see_source(&mut self, tx: &mut Downstreamer, hardware_addr: HardwareAddr)
        requires
            old(self)@.wf(),
            old(tx)@.wf(),
        ensures
            final(self)@.wf(),
            final(tx)@.wf(),
            (final(self)@, final(tx)@) == old(self)@.source_seen(old(tx)@, hardware_addr),
    {
        if !self.is_tx_src_hardware_addr_set {
            tx.set_src_hardware_addr(hardware_addr);
            self.is_tx_src_hardware_addr_set = true;
            assert(self@ =~= UpstreamState { is_tx_src_hardware_addr_set: true, ..old(self)@ });
        }
    }

    /// Handles an ARP layer.
    fn handle_arp(
        &mut self,
        tx: &mut Downstreamer,
        arp: &Arp,
    ) -> (result: Step<Transmission, Vec<u8>>)
        requires
            old(self)@.wf(),
            old(tx)@.wf(),
        ensures
            final(self)@.wf(),
            final(tx)@.wf(),
            result@.wf(),
            old(self)@.arp_reaction(old(tx)@, *arp) == (Reaction {
                upstream: final(self)@,
                downstream: final(tx)@,
                step: result@,
            }),
    {
        if let Some(local_ip_addr) = self.local_ip_addr {
            if arp.is_request_of(self.src_ip_addr, local_ip_addr) {
                // Set downstreamer's hardware address
                self.see_source(tx, arp.src_hardware_addr);

                // Send
                return Step {
                    command: Command::Nothing,
                    next: Next::Transmit {
                        job: tx.send_arp_reply(),
                        then: AfterTransmit::Finish,
                    },
                };
            }
        }
        Step { command: Command::Nothing, next: Next::Finish }
    }

    /// Handles an IPv4 layer.
    fn handle_ipv4(
        &mut self,
        tx: &mut Downstreamer,
        indicator: &Indicator,
        ipv4: &Ipv4,
        buffer: &[u8],
    ) -> (result: Step<Transmission, Vec<u8>>)
        requires
            old(self)@.wf(),
            old(tx)@.wf(),
            ipv4.src == old(self)@.src_ip_addr && !ipv4.fragmented() ==> is_bindable(
                *indicator,
                buffer@.len() as int,
            ),
        ensures
            final(self)@.wf(),
            final(tx)@.wf(),
            result@.wf(),
            old(self)@.ipv4_reaction(old(tx)@, *indicator, *ipv4, buffer@) == (Reaction {
                upstream: final(self)@,
                downstream: final(tx)@,
                step: result@,
            }),
    {
        if ipv4.src == self.src_ip_addr {
            // Set downstreamer's hardware address
            self.see_source(tx, indicator.link.src);

            if ipv4.is_fragment() {
                // Fragmentation
                Step { command: Command::Nothing, next: Next::Reassemble }
            } else {
                self.handle_transport(tx, indicator, buffer)
            }
        } else {
            Step { command: Command::Nothing, next: Next::Finish }
        }
    }

    /// Handles the layer inside an IPv4 layer.
    fn handle_transport(
        &mut self,
        tx: &mut Downstreamer,
        indicator: &Indicator,
        buffer: &[u8],
    ) -> (result: Step<Transmission, Vec<u8>>)
        requires
            old(self)@.wf(),
            old(tx)@.wf(),
            is_bindable(*indicator, buffer@.len() as int),
        ensures
            final(self)@.wf(),
            final(tx)@.wf(),
            result@.wf(),
            old(self)@.transport_reaction(old(tx)@, *indicator, buffer@) == (Reaction {
                upstream: final(self)@,
                downstream: final(tx)@,
                step: result@,
            }),
    {
        let size: usize = indicator.get_size();
        let payload: Vec<u8> = if buffer.len() > size {
            slice_to_vec(slice_subrange(buffer, size, buffer.len()))
        } else {
            Vec::new()
        };
        match indicator.transport {
            Some(Transport::Tcp(tcp)) => self.handle_tcp(tx, &tcp, payload),
            Some(Transport::Udp(udp)) => self.handle_udp(tx, &udp, payload),
            None => Step { command: Command::Nothing, next: Next::Finish },
        }
    }

    /// Carries on after a fragment was added to its datagram, with the whole datagram if it is
    /// complete.
    pub fn after_reassemble(
        &mut self,
        tx: &mut Downstreamer,
        reassembled: Option<(Indicator, Vec<u8>)>,
    ) -> (result: Step<Transmission, Vec<u8>>)
        requires
            old(self)@.wf(),
            old(tx)@.wf(),
            reassembled matches Some((indicator, buffer)) ==> is_bindable(
                indicator,
                buffer@.len() as int,
            ),
        ensures
            final(self)@.wf(),
            final(tx)@.wf(),
            result@.wf(),
            ({
                let reaction = match reassembled {
                    Some((indicator, buffer)) => old(self)@.transport_reaction(
                        old(tx)@,
                        indicator,
                        buffer@,
                    ),
                    None => old(self)@.ignore(old(tx)@),
                };
                &&& final(self)@ == reaction.upstream
                &&& final(tx)@ == reaction.downstream
                &&& result@ == reaction.step
            }),
    {
        match reassembled {
            Some((indicator, buffer)) => self.handle_transport(tx, &indicator, buffer.as_slice()),
            None => Step { command: Command::Nothing, next: Next::Finish },
        }
    }

    /// Handles a TCP layer.
    fn handle_tcp(
        &mut self,
        tx: &mut Downstreamer,
        tcp: &Tcp,
        payload: Vec<u8>,
    ) -> (result: Step<Transmission, Vec<u8>>)
        requires
            old(self)@.wf(),
            old(tx)@.wf(),
        ensures
            final(self)@.wf(),
            final(tx)@.wf(),
            result@.wf(),
            old(self)@.tcp_reaction(old(tx)@, *tcp, payload@) == (Reaction {
                upstream: final(self)@,
                downstream: final(tx)@,
                step: result@,
            }),
    {
        if tcp.is_rst {
            self.handle_tcp_rst(tx, tcp)
        } else if tcp.is_ack {
            self.handle_tcp_ack(tx, tcp, payload)
        } else if tcp.is_syn {
            // Pure TCP SYN
            self.handle_tcp_syn(tx, tcp)
        } else if tcp.is_fin {
            // Pure TCP FIN
            self.handle_tcp_fin(tx, tcp)
        } else {
            Step { command: Command::Nothing, next: Next::Finish }
        }
    }

    /// Handles a TCP ACK.
    fn handle_tcp_ack(
        &mut self,
        tx: &mut Downstreamer,
        tcp: &Tcp,
        payload: Vec<u8>,
    ) -> (result: Step<Transmission, Vec<u8>>)
        requires
            old(self)@.wf(),
            old(tx)@.wf(),
        ensures
            final(self)@.wf(),
            final(tx)@.wf(),
            result@.wf(),
            old(self)@.ack_reaction(old(tx)@, *tcp, payload@) == (Reaction {
                upstream: final(self)@,
                downstream: final(tx)@,
                step: result@,
            }),
    {
        let dst = SocketAddrV4::new(tcp.dst_ip_addr, tcp.dst);
        let key = flow_key(tcp.src, dst);
        let next = if self.streams.contains(&key) {
            Next::Inspect { key, tcp: *tcp, payload }
        } else {
            // Send RST
            Next::Transmit { job: tx.send_tcp_rst(dst, tcp.src), then: AfterTransmit::Finish }
        };
        Step { command: Command::Nothing, next }
    }

    /// Carries on with a TCP ACK of a connection with a stream, at the time `now` in nanoseconds,
    /// when it is known if the stream worker is closed.
    pub fn after_inspect(
        &mut self,
        tx: &mut Downstreamer,
        tcp: Tcp,
        payload: Vec<u8>,
        is_closed: bool,
        now: u64,
    ) -> (result: Step<Transmission, Vec<u8>>)
        requires
            old(self)@.wf(),
            old(tx)@.wf(),
            old(self)@.streams.contains(tcp_key(tcp)),
        ensures
            final(self)@.wf(),
            final(tx)@.wf(),
            result@.wf(),
            old(self)@.inspected_reaction(old(tx)@, tcp, payload@, is_closed, now) == (Reaction {
                upstream: final(self)@,
                downstream: final(tx)@,
                step: result@,
            }),
    {
        let dst = SocketAddrV4::new(tcp.dst_ip_addr, tcp.dst);
        let key = flow_key(tcp.src, dst);
        if is_closed {
            // Expect in LAST_ACK state (or the stream met an error)
            let command = self.remove(key);
            tx.remove(dst, tcp.src);
            return Step { command, next: Next::Finish };
        }

        // ACK
        self.update_tcp_sequence(&tcp);
        self.update_tcp_acknowledgement(&tcp);
        tx.invalidate_cache_to(dst, tcp.src, tcp.acknowledgement);
        tx.set_tcp_send_window(dst, tcp.src, tcp.window);

        if payload.len() > 0 {
            // ACK
            self.handle_tcp_payload(tx, &tcp, payload.as_slice())
        } else {
            // ACK0
            if get_or(&self.tcp_duplicate_map, key, 0) > MAX_DUPLICATE {
                if tcp.window > 0 {
                    let is_cooled_down = match self.tcp_last_retransmission_map.get(&key) {
                        Some(instant) => now.saturating_sub(*instant) < RETRANSMISSION_INTERVAL,
                        None => false,
                    };
                    if !is_cooled_down {
                        // Fast retransmit
                        return Step {
                            command: Command::Nothing,
                            next: Next::Transmit {
                                job: tx.resend_tcp_ack(dst, tcp.src),
                                then: AfterTransmit::Retransmitted { dst, src_port: tcp.src },
                            },
                        };
                    }
                }
            }

            // Trigger sending remaining data
            self.flush(tx, dst, tcp.src)
        }
    }

    /// Triggers sending remaining data.
    fn flush(
        &mut self,
        tx: &mut Downstreamer,
        dst: SocketAddrV4,
        src_port: u16,
    ) -> (result: Step<Transmission, Vec<u8>>)
        requires
            old(self)@.wf(),
            old(tx)@.wf(),
        ensures
            final(self)@.wf(),
            final(tx)@.wf(),
            result@.wf(),
            old(self)@.flush(old(tx)@, dst, src_port) == (Reaction {
                upstream: final(self)@,
                downstream: final(tx)@,
                step: result@,
            }),
    {
        Step {
            command: Command::Nothing,
            next: Next::Transmit {
                job: tx.send_tcp_ack(dst, src_port),
                then: AfterTransmit::Finish,
            },
        }
    }

    /// Handles the payload of a TCP ACK.
    fn handle_tcp_payload(
        &mut self,
        tx: &mut Downstreamer,
        tcp: &Tcp,
        payload: &[u8],
    ) -> (result: Step<Transmission, Vec<u8>>)
        requires
            old(self)@.wf(),
            old(tx)@.wf(),
            old(self)@.streams.contains(tcp_key(*tcp)),
            payload@.len() > 0,
        ensures
            final(self)@.wf(),
            final(tx)@.wf(),
            result@.wf(),
            old(self)@.payload_reaction(old(tx)@, *tcp, payload@) == (Reaction {
                upstream: final(self)@,
                downstream: final(tx)@,
                step: result@,
            }),
    {
        let dst = SocketAddrV4::new(tcp.dst_ip_addr, tcp.dst);
        let key = flow_key(tcp.src, dst);

        // Append to cache
        let mut cache = match self.tcp_cache_map.remove(&key) {
            Some(cache) => cache,
            None => RandomCacher::new(tcp.sequence),
        };
        let appended = cache.append(tcp.sequence, payload);
        let remaining = cache.get_remaining_size();
        let ghost after = cache@;
        self.tcp_cache_map.insert(key, cache);
        assert(self@ =~= old(self)@.with_cache(key, after));
        let next = match appended {
            Ok(Some(payload)) => {
                // Send
                let delivery = Delivery {
                    dst,
                    src_port: tcp.src,
                    len: payload.len() as u32,
                    remaining,
                };
                Next::Write { key, payload, delivery }
            },
            Ok(None) => {
                // Retransmission or unordered
                // Send ACK0
                Next::Transmit {
                    job: tx.send_tcp_ack_0(dst, tcp.src),
                    then: AfterTransmit::Flush { dst, src_port: tcp.src },
                }
            },
            Err(_) => Next::Fail(Failure::Cache),
        };
        Step { command: Command::Nothing, next }
    }

    /// Carries on with a TCP ACK when its payload was written to the stream, or could not be.
    pub fn after_write(
        &mut self,
        tx: &mut Downstreamer,
        delivery: Delivery,
        is_written: bool,
    ) -> (result: Step<Transmission, Vec<u8>>)
        requires
            old(self)@.wf(),
            old(tx)@.wf(),
        ensures
            final(self)@.wf(),
            final(tx)@.wf(),
            result@.wf(),
            old(self)@.written_reaction(old(tx)@, delivery, is_written) == (Reaction {
                upstream: final(self)@,
                downstream: final(tx)@,
                step: result@,
            }),
    {
        let Delivery { dst, src_port, len, remaining } = delivery;
        if is_written {
            // Update window size
            tx.set_tcp_window(dst, src_port, remaining);

            // Update TCP acknowledgement
            tx.add_tcp_acknowledgement(dst, src_port, len);

            // Send ACK0
            Step {
                command: Command::Nothing,
                next: Next::Transmit {
                    job: tx.send_tcp_ack_0(dst, src_port),
                    then: AfterTransmit::Flush { dst, src_port },
                },
            }
        } else {
            // Clean up
            let command = self.remove(flow_key(src_port, dst));

            // Send ACK/RST
            Step {
                command,
                next: Next::Transmit {
                    job: tx.send_tcp_ack_rst(dst, src_port),
                    then: AfterTransmit::Reset { dst, src_port, failure: Failure::Stream },
                },
            }
        }
    }

    /// Handles a TCP SYN.
    fn handle_tcp_syn(
        &mut self,
        tx: &mut Downstreamer,
        tcp: &Tcp,
    ) -> (result: Step<Transmission, Vec<u8>>)
        requires
            old(self)@.wf(),
            old(tx)@.wf(),
        ensures
            final(self)@.wf(),
            final(tx)@.wf(),
            result@.wf(),
            old(self)@.syn_reaction(old(tx)@, *tcp) == (Reaction {
                upstream: final(self)@,
                downstream: final(tx)@,
                step: result@,
            }),
    {
        let dst = SocketAddrV4::new(tcp.dst_ip_addr, tcp.dst);
        let key = flow_key(tcp.src, dst);

        // Connect if not connected, drop if established
        if self.streams.contains(&key) {
            return Step { command: Command::Nothing, next: Next::Finish };
        }
        self.update_tcp_sequence(tcp);

        // Connect
        Step {
            command: Command::Nothing,
            next: Next::Connect { key, dst, remote: self.remote, tcp: *tcp },
        }
    }

    /// Carries on with a TCP SYN when a stream was connected, or could not be.
    pub fn after_connect(
        &mut self,
        tx: &mut Downstreamer,
        tcp: Tcp,
        is_connected: bool,
    ) -> (result: Step<Transmission, Vec<u8>>)
        requires
            old(self)@.wf(),
            old(tx)@.wf(),
        ensures
            final(self)@.wf(),
            final(tx)@.wf(),
            result@.wf(),
            old(self)@.connected_reaction(old(tx)@, tcp, is_connected) == (Reaction {
                upstream: final(self)@,
                downstream: final(tx)@,
                step: result@,
            }),
    {
        let dst = SocketAddrV4::new(tcp.dst_ip_addr, tcp.dst);
        let key = flow_key(tcp.src, dst);
        if is_connected {
            tx.set_tcp_acknowledgement(dst, tcp.src, following(tcp.sequence));

            // Send ACK/SYN
            Step {
                command: Command::Nothing,
                next: Next::Transmit {
                    job: tx.send_tcp_ack_syn(dst, tcp.src),
                    then: AfterTransmit::Established { dst, src_port: tcp.src },
                },
            }
        } else {
            // Clean up
            let command = self.remove(key);
            tx.set_tcp_acknowledgement(dst, tcp.src, following(tcp.sequence));

            // Send ACK/RST
            Step {
                command,
                next: Next::Transmit {
                    job: tx.send_tcp_ack_rst(dst, tcp.src),
                    then: AfterTransmit::Reset {
                        dst,
                        src_port: tcp.src,
                        failure: Failure::Connect,
                    },
                },
            }
        }
    }

    /// Handles a TCP RST.
    fn handle_tcp_rst(
        &mut self,
        tx: &mut Downstreamer,
        tcp: &Tcp,
    ) -> (result: Step<Transmission, Vec<u8>>)
        requires
            old(self)@.wf(),
            old(tx)@.wf(),
        ensures
            final(self)@.wf(),
            final(tx)@.wf(),
            result@.wf(),
            old(self)@.rst_reaction(old(tx)@, *tcp) == (Reaction {
                upstream: final(self)@,
                downstream: final(tx)@,
                step: result@,
            }),
    {
        let dst = SocketAddrV4::new(tcp.dst_ip_addr, tcp.dst);
        let key = flow_key(tcp.src, dst);
        if self.streams.contains(&key) {
            // Clean up
            let command = self.remove(key);
            tx.remove(dst, tcp.src);
            Step { command, next: Next::Finish }
        } else {
            Step { command: Command::Nothing, next: Next::Finish }
        }
    }

    /// Handles a TCP FIN.
    fn handle_tcp_fin(
        &mut self,
        tx: &mut Downstreamer,
        tcp: &Tcp,
    ) -> (result: Step<Transmission, Vec<u8>>)
        requires
            old(self)@.wf(),
            old(tx)@.wf(),
        ensures
            final(self)@.wf(),
            final(tx)@.wf(),
            result@.wf(),
            old(self)@.fin_reaction(old(tx)@, *tcp) == (Reaction {
                upstream: final(self)@,
                downstream: final(tx)@,
                step: result@,
            }),
    {
        let dst = SocketAddrV4::new(tcp.dst_ip_addr, tcp.dst);
        let key = flow_key(tcp.src, dst);
        if self.streams.contains(&key) {
            if tx.get_cache_size(dst, tcp.src) > 0 {
                // Trigger sending remaining data
                self.flush(tx, dst, tcp.src)
            } else {
                // Send ACK/FIN
                Step {
                    command: Command::Close(key),
                    next: Next::Transmit {
                        job: tx.send_tcp_ack_fin(dst, tcp.src),
                        then: AfterTransmit::Finish,
                    },
                }
            }
        } else {
            // Send RST
            Step {
                command: Command::Nothing,
                next: Next::Transmit {
                    job: tx.send_tcp_rst(dst, tcp.src),
                    then: AfterTransmit::Finish,
                },
            }
        }
    }

    /// Carries on, at the time `now` in nanoseconds, when a transmission has ended: `is_sent` tells
    /// if all of its frames were sent.
    pub fn after_transmit(
        &mut self,
        tx: &mut Downstreamer,
        after: AfterTransmit,
        is_sent: bool,
        now: u64,
    ) -> (result: Step<Transmission, Vec<u8>>)
        requires
            old(self)@.wf(),
            old(tx)@.wf(),
        ensures
            final(self)@.wf(),
            final(tx)@.wf(),
            result@.wf(),
            old(self)@.transmitted_reaction(old(tx)@, after, is_sent, now) == (Reaction {
                upstream: final(self)@,
                downstream: final(tx)@,
                step: result@,
            }),
    {
        if !is_sent {
            let command = match after {
                AfterTransmit::Established { dst, src_port } => Command::Drop(
                    flow_key(src_port, dst),
                ),
                _ => Command::Nothing,
            };
            return Step { command, next: Next::Fail(Failure::Link) };
        }
        match after {
            AfterTransmit::Finish => Step { command: Command::Nothing, next: Next::Finish },
            AfterTransmit::Flush { dst, src_port } => self.flush(tx, dst, src_port),
            AfterTransmit::Retransmitted { dst, src_port } => {
                let key = flow_key(src_port, dst);
                self.tcp_duplicate_map.insert(key, 0);
                self.tcp_last_retransmission_map.insert(key, now);

                // Trigger sending remaining data
                self.flush(tx, dst, src_port)
            },
            AfterTransmit::Reset { dst, src_port, failure } => {
                // Clean up
                tx.remove(dst, src_port);
                Step { command: Command::Nothing, next: Next::Fail(failure) }
            },
            AfterTransmit::Established { dst, src_port } => {
                self.streams.insert(flow_key(src_port, dst));
                Step { command: Command::Nothing, next: Next::Finish }
            },
        }
    }

    /// Handles an UDP layer.
    fn handle_udp(
        &mut self,
        tx: &mut Downstreamer,
        udp: &Udp,
        payload: Vec<u8>,
    ) -> (result: Step<Transmission, Vec<u8>>)
        requires
            old(self)@.wf(),
            old(tx)@.wf(),
            udp.src < SOURCE_PORT_COUNT,
        ensures
            final(self)@.wf(),
            final(tx)@.wf(),
            result@.wf(),
            old(self)@.udp_reaction(old(tx)@, *udp, payload@) == (Reaction {
                upstream: final(self)@,
                downstream: final(tx)@,
                step: result@,
            }),
    {
        let port = self.get_local_udp_port(udp.src);
        let index: usize = (port - INITIAL_PORT) as usize;
        let next = match self.datagrams[index] {
            Some(_) => Next::InspectDatagram { index, udp: *udp, payload },
            None => self.bind(index, udp, payload),
        };
        Step { command: Command::Nothing, next }
    }

    /// Asks for a datagram worker.
    fn bind(&self, index: usize, udp: &Udp, payload: Vec<u8>) -> (result: Next<
        Transmission,
        Vec<u8>,
    >)
        requires
            index < PORT_COUNT,
        ensures
            result@ == self@.bind(index, *udp, payload@),
    {
        Next::Bind {
            index,
            src_port: udp.src,
            local_port: INITIAL_PORT + index as u16,
            remote: self.remote,
            dst: SocketAddrV4::new(udp.dst_ip_addr, udp.dst),
            payload,
        }
    }

    /// Carries on with an UDP layer when it is known if the datagram worker is closed.
    pub fn after_inspect_datagram(
        &mut self,
        index: usize,
        udp: Udp,
        payload: Vec<u8>,
        is_closed: bool,
    ) -> (result: Step<Transmission, Vec<u8>>)
        requires
            old(self)@.wf(),
            index < PORT_COUNT,
        ensures
            final(self)@.wf(),
            result@.wf(),
            (final(self)@, result@) == old(self)@.datagram_inspected(
                index,
                udp,
                payload@,
                is_closed,
            ),
    {
        let is_create;
        let is_set;
        match self.datagrams[index] {
            Some(src_port) => {
                is_create = is_closed;
                is_set = src_port != udp.src;
            },
            None => {
                is_create = true;
                is_set = false;
            },
        }
        if is_create {
            // Bind
            let next = self.bind(index, &udp, payload);
            return Step { command: Command::Nothing, next };
        }
        let command = if is_set {
            // Replace
            self.datagrams.set(index, Some(udp.src));
            Command::SetSource { index, src_port: udp.src }
        } else {
            Command::Nothing
        };

        // Send
        let dst = SocketAddrV4::new(udp.dst_ip_addr, udp.dst);
        Step { command, next: Next::SendDatagram { index, dst, payload } }
    }

    /// Carries on with an UDP layer when a datagram worker was bound, or could not be.
    pub fn after_bind(
        &mut self,
        index: usize,
        src_port: u16,
        dst: SocketAddrV4,
        payload: Vec<u8>,
        is_bound: bool,
    ) -> (result: Step<Transmission, Vec<u8>>)
        requires
            old(self)@.wf(),
            index < PORT_COUNT,
        ensures
            final(self)@.wf(),
            result@.wf(),
            (final(self)@, result@) == old(self)@.datagram_bound(
                index,
                src_port,
                dst,
                payload@,
                is_bound,
            ),
    {
        if is_bound {
            self.datagrams.set(index, Some(src_port));

            // Send
            Step {
                command: Command::Nothing,
                next: Next::SendDatagram { index, dst, payload },
            }
        } else {
            Step { command: Command::Nothing, next: Next::Fail(Failure::Bind) }
        }
    }

    /// Carries on with an UDP layer when its payload was sent, or could not be.
    pub fn after_send_datagram(is_sent: bool) -> (result: Step<Transmission, Vec<u8>>)
        ensures
            result@.wf(),
            result@ == datagram_sent(is_sent),
    {
        if is_sent {
            Step { command: Command::Nothing, next: Next::Finish }
        } else {
            Step { command: Command::Nothing, next: Next::Fail(Failure::Datagram) }
        }
    }
}

} // verus!
