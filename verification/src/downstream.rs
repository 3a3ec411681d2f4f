//! The channel of downstream traffic to the source.
use std::collections::HashMap;

use vstd::prelude::*;
use vstd::slice::{slice_subrange, slice_to_vec};

use crate::addr::{flow_key, HardwareAddr, Ipv4Addr, SocketAddrV4};
use crate::cacher::{CacheError, Cacher, MAX_WINDOW};
use crate::packet::{
    Arp, Ethernet, Frame, Indicator, Ipv4, LayerType, Network, Tcp, TcpKind, Transport, Udp,
    UDP_HEADER_SIZE,
};
use crate::sequence::{advance, following, is_in_window};
use crate::transmission::Transmission;

#[allow(unused_imports)]
use crate::addr::flow;
#[allow(unused_imports)]
use crate::cacher::Buffered;
#[allow(unused_imports)]
use crate::packet::FrameView;
#[allow(unused_imports)]
use crate::sequence::{advanced, in_window, law_gap_undoes_advance, successor};
#[allow(unused_imports)]
use crate::transmission::{is_last_packet, packet_len, segment_len, Outgoing};

verus! {

broadcast use vstd::std_specs::hash::group_hash_axioms;

/// Represents the window size of a TCP connection for which none was set.
pub const DEFAULT_WINDOW: u16 = 65535;

/// The value that `map` holds for `key`, or `default`.
pub open spec fn value_or<K, V>(map: Map<K, V>, key: K, default: V) -> V {
    if map.contains_key(key) {
        map[key]
    } else {
        default
    }
}

/// Returns the value that `map` holds for `key`, or `default`.
pub fn get_or<V: Copy>(map: &HashMap<u64, V>, key: u64, default: V) -> (result: V)
    ensures
        result == value_or(map@, key, default),
{
    match map.get(&key) {
        Some(value) => *value,
        None => default,
    }
}

/// The contents of a [`Downstreamer`].
///
/// The maps from `u64` are keyed by connection, where `sent` holds the bytes that were sent but not
/// acknowledged, and `unsent` the bytes that were not sent. `identifications` is keyed by the
/// address that stands as the source of a packet.
#[verifier::ext_equal]
pub struct DownstreamState {
    pub src_hardware_addr: HardwareAddr,
    pub local_hardware_addr: HardwareAddr,
    pub src_ip_addr: Ipv4Addr,
    pub local_ip_addr: Ipv4Addr,
    pub identifications: Map<Ipv4Addr, u16>,
    pub send_windows: Map<u64, u16>,
    pub sequences: Map<u64, u32>,
    pub acknowledgements: Map<u64, u32>,
    pub windows: Map<u64, u16>,
    pub sent: Map<u64, Buffered>,
    pub unsent: Map<u64, Buffered>,
}

/// The TCP layer with flags `kind` of a segment from `dst` to port `src_port` of `src_ip_addr`.
pub open spec fn tcp_layer(
    kind: TcpKind,
    dst: SocketAddrV4,
    src_ip_addr: Ipv4Addr,
    src_port: u16,
    sequence: u32,
    acknowledgement: u32,
    window: u16,
) -> Tcp {
    Tcp {
        src_ip_addr: dst.ip,
        dst_ip_addr: src_ip_addr,
        src: dst.port,
        dst: src_port,
        sequence,
        acknowledgement,
        window,
        is_ack: kind != TcpKind::Rst,
        is_rst: kind == TcpKind::AckRst || kind == TcpKind::Rst,
        is_syn: kind == TcpKind::AckSyn,
        is_fin: kind == TcpKind::AckFin,
        header_size: 20,
    }
}

impl DownstreamState {
    /// Whether the caches keep to their limits.
    pub open spec fn wf(self) -> bool {
        &&& forall|key: u64| #[trigger]
            self.sent.contains_key(key) ==> self.sent[key].wf() && self.sent[key].limit
                == MAX_WINDOW
        &&& forall|key: u64| #[trigger] self.unsent.contains_key(key) ==> self.unsent[key].wf()
    }

    /// The IPv4 identification of the next packet from `ip_addr`.
    pub open spec fn identification(self, ip_addr: Ipv4Addr) -> u16 {
        value_or(self.identifications, ip_addr, 0)
    }

    /// The recorded sequence number of a connection.
    pub open spec fn sequence(self, key: u64) -> u32 {
        value_or(self.sequences, key, 0)
    }

    /// The acknowledgement of a connection.
    pub open spec fn acknowledgement(self, key: u64) -> u32 {
        value_or(self.acknowledgements, key, 0)
    }

    /// The window size of a connection.
    pub open spec fn window(self, key: u64) -> u16 {
        value_or(self.windows, key, DEFAULT_WINDOW)
    }

    /// The send window size of a connection.
    pub open spec fn send_window(self, key: u64) -> u16 {
        value_or(self.send_windows, key, 0)
    }

    /// The number of bytes of a connection that were sent but not acknowledged.
    pub open spec fn sent_len(self, key: u64) -> int {
        if self.sent.contains_key(key) {
            self.sent[key].bytes.len() as int
        } else {
            0
        }
    }

    /// The number of bytes of a connection that were not sent.
    pub open spec fn unsent_len(self, key: u64) -> int {
        if self.unsent.contains_key(key) {
            self.unsent[key].bytes.len() as int
        } else {
            0
        }
    }

    /// The state after a packet from `ip_addr` has gone out.
    pub open spec fn identified(self, ip_addr: Ipv4Addr) -> DownstreamState {
        let identification = self.identification(ip_addr);
        DownstreamState {
            identifications: self.identifications.insert(
                ip_addr,
                if identification == u16::MAX {
                    0
                } else {
                    (identification + 1) as u16
                },
            ),
            ..self
        }
    }

    /// The state without any information related to a connection.
    pub open spec fn removed(self, key: u64) -> DownstreamState {
        DownstreamState {
            send_windows: self.send_windows.remove(key),
            sequences: self.sequences.remove(key),
            acknowledgements: self.acknowledgements.remove(key),
            windows: self.windows.remove(key),
            sent: self.sent.remove(key),
            unsent: self.unsent.remove(key),
            ..self
        }
    }

    /// The state with the bytes that were sent before `sequence` taken as acknowledged.
    pub open spec fn invalidated(self, key: u64, sequence: u32) -> DownstreamState {
        if self.sent.contains_key(key) {
            DownstreamState {
                sent: self.sent.insert(key, self.sent[key].invalidated(sequence)),
                ..self
            }
        } else {
            self
        }
    }

    /// The state with a cache of unsent bytes for a connection.
    pub open spec fn opened(self, key: u64) -> DownstreamState {
        DownstreamState {
            unsent: self.unsent.insert(
                key,
                value_or(self.unsent, key, Buffered::extendable(self.sequence(key))),
            ),
            ..self
        }
    }

    /// Whether `payload` can be appended to the unsent bytes of a connection.
    pub open spec fn has_room_for(self, key: u64, payload: Seq<u8>) -> bool {
        self.opened(key).unsent[key].has_room_for(payload)
    }

    /// The state with `payload` appended to the unsent bytes of a connection.
    pub open spec fn queued(self, key: u64, payload: Seq<u8>) -> DownstreamState {
        let opened = self.opened(key);
        DownstreamState {
            unsent: opened.unsent.insert(key, opened.unsent[key].appended(payload)),
            ..opened
        }
    }

    /// The number of unsent bytes of a connection that the send window admits.
    pub open spec fn sendable(self, key: u64) -> int {
        let room = self.send_window(key) - self.sent_len(key);
        if room <= 0 {
            0
        } else if room < self.unsent_len(key) {
            room
        } else {
            self.unsent_len(key)
        }
    }

    /// The state after the unsent bytes of a connection that the send window admits were counted
    /// as sent.
    pub open spec fn flushed(self, key: u64) -> DownstreamState {
        if self.unsent.contains_key(key) && self.send_window(key) > 0 {
            let n = self.sendable(key);
            let unsent = self.unsent[key];
            let sent = value_or(self.sent, key, Buffered::fixed(unsent.sequence));
            DownstreamState {
                sent: self.sent.insert(key, sent.appended(unsent.bytes.take(n))),
                unsent: self.unsent.insert(
                    key,
                    Buffered {
                        sequence: advanced(unsent.sequence, n),
                        bytes: unsent.bytes.skip(n),
                        ..unsent
                    },
                ),
                ..self
            }
        } else {
            self
        }
    }

    /// The segments for the unsent bytes of a connection that the send window admits.
    pub open spec fn flush(self, dst: SocketAddrV4, src_port: u16) -> Outgoing {
        let key = flow(src_port, dst);
        if self.sendable(key) > 0 {
            Outgoing::Stream {
                dst,
                src_port,
                sequence: self.unsent[key].sequence,
                payload: self.unsent[key].bytes.take(self.sendable(key)),
                offset: 0,
            }
        } else {
            Outgoing::Complete
        }
    }

    /// The segments for the bytes of a connection that were sent but not acknowledged.
    pub open spec fn retransmission(self, dst: SocketAddrV4, src_port: u16) -> Outgoing {
        let key = flow(src_port, dst);
        if self.sent_len(key) > 0 {
            Outgoing::Stream {
                dst,
                src_port,
                sequence: self.sent[key].sequence,
                payload: self.sent[key].bytes,
                offset: 0,
            }
        } else {
            Outgoing::Complete
        }
    }

    /// The frame that answers an ARP request.
    pub open spec fn arp_reply(self) -> FrameView {
        FrameView {
            indicator: Indicator {
                link: Ethernet {
                    kind: LayerType::Arp,
                    src: self.local_hardware_addr,
                    dst: self.src_hardware_addr,
                },
                network: Some(
                    Network::Arp(
                        Arp {
                            is_request: false,
                            src_hardware_addr: self.local_hardware_addr,
                            src_ip_addr: self.local_ip_addr,
                            dst_hardware_addr: self.src_hardware_addr,
                            dst_ip_addr: self.src_ip_addr,
                        },
                    ),
                ),
                transport: None,
            },
            payload: None,
        }
    }

    /// The frame around an IPv4 packet from `ip_addr`.
    pub open spec fn ipv4_frame(
        self,
        ip_addr: Ipv4Addr,
        kind: LayerType,
        more_fragments: bool,
        fragment_offset: u16,
        transport: Option<Transport>,
        payload: Option<Seq<u8>>,
    ) -> FrameView {
        FrameView {
            indicator: Indicator {
                link: Ethernet {
                    kind: LayerType::Ipv4,
                    src: self.local_hardware_addr,
                    dst: self.src_hardware_addr,
                },
                network: Some(
                    Network::Ipv4(
                        Ipv4 {
                            identification: self.identification(ip_addr),
                            kind,
                            more_fragments,
                            fragment_offset,
                            src: ip_addr,
                            dst: self.src_ip_addr,
                            header_size: 20,
                        },
                    ),
                ),
                transport,
            },
            payload,
        }
    }

    /// The frame around a TCP segment of a connection.
    pub open spec fn tcp_frame(
        self,
        kind: TcpKind,
        dst: SocketAddrV4,
        src_port: u16,
        sequence: u32,
        payload: Option<Seq<u8>>,
    ) -> FrameView {
        let key = flow(src_port, dst);
        self.ipv4_frame(
            dst.ip,
            LayerType::Tcp,
            false,
            0,
            Some(
                Transport::Tcp(
                    tcp_layer(
                        kind,
                        dst,
                        self.src_ip_addr,
                        src_port,
                        sequence,
                        if kind == TcpKind::Rst {
                            0
                        } else {
                            self.acknowledgement(key)
                        },
                        self.window(key),
                    ),
                ),
            ),
            payload,
        )
    }

    /// The frame around the IPv4 packet that starts at `offset` of a datagram from `dst`.
    pub open spec fn udp_frame(
        self,
        dst: SocketAddrV4,
        src_port: u16,
        payload: Seq<u8>,
        offset: int,
    ) -> FrameView {
        let size = UDP_HEADER_SIZE + payload.len();
        self.ipv4_frame(
            dst.ip,
            LayerType::Udp,
            !is_last_packet(size, offset),
            (offset / 8 % 0x1_0000) as u16,
            if offset == 0 {
                Some(
                    Transport::Udp(
                        Udp {
                            src_ip_addr: dst.ip,
                            dst_ip_addr: self.src_ip_addr,
                            src: dst.port,
                            dst: src_port,
                        },
                    ),
                )
            } else {
                None
            },
            Some(
                payload.subrange(
                    if offset == 0 {
                        0
                    } else {
                        offset - UDP_HEADER_SIZE
                    },
                    offset + packet_len(size, offset) - UDP_HEADER_SIZE,
                ),
            ),
        )
    }

    /// The next frame of a transmission that is not complete.
    pub open spec fn next_frame(self, outgoing: Outgoing) -> FrameView {
        match outgoing {
            Outgoing::Complete => arbitrary(),
            Outgoing::ArpReply => self.arp_reply(),
            Outgoing::Control { kind, dst, src_port } => self.tcp_frame(
                kind,
                dst,
                src_port,
                self.sequence(flow(src_port, dst)),
                None,
            ),
            Outgoing::Stream { dst, src_port, sequence, payload, offset } => self.tcp_frame(
                TcpKind::Ack,
                dst,
                src_port,
                advanced(sequence, offset),
                Some(
                    payload.subrange(offset, offset + segment_len(payload.len() as int, offset)),
                ),
            ),
            Outgoing::Datagram { dst, src_port, payload, offset } => self.udp_frame(
                dst,
                src_port,
                payload,
                offset,
            ),
        }
    }

    /// The state with `sequence` recorded for a connection, unless it lies outside of the window
    /// that starts with the recorded one.
    pub open spec fn recorded(self, key: u64, sequence: u32) -> DownstreamState {
        if in_window(self.sequence(key), sequence) {
            DownstreamState { sequences: self.sequences.insert(key, sequence), ..self }
        } else {
            self
        }
    }

    /// The state after the next frame of a transmission has gone out.
    pub open spec fn after(self, outgoing: Outgoing) -> DownstreamState {
        match outgoing {
            Outgoing::Complete => self,
            Outgoing::ArpReply => self,
            Outgoing::Control { kind, dst, src_port } => {
                let key = flow(src_port, dst);
                let identified = self.identified(dst.ip);
                if kind == TcpKind::AckSyn {
                    DownstreamState {
                        sequences: self.sequences.insert(key, successor(self.sequence(key))),
                        ..identified
                    }
                } else {
                    identified
                }
            },
            Outgoing::Stream { dst, src_port, sequence, payload, offset } => self.identified(
                dst.ip,
            ).recorded(
                flow(src_port, dst),
                advanced(
                    advanced(sequence, offset),
                    segment_len(payload.len() as int, offset),
                ),
            ),
            Outgoing::Datagram { dst, src_port, payload, offset } => if is_last_packet(
                UDP_HEADER_SIZE + payload.len(),
                offset,
            ) {
                self.identified(dst.ip)
            } else {
                self
            },
        }
    }
}

/// Represents the channel downstream traffic to the source.
pub struct Downstreamer {
    src_hardware_addr: HardwareAddr,
    local_hardware_addr: HardwareAddr,
    src_ip_addr: Ipv4Addr,
    local_ip_addr: Ipv4Addr,
    ipv4_identification_map: HashMap<Ipv4Addr, u16>,
    tcp_send_window_map: HashMap<u64, u16>,
    tcp_sequence_map: HashMap<u64, u32>,
    tcp_acknowledgement_map: HashMap<u64, u32>,
    tcp_window_map: HashMap<u64, u16>,
    tcp_cache_map: HashMap<u64, Cacher>,
    tcp_cache2_map: HashMap<u64, Cacher>,
}

impl View for Downstreamer {
    type V = DownstreamState;

    closed spec fn view(&self) -> DownstreamState {
        DownstreamState {
            src_hardware_addr: self.src_hardware_addr,
            local_hardware_addr: self.local_hardware_addr,
            src_ip_addr: self.src_ip_addr,
            local_ip_addr: self.local_ip_addr,
            identifications: self.ipv4_identification_map@,
            send_windows: self.tcp_send_window_map@,
            sequences: self.tcp_sequence_map@,
            acknowledgements: self.tcp_acknowledgement_map@,
            windows: self.tcp_window_map@,
            sent: self.tcp_cache_map@.map_values(|cache: Cacher| cache@),
            unsent: self.tcp_cache2_map@.map_values(|cache: Cacher| cache@),
        }
    }
}

impl Downstreamer {
    /// Creates a new `Downstreamer`.
    pub fn new(
        local_hardware_addr: HardwareAddr,
        src_ip_addr: Ipv4Addr,
        local_ip_addr: Ipv4Addr,
    ) -> (result: Downstreamer)
        ensures
            result@.wf(),
            result@ == (DownstreamState {
                src_hardware_addr: HardwareAddr::zero(),
                local_hardware_addr,
                src_ip_addr,
                local_ip_addr,
                identifications: Map::empty(),
                send_windows: Map::empty(),
                sequences: Map::empty(),
                acknowledgements: Map::empty(),
                windows: Map::empty(),
                sent: Map::empty(),
                unsent: Map::empty(),
            }),
    {
        let result = Downstreamer {
            src_hardware_addr: HardwareAddr::unspecified(),
            local_hardware_addr,
            src_ip_addr,
            local_ip_addr,
            ipv4_identification_map: HashMap::new(),
            tcp_send_window_map: HashMap::new(),
            tcp_sequence_map: HashMap::new(),
            tcp_acknowledgement_map: HashMap::new(),
            tcp_window_map: HashMap::new(),
            tcp_cache_map: HashMap::new(),
            tcp_cache2_map: HashMap::new(),
        };
        result
    }

    /// Sets the source hardware address.
    pub fn set_src_hardware_addr(&mut self, hardware_addr: HardwareAddr)
        ensures
            final(self)@ == (DownstreamState { src_hardware_addr: hardware_addr, ..old(self)@ }),
    {
        self.src_hardware_addr = hardware_addr;
    }

    /// Sets the local IP address.
    pub fn set_local_ip_addr(&mut self, ip_addr: Ipv4Addr)
        ensures
            final(self)@ == (DownstreamState { local_ip_addr: ip_addr, ..old(self)@ }),
    {
        self.local_ip_addr = ip_addr;
    }

    /// Returns the IPv4 identification of the next packet from `ip_addr`.
    fn get_ipv4_identification(&self, ip_addr: Ipv4Addr) -> (result: u16)
        ensures
            result == self@.identification(ip_addr),
    {
        match self.ipv4_identification_map.get(&ip_addr) {
            Some(identification) => *identification,
            None => 0,
        }
    }

    /// Increases the IPv4 identification after a packet from `ip_addr` was sent.
    fn increase_ipv4_identification(&mut self, ip_addr: Ipv4Addr)
        ensures
            final(self)@ == old(self)@.identified(ip_addr),
    {
        let identification: u16 = match self.get_ipv4_identification(ip_addr).checked_add(1) {
            Some(identification) => identification,
            None => 0,
        };
        self.ipv4_identification_map.insert(ip_addr, identification);
    }

    /// Sets the send window size of a TCP connection.
    pub fn set_tcp_send_window(&mut self, dst: SocketAddrV4, src_port: u16, window: u16)
        ensures
            final(self)@ == (DownstreamState {
                send_windows: old(self)@.send_windows.insert(flow(src_port, dst), window),
                ..old(self)@
            }),
    {
        self.tcp_send_window_map.insert(flow_key(src_port, dst), window);
    }

    /// Sets the acknowledgement of a TCP connection.
    pub fn set_tcp_acknowledgement(&mut self, dst: SocketAddrV4, src_port: u16, sequence: u32)
        ensures
            final(self)@ == (DownstreamState {
                acknowledgements: old(self)@.acknowledgements.insert(flow(src_port, dst), sequence),
                ..old(self)@
            }),
    {
        self.tcp_acknowledgement_map.insert(flow_key(src_port, dst), sequence);
    }

    /// Adds acknowledgement to a TCP connection.
    pub fn add_tcp_acknowledgement(&mut self, dst: SocketAddrV4, src_port: u16, n: u32)
        ensures
            final(self)@ == (DownstreamState {
                acknowledgements: old(self)@.acknowledgements.insert(
                    flow(src_port, dst),
                    advanced(old(self)@.acknowledgement(flow(src_port, dst)), n as int),
                ),
                ..old(self)@
            }),
    {
        let key = flow_key(src_port, dst);
        let acknowledgement = get_or(&self.tcp_acknowledgement_map, key, 0);
        self.tcp_acknowledgement_map.insert(key, advance(acknowledgement, n));
    }

    /// Sets the window size of a TCP connection.
    pub fn set_tcp_window(&mut self, dst: SocketAddrV4, src_port: u16, window: u16)
        ensures
            final(self)@ == (DownstreamState {
                windows: old(self)@.windows.insert(flow(src_port, dst), window),
                ..old(self)@
            }),
    {
        self.tcp_window_map.insert(flow_key(src_port, dst), window);
    }

    /// Get the size of the cache of a TCP connection.
    pub fn get_cache_size(&self, dst: SocketAddrV4, src_port: u16) -> (result: usize)
        requires
            self@.wf(),
        ensures
            result == self@.sent_len(flow(src_port, dst)) + self@.unsent_len(flow(src_port, dst)),
    {
        let key = flow_key(src_port, dst);
        proof {
            assert(self@.sent.contains_key(key) ==> self@.sent[key].wf());
            assert(self@.unsent.contains_key(key) ==> self@.unsent[key].wf());
        }
        let mut size: usize = 0;
        if let Some(cache) = self.tcp_cache_map.get(&key) {
            size = size + cache.get_size();
        }
        if let Some(cache) = self.tcp_cache2_map.get(&key) {
            size = size + cache.get_size();
        }
        size
    }

    /// Invalidates TCP cache to the given sequence.
    pub fn invalidate_cache_to(&mut self, dst: SocketAddrV4, src_port: u16, sequence: u32)
        requires
            old(self)@.wf(),
        ensures
            final(self)@.wf(),
            final(self)@ == old(self)@.invalidated(flow(src_port, dst), sequence),
    {
        let key = flow_key(src_port, dst);
        match self.tcp_cache_map.remove(&key) {
            Some(mut cache) => {
                assert(old(self)@.sent.contains_key(key));
                cache.invalidate_to(sequence);
                self.tcp_cache_map.insert(key, cache);
            },
            None => {},
        }
        assert(self@ =~= old(self)@.invalidated(key, sequence));
    }

    /// Removes all information related to a TCP connection.
    pub fn remove(&mut self, dst: SocketAddrV4, src_port: u16)
        requires
            old(self)@.wf(),
        ensures
            final(self)@.wf(),
            final(self)@ == old(self)@.removed(flow(src_port, dst)),
    {
        let key = flow_key(src_port, dst);
        self.tcp_send_window_map.remove(&key);
        self.tcp_sequence_map.remove(&key);
        self.tcp_acknowledgement_map.remove(&key);
        self.tcp_window_map.remove(&key);
        self.tcp_cache_map.remove(&key);
        self.tcp_cache2_map.remove(&key);
    }

    /// Sends an ARP reply packet.
    pub fn send_arp_reply(&self) -> (result: Transmission)
        ensures
            result@.wf(),
            result@ == Outgoing::ArpReply,
    {
        Transmission::ArpReply
    }

    /// Appends TCP ACK payload to cache.
    pub fn append_to_cache(
        &mut self,
        dst: SocketAddrV4,
        src_port: u16,
        payload: &[u8],
    ) -> (result: Result<Transmission, CacheError>)
        requires
            old(self)@.wf(),
        ensures
            final(self)@.wf(),
            old(self)@.has_room_for(flow(src_port, dst), payload@) ==> {
                let queued = old(self)@.queued(flow(src_port, dst), payload@);
                &&& final(self)@ == queued.flushed(flow(src_port, dst))
                &&& result is Ok
                &&& result->Ok_0@.wf()
                &&& result->Ok_0@ == queued.flush(dst, src_port)
            },
            !old(self)@.has_room_for(flow(src_port, dst), payload@) ==> {
                &&& final(self)@ == old(self)@.opened(flow(src_port, dst))
                &&& result == Err::<Transmission, CacheError>(CacheError::Full)
            },
    {
        let key = flow_key(src_port, dst);

        // TCP sequence
        let sequence = get_or(&self.tcp_sequence_map, key, 0);

        // Append to cache
        let mut cache = match self.tcp_cache2_map.remove(&key) {
            Some(cache) => cache,
            None => Cacher::new_extendable(sequence),
        };
        let appended = cache.append(payload);
        self.tcp_cache2_map.insert(key, cache);
        match appended {
            Ok(()) => {
                assert(self@ =~= old(self)@.queued(key, payload@));
                Ok(self.send_tcp_ack(dst, src_port))
            },
            Err(e) => {
                assert(self@ =~= old(self)@.opened(key));
                Err(e)
            },
        }
    }

    /// Resends TCP ACK packets from first (sent) cache.
    pub fn resend_tcp_ack(&self, dst: SocketAddrV4, src_port: u16) -> (result: Transmission)
        requires
            self@.wf(),
        ensures
            result@.wf(),
            result@ == self@.retransmission(dst, src_port),
    {
        let key = flow_key(src_port, dst);
        match self.tcp_cache_map.get(&key) {
            Some(cache) => {
                let payload = cache.get_all();
                if payload.len() > 0 {
                    Self::send_tcp_ack_raw(dst, src_port, cache.get_sequence(), payload)
                } else {
                    Transmission::Complete
                }
            },
            None => Transmission::Complete,
        }
    }

    /// Sends TCP ACK packets from second (unsent) cache.
    pub fn send_tcp_ack(&mut self, dst: SocketAddrV4, src_port: u16) -> (result: Transmission)
        requires
            old(self)@.wf(),
        ensures
            final(self)@.wf(),
            final(self)@ == old(self)@.flushed(flow(src_port, dst)),
            result@.wf(),
            result@ == old(self)@.flush(dst, src_port),
    {
        let key = flow_key(src_port, dst);
        let window: u16 = get_or(&self.tcp_send_window_map, key, 0);
        if window == 0 {
            return Transmission::Complete;
        }
        let mut cache2 = match self.tcp_cache2_map.remove(&key) {
            Some(cache2) => cache2,
            None => {
                assert(self@ =~= old(self)@);
                return Transmission::Complete;
            },
        };
        let sequence = cache2.get_sequence();
        let mut cache = match self.tcp_cache_map.remove(&key) {
            Some(cache) => cache,
            None => Cacher::new(sequence),
        };
        let sent_size: usize = cache.get_size();
        let remain_size: usize = match (window as usize).checked_sub(sent_size) {
            Some(remain_size) => remain_size,
            None => 0,
        };
        let size: usize = if remain_size < cache2.get_size() {
            remain_size
        } else {
            cache2.get_size()
        };
        let mut result = Transmission::Complete;
        if size > 0 {
            if let Ok(payload) = cache2.get(size) {
                let sequence_tail = advance(sequence, size as u32);
                proof {
                    law_gap_undoes_advance(sequence, size as int);
                }
                cache2.invalidate_to(sequence_tail);

                // Append to cache
                let appended = cache.append(payload.as_slice());
                assert(appended is Ok);

                // Send
                result = Self::send_tcp_ack_raw(dst, src_port, sequence, payload);
            }
        }
        self.tcp_cache_map.insert(key, cache);
        self.tcp_cache2_map.insert(key, cache2);
        proof {
            let unsent = old(self)@.unsent[key];
            if size == 0 {
                assert(unsent.bytes.skip(0) =~= unsent.bytes);
                assert(cache@ =~= value_or(
                    old(self)@.sent,
                    key,
                    Buffered::fixed(sequence),
                ).appended(unsent.bytes.take(0)));
            }
            assert(self@ =~= old(self)@.flushed(key));
        }
        result
    }

    /// Sends TCP ACK packets for `payload`, the first byte of which has the number `sequence`.
    pub fn send_tcp_ack_raw(
        dst: SocketAddrV4,
        src_port: u16,
        sequence: u32,
        payload: Vec<u8>,
    ) -> (result: Transmission)
        requires
            payload@.len() <= u32::MAX,
        ensures
            result@.wf(),
            result@ == (Outgoing::Stream { dst, src_port, sequence, payload: payload@, offset: 0 }),
    {
        Transmission::Stream { dst, src_port, sequence, payload, offset: 0 }
    }

    /// Sends an TCP ACK packet without payload.
    pub fn send_tcp_ack_0(&self, dst: SocketAddrV4, src_port: u16) -> (result: Transmission)
        ensures
            result@.wf(),
            result@ == (Outgoing::Control { kind: TcpKind::Ack, dst, src_port }),
    {
        Transmission::Control { kind: TcpKind::Ack, dst, src_port }
    }

    /// Sends an TCP ACK/SYN packet.
    pub fn send_tcp_ack_syn(&self, dst: SocketAddrV4, src_port: u16) -> (result: Transmission)
        ensures
            result@.wf(),
            result@ == (Outgoing::Control { kind: TcpKind::AckSyn, dst, src_port }),
    {
        Transmission::Control { kind: TcpKind::AckSyn, dst, src_port }
    }

    /// Sends an TCP ACK/RST packet.
    pub fn send_tcp_ack_rst(&self, dst: SocketAddrV4, src_port: u16) -> (result: Transmission)
        ensures
            result@.wf(),
            result@ == (Outgoing::Control { kind: TcpKind::AckRst, dst, src_port }),
    {
        Transmission::Control { kind: TcpKind::AckRst, dst, src_port }
    }

    /// Sends an TCP ACK/FIN packet.
    pub fn send_tcp_ack_fin(&self, dst: SocketAddrV4, src_port: u16) -> (result: Transmission)
        ensures
            result@.wf(),
            result@ == (Outgoing::Control { kind: TcpKind::AckFin, dst, src_port }),
    {
        Transmission::Control { kind: TcpKind::AckFin, dst, src_port }
    }

    /// Sends an TCP RST packet.
    pub fn send_tcp_rst(&self, dst: SocketAddrV4, src_port: u16) -> (result: Transmission)
        ensures
            result@.wf(),
            result@ == (Outgoing::Control { kind: TcpKind::Rst, dst, src_port }),
    {
        Transmission::Control { kind: TcpKind::Rst, dst, src_port }
    }

    /// Sends UDP packets.
    pub fn send_udp(&self, dst: SocketAddrV4, src_port: u16, payload: &[u8]) -> (result:
        Transmission)
        ensures
            result@.wf(),
            result@ == (Outgoing::Datagram { dst, src_port, payload: payload@, offset: 0 }),
    {
        Transmission::Datagram { dst, src_port, payload: slice_to_vec(payload), sent: None }
    }

    /// Returns the frame with the layers `network` and `transport`.
    fn build_ethernet(
        &self,
        network: Network,
        transport: Option<Transport>,
        payload: Option<Vec<u8>>,
    ) -> (result: Frame)
        ensures
            result.indicator == (Indicator {
                link: Ethernet {
                    kind: match network {
                        Network::Arp(_) => LayerType::Arp,
                        Network::Ipv4(_) => LayerType::Ipv4,
                    },
                    src: self@.local_hardware_addr,
                    dst: self@.src_hardware_addr,
                },
                network: Some(network),
                transport,
            }),
            result.payload == payload,
    {
        // Ethernet
        let kind = match network {
            Network::Arp(_) => LayerType::Arp,
            Network::Ipv4(_) => LayerType::Ipv4,
        };
        let link = Ethernet {
            kind,
            src: self.local_hardware_addr,
            dst: self.src_hardware_addr,
        };

        // Indicator
        let indicator = Indicator { link, network: Some(network), transport };

        Frame { indicator, payload }
    }

    /// Returns the frame around an IPv4 packet from `ip_addr`.
    fn build_ipv4(
        &self,
        ip_addr: Ipv4Addr,
        kind: LayerType,
        more_fragments: bool,
        fragment_offset: u16,
        transport: Option<Transport>,
        payload: Option<Vec<u8>>,
    ) -> (result: Frame)
        ensures
            result@ == self@.ipv4_frame(
                ip_addr,
                kind,
                more_fragments,
                fragment_offset,
                transport,
                match payload {
                    Some(payload) => Some(payload@),
                    None => None,
                },
            ),
    {
        // IPv4
        let ipv4 = Ipv4 {
            identification: self.get_ipv4_identification(ip_addr),
            kind,
            more_fragments,
            fragment_offset,
            src: ip_addr,
            dst: self.src_ip_addr,
            header_size: 20,
        };

        self.build_ethernet(Network::Ipv4(ipv4), transport, payload)
    }

    /// Returns the frame around a TCP segment of a connection.
    fn build_tcp(
        &self,
        kind: TcpKind,
        dst: SocketAddrV4,
        src_port: u16,
        sequence: u32,
        payload: Option<Vec<u8>>,
    ) -> (result: Frame)
        ensures
            result@ == self@.tcp_frame(
                kind,
                dst,
                src_port,
                sequence,
                match payload {
                    Some(payload) => Some(payload@),
                    None => None,
                },
            ),
    {
        let key = flow_key(src_port, dst);

        // TCP
        let acknowledgement: u32 = if kind == TcpKind::Rst {
            0
        } else {
            get_or(&self.tcp_acknowledgement_map, key, 0)
        };
        let tcp = Tcp {
            src_ip_addr: dst.ip,
            dst_ip_addr: self.src_ip_addr,
            src: dst.port,
            dst: src_port,
            sequence,
            acknowledgement,
            window: get_or(&self.tcp_window_map, key, DEFAULT_WINDOW),
            is_ack: kind != TcpKind::Rst,
            is_rst: kind == TcpKind::AckRst || kind == TcpKind::Rst,
            is_syn: kind == TcpKind::AckSyn,
            is_fin: kind == TcpKind::AckFin,
            header_size: 20,
        };

        self.build_ipv4(dst.ip, LayerType::Tcp, false, 0, Some(Transport::Tcp(tcp)), payload)
    }

    /// Returns the frame around the IPv4 packet that starts at `offset` of a datagram from `dst`.
    fn build_udp(
        &self,
        dst: SocketAddrV4,
        src_port: u16,
        payload: &[u8],
        sent: Option<usize>,
    ) -> (result: Frame)
        requires
            sent matches Some(n) ==> n < payload@.len(),
        ensures
            result@ == self@.udp_frame(
                dst,
                src_port,
                payload@,
                match sent {
                    Some(n) => UDP_HEADER_SIZE + n,
                    None => 0,
                },
            ),
    {
        let start: usize = match sent {
            Some(n) => n,
            None => 0,
        };
        let (length, is_last) = Transmission::get_packet_len(
            payload.len() - start,
            sent.is_none(),
        );
        let fragment = slice_to_vec(slice_subrange(payload, start, start + length));
        let fragment_offset: usize = match sent {
            Some(n) => n / 8 + UDP_HEADER_SIZE / 8,
            None => 0,
        };
        let transport = if sent.is_none() {
            // UDP
            Some(
                Transport::Udp(
                    Udp {
                        src_ip_addr: dst.ip,
                        dst_ip_addr: self.src_ip_addr,
                        src: dst.port,
                        dst: src_port,
                    },
                ),
            )
        } else {
            None
        };

        self.build_ipv4(
            dst.ip,
            LayerType::Udp,
            !is_last,
            (fragment_offset % 0x1_0000) as u16,
            transport,
            Some(fragment),
        )
    }

    /// Returns the next frame of a transmission, or `None` if there are no more frames.
    pub fn frame(&self, transmission: &Transmission) -> (result: Option<Frame>)
        requires
            transmission@.wf(),
        ensures
            result is None <==> transmission@.is_complete(),
            result is Some ==> result->0@ == self@.next_frame(transmission@),
    {
        match transmission {
            Transmission::Complete => None,
            Transmission::ArpReply => {
                // ARP
                let arp = Arp {
                    is_request: false,
                    src_hardware_addr: self.local_hardware_addr,
                    src_ip_addr: self.local_ip_addr,
                    dst_hardware_addr: self.src_hardware_addr,
                    dst_ip_addr: self.src_ip_addr,
                };
                Some(self.build_ethernet(Network::Arp(arp), None, None))
            },
            Transmission::Control { kind, dst, src_port } => {
                let sequence = get_or(&self.tcp_sequence_map, flow_key(*src_port, *dst), 0);
                Some(self.build_tcp(*kind, *dst, *src_port, sequence, None))
            },
            Transmission::Stream { dst, src_port, sequence, payload, offset } => {
                if *offset >= payload.len() {
                    return None;
                }
                let length: usize = Transmission::get_segment_len(payload.len(), *offset);
                let segment = slice_to_vec(
                    slice_subrange(payload.as_slice(), *offset, *offset + length),
                );
                let sequence = advance(*sequence, *offset as u32);
                Some(self.build_tcp(TcpKind::Ack, *dst, *src_port, sequence, Some(segment)))
            },
            Transmission::Datagram { dst, src_port, payload, sent } => {
                if let Some(n) = *sent {
                    if n >= payload.len() {
                        return None;
                    }
                }
                Some(self.build_udp(*dst, *src_port, payload.as_slice(), *sent))
            },
        }
    }

    /// Ticks off the next frame of a transmission, after it was sent.
    pub fn sent(&mut self, transmission: Transmission) -> (result: Transmission)
        requires
            old(self)@.wf(),
            transmission@.wf(),
            !transmission@.is_complete(),
        ensures
            final(self)@.wf(),
            final(self)@ == old(self)@.after(transmission@),
            result@.wf(),
            result@ == transmission@.rest(),
    {
        match transmission {
            Transmission::Complete => Transmission::Complete,
            Transmission::ArpReply => Transmission::Complete,
            Transmission::Control { kind, dst, src_port } => {
                // Update IPv4 identification
                self.increase_ipv4_identification(dst.ip);

                // Update TCP sequence
                if kind == TcpKind::AckSyn {
                    let key = flow_key(src_port, dst);
                    let sequence = get_or(&self.tcp_sequence_map, key, 0);
                    self.tcp_sequence_map.insert(key, following(sequence));
                }
                Transmission::Complete
            },
            Transmission::Stream { dst, src_port, sequence, payload, offset } => {
                // Update IPv4 identification
                self.increase_ipv4_identification(dst.ip);

                // Update TCP sequence
                let key = flow_key(src_port, dst);
                let length: usize = Transmission::get_segment_len(payload.len(), offset);
                let next_sequence = advance(advance(sequence, offset as u32), length as u32);
                let record_sequence = get_or(&self.tcp_sequence_map, key, 0);
                if is_in_window(record_sequence, next_sequence) {
                    self.tcp_sequence_map.insert(key, next_sequence);
                }
                Transmission::Stream { dst, src_port, sequence, payload, offset: offset + length }
            },
            Transmission::Datagram { dst, src_port, payload, sent } => {
                let start: usize = match sent {
                    Some(n) => n,
                    None => 0,
                };
                let (length, is_last) = Transmission::get_packet_len(
                    payload.len() - start,
                    sent.is_none(),
                );

                // Update IPv4 identification
                if is_last {
                    self.increase_ipv4_identification(dst.ip);
                }
                Transmission::Datagram { dst, src_port, payload, sent: Some(start + length) }
            },
        }
    }
}

} // verus!
