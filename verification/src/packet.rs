//! Frames, layer by layer.
//!
//! A received frame is described by an [`Indicator`] and the bytes it was read from, a frame to
//! send by an [`Indicator`] and the bytes that follow its headers.
use vstd::prelude::*;

use crate::addr::{HardwareAddr, Ipv4Addr};

verus! {

/// Represents the number of bytes of an Ethernet header.
pub const ETHERNET_HEADER_SIZE: usize = 14;

/// Represents the number of bytes of an ARP packet.
pub const ARP_SIZE: usize = 28;

/// Represents the number of bytes of an IPv4 header without options.
pub const IPV4_HEADER_SIZE: usize = 20;

/// Represents the number of bytes of a TCP header without options.
pub const TCP_HEADER_SIZE: usize = 20;

/// Represents the number of bytes of an UDP header.
pub const UDP_HEADER_SIZE: usize = 8;

/// Represents the type of a layer.
#[derive(Clone, Copy, Debug, PartialEq, Eq, Structural)]
pub enum LayerType {
    Arp,
    Ipv4,
    Tcp,
    Udp,
}

/// Represents an Ethernet layer, where `kind` is the type of the layer inside.
#[derive(Clone, Copy, Debug, PartialEq, Eq, Structural)]
pub struct Ethernet {
    pub kind: LayerType,
    pub src: HardwareAddr,
    pub dst: HardwareAddr,
}

/// Represents an ARP layer.
#[derive(Clone, Copy, Debug, PartialEq, Eq, Structural)]
pub struct Arp {
    pub is_request: bool,
    pub src_hardware_addr: HardwareAddr,
    pub src_ip_addr: Ipv4Addr,
    pub dst_hardware_addr: HardwareAddr,
    pub dst_ip_addr: Ipv4Addr,
}

impl Arp {
    /// Whether the layer is a request from `src` for `dst`.
    pub open spec fn requests(self, src: Ipv4Addr, dst: Ipv4Addr) -> bool {
        self.is_request && self.src_ip_addr == src && self.dst_ip_addr == dst
    }

    /// Returns whether the layer is a request from `src` for `dst`.
    pub fn is_request_of(&self, src: Ipv4Addr, dst: Ipv4Addr) -> (result: bool)
        ensures
            result == self.requests(src, dst),
    {
        self.is_request && self.src_ip_addr == src && self.dst_ip_addr == dst
    }
}

/// Represents an IPv4 layer, where `kind` is the type of the layer inside, `fragment_offset`
/// counts units of 8 bytes and `header_size` is the number of bytes of the header.
#[derive(Clone, Copy, Debug, PartialEq, Eq, Structural)]
pub struct Ipv4 {
    pub identification: u16,
    pub kind: LayerType,
    pub more_fragments: bool,
    pub fragment_offset: u16,
    pub src: Ipv4Addr,
    pub dst: Ipv4Addr,
    pub header_size: u8,
}

impl Ipv4 {
    /// Whether the layer carries a part of a datagram.
    pub open spec fn fragmented(self) -> bool {
        self.more_fragments || self.fragment_offset > 0
    }

    /// Returns whether the layer carries a part of a datagram.
    pub fn is_fragment(&self) -> (result: bool)
        ensures
            result == self.fragmented(),
    {
        self.more_fragments || self.fragment_offset > 0
    }
}

/// Represents a TCP layer, where `header_size` is the number of bytes of the header.
#[derive(Clone, Copy, Debug, PartialEq, Eq, Structural)]
pub struct Tcp {
    pub src_ip_addr: Ipv4Addr,
    pub dst_ip_addr: Ipv4Addr,
    pub src: u16,
    pub dst: u16,
    pub sequence: u32,
    pub acknowledgement: u32,
    pub window: u16,
    pub is_ack: bool,
    pub is_rst: bool,
    pub is_syn: bool,
    pub is_fin: bool,
    pub header_size: u8,
}

/// Represents the flags of a TCP layer to send.
#[derive(Clone, Copy, Debug, PartialEq, Eq, Structural)]
pub enum TcpKind {
    Ack,
    AckSyn,
    AckRst,
    AckFin,
    Rst,
}

/// Represents an UDP layer.
#[derive(Clone, Copy, Debug, PartialEq, Eq, Structural)]
pub struct Udp {
    pub src_ip_addr: Ipv4Addr,
    pub dst_ip_addr: Ipv4Addr,
    pub src: u16,
    pub dst: u16,
}

/// Represents the layer inside an Ethernet layer.
#[derive(Clone, Copy, Debug, PartialEq, Eq, Structural)]
pub enum Network {
    Arp(Arp),
    Ipv4(Ipv4),
}

/// Represents the layer inside an IPv4 layer.
#[derive(Clone, Copy, Debug, PartialEq, Eq, Structural)]
pub enum Transport {
    Tcp(Tcp),
    Udp(Udp),
}

/// Represents the layers of a frame.
#[derive(Clone, Copy, Debug, PartialEq, Eq, Structural)]
pub struct Indicator {
    pub link: Ethernet,
    pub network: Option<Network>,
    pub transport: Option<Transport>,
}

impl Indicator {
    /// The number of bytes of all headers.
    pub open spec fn size(self) -> int {
        ETHERNET_HEADER_SIZE + (match self.network {
            Some(Network::Arp(_)) => ARP_SIZE as int,
            Some(Network::Ipv4(ipv4)) => ipv4.header_size as int,
            None => 0,
        }) + (match self.transport {
            Some(Transport::Tcp(tcp)) => tcp.header_size as int,
            Some(Transport::Udp(_)) => UDP_HEADER_SIZE as int,
            None => 0,
        })
    }

    /// Returns the number of bytes of all headers.
    pub fn get_size(&self) -> (result: usize)
        ensures
            result == self.size(),
    {
        let network: usize = match self.network {
            Some(Network::Arp(_)) => ARP_SIZE,
            Some(Network::Ipv4(ipv4)) => ipv4.header_size as usize,
            None => 0,
        };
        let transport: usize = match self.transport {
            Some(Transport::Tcp(tcp)) => tcp.header_size as usize,
            Some(Transport::Udp(_)) => UDP_HEADER_SIZE,
            None => 0,
        };
        ETHERNET_HEADER_SIZE + network + transport
    }
}

/// Represents a frame to send.
pub struct Frame {
    pub indicator: Indicator,
    pub payload: Option<Vec<u8>>,
}

/// The contents of a frame to send.
#[verifier::ext_equal]
pub struct FrameView {
    pub indicator: Indicator,
    pub payload: Option<Seq<u8>>,
}

impl View for Frame {
    type V = FrameView;

    open spec fn view(&self) -> FrameView {
        FrameView {
            indicator: self.indicator,
            payload: match self.payload {
                Some(payload) => Some(payload@),
                None => None,
            },
        }
    }
}

/// The headers of a frame are the 14 bytes of Ethernet, the 28 of ARP or those of the IPv4 header
/// with its options, and those of the TCP header with its options or the 8 of UDP.
pub proof fn law_headers_add_up(indicator: Indicator)
    ensures
        indicator.size() == 14 + (match indicator.network {
            Some(Network::Arp(_)) => 28int,
            Some(Network::Ipv4(ipv4)) => ipv4.header_size as int,
            None => 0,
        }) + (match indicator.transport {
            Some(Transport::Tcp(tcp)) => tcp.header_size as int,
            Some(Transport::Udp(_)) => 8int,
            None => 0,
        }),
{
}

/// A packet is a part of a datagram if more parts follow or it is not at the start.
pub proof fn law_whole_datagrams_are_no_fragments(ipv4: Ipv4)
    ensures
        !ipv4.fragmented() <==> !ipv4.more_fragments && ipv4.fragment_offset == 0,
{
}

/// A frame to send is seen with its layers and its payload as they are.
pub proof fn law_frame_is_seen_as_it_is(frame: Frame)
    ensures
        frame@.indicator == frame.indicator,
        frame.payload is None <==> frame@.payload is None,
        frame.payload matches Some(payload) ==> frame@.payload == Some(payload@),
{
}

/// The functions on layers compute what the layers tell.
pub proof fn law_layers_are_read(
    arp: &Arp,
    src: Ipv4Addr,
    dst: Ipv4Addr,
    is_request: bool,
    ipv4: &Ipv4,
    is_fragment: bool,
    indicator: &Indicator,
    size: usize,
)
    requires
        call_ensures(Arp::is_request_of, (arp, src, dst), is_request),
        call_ensures(Ipv4::is_fragment, (ipv4,), is_fragment),
        call_ensures(Indicator::get_size, (indicator,), size),
    ensures
        is_request <==> arp.is_request && arp.src_ip_addr == src && arp.dst_ip_addr == dst,
        is_fragment <==> ipv4.more_fragments || ipv4.fragment_offset != 0,
        size == 14 + (match indicator.network {
            Some(Network::Arp(_)) => 28int,
            Some(Network::Ipv4(ipv4)) => ipv4.header_size as int,
            None => 0,
        }) + (match indicator.transport {
            Some(Transport::Tcp(tcp)) => tcp.header_size as int,
            Some(Transport::Udp(_)) => 8int,
            None => 0,
        }),
{
}

} // verus!
