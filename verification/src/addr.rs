//! Addresses, and the keys under which connections are filed.
use vstd::prelude::*;

verus! {

/// Represents an IPv4 address, in host order.
pub type Ipv4Addr = u32;

/// Represents a hardware address.
#[derive(Clone, Copy, Debug, PartialEq, Eq, Structural)]
pub struct HardwareAddr(pub u8, pub u8, pub u8, pub u8, pub u8, pub u8);

impl HardwareAddr {
    /// The unspecified hardware address.
    pub open spec fn zero() -> HardwareAddr {
        HardwareAddr(0, 0, 0, 0, 0, 0)
    }

    /// Returns the unspecified hardware address.
    pub fn unspecified() -> (result: HardwareAddr)
        ensures
            result == HardwareAddr::zero(),
    {
        HardwareAddr(0, 0, 0, 0, 0, 0)
    }
}

/// Represents the address of an IPv4 socket.
#[derive(Clone, Copy, Debug, PartialEq, Eq, Structural)]
pub struct SocketAddrV4 {
    pub ip: Ipv4Addr,
    pub port: u16,
}

impl SocketAddrV4 {
    /// Creates a new `SocketAddrV4`.
    pub fn new(ip: Ipv4Addr, port: u16) -> (result: SocketAddrV4)
        ensures
            result == (SocketAddrV4 { ip, port }),
    {
        SocketAddrV4 { ip, port }
    }
}

/// The key of the connection from port `src_port` of the source to `dst`.
pub open spec fn flow(src_port: u16, dst: SocketAddrV4) -> u64 {
    (src_port * 0x1_0000_0000_0000 + dst.ip * 0x1_0000 + dst.port) as u64
}

/// Returns the key of the connection from port `src_port` of the source to `dst`.
pub fn flow_key(src_port: u16, dst: SocketAddrV4) -> (result: u64)
    ensures
        result == flow(src_port, dst),
{
    src_port as u64 * 0x1_0000_0000_0000 + dst.ip as u64 * 0x1_0000 + dst.port as u64
}

/// Different connections have different keys.
pub proof fn law_flow_is_injective(
    src_port: u16,
    dst: SocketAddrV4,
    other_src_port: u16,
    other_dst: SocketAddrV4,
)
    ensures
        flow(src_port, dst) == flow(other_src_port, other_dst) <==> src_port == other_src_port
            && dst == other_dst,
{
}

/// Keys that are computed are the same exactly for the same connection.
pub proof fn law_keys_tell_connections_apart(
    src_port: u16,
    dst: SocketAddrV4,
    key: u64,
    other_src_port: u16,
    other_dst: SocketAddrV4,
    other_key: u64,
)
    requires
        call_ensures(flow_key, (src_port, dst), key),
        call_ensures(flow_key, (other_src_port, other_dst), other_key),
    ensures
        key == flow(src_port, dst),
        key == other_key <==> src_port == other_src_port && dst == other_dst,
{
}

/// An address is made of its parts, and the unspecified hardware address is all zero.
pub proof fn law_addresses_are_made_of_parts(
    ip: Ipv4Addr,
    port: u16,
    addr: SocketAddrV4,
    unspecified: HardwareAddr,
)
    requires
        call_ensures(SocketAddrV4::new, (ip, port), addr),
        call_ensures(HardwareAddr::unspecified, (), unspecified),
    ensures
        addr.ip == ip && addr.port == port,
        unspecified == HardwareAddr(0, 0, 0, 0, 0, 0),
{
}

} // verus!
