//! Checks on network addresses.
use vstd::prelude::*;

verus! {

/// An IP address: four octets, or eight 16-bit groups.
#[derive(Debug, Clone, Copy, PartialEq, Eq, Structural)]
pub enum IpAddress {
    V4(u8, u8, u8, u8),
    V6(u16, u16, u16, u16, u16, u16, u16, u16),
}

/// A socket address: an IP address and a port.
#[derive(Debug, Clone, Copy, PartialEq, Eq, Structural)]
pub struct SocketAddress {
    pub ip: IpAddress,
    pub port: u16,
}

/// Whether an IPv4 address is private (10/8, 172.16/12, 192.168/16), loopback (127/8),
/// link-local (169.254/16), the broadcast address or the unspecified address.
pub open spec fn is_reserved_v4(a: u8, b: u8, c: u8, d: u8) -> bool {
    ||| a == 10
    ||| (a == 172 && 16 <= b <= 31)
    ||| (a == 192 && b == 168)
    ||| a == 127
    ||| (a == 169 && b == 254)
    ||| (a == 255 && b == 255 && c == 255 && d == 255)
    ||| (a == 0 && b == 0 && c == 0 && d == 0)
}

/// Whether `ip` may be the address of a public game server: an IPv4 address that is
/// none of private, loopback, link-local, broadcast or unspecified.
pub fn is_valid_ip(ip: &IpAddress) -> (r: bool)
    ensures
        r == (match *ip {
            IpAddress::V4(a, b, c, d) => !is_reserved_v4(a, b, c, d),
            IpAddress::V6(..) => false,
        }),
{
    match *ip {
        IpAddress::V4(a, b, c, d) => {
            let private = a == 10 || (a == 172 && 16 <= b && b <= 31) || (a == 192 && b == 168);
            let loopback = a == 127;
            let link_local = a == 169 && b == 254;
            let broadcast = a == 255 && b == 255 && c == 255 && d == 255;
            let unspecified = a == 0 && b == 0 && c == 0 && d == 0;
            !(private || loopback || link_local || broadcast || unspecified)
        },
        IpAddress::V6(..) => false,
    }
}

/// Tells whether `port` is usable as a server port: strictly between 0 and 65535.
pub fn is_valid_port(port: u32) -> (r: bool)
    ensures
        r == (0 < port && port < 0xffff),
{
    (port > 0) && (port < 0xffff)
}

} // verus!
