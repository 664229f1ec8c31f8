//! Transport addresses as plain values.

use vstd::prelude::*;

verus! {

/// An IP address: the four bytes of an IPv4 address as one big-endian
/// number, or the sixteen bytes of an IPv6 address likewise.
#[derive(Clone, Copy, Debug, PartialEq, Eq, Structural, Hash)]
pub enum IpAddr {
    V4(u32),
    V6(u128),
}

/// An IP address and a UDP port.
#[derive(Clone, Copy, Debug, PartialEq, Eq, Structural, Hash)]
pub struct SocketAddr {
    pub ip: IpAddr,
    pub port: u16,
}

/// The number that the four dotted parts of an IPv4 address stand for.
pub open spec fn ipv4_bits(a: u8, b: u8, c: u8, d: u8) -> u32 {
    ((a as u32) << 24) | ((b as u32) << 16) | ((c as u32) << 8) | (d as u32)
}

impl IpAddr {
    pub open spec fn spec_is_ipv4(&self) -> bool {
        self is V4
    }

    pub open spec fn spec_is_ipv6(&self) -> bool {
        self is V6
    }

    /// Whether the address is neither unspecified nor a multicast address,
    /// and, for IPv4, neither the broadcast address nor link-local.
    pub open spec fn spec_is_usable(&self) -> bool {
        match *self {
            IpAddr::V4(v) => {
                &&& v != 0
                &&& v != 0xffff_ffff
                &&& v >> 28 != 0xe
                &&& v >> 16 != 0xa9fe
            },
            IpAddr::V6(v) => {
                &&& v != 0
                &&& v >> 120 != 0xff
            },
        }
    }

    #[verifier::when_used_as_spec(spec_is_ipv4)]
    pub fn is_ipv4(&self) -> (r: bool)
        ensures
            r == self.spec_is_ipv4(),
    {
        match self {
            IpAddr::V4(_) => true,
            IpAddr::V6(_) => false,
        }
    }

    #[verifier::when_used_as_spec(spec_is_ipv6)]
    pub fn is_ipv6(&self) -> (r: bool)
        ensures
            r == self.spec_is_ipv6(),
    {
        match self {
            IpAddr::V4(_) => false,
            IpAddr::V6(_) => true,
        }
    }

    /// Whether a candidate may carry this address.
    #[verifier::when_used_as_spec(spec_is_usable)]
    pub fn is_usable(&self) -> (r: bool)
        ensures
            r == self.spec_is_usable(),
    {
        match self {
            IpAddr::V4(v) => *v != 0 && *v != 0xffff_ffff && *v >> 28 != 0xe && *v >> 16 != 0xa9fe,
            IpAddr::V6(v) => *v != 0 && *v >> 120 != 0xff,
        }
    }
}

impl SocketAddr {
    pub open spec fn spec_is_ipv4(&self) -> bool {
        self.ip is V4
    }

    pub open spec fn spec_is_ipv6(&self) -> bool {
        self.ip is V6
    }

    /// The IPv4 address `a.b.c.d` with `port`.
    pub fn v4(a: u8, b: u8, c: u8, d: u8, port: u16) -> (r: SocketAddr)
        ensures
            r == (SocketAddr { ip: IpAddr::V4(ipv4_bits(a, b, c, d)), port }),
    {
        let bits: u32 = ((a as u32) << 24) | ((b as u32) << 16) | ((c as u32) << 8) | (d as u32);
        SocketAddr { ip: IpAddr::V4(bits), port }
    }

    /// The IPv6 address whose sixteen bytes are the big-endian bytes of
    /// `bits`, with `port`.
    pub fn v6(bits: u128, port: u16) -> (r: SocketAddr)
        ensures
            r == (SocketAddr { ip: IpAddr::V6(bits), port }),
    {
        SocketAddr { ip: IpAddr::V6(bits), port }
    }

    pub fn ip(&self) -> (r: IpAddr)
        ensures
            r == self.ip,
    {
        self.ip
    }

    pub fn port(&self) -> (r: u16)
        ensures
            r == self.port,
    {
        self.port
    }

    #[verifier::when_used_as_spec(spec_is_ipv4)]
    pub fn is_ipv4(&self) -> (r: bool)
        ensures
            r == self.spec_is_ipv4(),
    {
        self.ip.is_ipv4()
    }

    #[verifier::when_used_as_spec(spec_is_ipv6)]
    pub fn is_ipv6(&self) -> (r: bool)
        ensures
            r == self.spec_is_ipv6(),
    {
        self.ip.is_ipv6()
    }
}

} // verus!
