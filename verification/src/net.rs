//! Addresses.

use vstd::prelude::*;

verus! {

/// An IP address, as the number that its bytes make.
#[derive(Debug, Clone, Copy, PartialEq, Eq, Structural, Hash)]
pub enum IpAddress {
    V4(u32),
    V6(u128),
}

/// An IP address and a port, and for IPv6 the flow that packets belong to and
/// the link that the address holds on.
#[derive(Debug, Clone, Copy, PartialEq, Eq, Structural, Hash)]
pub enum SocketAddress {
    V4 { ip: u32, port: u16 },
    V6 { ip: u128, port: u16, flowinfo: u32, scope_id: u32 },
}

/// A port of an IP address, of no flow and on no link in particular.
pub open spec fn port_of(ip: IpAddress, port: u16) -> SocketAddress {
    match ip {
        IpAddress::V4(ip) => SocketAddress::V4 { ip, port },
        IpAddress::V6(ip) => SocketAddress::V6 { ip, port, flowinfo: 0, scope_id: 0 },
    }
}

impl SocketAddress {
    /// A port of an IP address.
    pub fn new(ip: IpAddress, port: u16) -> (a: Self)
        ensures
            a == port_of(ip, port),
    {
        match ip {
            IpAddress::V4(ip) => SocketAddress::V4 { ip, port },
            IpAddress::V6(ip) => SocketAddress::V6 { ip, port, flowinfo: 0, scope_id: 0 },
        }
    }

    /// The IP address.
    pub fn ip(&self) -> (ip: IpAddress)
        ensures
            ip == match *self {
                SocketAddress::V4 { ip, .. } => IpAddress::V4(ip),
                SocketAddress::V6 { ip, .. } => IpAddress::V6(ip),
            },
    {
        match self {
            SocketAddress::V4 { ip, .. } => IpAddress::V4(*ip),
            SocketAddress::V6 { ip, .. } => IpAddress::V6(*ip),
        }
    }

    /// The port.
    pub open spec fn spec_port(self) -> u16 {
        match self {
            SocketAddress::V4 { port, .. } => port,
            SocketAddress::V6 { port, .. } => port,
        }
    }

    /// The port.
    pub fn port(&self) -> (p: u16)
        ensures
            p == self.spec_port(),
    {
        match self {
            SocketAddress::V4 { port, .. } => *port,
            SocketAddress::V6 { port, .. } => *port,
        }
    }

    /// The address as it is written: the flow is not.
    pub open spec fn spec_written(self) -> Self {
        match self {
            SocketAddress::V4 { .. } => self,
            SocketAddress::V6 { ip, port, scope_id, .. } => SocketAddress::V6 {
                ip,
                port,
                flowinfo: 0,
                scope_id,
            },
        }
    }

    /// The address as it is written: the flow is not.
    pub fn written(&self) -> (a: Self)
        ensures
            a == self.spec_written(),
    {
        match self {
            SocketAddress::V4 { .. } => *self,
            SocketAddress::V6 { ip, port, scope_id, .. } => SocketAddress::V6 {
                ip: *ip,
                port: *port,
                flowinfo: 0,
                scope_id: *scope_id,
            },
        }
    }
}

/// A port of an IP address has both, and no flow and no link. Two addresses that
/// differ in more than the flow are written differently, and the flow is never
/// written.
pub proof fn law_addresses_keep_their_parts(
    ip: IpAddress,
    port: u16,
    a: SocketAddress,
    b: SocketAddress,
)
    ensures
        port_of(ip, port).spec_port() == port,
        ip matches IpAddress::V4(n) ==> port_of(ip, port) == (SocketAddress::V4 { ip: n, port }),
        ip matches IpAddress::V6(n) ==> port_of(ip, port) == (SocketAddress::V6 {
            ip: n,
            port,
            flowinfo: 0,
            scope_id: 0,
        }),
        a matches SocketAddress::V4 { .. } ==> a.spec_written() == a,
        a.spec_port() == a.spec_written().spec_port(),
        a matches SocketAddress::V6 { ip: i, port: p, flowinfo: f, scope_id: s } ==> (b
            matches SocketAddress::V6 { ip: j, port: q, flowinfo: g, scope_id: t } ==> (
        a.spec_written() == b.spec_written() <==> i == j && p == q && s == t)),
{
}

} // verus!
