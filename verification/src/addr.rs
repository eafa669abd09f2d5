//! Socket addresses, their canonical form and their order.

use vstd::prelude::*;

verus! {

/// The addresses of one IPv4 host count this many values.
pub const IPV4_SPACE: u128 = 0x1_0000_0000;

/// The upper 96 bits of every IPv4-mapped IPv6 address (`::ffff:0:0/96`).
pub const IPV4_MAPPED_PREFIX: u128 = 0xffff;

/// A socket address: an IP address, as the integer its octets spell in network order, and a port.
#[allow(inconsistent_fields)]
#[derive(Debug, Clone, Copy, PartialEq, Eq, Hash, Structural)]
pub enum SocketAddr {
    V4 { ip: u32, port: u16 },
    V6 { ip: u128, port: u16, flowinfo: u32, scope_id: u32 },
}

/// Normalize IPv4-mapped IPv6 addresses to plain IPv4.
#[derive(Debug, Clone, Copy, PartialEq, Eq, Hash, Structural)]
pub struct CanonicalAddr(pub SocketAddr);

impl CanonicalAddr {
    /// The address itself.
    pub fn addr(&self) -> (addr: SocketAddr)
        ensures
            addr == self.0,
    {
        self.0
    }
}

/// An address in `::ffff:0:0/96`, which stands for a plain IPv4 address.
pub open spec fn is_ipv4_mapped(addr: SocketAddr) -> bool {
    addr matches SocketAddr::V6 { ip, .. } && ip / IPV4_SPACE == IPV4_MAPPED_PREFIX
}

/// The canonical form of an address: the IPv4 address that an IPv4-mapped one stands for, with
/// its port, and every other address as it is.
pub open spec fn spec_canonicalize(addr: SocketAddr) -> CanonicalAddr {
    match addr {
        SocketAddr::V6 { ip, port, .. } if is_ipv4_mapped(addr) => {
            CanonicalAddr(SocketAddr::V4 { ip: (ip % IPV4_SPACE) as u32, port })
        },
        _ => CanonicalAddr(addr),
    }
}

/// The canonical form of an address, under which a peer's session is kept.
pub fn canonicalize(addr: SocketAddr) -> (can: CanonicalAddr)
    ensures
        can == spec_canonicalize(addr),
{
    match addr {
        SocketAddr::V6 { ip, port, .. } => {
            if ip / IPV4_SPACE == IPV4_MAPPED_PREFIX {
                CanonicalAddr(SocketAddr::V4 { ip: (ip % IPV4_SPACE) as u32, port })
            } else {
                CanonicalAddr(addr)
            }
        },
        SocketAddr::V4 { .. } => CanonicalAddr(addr),
    }
}

/// Whether `a` comes after `b`: IPv4 before IPv6, then by IP address, by port, by flow
/// information and by scope.
pub open spec fn addr_after(a: SocketAddr, b: SocketAddr) -> bool {
    match (a, b) {
        (SocketAddr::V4 { .. }, SocketAddr::V6 { .. }) => false,
        (SocketAddr::V6 { .. }, SocketAddr::V4 { .. }) => true,
        (SocketAddr::V4 { ip: ip_a, port: port_a }, SocketAddr::V4 { ip: ip_b, port: port_b }) => {
            ip_a > ip_b || (ip_a == ip_b && port_a > port_b)
        },
        (
            SocketAddr::V6 { ip: ip_a, port: port_a, flowinfo: flow_a, scope_id: scope_a },
            SocketAddr::V6 { ip: ip_b, port: port_b, flowinfo: flow_b, scope_id: scope_b },
        ) => {
            ||| ip_a > ip_b
            ||| ip_a == ip_b && port_a > port_b
            ||| ip_a == ip_b && port_a == port_b && flow_a > flow_b
            ||| ip_a == ip_b && port_a == port_b && flow_a == flow_b && scope_a > scope_b
        },
    }
}

/// Whether `a` comes after `b` in the order of socket addresses.
pub fn is_after(a: SocketAddr, b: SocketAddr) -> (after: bool)
    ensures
        after == addr_after(a, b),
{
    match (a, b) {
        (SocketAddr::V4 { .. }, SocketAddr::V6 { .. }) => false,
        (SocketAddr::V6 { .. }, SocketAddr::V4 { .. }) => true,
        (SocketAddr::V4 { ip: ip_a, port: port_a }, SocketAddr::V4 { ip: ip_b, port: port_b }) => {
            ip_a > ip_b || (ip_a == ip_b && port_a > port_b)
        },
        (
            SocketAddr::V6 { ip: ip_a, port: port_a, flowinfo: flow_a, scope_id: scope_a },
            SocketAddr::V6 { ip: ip_b, port: port_b, flowinfo: flow_b, scope_id: scope_b },
        ) => {
            if ip_a != ip_b {
                ip_a > ip_b
            } else if port_a != port_b {
                port_a > port_b
            } else if flow_a != flow_b {
                flow_a > flow_b
            } else {
                scope_a > scope_b
            }
        },
    }
}

/// Canonical addresses are their own canonical form.
pub proof fn law_canonicalize_idempotent(addr: SocketAddr)
    ensures
        spec_canonicalize(spec_canonicalize(addr).0) == spec_canonicalize(addr),
{
}

/// An IPv4-mapped IPv6 address and the plain IPv4 address it carries are one peer.
pub proof fn law_mapped_address_is_plain(ip: u32, port: u16, flowinfo: u32, scope_id: u32)
    ensures
        spec_canonicalize(
            SocketAddr::V6 {
                ip: (0xffff_0000_0000 + ip) as u128,
                port,
                flowinfo,
                scope_id,
            },
        ) == spec_canonicalize(SocketAddr::V4 { ip, port }),
{
}

/// A canonical address is never IPv4-mapped, and an address that is not stays as it is.
pub proof fn law_canonical_never_mapped(addr: SocketAddr)
    ensures
        !is_ipv4_mapped(spec_canonicalize(addr).0),
        !is_ipv4_mapped(addr) ==> spec_canonicalize(addr).0 == addr,
{
}

/// Of two different addresses exactly one comes after the other.
pub proof fn law_address_order_decides(a: SocketAddr, b: SocketAddr)
    ensures
        a != b ==> (addr_after(a, b) <==> !addr_after(b, a)),
        !addr_after(a, a),
{
}

/// The order of addresses is transitive.
pub proof fn law_address_order_transitive(a: SocketAddr, b: SocketAddr, c: SocketAddr)
    requires
        addr_after(a, b),
        addr_after(b, c),
    ensures
        addr_after(a, c),
{
}

/// Exactly the addresses of `::ffff:0:0/96` are turned into IPv4 addresses, with the port they
/// had; IPv4 addresses and all other IPv6 addresses stay as they are.
pub proof fn law_canonical_form(
    v4: u32,
    ip: u128,
    port: u16,
    flowinfo: u32,
    scope_id: u32,
)
    ensures
        spec_canonicalize(SocketAddr::V4 { ip: v4, port }).0 == (SocketAddr::V4 { ip: v4, port }),
        0xffff_0000_0000 <= ip <= 0xffff_ffff_ffff ==> spec_canonicalize(
            SocketAddr::V6 { ip, port, flowinfo, scope_id },
        ).0 == (SocketAddr::V4 { ip: (ip - 0xffff_0000_0000) as u32, port }),
        ip < 0xffff_0000_0000 || ip > 0xffff_ffff_ffff ==> spec_canonicalize(
            SocketAddr::V6 { ip, port, flowinfo, scope_id },
        ).0 == (SocketAddr::V6 { ip, port, flowinfo, scope_id }),
{
}

/// The order of addresses: every IPv6 address comes after every IPv4 address. IPv4 addresses are
/// ordered as the numbers that their IP address and port spell, IPv6 addresses likewise, with flow
/// information and scope behind the port.
pub proof fn law_address_order(a: SocketAddr, b: SocketAddr)
    ensures
        match (a, b) {
            (SocketAddr::V4 { ip: i, port: p }, SocketAddr::V4 { ip: j, port: q }) => {
                addr_after(a, b) <==> i * 0x1_0000 + p > j * 0x1_0000 + q
            },
            (
                SocketAddr::V6 { ip: i, port: p, flowinfo: f, scope_id: s },
                SocketAddr::V6 { ip: j, port: q, flowinfo: g, scope_id: t },
            ) => {
                addr_after(a, b) <==> ((i * 0x1_0000 + p) * 0x1_0000_0000 + f) * 0x1_0000_0000 + s
                    > ((j * 0x1_0000 + q) * 0x1_0000_0000 + g) * 0x1_0000_0000 + t
            },
            (SocketAddr::V6 { .. }, SocketAddr::V4 { .. }) => addr_after(a, b),
            (SocketAddr::V4 { .. }, SocketAddr::V6 { .. }) => !addr_after(a, b),
        },
{
}

} // verus!
