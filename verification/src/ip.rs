//! IP addresses as plain numbers, and the order in which collections keep them.

use vstd::prelude::*;

verus! {

/// An IP address, held by its numeric value in network byte order: the
/// address `a.b.c.d` is `a * 2^24 + b * 2^16 + c * 2^8 + d`, and an IPv6
/// address is the 128-bit number its sixteen bytes spell.
#[derive(Clone, Copy, Debug, PartialEq, Eq, Structural, Hash)]
pub enum IpLiteral {
    V4(u32),
    V6(u128),
}

/// The strict order of addresses: every IPv4 address comes before every IPv6
/// address, and within a family the smaller number comes first.
pub open spec fn ip_lt(a: IpLiteral, b: IpLiteral) -> bool {
    match (a, b) {
        (IpLiteral::V4(x), IpLiteral::V4(y)) => x < y,
        (IpLiteral::V4(_), IpLiteral::V6(_)) => true,
        (IpLiteral::V6(_), IpLiteral::V4(_)) => false,
        (IpLiteral::V6(x), IpLiteral::V6(y)) => x < y,
    }
}

impl IpLiteral {
    /// The IPv4 address `a.b.c.d`.
    pub fn from_octets(a: u8, b: u8, c: u8, d: u8) -> (ip: IpLiteral)
        ensures
            ip == IpLiteral::V4((a * 0x100_0000 + b * 0x1_0000 + c * 0x100 + d) as u32),
    {
        let hi: u32 = (a as u32) * 0x100_0000 + (b as u32) * 0x1_0000;
        let lo: u32 = (c as u32) * 0x100 + (d as u32);
        IpLiteral::V4(hi + lo)
    }

    /// Whether this is an IPv4 address.
    pub fn is_ipv4(&self) -> (r: bool)
        ensures
            r == (*self is V4),
    {
        match self {
            IpLiteral::V4(_) => true,
            IpLiteral::V6(_) => false,
        }
    }

    /// Whether this is an IPv6 address.
    pub fn is_ipv6(&self) -> (r: bool)
        ensures
            r == (*self is V6),
    {
        match self {
            IpLiteral::V4(_) => false,
            IpLiteral::V6(_) => true,
        }
    }

    /// Whether `self` comes strictly before `other`.
    pub fn lt(&self, other: &IpLiteral) -> (r: bool)
        ensures
            r == ip_lt(*self, *other),
    {
        match (*self, *other) {
            (IpLiteral::V4(x), IpLiteral::V4(y)) => x < y,
            (IpLiteral::V4(_), IpLiteral::V6(_)) => true,
            (IpLiteral::V6(_), IpLiteral::V4(_)) => false,
            (IpLiteral::V6(x), IpLiteral::V6(y)) => x < y,
        }
    }
}

/// The order is irreflexive, transitive and total: of two different
/// addresses exactly one comes first.
pub proof fn lemma_ip_order(a: IpLiteral, b: IpLiteral, c: IpLiteral)
    ensures
        !ip_lt(a, a),
        ip_lt(a, b) && ip_lt(b, c) ==> ip_lt(a, c),
        a != b ==> (ip_lt(a, b) <==> !ip_lt(b, a)),
        a == b ==> !ip_lt(a, b),
{
}

} // verus!
