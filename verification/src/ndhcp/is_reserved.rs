//! Tells whether an IP address falls into a reserved block.
//!
//! See <https://en.wikipedia.org/wiki/Reserved_IP_addresses>.

use vstd::prelude::*;
use crate::ip::IpLiteral;
use crate::ndhcp::address::{
    first_match_ipv4, first_match_ipv6, in_block_ipv4, in_block_ipv6, kind_ipv4, kind_ipv6, spec_kind,
    spec_kind_ipv4, spec_kind_ipv6, spec_reserved_ipv4, spec_reserved_ipv6, RESERVED_IPV4, RESERVED_IPV6,
};

verus! {

/// Some reserved IPv4 block holds `addr`.
pub open spec fn spec_check_ipv4(addr: u32) -> bool {
    exists|i: int|
        0 <= i < RESERVED_IPV4 && in_block_ipv4(
            addr,
            (#[trigger] spec_reserved_ipv4(i)).0,
            spec_reserved_ipv4(i).1,
        )
}

/// Some reserved IPv6 block holds `addr`.
pub open spec fn spec_check_ipv6(addr: u128) -> bool {
    exists|i: int|
        0 <= i < RESERVED_IPV6 && in_block_ipv6(
            addr,
            (#[trigger] spec_reserved_ipv6(i)).0,
            spec_reserved_ipv6(i).1,
        )
}

/// Some reserved block holds `addr`.
pub open spec fn spec_check(addr: IpLiteral) -> bool {
    match addr {
        IpLiteral::V4(v4) => spec_check_ipv4(v4),
        IpLiteral::V6(v6) => spec_check_ipv6(v6),
    }
}

/// From place `from` on, an IPv4 address is public exactly when no reserved
/// block holds it.
proof fn lemma_first_match_ipv4(addr: u32, from: int)
    requires
        0 <= from <= RESERVED_IPV4,
    ensures
        first_match_ipv4(addr, from) is Public <==> !(exists|i: int|
            from <= i < RESERVED_IPV4 && in_block_ipv4(
                addr,
                (#[trigger] spec_reserved_ipv4(i)).0,
                spec_reserved_ipv4(i).1,
            )),
    decreases RESERVED_IPV4 - from,
{
    if from < RESERVED_IPV4 {
        lemma_first_match_ipv4(addr, from + 1);
        let block = spec_reserved_ipv4(from);
        assert(!(block.2 is Public));
        if !in_block_ipv4(addr, block.0, block.1) {
            if exists|i: int|
                from <= i < RESERVED_IPV4 && in_block_ipv4(
                    addr,
                    (#[trigger] spec_reserved_ipv4(i)).0,
                    spec_reserved_ipv4(i).1,
                ) {
                let i = choose|i: int|
                    from <= i < RESERVED_IPV4 && in_block_ipv4(
                        addr,
                        (#[trigger] spec_reserved_ipv4(i)).0,
                        spec_reserved_ipv4(i).1,
                    );
                assert(from + 1 <= i);
            }
        }
    }
}

/// From place `from` on, an IPv6 address is public exactly when no reserved
/// block holds it.
proof fn lemma_first_match_ipv6(addr: u128, from: int)
    requires
        0 <= from <= RESERVED_IPV6,
    ensures
        first_match_ipv6(addr, from) is Public <==> !(exists|i: int|
            from <= i < RESERVED_IPV6 && in_block_ipv6(
                addr,
                (#[trigger] spec_reserved_ipv6(i)).0,
                spec_reserved_ipv6(i).1,
            )),
    decreases RESERVED_IPV6 - from,
{
    if from < RESERVED_IPV6 {
        lemma_first_match_ipv6(addr, from + 1);
        let block = spec_reserved_ipv6(from);
        assert(!(block.2 is Public));
        if !in_block_ipv6(addr, block.0, block.1) {
            if exists|i: int|
                from <= i < RESERVED_IPV6 && in_block_ipv6(
                    addr,
                    (#[trigger] spec_reserved_ipv6(i)).0,
                    spec_reserved_ipv6(i).1,
                ) {
                let i = choose|i: int|
                    from <= i < RESERVED_IPV6 && in_block_ipv6(
                        addr,
                        (#[trigger] spec_reserved_ipv6(i)).0,
                        spec_reserved_ipv6(i).1,
                    );
                assert(from + 1 <= i);
            }
        }
    }
}

/// An address is reserved exactly when it is not public: every address is
/// of one kind, and of a kind other than `Public` exactly when some reserved
/// block holds it.
pub proof fn lemma_reserved_is_not_public(addr: IpLiteral)
    ensures
        spec_check(addr) <==> !(spec_kind(addr) is Public),
{
    match addr {
        IpLiteral::V4(v4) => lemma_first_match_ipv4(v4, 0),
        IpLiteral::V6(v6) => lemma_first_match_ipv6(v6, 0),
    }
}

/// Whether some reserved block holds `addr`.
pub fn check(addr: IpLiteral) -> (reserved: bool)
    ensures
        reserved == spec_check(addr),
        reserved == !(spec_kind(addr) is Public),
{
    match addr {
        IpLiteral::V4(addr_v4) => check_ipv4(addr_v4),
        IpLiteral::V6(addr_v6) => check_ipv6(addr_v6),
    }
}

/// Whether some reserved IPv4 block holds `addr`.
pub fn check_ipv4(addr: u32) -> (reserved: bool)
    ensures
        reserved == spec_check_ipv4(addr),
        reserved == !(spec_kind_ipv4(addr) is Public),
{
    proof {
        lemma_first_match_ipv4(addr, 0);
    }
    !kind_ipv4(addr).is_public()
}

/// Whether some reserved IPv6 block holds `addr`.
pub fn check_ipv6(addr: u128) -> (reserved: bool)
    ensures
        reserved == spec_check_ipv6(addr),
        reserved == !(spec_kind_ipv6(addr) is Public),
{
    proof {
        lemma_first_match_ipv6(addr, 0);
    }
    !kind_ipv6(addr).is_public()
}

} // verus!
