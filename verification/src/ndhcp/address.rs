//! Classifies IP addresses by the reserved blocks they fall into.
//!
//! See <https://en.wikipedia.org/wiki/Reserved_IP_addresses>.

use pnet::ipnetwork::{Ipv4Network, Ipv6Network};
use vstd::prelude::*;
use crate::ip::IpLiteral;

verus! {

/// What an address can be used for.
#[derive(Clone, Copy, Debug, PartialEq, Eq, Structural, Hash)]
pub enum Kind {
    Loopback,
    Private,
    Public,
    Multicast,
    Reserved,
}

impl Kind {
    /// The kind in a word.
    pub open spec fn spec_name(self) -> Seq<char> {
        match self {
            Kind::Loopback => "Loopback"@,
            Kind::Private => "Private"@,
            Kind::Public => "Public"@,
            Kind::Multicast => "Multicast"@,
            Kind::Reserved => "Reserved"@,
        }
    }

    /// The kind in a word.
    pub fn name(&self) -> (name: &'static str)
        ensures
            name@ == self.spec_name(),
    {
        match self {
            Kind::Loopback => "Loopback",
            Kind::Private => "Private",
            Kind::Public => "Public",
            Kind::Multicast => "Multicast",
            Kind::Reserved => "Reserved",
        }
    }

    /// The kind as it is shown to people: in a word.
    pub fn to_string(&self) -> (shown: String)
        ensures
            shown@ == self.spec_name(),
    {
        self.name().to_owned()
    }

    pub fn is_loopback(&self) -> (r: bool)
        ensures
            r == (*self is Loopback),
    {
        match self {
            Kind::Loopback => true,
            _ => false,
        }
    }

    pub fn is_private(&self) -> (r: bool)
        ensures
            r == (*self is Private),
    {
        match self {
            Kind::Private => true,
            _ => false,
        }
    }

    pub fn is_public(&self) -> (r: bool)
        ensures
            r == (*self is Public),
    {
        match self {
            Kind::Public => true,
            _ => false,
        }
    }

    pub fn is_multicast(&self) -> (r: bool)
        ensures
            r == (*self is Multicast),
    {
        match self {
            Kind::Multicast => true,
            _ => false,
        }
    }

    pub fn is_reserved(&self) -> (r: bool)
        ensures
            r == (*self is Reserved),
    {
        match self {
            Kind::Reserved => true,
            _ => false,
        }
    }
}

/// The number of reserved IPv4 blocks.
pub const RESERVED_IPV4: usize = 17;

/// The number of reserved IPv6 blocks.
pub const RESERVED_IPV6: usize = 16;

/// The IPv4 network mask of `prefix` bits: the `prefix` highest bits are set.
pub open spec fn mask_ipv4(prefix: u8) -> u32 {
    if prefix == 0 {
        0
    } else {
        0xffff_ffffu32 << ((32 - prefix) as u32)
    }
}

/// The IPv6 network mask of `prefix` bits: the `prefix` highest bits are set.
pub open spec fn mask_ipv6(prefix: u8) -> u128 {
    if prefix == 0 {
        0
    } else {
        0xffff_ffff_ffff_ffff_ffff_ffff_ffff_ffffu128 << ((128 - prefix) as u128)
    }
}

/// Whether `addr` lies in the block `base/prefix`: the two agree under the mask.
pub open spec fn in_block_ipv4(addr: u32, base: u32, prefix: u8) -> bool {
    addr & mask_ipv4(prefix) == base & mask_ipv4(prefix)
}

/// Whether `addr` lies in the block `base/prefix`: the two agree under the mask.
pub open spec fn in_block_ipv6(addr: u128, base: u128, prefix: u8) -> bool {
    addr & mask_ipv6(prefix) == base & mask_ipv6(prefix)
}

/// The reserved IPv4 blocks in the order in which they are tried: the
/// address of the block, the length of its prefix, and its kind.
pub open spec fn spec_reserved_ipv4(i: int) -> (u32, u8, Kind) {
    if i == 0 {
        (0x0000_0000, 8, Kind::Loopback)  // 0.0.0.0/8
    } else if i == 1 {
        (0x0a00_0000, 8, Kind::Private)  // 10.0.0.0/8
    } else if i == 2 {
        (0x6440_0000, 10, Kind::Reserved)  // 100.64.0.0/10
    } else if i == 3 {
        (0x7f00_0000, 8, Kind::Loopback)  // 127.0.0.0/8
    } else if i == 4 {
        (0xa9fe_0000, 16, Kind::Private)  // 169.254.0.0/16
    } else if i == 5 {
        (0xac10_0000, 12, Kind::Private)  // 172.16.0.0/12
    } else if i == 6 {
        (0xc000_0000, 24, Kind::Reserved)  // 192.0.0.0/24
    } else if i == 7 {
        (0xc000_0200, 24, Kind::Reserved)  // 192.0.2.0/24
    } else if i == 8 {
        (0xc058_6300, 24, Kind::Reserved)  // 192.88.99.0/24
    } else if i == 9 {
        (0xc0a8_0000, 16, Kind::Private)  // 192.168.0.0/16
    } else if i == 10 {
        (0xc612_0000, 15, Kind::Reserved)  // 198.18.0.0/15
    } else if i == 11 {
        (0xc633_6400, 24, Kind::Reserved)  // 198.51.100.0/24
    } else if i == 12 {
        (0xcb00_7100, 24, Kind::Reserved)  // 203.0.113.0/24
    } else if i == 13 {
        (0xe000_0000, 4, Kind::Multicast)  // 224.0.0.0/4
    } else if i == 14 {
        (0xe9fc_0000, 24, Kind::Reserved)  // 233.252.0.0/24
    } else if i == 15 {
        (0xf000_0000, 4, Kind::Reserved)  // 240.0.0.0/4
    } else {
        (0xffff_ffff, 32, Kind::Multicast)  // 255.255.255.255/32
    }
}

/// The reserved IPv6 blocks in the order in which they are tried: the
/// address of the block, the length of its prefix, and its kind.
pub open spec fn spec_reserved_ipv6(i: int) -> (u128, u8, Kind) {
    if i == 0 {
        (0x0000_0000_0000_0000_0000_0000_0000_0000, 128, Kind::Loopback)  // ::/128
    } else if i == 1 {
        (0x0000_0000_0000_0000_0000_0000_0000_0001, 128, Kind::Loopback)  // ::1/128
    } else if i == 2 {
        (0x0000_0000_0000_0000_0000_ffff_0000_0000, 96, Kind::Reserved)  // ::ffff:0:0/96
    } else if i == 3 {
        (0x0000_0000_0000_0000_ffff_0000_0000_0000, 96, Kind::Reserved)  // ::ffff:0:0:0/96
    } else if i == 4 {
        (0x0064_ff9b_0000_0000_0000_0000_0000_0000, 96, Kind::Reserved)  // 64:ff9b::/96
    } else if i == 5 {
        (0x0064_ff9b_0001_0000_0000_0000_0000_0000, 4, Kind::Reserved)  // 64:ff9b:1::/4
    } else if i == 6 {
        (0x0100_0000_0000_0000_0000_0000_0000_0000, 64, Kind::Reserved)  // 100::/64
    } else if i == 7 {
        (0x2001_0000_0000_0000_0000_0000_0000_0000, 32, Kind::Reserved)  // 2001::/32
    } else if i == 8 {
        (0x2001_0020_0000_0000_0000_0000_0000_0000, 28, Kind::Reserved)  // 2001:20::/28
    } else if i == 9 {
        (0x2001_0db8_0000_0000_0000_0000_0000_0000, 32, Kind::Reserved)  // 2001:db8::/32
    } else if i == 10 {
        (0x2002_0000_0000_0000_0000_0000_0000_0000, 16, Kind::Reserved)  // 2002::/16
    } else if i == 11 {
        (0x3fff_0000_0000_0000_0000_0000_0000_0000, 20, Kind::Reserved)  // 3fff::/20
    } else if i == 12 {
        (0x5f00_0000_0000_0000_0000_0000_0000_0000, 16, Kind::Reserved)  // 5f00::/16
    } else if i == 13 {
        (0xfc00_0000_0000_0000_0000_0000_0000_0000, 7, Kind::Private)  // fc00::/7
    } else if i == 14 {
        (0xfe80_0000_0000_0000_0000_0000_0000_0000, 10, Kind::Private)  // fe80::/10
    } else {
        (0xff00_0000_0000_0000_0000_0000_0000_0000, 8, Kind::Multicast)  // ff00::/8
    }
}

/// The kind of the first reserved IPv4 block from place `from` on that
/// holds `addr`, and `Public` where none does.
pub open spec fn first_match_ipv4(addr: u32, from: int) -> Kind
    decreases RESERVED_IPV4 - from,
{
    if from < 0 || from >= RESERVED_IPV4 {
        Kind::Public
    } else if in_block_ipv4(addr, spec_reserved_ipv4(from).0, spec_reserved_ipv4(from).1) {
        spec_reserved_ipv4(from).2
    } else {
        first_match_ipv4(addr, from + 1)
    }
}

/// The kind of the first reserved IPv6 block from place `from` on that
/// holds `addr`, and `Public` where none does.
pub open spec fn first_match_ipv6(addr: u128, from: int) -> Kind
    decreases RESERVED_IPV6 - from,
{
    if from < 0 || from >= RESERVED_IPV6 {
        Kind::Public
    } else if in_block_ipv6(addr, spec_reserved_ipv6(from).0, spec_reserved_ipv6(from).1) {
        spec_reserved_ipv6(from).2
    } else {
        first_match_ipv6(addr, from + 1)
    }
}

/// The kind of an IPv4 address.
pub open spec fn spec_kind_ipv4(addr: u32) -> Kind {
    first_match_ipv4(addr, 0)
}

/// The kind of an IPv6 address.
pub open spec fn spec_kind_ipv6(addr: u128) -> Kind {
    first_match_ipv6(addr, 0)
}

/// The kind of an address.
pub open spec fn spec_kind(addr: IpLiteral) -> Kind {
    match addr {
        IpLiteral::V4(v4) => spec_kind_ipv4(v4),
        IpLiteral::V6(v6) => spec_kind_ipv6(v6),
    }
}

/// A loopback address: `127.0.0.0/8`, or `::1`.
pub open spec fn is_loopback(addr: IpLiteral) -> bool {
    match addr {
        IpLiteral::V4(v4) => 0x7f00_0000 <= v4 <= 0x7fff_ffff,
        IpLiteral::V6(v6) => v6 == 1,
    }
}

/// A multicast address: `224.0.0.0/4`, or `ff00::/8`.
pub open spec fn is_multicast(addr: IpLiteral) -> bool {
    match addr {
        IpLiteral::V4(v4) => 0xe000_0000 <= v4 <= 0xefff_ffff,
        IpLiteral::V6(v6) => 0xff00_0000_0000_0000_0000_0000_0000_0000 <= v6,
    }
}

/// The masks of the prefix lengths that the reserved IPv4 blocks have.
proof fn lemma_masks_ipv4()
    ensures
        mask_ipv4(4) == 0xf000_0000,
        mask_ipv4(8) == 0xff00_0000,
        mask_ipv4(10) == 0xffc0_0000,
        mask_ipv4(12) == 0xfff0_0000,
        mask_ipv4(15) == 0xfffe_0000,
        mask_ipv4(16) == 0xffff_0000,
        mask_ipv4(24) == 0xffff_ff00,
        mask_ipv4(32) == 0xffff_ffff,
{
    assert(0xffff_ffffu32 << 28u32 == 0xf000_0000u32 && 0xffff_ffffu32 << 24u32 == 0xff00_0000u32
        && 0xffff_ffffu32 << 22u32 == 0xffc0_0000u32 && 0xffff_ffffu32 << 20u32 == 0xfff0_0000u32
        && 0xffff_ffffu32 << 17u32 == 0xfffe_0000u32 && 0xffff_ffffu32 << 16u32 == 0xffff_0000u32
        && 0xffff_ffffu32 << 8u32 == 0xffff_ff00u32 && 0xffff_ffffu32 << 0u32 == 0xffff_ffffu32)
        by (bit_vector);
}

/// The masks of the prefix lengths that the reserved IPv6 blocks have.
proof fn lemma_masks_ipv6()
    ensures
        mask_ipv6(4) == 0xf000_0000_0000_0000_0000_0000_0000_0000u128,
        mask_ipv6(7) == 0xfe00_0000_0000_0000_0000_0000_0000_0000u128,
        mask_ipv6(8) == 0xff00_0000_0000_0000_0000_0000_0000_0000u128,
        mask_ipv6(10) == 0xffc0_0000_0000_0000_0000_0000_0000_0000u128,
        mask_ipv6(16) == 0xffff_0000_0000_0000_0000_0000_0000_0000u128,
        mask_ipv6(20) == 0xffff_f000_0000_0000_0000_0000_0000_0000u128,
        mask_ipv6(28) == 0xffff_fff0_0000_0000_0000_0000_0000_0000u128,
        mask_ipv6(32) == 0xffff_ffff_0000_0000_0000_0000_0000_0000u128,
        mask_ipv6(64) == 0xffff_ffff_ffff_ffff_0000_0000_0000_0000u128,
        mask_ipv6(96) == 0xffff_ffff_ffff_ffff_ffff_ffff_0000_0000u128,
        mask_ipv6(128) == 0xffff_ffff_ffff_ffff_ffff_ffff_ffff_ffffu128,
{
    assert(0xffff_ffff_ffff_ffff_ffff_ffff_ffff_ffffu128 << 124u128
        == 0xf000_0000_0000_0000_0000_0000_0000_0000u128
        && 0xffff_ffff_ffff_ffff_ffff_ffff_ffff_ffffu128 << 121u128
        == 0xfe00_0000_0000_0000_0000_0000_0000_0000u128
        && 0xffff_ffff_ffff_ffff_ffff_ffff_ffff_ffffu128 << 120u128
        == 0xff00_0000_0000_0000_0000_0000_0000_0000u128
        && 0xffff_ffff_ffff_ffff_ffff_ffff_ffff_ffffu128 << 118u128
        == 0xffc0_0000_0000_0000_0000_0000_0000_0000u128
        && 0xffff_ffff_ffff_ffff_ffff_ffff_ffff_ffffu128 << 112u128
        == 0xffff_0000_0000_0000_0000_0000_0000_0000u128
        && 0xffff_ffff_ffff_ffff_ffff_ffff_ffff_ffffu128 << 108u128
        == 0xffff_f000_0000_0000_0000_0000_0000_0000u128
        && 0xffff_ffff_ffff_ffff_ffff_ffff_ffff_ffffu128 << 100u128
        == 0xffff_fff0_0000_0000_0000_0000_0000_0000u128
        && 0xffff_ffff_ffff_ffff_ffff_ffff_ffff_ffffu128 << 96u128
        == 0xffff_ffff_0000_0000_0000_0000_0000_0000u128
        && 0xffff_ffff_ffff_ffff_ffff_ffff_ffff_ffffu128 << 64u128
        == 0xffff_ffff_ffff_ffff_0000_0000_0000_0000u128
        && 0xffff_ffff_ffff_ffff_ffff_ffff_ffff_ffffu128 << 32u128
        == 0xffff_ffff_ffff_ffff_ffff_ffff_0000_0000u128
        && 0xffff_ffff_ffff_ffff_ffff_ffff_ffff_ffffu128 << 0u128
        == 0xffff_ffff_ffff_ffff_ffff_ffff_ffff_ffffu128) by (bit_vector);
}

/// The reserved IPv4 blocks as ranges of numbers: an address lies in a
/// block exactly when it lies between the first and the last address of the
/// block.
pub proof fn lemma_blocks_ipv4(addr: u32)
    ensures
        in_block_ipv4(addr, 0x0000_0000, 8) <==> addr <= 0x00ff_ffff,
        in_block_ipv4(addr, 0x0a00_0000, 8) <==> 0x0a00_0000 <= addr <= 0x0aff_ffff,
        in_block_ipv4(addr, 0x6440_0000, 10) <==> 0x6440_0000 <= addr <= 0x647f_ffff,
        in_block_ipv4(addr, 0x7f00_0000, 8) <==> 0x7f00_0000 <= addr <= 0x7fff_ffff,
        in_block_ipv4(addr, 0xa9fe_0000, 16) <==> 0xa9fe_0000 <= addr <= 0xa9fe_ffff,
        in_block_ipv4(addr, 0xac10_0000, 12) <==> 0xac10_0000 <= addr <= 0xac1f_ffff,
        in_block_ipv4(addr, 0xc000_0000, 24) <==> 0xc000_0000 <= addr <= 0xc000_00ff,
        in_block_ipv4(addr, 0xc000_0200, 24) <==> 0xc000_0200 <= addr <= 0xc000_02ff,
        in_block_ipv4(addr, 0xc058_6300, 24) <==> 0xc058_6300 <= addr <= 0xc058_63ff,
        in_block_ipv4(addr, 0xc0a8_0000, 16) <==> 0xc0a8_0000 <= addr <= 0xc0a8_ffff,
        in_block_ipv4(addr, 0xc612_0000, 15) <==> 0xc612_0000 <= addr <= 0xc613_ffff,
        in_block_ipv4(addr, 0xc633_6400, 24) <==> 0xc633_6400 <= addr <= 0xc633_64ff,
        in_block_ipv4(addr, 0xcb00_7100, 24) <==> 0xcb00_7100 <= addr <= 0xcb00_71ff,
        in_block_ipv4(addr, 0xe000_0000, 4) <==> 0xe000_0000 <= addr <= 0xefff_ffff,
        in_block_ipv4(addr, 0xe9fc_0000, 24) <==> 0xe9fc_0000 <= addr <= 0xe9fc_00ff,
        in_block_ipv4(addr, 0xf000_0000, 4) <==> 0xf000_0000 <= addr,
        in_block_ipv4(addr, 0xffff_ffff, 32) <==> addr == 0xffff_ffff,
{
    lemma_masks_ipv4();
    assert((addr & 0xff00_0000u32 == 0x0000_0000u32 & 0xff00_0000u32) <==> addr <= 0x00ff_ffffu32)
        by (bit_vector);
    assert((addr & 0xff00_0000u32 == 0x0a00_0000u32 & 0xff00_0000u32) <==> (0x0a00_0000u32 <= addr && addr
        <= 0x0aff_ffffu32)) by (bit_vector);
    assert((addr & 0xffc0_0000u32 == 0x6440_0000u32 & 0xffc0_0000u32) <==> (0x6440_0000u32 <= addr && addr
        <= 0x647f_ffffu32)) by (bit_vector);
    assert((addr & 0xff00_0000u32 == 0x7f00_0000u32 & 0xff00_0000u32) <==> (0x7f00_0000u32 <= addr && addr
        <= 0x7fff_ffffu32)) by (bit_vector);
    assert((addr & 0xffff_0000u32 == 0xa9fe_0000u32 & 0xffff_0000u32) <==> (0xa9fe_0000u32 <= addr && addr
        <= 0xa9fe_ffffu32)) by (bit_vector);
    assert((addr & 0xfff0_0000u32 == 0xac10_0000u32 & 0xfff0_0000u32) <==> (0xac10_0000u32 <= addr && addr
        <= 0xac1f_ffffu32)) by (bit_vector);
    assert((addr & 0xffff_ff00u32 == 0xc000_0000u32 & 0xffff_ff00u32) <==> (0xc000_0000u32 <= addr && addr
        <= 0xc000_00ffu32)) by (bit_vector);
    assert((addr & 0xffff_ff00u32 == 0xc000_0200u32 & 0xffff_ff00u32) <==> (0xc000_0200u32 <= addr && addr
        <= 0xc000_02ffu32)) by (bit_vector);
    assert((addr & 0xffff_ff00u32 == 0xc058_6300u32 & 0xffff_ff00u32) <==> (0xc058_6300u32 <= addr && addr
        <= 0xc058_63ffu32)) by (bit_vector);
    assert((addr & 0xffff_0000u32 == 0xc0a8_0000u32 & 0xffff_0000u32) <==> (0xc0a8_0000u32 <= addr && addr
        <= 0xc0a8_ffffu32)) by (bit_vector);
    assert((addr & 0xfffe_0000u32 == 0xc612_0000u32 & 0xfffe_0000u32) <==> (0xc612_0000u32 <= addr && addr
        <= 0xc613_ffffu32)) by (bit_vector);
    assert((addr & 0xffff_ff00u32 == 0xc633_6400u32 & 0xffff_ff00u32) <==> (0xc633_6400u32 <= addr && addr
        <= 0xc633_64ffu32)) by (bit_vector);
    assert((addr & 0xffff_ff00u32 == 0xcb00_7100u32 & 0xffff_ff00u32) <==> (0xcb00_7100u32 <= addr && addr
        <= 0xcb00_71ffu32)) by (bit_vector);
    assert((addr & 0xf000_0000u32 == 0xe000_0000u32 & 0xf000_0000u32) <==> (0xe000_0000u32 <= addr && addr
        <= 0xefff_ffffu32)) by (bit_vector);
    assert((addr & 0xffff_ff00u32 == 0xe9fc_0000u32 & 0xffff_ff00u32) <==> (0xe9fc_0000u32 <= addr && addr
        <= 0xe9fc_00ffu32)) by (bit_vector);
    assert((addr & 0xf000_0000u32 == 0xf000_0000u32 & 0xf000_0000u32) <==> 0xf000_0000u32 <= addr)
        by (bit_vector);
    assert((addr & 0xffff_ffffu32 == 0xffff_ffffu32 & 0xffff_ffffu32) <==> addr == 0xffff_ffffu32)
        by (bit_vector);
}

/// The reserved IPv6 blocks as ranges of numbers: an address lies in a
/// block exactly when it lies between the first and the last address of the
/// block.
pub proof fn lemma_blocks_ipv6(addr: u128)
    ensures
        in_block_ipv6(addr, 0x0000_0000_0000_0000_0000_0000_0000_0000, 128) <==>
            addr == 0x0000_0000_0000_0000_0000_0000_0000_0000,
        in_block_ipv6(addr, 0x0000_0000_0000_0000_0000_0000_0000_0001, 128) <==>
            addr == 0x0000_0000_0000_0000_0000_0000_0000_0001,
        in_block_ipv6(addr, 0x0000_0000_0000_0000_0000_ffff_0000_0000, 96) <==>
            0x0000_0000_0000_0000_0000_ffff_0000_0000 <= addr <= 0x0000_0000_0000_0000_0000_ffff_ffff_ffff,
        in_block_ipv6(addr, 0x0000_0000_0000_0000_ffff_0000_0000_0000, 96) <==>
            0x0000_0000_0000_0000_ffff_0000_0000_0000 <= addr <= 0x0000_0000_0000_0000_ffff_0000_ffff_ffff,
        in_block_ipv6(addr, 0x0064_ff9b_0000_0000_0000_0000_0000_0000, 96) <==>
            0x0064_ff9b_0000_0000_0000_0000_0000_0000 <= addr <= 0x0064_ff9b_0000_0000_0000_0000_ffff_ffff,
        in_block_ipv6(addr, 0x0064_ff9b_0001_0000_0000_0000_0000_0000, 4) <==>
            addr <= 0x0fff_ffff_ffff_ffff_ffff_ffff_ffff_ffff,
        in_block_ipv6(addr, 0x0100_0000_0000_0000_0000_0000_0000_0000, 64) <==>
            0x0100_0000_0000_0000_0000_0000_0000_0000 <= addr <= 0x0100_0000_0000_0000_ffff_ffff_ffff_ffff,
        in_block_ipv6(addr, 0x2001_0000_0000_0000_0000_0000_0000_0000, 32) <==>
            0x2001_0000_0000_0000_0000_0000_0000_0000 <= addr <= 0x2001_0000_ffff_ffff_ffff_ffff_ffff_ffff,
        in_block_ipv6(addr, 0x2001_0020_0000_0000_0000_0000_0000_0000, 28) <==>
            0x2001_0020_0000_0000_0000_0000_0000_0000 <= addr <= 0x2001_002f_ffff_ffff_ffff_ffff_ffff_ffff,
        in_block_ipv6(addr, 0x2001_0db8_0000_0000_0000_0000_0000_0000, 32) <==>
            0x2001_0db8_0000_0000_0000_0000_0000_0000 <= addr <= 0x2001_0db8_ffff_ffff_ffff_ffff_ffff_ffff,
        in_block_ipv6(addr, 0x2002_0000_0000_0000_0000_0000_0000_0000, 16) <==>
            0x2002_0000_0000_0000_0000_0000_0000_0000 <= addr <= 0x2002_ffff_ffff_ffff_ffff_ffff_ffff_ffff,
        in_block_ipv6(addr, 0x3fff_0000_0000_0000_0000_0000_0000_0000, 20) <==>
            0x3fff_0000_0000_0000_0000_0000_0000_0000 <= addr <= 0x3fff_0fff_ffff_ffff_ffff_ffff_ffff_ffff,
        in_block_ipv6(addr, 0x5f00_0000_0000_0000_0000_0000_0000_0000, 16) <==>
            0x5f00_0000_0000_0000_0000_0000_0000_0000 <= addr <= 0x5f00_ffff_ffff_ffff_ffff_ffff_ffff_ffff,
        in_block_ipv6(addr, 0xfc00_0000_0000_0000_0000_0000_0000_0000, 7) <==>
            0xfc00_0000_0000_0000_0000_0000_0000_0000 <= addr <= 0xfdff_ffff_ffff_ffff_ffff_ffff_ffff_ffff,
        in_block_ipv6(addr, 0xfe80_0000_0000_0000_0000_0000_0000_0000, 10) <==>
            0xfe80_0000_0000_0000_0000_0000_0000_0000 <= addr <= 0xfebf_ffff_ffff_ffff_ffff_ffff_ffff_ffff,
        in_block_ipv6(addr, 0xff00_0000_0000_0000_0000_0000_0000_0000, 8) <==>
            0xff00_0000_0000_0000_0000_0000_0000_0000 <= addr,
{
    lemma_masks_ipv6();
    assert((addr & 0xffff_ffff_ffff_ffff_ffff_ffff_ffff_ffffu128 == 0x0000_0000_0000_0000_0000_0000_0000_0000u128
        & 0xffff_ffff_ffff_ffff_ffff_ffff_ffff_ffffu128) <==>
        addr == 0x0000_0000_0000_0000_0000_0000_0000_0000u128) by (bit_vector);
    assert((addr & 0xffff_ffff_ffff_ffff_ffff_ffff_ffff_ffffu128 == 0x0000_0000_0000_0000_0000_0000_0000_0001u128
        & 0xffff_ffff_ffff_ffff_ffff_ffff_ffff_ffffu128) <==>
        addr == 0x0000_0000_0000_0000_0000_0000_0000_0001u128) by (bit_vector);
    assert((addr & 0xffff_ffff_ffff_ffff_ffff_ffff_0000_0000u128 == 0x0000_0000_0000_0000_0000_ffff_0000_0000u128
        & 0xffff_ffff_ffff_ffff_ffff_ffff_0000_0000u128) <==>
        (0x0000_0000_0000_0000_0000_ffff_0000_0000u128 <= addr
        && addr <= 0x0000_0000_0000_0000_0000_ffff_ffff_ffffu128)) by (bit_vector);
    assert((addr & 0xffff_ffff_ffff_ffff_ffff_ffff_0000_0000u128 == 0x0000_0000_0000_0000_ffff_0000_0000_0000u128
        & 0xffff_ffff_ffff_ffff_ffff_ffff_0000_0000u128) <==>
        (0x0000_0000_0000_0000_ffff_0000_0000_0000u128 <= addr
        && addr <= 0x0000_0000_0000_0000_ffff_0000_ffff_ffffu128)) by (bit_vector);
    assert((addr & 0xffff_ffff_ffff_ffff_ffff_ffff_0000_0000u128 == 0x0064_ff9b_0000_0000_0000_0000_0000_0000u128
        & 0xffff_ffff_ffff_ffff_ffff_ffff_0000_0000u128) <==>
        (0x0064_ff9b_0000_0000_0000_0000_0000_0000u128 <= addr
        && addr <= 0x0064_ff9b_0000_0000_0000_0000_ffff_ffffu128)) by (bit_vector);
    assert((addr & 0xf000_0000_0000_0000_0000_0000_0000_0000u128 == 0x0064_ff9b_0001_0000_0000_0000_0000_0000u128
        & 0xf000_0000_0000_0000_0000_0000_0000_0000u128) <==>
        addr <= 0x0fff_ffff_ffff_ffff_ffff_ffff_ffff_ffffu128) by (bit_vector);
    assert((addr & 0xffff_ffff_ffff_ffff_0000_0000_0000_0000u128 == 0x0100_0000_0000_0000_0000_0000_0000_0000u128
        & 0xffff_ffff_ffff_ffff_0000_0000_0000_0000u128) <==>
        (0x0100_0000_0000_0000_0000_0000_0000_0000u128 <= addr
        && addr <= 0x0100_0000_0000_0000_ffff_ffff_ffff_ffffu128)) by (bit_vector);
    assert((addr & 0xffff_ffff_0000_0000_0000_0000_0000_0000u128 == 0x2001_0000_0000_0000_0000_0000_0000_0000u128
        & 0xffff_ffff_0000_0000_0000_0000_0000_0000u128) <==>
        (0x2001_0000_0000_0000_0000_0000_0000_0000u128 <= addr
        && addr <= 0x2001_0000_ffff_ffff_ffff_ffff_ffff_ffffu128)) by (bit_vector);
    assert((addr & 0xffff_fff0_0000_0000_0000_0000_0000_0000u128 == 0x2001_0020_0000_0000_0000_0000_0000_0000u128
        & 0xffff_fff0_0000_0000_0000_0000_0000_0000u128) <==>
        (0x2001_0020_0000_0000_0000_0000_0000_0000u128 <= addr
        && addr <= 0x2001_002f_ffff_ffff_ffff_ffff_ffff_ffffu128)) by (bit_vector);
    assert((addr & 0xffff_ffff_0000_0000_0000_0000_0000_0000u128 == 0x2001_0db8_0000_0000_0000_0000_0000_0000u128
        & 0xffff_ffff_0000_0000_0000_0000_0000_0000u128) <==>
        (0x2001_0db8_0000_0000_0000_0000_0000_0000u128 <= addr
        && addr <= 0x2001_0db8_ffff_ffff_ffff_ffff_ffff_ffffu128)) by (bit_vector);
    assert((addr & 0xffff_0000_0000_0000_0000_0000_0000_0000u128 == 0x2002_0000_0000_0000_0000_0000_0000_0000u128
        & 0xffff_0000_0000_0000_0000_0000_0000_0000u128) <==>
        (0x2002_0000_0000_0000_0000_0000_0000_0000u128 <= addr
        && addr <= 0x2002_ffff_ffff_ffff_ffff_ffff_ffff_ffffu128)) by (bit_vector);
    assert((addr & 0xffff_f000_0000_0000_0000_0000_0000_0000u128 == 0x3fff_0000_0000_0000_0000_0000_0000_0000u128
        & 0xffff_f000_0000_0000_0000_0000_0000_0000u128) <==>
        (0x3fff_0000_0000_0000_0000_0000_0000_0000u128 <= addr
        && addr <= 0x3fff_0fff_ffff_ffff_ffff_ffff_ffff_ffffu128)) by (bit_vector);
    assert((addr & 0xffff_0000_0000_0000_0000_0000_0000_0000u128 == 0x5f00_0000_0000_0000_0000_0000_0000_0000u128
        & 0xffff_0000_0000_0000_0000_0000_0000_0000u128) <==>
        (0x5f00_0000_0000_0000_0000_0000_0000_0000u128 <= addr
        && addr <= 0x5f00_ffff_ffff_ffff_ffff_ffff_ffff_ffffu128)) by (bit_vector);
    assert((addr & 0xfe00_0000_0000_0000_0000_0000_0000_0000u128 == 0xfc00_0000_0000_0000_0000_0000_0000_0000u128
        & 0xfe00_0000_0000_0000_0000_0000_0000_0000u128) <==>
        (0xfc00_0000_0000_0000_0000_0000_0000_0000u128 <= addr
        && addr <= 0xfdff_ffff_ffff_ffff_ffff_ffff_ffff_ffffu128)) by (bit_vector);
    assert((addr & 0xffc0_0000_0000_0000_0000_0000_0000_0000u128 == 0xfe80_0000_0000_0000_0000_0000_0000_0000u128
        & 0xffc0_0000_0000_0000_0000_0000_0000_0000u128) <==>
        (0xfe80_0000_0000_0000_0000_0000_0000_0000u128 <= addr
        && addr <= 0xfebf_ffff_ffff_ffff_ffff_ffff_ffff_ffffu128)) by (bit_vector);
    assert((addr & 0xff00_0000_0000_0000_0000_0000_0000_0000u128 == 0xff00_0000_0000_0000_0000_0000_0000_0000u128
        & 0xff00_0000_0000_0000_0000_0000_0000_0000u128) <==>
        0xff00_0000_0000_0000_0000_0000_0000_0000u128 <= addr) by (bit_vector);
}

/// A loopback address is of kind `Loopback`, and so never public.
pub proof fn lemma_loopback_is_never_public(addr: IpLiteral)
    requires
        is_loopback(addr),
    ensures
        spec_kind(addr) == Kind::Loopback,
        !(spec_kind(addr) is Public),
{
    match addr {
        IpLiteral::V4(v4) => {
            lemma_blocks_ipv4(v4);
            reveal_with_fuel(first_match_ipv4, 5);
        },
        IpLiteral::V6(v6) => {
            lemma_blocks_ipv6(v6);
            reveal_with_fuel(first_match_ipv6, 3);
        },
    }
}

/// A multicast address is of kind `Multicast`, and so never public.
pub proof fn lemma_multicast_is_never_public(addr: IpLiteral)
    requires
        is_multicast(addr),
    ensures
        spec_kind(addr) == Kind::Multicast,
        !(spec_kind(addr) is Public),
{
    match addr {
        IpLiteral::V4(v4) => {
            lemma_blocks_ipv4(v4);
            reveal_with_fuel(first_match_ipv4, 15);
        },
        IpLiteral::V6(v6) => {
            lemma_blocks_ipv6(v6);
            reveal_with_fuel(first_match_ipv6, 17);
        },
    }
}

/// Whether the IPv4 network that `Ipv4Network::new` makes of the address
/// `base` and the prefix length `prefix` holds `addr`, as
/// `Ipv4Network::contains` tells it.
///
/// Trusted: `new` keeps the address and the prefix as they are, for every
/// prefix up to 32, and `contains` compares `base` and `addr` under the
/// mask whose `prefix` highest bits are set.
#[verifier::external_body]
fn ipv4_block_contains(base: u32, prefix: u8, addr: u32) -> (inside: bool)
    requires
        prefix <= 32,
    ensures
        inside == in_block_ipv4(addr, base, prefix),
{
    match Ipv4Network::new(base.into(), prefix) {
        Ok(block) => block.contains(addr.into()),
        Err(_) => false,
    }
}

/// Whether the IPv6 network that `Ipv6Network::new` makes of the address
/// `base` and the prefix length `prefix` holds `addr`, as
/// `Ipv6Network::contains` tells it.
///
/// Trusted: `new` keeps the address and the prefix as they are, for every
/// prefix up to 128, and `contains` compares `base` and `addr`, piece by
/// piece, under the mask whose `prefix` highest bits are set.
#[verifier::external_body]
fn ipv6_block_contains(base: u128, prefix: u8, addr: u128) -> (inside: bool)
    requires
        prefix <= 128,
    ensures
        inside == in_block_ipv6(addr, base, prefix),
{
    match Ipv6Network::new(base.into(), prefix) {
        Ok(block) => block.contains(addr.into()),
        Err(_) => false,
    }
}

/// The reserved IPv4 block at place `i`.
fn reserved_ipv4(i: usize) -> (block: (u32, u8, Kind))
    requires
        i < RESERVED_IPV4,
    ensures
        block == spec_reserved_ipv4(i as int),
        block.1 <= 32,
{
    match i {
        0 => (0x0000_0000, 8, Kind::Loopback),
        1 => (0x0a00_0000, 8, Kind::Private),
        2 => (0x6440_0000, 10, Kind::Reserved),
        3 => (0x7f00_0000, 8, Kind::Loopback),
        4 => (0xa9fe_0000, 16, Kind::Private),
        5 => (0xac10_0000, 12, Kind::Private),
        6 => (0xc000_0000, 24, Kind::Reserved),
        7 => (0xc000_0200, 24, Kind::Reserved),
        8 => (0xc058_6300, 24, Kind::Reserved),
        9 => (0xc0a8_0000, 16, Kind::Private),
        10 => (0xc612_0000, 15, Kind::Reserved),
        11 => (0xc633_6400, 24, Kind::Reserved),
        12 => (0xcb00_7100, 24, Kind::Reserved),
        13 => (0xe000_0000, 4, Kind::Multicast),
        14 => (0xe9fc_0000, 24, Kind::Reserved),
        15 => (0xf000_0000, 4, Kind::Reserved),
        _ => (0xffff_ffff, 32, Kind::Multicast),
    }
}

/// The reserved IPv6 block at place `i`.
fn reserved_ipv6(i: usize) -> (block: (u128, u8, Kind))
    requires
        i < RESERVED_IPV6,
    ensures
        block == spec_reserved_ipv6(i as int),
        block.1 <= 128,
{
    match i {
        0 => (0x0000_0000_0000_0000_0000_0000_0000_0000, 128, Kind::Loopback),
        1 => (0x0000_0000_0000_0000_0000_0000_0000_0001, 128, Kind::Loopback),
        2 => (0x0000_0000_0000_0000_0000_ffff_0000_0000, 96, Kind::Reserved),
        3 => (0x0000_0000_0000_0000_ffff_0000_0000_0000, 96, Kind::Reserved),
        4 => (0x0064_ff9b_0000_0000_0000_0000_0000_0000, 96, Kind::Reserved),
        5 => (0x0064_ff9b_0001_0000_0000_0000_0000_0000, 4, Kind::Reserved),
        6 => (0x0100_0000_0000_0000_0000_0000_0000_0000, 64, Kind::Reserved),
        7 => (0x2001_0000_0000_0000_0000_0000_0000_0000, 32, Kind::Reserved),
        8 => (0x2001_0020_0000_0000_0000_0000_0000_0000, 28, Kind::Reserved),
        9 => (0x2001_0db8_0000_0000_0000_0000_0000_0000, 32, Kind::Reserved),
        10 => (0x2002_0000_0000_0000_0000_0000_0000_0000, 16, Kind::Reserved),
        11 => (0x3fff_0000_0000_0000_0000_0000_0000_0000, 20, Kind::Reserved),
        12 => (0x5f00_0000_0000_0000_0000_0000_0000_0000, 16, Kind::Reserved),
        13 => (0xfc00_0000_0000_0000_0000_0000_0000_0000, 7, Kind::Private),
        14 => (0xfe80_0000_0000_0000_0000_0000_0000_0000, 10, Kind::Private),
        _ => (0xff00_0000_0000_0000_0000_0000_0000_0000, 8, Kind::Multicast),
    }
}

/// The kind of an IPv4 address: that of the first reserved block that holds
/// it, and `Public` where none does.
pub fn kind_ipv4(addr: u32) -> (kind: Kind)
    ensures
        kind == spec_kind_ipv4(addr),
{
    let mut i: usize = 0;
    while i < RESERVED_IPV4
        invariant
            i <= RESERVED_IPV4,
            spec_kind_ipv4(addr) == first_match_ipv4(addr, i as int),
        decreases RESERVED_IPV4 - i,
    {
        let block = reserved_ipv4(i);
        if ipv4_block_contains(block.0, block.1, addr) {
            return block.2;
        }
        i = i + 1;
    }
    Kind::Public
}

/// The kind of an IPv6 address: that of the first reserved block that holds
/// it, and `Public` where none does.
pub fn kind_ipv6(addr: u128) -> (kind: Kind)
    ensures
        kind == spec_kind_ipv6(addr),
{
    let mut i: usize = 0;
    while i < RESERVED_IPV6
        invariant
            i <= RESERVED_IPV6,
            spec_kind_ipv6(addr) == first_match_ipv6(addr, i as int),
        decreases RESERVED_IPV6 - i,
    {
        let block = reserved_ipv6(i);
        if ipv6_block_contains(block.0, block.1, addr) {
            return block.2;
        }
        i = i + 1;
    }
    Kind::Public
}

/// The kind of an address.
pub fn kind(addr: IpLiteral) -> (kind: Kind)
    ensures
        kind == spec_kind(addr),
{
    match addr {
        IpLiteral::V4(addr_v4) => kind_ipv4(addr_v4),
        IpLiteral::V6(addr_v6) => kind_ipv6(addr_v6),
    }
}

pub fn is_public_ipv4(addr: u32) -> (public: bool)
    ensures
        public == (spec_kind_ipv4(addr) is Public),
{
    kind_ipv4(addr).is_public()
}

pub fn is_public_ipv6(addr: u128) -> (public: bool)
    ensures
        public == (spec_kind_ipv6(addr) is Public),
{
    kind_ipv6(addr).is_public()
}

pub fn is_public(addr: IpLiteral) -> (public: bool)
    ensures
        public == (spec_kind(addr) is Public),
{
    kind(addr).is_public()
}

} // verus!
