use fckloud::ip::IpLiteral;
use fckloud::ndhcp::address::{is_public, is_public_ipv4, is_public_ipv6, kind, kind_ipv4, kind_ipv6, Kind};
use fckloud::ndhcp::screening::screen;
use fckloud::ndhcp::is_reserved::{check, check_ipv4, check_ipv6};
use fckloud::ndhcp::manager::ObserverError;

fn v4(a: u8, b: u8, c: u8, d: u8) -> u32 {
    u32::from_be_bytes([a, b, c, d])
}

fn v6(segments: [u16; 8]) -> u128 {
    let mut value: u128 = 0;
    for segment in segments {
        value = (value << 16) | u128::from(segment);
    }
    value
}

#[test]
fn ipv4_blocks_by_their_edges() {
    assert_eq!(kind_ipv4(v4(0, 0, 0, 0)), Kind::Loopback);
    assert_eq!(kind_ipv4(v4(0, 255, 255, 255)), Kind::Loopback);
    assert_eq!(kind_ipv4(v4(1, 0, 0, 0)), Kind::Public);
    assert_eq!(kind_ipv4(v4(9, 255, 255, 255)), Kind::Public);
    assert_eq!(kind_ipv4(v4(10, 0, 0, 0)), Kind::Private);
    assert_eq!(kind_ipv4(v4(10, 255, 255, 255)), Kind::Private);
    assert_eq!(kind_ipv4(v4(11, 0, 0, 0)), Kind::Public);
    assert_eq!(kind_ipv4(v4(100, 63, 255, 255)), Kind::Public);
    assert_eq!(kind_ipv4(v4(100, 64, 0, 0)), Kind::Reserved);
    assert_eq!(kind_ipv4(v4(100, 127, 255, 255)), Kind::Reserved);
    assert_eq!(kind_ipv4(v4(100, 128, 0, 0)), Kind::Public);
    assert_eq!(kind_ipv4(v4(127, 0, 0, 1)), Kind::Loopback);
    assert_eq!(kind_ipv4(v4(127, 255, 255, 255)), Kind::Loopback);
    assert_eq!(kind_ipv4(v4(128, 0, 0, 0)), Kind::Public);
    assert_eq!(kind_ipv4(v4(169, 253, 255, 255)), Kind::Public);
    assert_eq!(kind_ipv4(v4(169, 254, 0, 0)), Kind::Private);
    assert_eq!(kind_ipv4(v4(169, 254, 255, 255)), Kind::Private);
    assert_eq!(kind_ipv4(v4(169, 255, 0, 0)), Kind::Public);
    assert_eq!(kind_ipv4(v4(172, 15, 255, 255)), Kind::Public);
    assert_eq!(kind_ipv4(v4(172, 16, 0, 0)), Kind::Private);
    assert_eq!(kind_ipv4(v4(172, 31, 255, 255)), Kind::Private);
    assert_eq!(kind_ipv4(v4(172, 32, 0, 0)), Kind::Public);
    assert_eq!(kind_ipv4(v4(192, 0, 0, 0)), Kind::Reserved);
    assert_eq!(kind_ipv4(v4(192, 0, 0, 255)), Kind::Reserved);
    assert_eq!(kind_ipv4(v4(192, 0, 1, 0)), Kind::Public);
    assert_eq!(kind_ipv4(v4(192, 0, 2, 0)), Kind::Reserved);
    assert_eq!(kind_ipv4(v4(192, 0, 2, 255)), Kind::Reserved);
    assert_eq!(kind_ipv4(v4(192, 0, 3, 0)), Kind::Public);
    assert_eq!(kind_ipv4(v4(192, 88, 98, 255)), Kind::Public);
    assert_eq!(kind_ipv4(v4(192, 88, 99, 1)), Kind::Reserved);
    assert_eq!(kind_ipv4(v4(192, 88, 100, 0)), Kind::Public);
    assert_eq!(kind_ipv4(v4(192, 167, 255, 255)), Kind::Public);
    assert_eq!(kind_ipv4(v4(192, 168, 0, 1)), Kind::Private);
    assert_eq!(kind_ipv4(v4(192, 168, 255, 255)), Kind::Private);
    assert_eq!(kind_ipv4(v4(192, 169, 0, 0)), Kind::Public);
    assert_eq!(kind_ipv4(v4(198, 17, 255, 255)), Kind::Public);
    assert_eq!(kind_ipv4(v4(198, 18, 0, 0)), Kind::Reserved);
    assert_eq!(kind_ipv4(v4(198, 19, 255, 255)), Kind::Reserved);
    assert_eq!(kind_ipv4(v4(198, 20, 0, 0)), Kind::Public);
    assert_eq!(kind_ipv4(v4(198, 51, 99, 255)), Kind::Public);
    assert_eq!(kind_ipv4(v4(198, 51, 100, 7)), Kind::Reserved);
    assert_eq!(kind_ipv4(v4(198, 51, 101, 0)), Kind::Public);
    assert_eq!(kind_ipv4(v4(203, 0, 112, 255)), Kind::Public);
    assert_eq!(kind_ipv4(v4(203, 0, 113, 7)), Kind::Reserved);
    assert_eq!(kind_ipv4(v4(203, 0, 114, 0)), Kind::Public);
    assert_eq!(kind_ipv4(v4(223, 255, 255, 255)), Kind::Public);
    assert_eq!(kind_ipv4(v4(224, 0, 0, 0)), Kind::Multicast);
    assert_eq!(kind_ipv4(v4(239, 255, 255, 255)), Kind::Multicast);
    assert_eq!(kind_ipv4(v4(240, 0, 0, 0)), Kind::Reserved);
    assert_eq!(kind_ipv4(v4(255, 255, 255, 254)), Kind::Reserved);
}

#[test]
fn ipv4_first_block_wins() {
    // 233.252.0.0/24 lies inside 224.0.0.0/4, which is tried before it.
    assert_eq!(kind_ipv4(v4(233, 252, 0, 1)), Kind::Multicast);
    // 255.255.255.255/32 lies inside 240.0.0.0/4, which is tried before it.
    assert_eq!(kind_ipv4(v4(255, 255, 255, 255)), Kind::Reserved);
}

#[test]
fn ipv4_well_known_addresses() {
    assert_eq!(kind_ipv4(v4(8, 8, 8, 8)), Kind::Public);
    assert_eq!(kind_ipv4(v4(1, 1, 1, 1)), Kind::Public);
    assert!(is_public_ipv4(v4(8, 8, 4, 4)));
    assert!(!is_public_ipv4(v4(127, 0, 0, 1)));
    assert!(!is_public_ipv4(v4(192, 168, 1, 1)));
    assert!(!is_public_ipv4(v4(224, 0, 0, 251)));
}

#[test]
fn ipv6_blocks_by_their_edges() {
    assert_eq!(kind_ipv6(v6([0, 0, 0, 0, 0, 0, 0, 0])), Kind::Loopback);
    assert_eq!(kind_ipv6(v6([0, 0, 0, 0, 0, 0, 0, 1])), Kind::Loopback);
    assert_eq!(kind_ipv6(v6([0, 0, 0, 0, 0, 0xffff, 0x0102, 0x0304])), Kind::Reserved);
    assert_eq!(kind_ipv6(v6([0, 0, 0, 0, 0xffff, 0, 0x0102, 0x0304])), Kind::Reserved);
    assert_eq!(kind_ipv6(v6([0x64, 0xff9b, 0, 0, 0, 0, 0x0102, 0x0304])), Kind::Reserved);
    assert_eq!(kind_ipv6(v6([0x100, 0, 0, 0, 0, 0, 0, 1])), Kind::Reserved);
    assert_eq!(kind_ipv6(v6([0x2001, 0, 0, 0, 0, 0, 0, 1])), Kind::Reserved);
    assert_eq!(kind_ipv6(v6([0x2001, 1, 0, 0, 0, 0, 0, 1])), Kind::Public);
    assert_eq!(kind_ipv6(v6([0x2001, 0x20, 0, 0, 0, 0, 0, 1])), Kind::Reserved);
    assert_eq!(kind_ipv6(v6([0x2001, 0x2f, 0xffff, 0, 0, 0, 0, 1])), Kind::Reserved);
    assert_eq!(kind_ipv6(v6([0x2001, 0x30, 0, 0, 0, 0, 0, 1])), Kind::Public);
    assert_eq!(kind_ipv6(v6([0x2001, 0xdb8, 0, 0, 0, 0, 0, 1])), Kind::Reserved);
    assert_eq!(kind_ipv6(v6([0x2001, 0xdb9, 0, 0, 0, 0, 0, 1])), Kind::Public);
    assert_eq!(kind_ipv6(v6([0x2002, 0xffff, 0, 0, 0, 0, 0, 1])), Kind::Reserved);
    assert_eq!(kind_ipv6(v6([0x2003, 0, 0, 0, 0, 0, 0, 1])), Kind::Public);
    assert_eq!(kind_ipv6(v6([0x3fff, 0x0fff, 0, 0, 0, 0, 0, 1])), Kind::Reserved);
    assert_eq!(kind_ipv6(v6([0x3fff, 0x1000, 0, 0, 0, 0, 0, 1])), Kind::Public);
    assert_eq!(kind_ipv6(v6([0x5f00, 0xffff, 0, 0, 0, 0, 0, 1])), Kind::Reserved);
    assert_eq!(kind_ipv6(v6([0x5f01, 0, 0, 0, 0, 0, 0, 1])), Kind::Public);
    assert_eq!(kind_ipv6(v6([0xfbff, 0xffff, 0, 0, 0, 0, 0, 1])), Kind::Public);
    assert_eq!(kind_ipv6(v6([0xfc00, 0, 0, 0, 0, 0, 0, 1])), Kind::Private);
    assert_eq!(kind_ipv6(v6([0xfdff, 0xffff, 0, 0, 0, 0, 0, 1])), Kind::Private);
    assert_eq!(kind_ipv6(v6([0xfe00, 0, 0, 0, 0, 0, 0, 1])), Kind::Public);
    assert_eq!(kind_ipv6(v6([0xfe80, 0, 0, 0, 0, 0, 0, 1])), Kind::Private);
    assert_eq!(kind_ipv6(v6([0xfebf, 0xffff, 0, 0, 0, 0, 0, 1])), Kind::Private);
    assert_eq!(kind_ipv6(v6([0xfec0, 0, 0, 0, 0, 0, 0, 1])), Kind::Public);
    assert_eq!(kind_ipv6(v6([0xff00, 0, 0, 0, 0, 0, 0, 0])), Kind::Multicast);
    assert_eq!(kind_ipv6(v6([0xff02, 0, 0, 0, 0, 0, 0, 1])), Kind::Multicast);
    assert_eq!(kind_ipv6(v6([0xffff, 0xffff, 0xffff, 0xffff, 0xffff, 0xffff, 0xffff, 0xffff])), Kind::Multicast);
}

#[test]
fn ipv6_short_prefix_block_covers_the_low_sixteenth() {
    // The block 64:ff9b:1::/4 has a prefix of four bits: it holds every
    // address whose first hexadecimal digit is 0.
    assert_eq!(kind_ipv6(v6([0x0064, 0xff9b, 1, 0, 0, 0, 0, 1])), Kind::Reserved);
    assert_eq!(kind_ipv6(v6([0, 0, 0, 0, 0, 0, 0, 2])), Kind::Reserved);
    assert_eq!(kind_ipv6(v6([0x0fff, 0xffff, 0, 0, 0, 0, 0, 1])), Kind::Reserved);
    assert_eq!(kind_ipv6(v6([0x1000, 0, 0, 0, 0, 0, 0, 1])), Kind::Public);
}

#[test]
fn ipv6_well_known_addresses() {
    let cloudflare = v6([0x2606, 0x4700, 0x4700, 0, 0, 0, 0, 0x1111]);
    assert_eq!(kind_ipv6(cloudflare), Kind::Public);
    assert!(is_public_ipv6(cloudflare));
    assert!(!is_public_ipv6(1));
    assert!(!is_public_ipv6(v6([0xfe80, 0, 0, 0, 0, 0, 0, 1])));
}

#[test]
fn kind_goes_by_the_family() {
    assert_eq!(kind(IpLiteral::V4(v4(127, 0, 0, 1))), Kind::Loopback);
    assert_eq!(kind(IpLiteral::V6(1)), Kind::Loopback);
    assert_eq!(kind(IpLiteral::V4(1)), Kind::Loopback);
    assert_eq!(kind(IpLiteral::V6(u128::from(v4(127, 0, 0, 1)))), Kind::Reserved);
    assert_eq!(kind(IpLiteral::from_octets(8, 8, 8, 8)), Kind::Public);
    assert!(is_public(IpLiteral::from_octets(8, 8, 8, 8)));
    assert!(!is_public(IpLiteral::from_octets(10, 0, 0, 1)));
    assert!(is_public(IpLiteral::V6(v6([0x2606, 0x4700, 0x4700, 0, 0, 0, 0, 0x1111]))));
}

#[test]
fn loopback_and_multicast_are_never_public() {
    for last in [0u8, 1, 127, 255] {
        for third in [0u8, 1, 255] {
            assert_eq!(kind_ipv4(v4(127, third, third, last)), Kind::Loopback);
            for first in 224..=239u8 {
                assert_eq!(kind_ipv4(v4(first, third, third, last)), Kind::Multicast);
            }
        }
    }
    for low in [0u16, 1, 0xffff] {
        for high in 0xff00..=0xff0fu16 {
            assert_eq!(kind_ipv6(v6([high, low, low, low, low, low, low, low])), Kind::Multicast);
        }
    }
}

#[test]
fn kinds_tell_themselves_apart() {
    assert!(Kind::Loopback.is_loopback());
    assert!(Kind::Private.is_private());
    assert!(Kind::Public.is_public());
    assert!(Kind::Multicast.is_multicast());
    assert!(Kind::Reserved.is_reserved());
    assert!(!Kind::Reserved.is_public());
    assert!(!Kind::Public.is_reserved());
    assert!(!Kind::Public.is_loopback());
    assert!(!Kind::Public.is_private());
    assert!(!Kind::Public.is_multicast());
    assert_eq!(Kind::Loopback.name(), "Loopback");
    assert_eq!(Kind::Private.name(), "Private");
    assert_eq!(Kind::Public.name(), "Public");
    assert_eq!(Kind::Multicast.name(), "Multicast");
    assert_eq!(Kind::Reserved.name(), "Reserved");
    assert_eq!(Kind::Multicast.to_string(), "Multicast");
}

#[test]
fn reserved_is_what_is_not_public() {
    assert!(check_ipv4(v4(10, 1, 2, 3)));
    assert!(check_ipv4(v4(127, 0, 0, 1)));
    assert!(check_ipv4(v4(255, 255, 255, 255)));
    assert!(!check_ipv4(v4(8, 8, 8, 8)));
    assert!(check_ipv6(1));
    assert!(check_ipv6(v6([0xfe80, 0, 0, 0, 0, 0, 0, 1])));
    assert!(!check_ipv6(v6([0x2606, 0x4700, 0x4700, 0, 0, 0, 0, 0x1111])));
    assert!(check(IpLiteral::from_octets(192, 168, 0, 1)));
    assert!(!check(IpLiteral::from_octets(1, 1, 1, 1)));
    for first in 0..=255u8 {
        let address = v4(first, 18, 0, 1);
        assert_eq!(check_ipv4(address), !is_public_ipv4(address));
    }
}

#[test]
fn screening_lets_only_public_candidates_pass() {
    let public = IpLiteral::from_octets(8, 8, 8, 8);
    assert_eq!(screen(public), Ok(public));
    let private = IpLiteral::from_octets(192, 168, 1, 10);
    assert_eq!(screen(private), Err(ObserverError::NonPublic(private)));
    let loopback = IpLiteral::V6(1);
    assert_eq!(screen(loopback), Err(ObserverError::NonPublic(loopback)));
}

#[test]
fn octets_spell_the_number() {
    assert_eq!(IpLiteral::from_octets(0, 0, 0, 0), IpLiteral::V4(0));
    assert_eq!(IpLiteral::from_octets(127, 0, 0, 1), IpLiteral::V4(0x7f00_0001));
    assert_eq!(IpLiteral::from_octets(255, 255, 255, 255), IpLiteral::V4(u32::MAX));
    assert_eq!(IpLiteral::from_octets(1, 2, 3, 4), IpLiteral::V4(v4(1, 2, 3, 4)));
    assert!(IpLiteral::V4(7).is_ipv4());
    assert!(!IpLiteral::V4(7).is_ipv6());
    assert!(IpLiteral::V6(7).is_ipv6());
    assert!(IpLiteral::V4(u32::MAX).lt(&IpLiteral::V6(0)));
    assert!(!IpLiteral::V6(0).lt(&IpLiteral::V4(u32::MAX)));
    assert!(IpLiteral::V4(1).lt(&IpLiteral::V4(2)));
    assert!(!IpLiteral::V4(2).lt(&IpLiteral::V4(2)));
    assert!(IpLiteral::V6(1).lt(&IpLiteral::V6(2)));
}
