use lib_net_utils::ip::v4::IPv4Address;
use lib_net_utils::ip::v4::IPv4CIDR;
use lib_net_utils::ip::v6::IPv6Address;
use lib_net_utils::ip::v6::IPv6CIDR;
use lib_net_utils::ip::AddressParseError;
use lib_net_utils::ip::IPAddress;
use lib_net_utils::ip::InvalidCIDRError;
use lib_net_utils::ip::InvalidPrefixError;
use lib_net_utils::ip::IPCIDR;
use lib_net_utils::text::digits::IntegerParseError;
use std::cmp::Ordering;

fn v4(a: u8, b: u8, c: u8, d: u8, prefix: u8) -> IPv4CIDR {
    IPv4CIDR::new(IPv4Address::new(a, b, c, d), prefix)
}

fn v6(first: u16, last: u16, prefix: u8) -> IPv6CIDR {
    IPv6CIDR::new(IPv6Address::new(first, 0, 0, 0, 0, 0, 0, last), prefix)
}

#[test]
fn any_parse_v4_scenario() {
    let cidr = IPCIDR::parse("192.168.1.0/24").unwrap();
    assert_eq!(cidr, IPCIDR::V4(v4(192, 168, 1, 0, 24)));
    assert_eq!(cidr.address(), IPAddress::V4(IPv4Address::new(192, 168, 1, 0)));
    assert_eq!(cidr.prefix(), 24);
    assert_eq!(cidr.to_string(), "192.168.1.0/24");
}

#[test]
fn any_parse_v6_scenario() {
    let cidr = IPCIDR::parse("::1/128").unwrap();
    assert_eq!(cidr, IPCIDR::V6(v6(0, 1, 128)));
    assert_eq!(cidr.address(), IPAddress::V6(IPv6Address::new(0, 0, 0, 0, 0, 0, 0, 1)));
    assert_eq!(cidr.prefix(), 128);
    assert_eq!(cidr.to_string(), "::1/128");
}

#[test]
fn any_parse_rejections() {
    assert_eq!(IPCIDR::parse(""), Err(InvalidCIDRError::MissingAddress));
    assert_eq!(IPCIDR::parse("10.0.0.1"), Err(InvalidCIDRError::MissingPrefix));
    assert_eq!(
        IPCIDR::parse("10.0.0.1/33"),
        Err(InvalidCIDRError::InvalidPrefix(InvalidPrefixError { prefix: 33 }))
    );
    assert_eq!(IPCIDR::parse("10.0.0.1/24/extra"), Err(InvalidCIDRError::ExtraContent));
    assert_eq!(
        IPCIDR::parse("not-an-ip/24"),
        Err(InvalidCIDRError::AddressParseError(AddressParseError::IP))
    );
    assert_eq!(
        IPCIDR::parse("10.0.0.1/abc"),
        Err(InvalidCIDRError::PrefixParseError(IntegerParseError::InvalidDigit))
    );
}

#[test]
fn any_parse_bound_follows_family() {
    assert!(IPCIDR::parse("10.0.0.1/32").is_ok());
    assert_eq!(
        IPCIDR::parse("10.0.0.1/64"),
        Err(InvalidCIDRError::InvalidPrefix(InvalidPrefixError { prefix: 64 }))
    );
    assert_eq!(
        IPCIDR::parse("::a00:1/64"),
        Ok(IPCIDR::V6(IPv6CIDR::new(IPv6Address::new(0, 0, 0, 0, 0, 0, 0xa00, 1), 64)))
    );
    assert!(IPCIDR::parse("::1/128").is_ok());
    assert_eq!(
        IPCIDR::parse("::1/129"),
        Err(InvalidCIDRError::InvalidPrefix(InvalidPrefixError { prefix: 129 }))
    );
}

#[test]
fn any_round_trip() {
    let cidrs = [
        IPCIDR::V4(v4(0, 0, 0, 0, 0)),
        IPCIDR::V4(v4(255, 255, 255, 255, 32)),
        IPCIDR::V4(v4(172, 16, 254, 1, 12)),
        IPCIDR::V6(v6(0, 0, 0)),
        IPCIDR::V6(v6(0xfe80, 0x1234, 64)),
        IPCIDR::V6(IPv6CIDR::new(IPv6Address::new(0, 0, 0, 0, 0, 0xffff, 0x0a00, 1), 128)),
    ];
    for cidr in cidrs {
        assert_eq!(IPCIDR::parse(&cidr.to_string()), Ok(cidr));
    }
}

#[test]
fn any_wrapping_keeps_the_family() {
    let four = v4(10, 0, 0, 0, 8);
    let six = v6(0xfc00, 0, 7);
    assert_eq!(IPCIDR::from(four), IPCIDR::V4(four));
    assert_eq!(IPCIDR::from(six), IPCIDR::V6(six));
    let wrapped: IPCIDR = four.into();
    assert_eq!(wrapped.to_string(), four.to_string());
    assert_eq!(IPCIDR::V6(six).to_string(), six.to_string());
}

#[test]
fn family_precedence() {
    // The IPv4 address is numerically the largest, the IPv6 address the smallest.
    let four = v4(255, 255, 255, 255, 32);
    let six = v6(0, 0, 0);
    assert!(IPCIDR::V4(four) < IPCIDR::V6(six));
    assert!(IPCIDR::V6(six) > IPCIDR::V4(four));
    assert_eq!(IPCIDR::V4(four).compare(&IPCIDR::V6(six)), Ordering::Less);
    assert_eq!(IPCIDR::V6(six).compare(&IPCIDR::V4(four)), Ordering::Greater);
    assert_eq!(IPCIDR::V4(four).partial_cmp(&six), Some(Ordering::Less));
    assert_eq!(IPCIDR::V6(six).partial_cmp(&four), Some(Ordering::Greater));
    assert_eq!(four.partial_cmp(&IPCIDR::V6(six)), Some(Ordering::Less));
    assert_eq!(six.partial_cmp(&IPCIDR::V4(four)), Some(Ordering::Greater));
    assert!(IPCIDR::V4(four) < six);
    assert!(IPCIDR::V6(six) > four);
    assert!(four < IPCIDR::V6(six));
    assert!(six > IPCIDR::V4(four));
}

#[test]
fn same_family_order_is_by_address() {
    let low = v4(10, 0, 0, 0, 32);
    let high = v4(10, 0, 0, 1, 0);
    assert!(IPCIDR::V4(low) < IPCIDR::V4(high));
    assert_eq!(IPCIDR::V4(low).partial_cmp(&high), Some(Ordering::Less));
    assert_eq!(high.partial_cmp(&IPCIDR::V4(low)), Some(Ordering::Greater));
    assert_eq!(IPCIDR::V4(low).partial_cmp(&v4(10, 0, 0, 0, 8)), Some(Ordering::Equal));
    let a = v6(1, 0, 64);
    let b = v6(1, 1, 8);
    assert!(IPCIDR::V6(a) < IPCIDR::V6(b));
    assert_eq!(IPCIDR::V6(b).partial_cmp(&a), Some(Ordering::Greater));
    assert_eq!(a.partial_cmp(&IPCIDR::V6(b)), Some(Ordering::Less));
    assert_eq!(IPCIDR::V6(a).compare(&IPCIDR::V6(v6(1, 0, 0))), Ordering::Equal);
}

#[test]
fn cross_family_equality() {
    let four = v4(0, 0, 0, 1, 32);
    let six = v6(0, 1, 32);
    assert!(IPCIDR::V4(four) != six);
    assert!(IPCIDR::V6(six) != four);
    assert!(four != IPCIDR::V6(six));
    assert!(six != IPCIDR::V4(four));
    assert!(IPCIDR::V4(four) != IPCIDR::V6(six));
    assert!(IPCIDR::V4(four) == four);
    assert!(four == IPCIDR::V4(four));
    assert!(IPCIDR::V6(six) == six);
    assert!(six == IPCIDR::V6(six));
    assert!(IPCIDR::V4(four) != v4(0, 0, 0, 1, 31));
    assert!(IPCIDR::V6(six) != v6(0, 1, 33));
}

#[test]
fn address_of_either_family() {
    assert_eq!(IPAddress::parse("1.2.3.4"), Ok(IPAddress::V4(IPv4Address::new(1, 2, 3, 4))));
    assert_eq!(
        IPAddress::parse("::1.2.3.4"),
        Ok(IPAddress::V6(IPv6Address::new(0, 0, 0, 0, 0, 0, 0x0102, 0x0304)))
    );
    assert_eq!(IPAddress::parse("1.2.3"), Err(AddressParseError::IP));
    assert_eq!(IPAddress::parse(""), Err(AddressParseError::IP));
    let four = IPAddress::from(IPv4Address::new(255, 255, 255, 255));
    let six = IPAddress::from(IPv6Address::new(0, 0, 0, 0, 0, 0, 0, 0));
    assert!(four < six);
    assert_eq!(six.compare(&four), Ordering::Greater);
    assert_eq!(four.to_string(), "255.255.255.255");
    assert_eq!(six.to_string(), "::");
}
