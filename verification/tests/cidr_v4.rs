use lib_net_utils::ip::v4::IPv4Address;
use lib_net_utils::ip::v4::IPv4CIDR;
use lib_net_utils::ip::AddressParseError;
use lib_net_utils::ip::InvalidCIDRError;
use lib_net_utils::ip::InvalidCIDRSource;
use lib_net_utils::ip::InvalidPrefixError;
use lib_net_utils::text::digits::IntegerParseError;
use std::cmp::Ordering;

#[test]
fn v4_parse_scenario() {
    let cidr = IPv4CIDR::parse("192.168.1.0/24").unwrap();
    assert_eq!(cidr.address(), IPv4Address::new(192, 168, 1, 0));
    assert_eq!(cidr.address().octets(), [192, 168, 1, 0]);
    assert_eq!(cidr.prefix(), 24);
    assert_eq!(cidr.to_string(), "192.168.1.0/24");
}

#[test]
fn v4_parse_empty_is_missing_address() {
    assert_eq!(IPv4CIDR::parse(""), Err(InvalidCIDRError::MissingAddress));
}

#[test]
fn v4_parse_without_slash_is_missing_prefix() {
    assert_eq!(IPv4CIDR::parse("10.0.0.1"), Err(InvalidCIDRError::MissingPrefix));
}

#[test]
fn v4_parse_prefix_33_is_invalid_prefix() {
    assert_eq!(
        IPv4CIDR::parse("10.0.0.1/33"),
        Err(InvalidCIDRError::InvalidPrefix(InvalidPrefixError { prefix: 33 }))
    );
}

#[test]
fn v4_parse_second_slash_is_extra_content() {
    assert_eq!(IPv4CIDR::parse("10.0.0.1/24/extra"), Err(InvalidCIDRError::ExtraContent));
    assert_eq!(IPv4CIDR::parse("10.0.0.1/24/"), Err(InvalidCIDRError::ExtraContent));
}

#[test]
fn v4_parse_bad_address_is_address_parse_error() {
    assert_eq!(
        IPv4CIDR::parse("not-an-ip/24"),
        Err(InvalidCIDRError::AddressParseError(AddressParseError::IPv4))
    );
    assert_eq!(
        IPv4CIDR::parse("/24"),
        Err(InvalidCIDRError::AddressParseError(AddressParseError::IPv4))
    );
    assert_eq!(
        IPv4CIDR::parse("::1/24"),
        Err(InvalidCIDRError::AddressParseError(AddressParseError::IPv4))
    );
}

#[test]
fn v4_parse_bad_prefix_is_prefix_parse_error() {
    assert_eq!(
        IPv4CIDR::parse("10.0.0.1/abc"),
        Err(InvalidCIDRError::PrefixParseError(IntegerParseError::InvalidDigit))
    );
    assert_eq!(
        IPv4CIDR::parse("10.0.0.1/"),
        Err(InvalidCIDRError::PrefixParseError(IntegerParseError::Empty))
    );
    assert_eq!(
        IPv4CIDR::parse("10.0.0.1/256"),
        Err(InvalidCIDRError::PrefixParseError(IntegerParseError::Overflow))
    );
    assert_eq!(
        IPv4CIDR::parse("10.0.0.1/+24"),
        Err(InvalidCIDRError::PrefixParseError(IntegerParseError::InvalidDigit))
    );
    assert_eq!(
        IPv4CIDR::parse("10.0.0.1/ 24"),
        Err(InvalidCIDRError::PrefixParseError(IntegerParseError::InvalidDigit))
    );
    assert_eq!(
        IPv4CIDR::parse("10.0.0.1/-1"),
        Err(InvalidCIDRError::PrefixParseError(IntegerParseError::InvalidDigit))
    );
}

#[test]
fn v4_parse_error_order() {
    // The address is judged before the prefix is looked for.
    assert_eq!(
        IPv4CIDR::parse("nope"),
        Err(InvalidCIDRError::AddressParseError(AddressParseError::IPv4))
    );
    // The prefix is judged before a third field is.
    assert_eq!(
        IPv4CIDR::parse("10.0.0.1/x/y"),
        Err(InvalidCIDRError::PrefixParseError(IntegerParseError::InvalidDigit))
    );
    // A third field is judged before the range of the prefix is.
    assert_eq!(IPv4CIDR::parse("10.0.0.1/33/y"), Err(InvalidCIDRError::ExtraContent));
    // An overflow is met before a later character that is no digit.
    assert_eq!(
        IPv4CIDR::parse("10.0.0.1/999x"),
        Err(InvalidCIDRError::PrefixParseError(IntegerParseError::Overflow))
    );
    assert_eq!(
        IPv4CIDR::parse("10.0.0.1/25x6"),
        Err(InvalidCIDRError::PrefixParseError(IntegerParseError::InvalidDigit))
    );
}

#[test]
fn v4_parse_prefix_leading_zeros() {
    let cidr = IPv4CIDR::parse("10.0.0.1/024").unwrap();
    assert_eq!(cidr.prefix(), 24);
    assert_eq!(cidr.to_string(), "10.0.0.1/24");
    assert_eq!(IPv4CIDR::parse("10.0.0.1/0000").unwrap().prefix(), 0);
    assert_eq!(
        IPv4CIDR::parse("10.0.0.1/0000255"),
        Err(InvalidCIDRError::InvalidPrefix(InvalidPrefixError { prefix: 255 }))
    );
}

#[test]
fn v4_parse_no_trimming() {
    assert_eq!(
        IPv4CIDR::parse(" 10.0.0.1/24"),
        Err(InvalidCIDRError::AddressParseError(AddressParseError::IPv4))
    );
    assert_eq!(
        IPv4CIDR::parse("10.0.0.1/24 "),
        Err(InvalidCIDRError::PrefixParseError(IntegerParseError::InvalidDigit))
    );
}

#[test]
fn v4_try_new_prefix_bound() {
    let address = IPv4Address::new(10, 0, 0, 1);
    for prefix in 0..=255u8 {
        let result = IPv4CIDR::try_new(address, prefix);
        if prefix <= 32 {
            let cidr = result.unwrap();
            assert_eq!(cidr.address(), address);
            assert_eq!(cidr.prefix(), prefix);
        } else {
            assert_eq!(result, Err(InvalidPrefixError { prefix }));
        }
    }
    assert!(IPv4CIDR::try_new(address, 32).is_ok());
    assert_eq!(IPv4CIDR::try_new(address, 33), Err(InvalidPrefixError { prefix: 33 }));
}

#[test]
fn v4_round_trip() {
    let addresses = [
        IPv4Address::new(0, 0, 0, 0),
        IPv4Address::new(255, 255, 255, 255),
        IPv4Address::new(192, 168, 1, 0),
        IPv4Address::new(10, 0, 100, 9),
        IPv4Address::new(1, 20, 199, 200),
    ];
    for address in addresses {
        for prefix in 0..=32u8 {
            let cidr = IPv4CIDR::new(address, prefix);
            assert_eq!(IPv4CIDR::parse(&cidr.to_string()), Ok(cidr));
        }
    }
}

#[test]
fn v4_ordering_asymmetry() {
    let address = IPv4Address::new(10, 1, 2, 3);
    let a = IPv4CIDR::new(address, 24);
    let b = IPv4CIDR::new(address, 16);
    assert!(a != b);
    assert_eq!(a.compare(&b), Ordering::Equal);
    assert_eq!(a.partial_cmp(&b), Some(Ordering::Equal));
    assert!(!(a < b) && !(a > b));
    assert!(a <= b && a >= b);
}

#[test]
fn v4_order_is_by_address() {
    let low = IPv4CIDR::new(IPv4Address::new(9, 255, 255, 255), 32);
    let high = IPv4CIDR::new(IPv4Address::new(10, 0, 0, 0), 0);
    assert_eq!(low.compare(&high), Ordering::Less);
    assert_eq!(high.compare(&low), Ordering::Greater);
    assert!(low < high);
    let a = IPv4CIDR::new(IPv4Address::new(1, 2, 3, 4), 8);
    let b = IPv4CIDR::new(IPv4Address::new(1, 2, 3, 5), 8);
    assert!(a < b);
    assert_eq!(IPv4Address::new(1, 2, 3, 4).to_bits(), 0x0102_0304);
}

#[test]
fn v4_accessors_and_mutators() {
    let mut cidr = IPv4CIDR::new(IPv4Address::new(10, 0, 0, 0), 8);
    cidr.set_prefix(32);
    assert_eq!(cidr.prefix(), 32);
    assert_eq!(cidr.address(), IPv4Address::new(10, 0, 0, 0));
    cidr.set_address(IPv4Address::new(172, 16, 0, 0));
    assert_eq!(cidr.address(), IPv4Address::new(172, 16, 0, 0));
    assert_eq!(cidr.prefix(), 32);
    cidr.set_prefix(0);
    assert_eq!(cidr.to_string(), "172.16.0.0/0");
    let unchecked = IPv4CIDR::new_unchecked(IPv4Address::new(172, 16, 0, 0), 0);
    assert_eq!(unchecked, cidr);
}

#[test]
fn v4_conversions() {
    let address = IPv4Address::new(8, 8, 8, 8);
    let host = IPv4CIDR::from(address);
    assert_eq!(host.prefix(), 32);
    assert_eq!(host.address(), address);
    let back: IPv4Address = host.into();
    assert_eq!(back, address);
    let parts: (IPv4Address, u8) = IPv4CIDR::new(address, 7).into();
    assert_eq!(parts, (address, 7));
    assert_eq!(IPv4CIDR::try_from((address, 24)), Ok(IPv4CIDR::new(address, 24)));
    assert_eq!(IPv4CIDR::try_from((address, 40)), Err(InvalidPrefixError { prefix: 40 }));
    assert_eq!(IPv4CIDR::try_from((host, 12)), Ok(IPv4CIDR::new(address, 12)));
}

#[test]
fn v4_address_text() {
    assert_eq!(IPv4Address::new(0, 0, 0, 0).to_string(), "0.0.0.0");
    assert_eq!(IPv4Address::new(255, 255, 255, 255).to_string(), "255.255.255.255");
    assert_eq!(IPv4Address::new(1, 10, 100, 9).to_string(), "1.10.100.9");
    assert_eq!(IPv4Address::parse("127.0.0.1"), Ok(IPv4Address::new(127, 0, 0, 1)));
    assert_eq!(IPv4Address::parse("0.0.0.0"), Ok(IPv4Address::new(0, 0, 0, 0)));
    for text in [
        "",
        "1.2.3",
        "1.2.3.4.5",
        "1..2.3",
        "1.2.3.",
        ".1.2.3",
        "01.2.3.4",
        "1.2.3.00",
        "256.1.1.1",
        "1.2.3.1000",
        "1.2.3.4 ",
        "1.2.3.a",
        "1.2.3.-4",
        "1.2.3.+4",
        "١.2.3.4",
    ] {
        assert_eq!(IPv4Address::parse(text), Err(AddressParseError::IPv4), "{}", text);
    }
}

#[test]
fn error_messages() {
    assert_eq!(InvalidCIDRError::MissingAddress.to_string(), "missing address");
    assert_eq!(InvalidCIDRError::MissingPrefix.to_string(), "missing prefix");
    assert_eq!(InvalidCIDRError::ExtraContent.to_string(), "data beyond prefix");
    assert_eq!(InvalidPrefixError { prefix: 200 }.to_string(), "invalid prefix 200");
    assert_eq!(InvalidPrefixError { prefix: 33 }.to_string(), "invalid prefix 33");
    assert_eq!(InvalidPrefixError { prefix: 0 }.to_string(), "invalid prefix 0");
    assert_eq!(
        InvalidCIDRError::InvalidPrefix(InvalidPrefixError { prefix: 129 }).to_string(),
        "invalid prefix 129"
    );
    assert_eq!(
        InvalidCIDRError::PrefixParseError(IntegerParseError::InvalidDigit).to_string(),
        "invalid prefix - invalid digit found in string"
    );
    assert_eq!(
        InvalidCIDRError::PrefixParseError(IntegerParseError::Empty).to_string(),
        "invalid prefix - cannot parse integer from empty string"
    );
    assert_eq!(
        InvalidCIDRError::PrefixParseError(IntegerParseError::Overflow).to_string(),
        "invalid prefix - number too large to fit in target type"
    );
    assert_eq!(
        InvalidCIDRError::AddressParseError(AddressParseError::IPv4).to_string(),
        "invalid IPv4 address syntax"
    );
    assert_eq!(
        InvalidCIDRError::AddressParseError(AddressParseError::IPv6).to_string(),
        "invalid IPv6 address syntax"
    );
    assert_eq!(
        InvalidCIDRError::AddressParseError(AddressParseError::IP).to_string(),
        "invalid IP address syntax"
    );
}

#[test]
fn error_sources() {
    assert_eq!(InvalidCIDRError::MissingAddress.source(), None);
    assert_eq!(InvalidCIDRError::MissingPrefix.source(), None);
    assert_eq!(InvalidCIDRError::ExtraContent.source(), None);
    assert_eq!(
        InvalidCIDRError::AddressParseError(AddressParseError::IPv6).source(),
        Some(InvalidCIDRSource::Address(AddressParseError::IPv6))
    );
    assert_eq!(
        InvalidCIDRError::PrefixParseError(IntegerParseError::Overflow).source(),
        Some(InvalidCIDRSource::Prefix(IntegerParseError::Overflow))
    );
    assert_eq!(
        InvalidCIDRError::InvalidPrefix(InvalidPrefixError { prefix: 77 }).source(),
        Some(InvalidCIDRSource::InvalidPrefix(InvalidPrefixError { prefix: 77 }))
    );
}
