use lib_net_utils::ip::v4::IPv4Address;
use lib_net_utils::ip::v6::IPv6Address;
use lib_net_utils::ip::v6::IPv6CIDR;
use lib_net_utils::ip::AddressParseError;
use lib_net_utils::ip::InvalidCIDRError;
use lib_net_utils::ip::InvalidPrefixError;
use lib_net_utils::text::digits::IntegerParseError;
use std::cmp::Ordering;

#[test]
fn v6_parse_scenario() {
    let cidr = IPv6CIDR::parse("::1/128").unwrap();
    assert_eq!(cidr.address(), IPv6Address::new(0, 0, 0, 0, 0, 0, 0, 1));
    assert_eq!(cidr.address().segments(), [0, 0, 0, 0, 0, 0, 0, 1]);
    assert_eq!(cidr.prefix(), 128);
    assert_eq!(cidr.to_string(), "::1/128");
}

#[test]
fn v6_parse_rejections() {
    assert_eq!(IPv6CIDR::parse(""), Err(InvalidCIDRError::MissingAddress));
    assert_eq!(IPv6CIDR::parse("::1"), Err(InvalidCIDRError::MissingPrefix));
    assert_eq!(
        IPv6CIDR::parse("::1/129"),
        Err(InvalidCIDRError::InvalidPrefix(InvalidPrefixError { prefix: 129 }))
    );
    assert_eq!(IPv6CIDR::parse("::1/64/extra"), Err(InvalidCIDRError::ExtraContent));
    assert_eq!(
        IPv6CIDR::parse("not-an-ip/24"),
        Err(InvalidCIDRError::AddressParseError(AddressParseError::IPv6))
    );
    assert_eq!(
        IPv6CIDR::parse("10.0.0.1/24"),
        Err(InvalidCIDRError::AddressParseError(AddressParseError::IPv6))
    );
    assert_eq!(
        IPv6CIDR::parse("::1/abc"),
        Err(InvalidCIDRError::PrefixParseError(IntegerParseError::InvalidDigit))
    );
    assert_eq!(
        IPv6CIDR::parse("::1/"),
        Err(InvalidCIDRError::PrefixParseError(IntegerParseError::Empty))
    );
    assert_eq!(
        IPv6CIDR::parse("::1/300"),
        Err(InvalidCIDRError::PrefixParseError(IntegerParseError::Overflow))
    );
}

#[test]
fn v6_try_new_prefix_bound() {
    let address = IPv6Address::new(0x2001, 0xdb8, 0, 0, 0, 0, 0, 1);
    for prefix in 0..=255u8 {
        let result = IPv6CIDR::try_new(address, prefix);
        if prefix <= 128 {
            let cidr = result.unwrap();
            assert_eq!(cidr.address(), address);
            assert_eq!(cidr.prefix(), prefix);
        } else {
            assert_eq!(result, Err(InvalidPrefixError { prefix }));
        }
    }
    assert!(IPv6CIDR::try_new(address, 128).is_ok());
    assert_eq!(IPv6CIDR::try_new(address, 129), Err(InvalidPrefixError { prefix: 129 }));
}

#[test]
fn v6_address_canonical_text() {
    let cases: [([u16; 8], &str); 16] = [
        ([0, 0, 0, 0, 0, 0, 0, 0], "::"),
        ([0, 0, 0, 0, 0, 0, 0, 1], "::1"),
        ([1, 0, 0, 0, 0, 0, 0, 0], "1::"),
        ([1, 2, 3, 4, 5, 6, 7, 8], "1:2:3:4:5:6:7:8"),
        ([0x2001, 0xdb8, 0, 0, 0, 0, 0, 1], "2001:db8::1"),
        ([0xffff, 0xffff, 0xffff, 0xffff, 0xffff, 0xffff, 0xffff, 0xffff],
            "ffff:ffff:ffff:ffff:ffff:ffff:ffff:ffff"),
        // A single zero group is not shortened.
        ([1, 0, 2, 3, 4, 5, 6, 7], "1:0:2:3:4:5:6:7"),
        // The longest run is shortened.
        ([1, 0, 0, 2, 0, 0, 0, 3], "1:0:0:2::3"),
        // Of two runs of one length, the first is shortened.
        ([1, 0, 0, 2, 3, 0, 0, 4], "1::2:3:0:0:4"),
        ([0, 0, 1, 0, 0, 0, 0, 0], "0:0:1::"),
        ([0, 1, 0, 0, 0, 0, 0, 0], "0:1::"),
        ([0, 0, 0, 0, 0, 0, 1, 0], "::1:0"),
        // An IPv4-mapped address.
        ([0, 0, 0, 0, 0, 0xffff, 0xc0a8, 0x0101], "::ffff:192.168.1.1"),
        ([0, 0, 0, 0, 0, 0xffff, 0, 0], "::ffff:0.0.0.0"),
        // Not mapped: the sixth group is not ffff.
        ([0, 0, 0, 0, 0, 0, 0x0102, 0x0304], "::102:304"),
        ([0xa, 0xb0, 0xc00, 0xd000, 0x10, 0x100, 0x1000, 0xabcd], "a:b0:c00:d000:10:100:1000:abcd"),
    ];
    for (s, text) in cases {
        let address = IPv6Address::new(s[0], s[1], s[2], s[3], s[4], s[5], s[6], s[7]);
        assert_eq!(address.to_string(), text);
        assert_eq!(IPv6Address::parse(text), Ok(address));
    }
}

#[test]
fn v6_address_parse_accepts() {
    let cases: [(&str, [u16; 8]); 12] = [
        ("0:0:0:0:0:0:0:0", [0; 8]),
        ("2001:DB8::A", [0x2001, 0xdb8, 0, 0, 0, 0, 0, 0xa]),
        ("2001:0db8:0000:0000:0000:0000:0000:0001", [0x2001, 0xdb8, 0, 0, 0, 0, 0, 1]),
        ("1:2:3:4:5:6:7::", [1, 2, 3, 4, 5, 6, 7, 0]),
        ("::2:3:4:5:6:7:8", [0, 2, 3, 4, 5, 6, 7, 8]),
        ("1:2:3:4::6:7:8", [1, 2, 3, 4, 0, 6, 7, 8]),
        ("1:2:3:4:5:6:1.2.3.4", [1, 2, 3, 4, 5, 6, 0x0102, 0x0304]),
        ("::1.2.3.4", [0, 0, 0, 0, 0, 0, 0x0102, 0x0304]),
        ("::ffff:255.255.255.255", [0, 0, 0, 0, 0, 0xffff, 0xffff, 0xffff]),
        ("1:2:3:4:5::1.2.3.4", [1, 2, 3, 4, 5, 0, 0x0102, 0x0304]),
        ("64:ff9b::192.0.2.33", [0x64, 0xff9b, 0, 0, 0, 0, 0xc000, 0x0221]),
        ("fe80::", [0xfe80, 0, 0, 0, 0, 0, 0, 0]),
    ];
    for (text, s) in cases {
        let address = IPv6Address::new(s[0], s[1], s[2], s[3], s[4], s[5], s[6], s[7]);
        assert_eq!(IPv6Address::parse(text), Ok(address), "{}", text);
    }
}

#[test]
fn v6_address_parse_rejects() {
    for text in [
        "",
        ":",
        ":::",
        "1",
        "1:2:3:4:5:6:7",
        "1:2:3:4:5:6:7:8:9",
        "1:2:3:4:5:6:7:8::",
        "::1:2:3:4:5:6:7:8",
        "1::2:3:4:5:6:7:8",
        "1::2::3",
        "1:::2",
        ":1::",
        "::1:",
        "1:2:3:4:5:6:7:",
        ":1:2:3:4:5:6:7",
        "12345::",
        "::g",
        "1.2.3.4",
        "1.2.3.4::",
        "1:2:3:4:5:6:7:1.2.3.4",
        "1:2:3:4:5:1.2.3.4",
        "1:2:3:4:5:6::1.2.3.4",
        "::1.2.3.4:5",
        "::1.2.3",
        "::01.2.3.4",
        "::256.2.3.4",
        " ::1",
        "::1 ",
        "[::1]",
        "::1%eth0",
    ] {
        assert_eq!(IPv6Address::parse(text), Err(AddressParseError::IPv6), "{}", text);
    }
}

#[test]
fn v6_round_trip() {
    let addresses = [
        IPv6Address::new(0, 0, 0, 0, 0, 0, 0, 0),
        IPv6Address::new(0, 0, 0, 0, 0, 0, 0, 1),
        IPv6Address::new(0x2001, 0xdb8, 0, 0, 1, 0, 0, 1),
        IPv6Address::new(0, 0, 0, 0, 0, 0xffff, 0x7f00, 1),
        IPv6Address::new(0xfe80, 0, 0, 0, 0x200, 0x5eff, 0xfe00, 0x5301),
        IPv6Address::new(1, 0, 0, 0, 0, 0, 0, 0),
        IPv6Address::new(0, 1, 0, 1, 0, 1, 0, 1),
    ];
    for address in addresses {
        for prefix in [0u8, 1, 9, 10, 64, 99, 100, 127, 128] {
            let cidr = IPv6CIDR::new(address, prefix);
            assert_eq!(IPv6CIDR::parse(&cidr.to_string()), Ok(cidr));
        }
    }
}

#[test]
fn v6_ordering_asymmetry() {
    let address = IPv6Address::new(0x2001, 0xdb8, 0, 0, 0, 0, 0, 0);
    let a = IPv6CIDR::new(address, 24);
    let b = IPv6CIDR::new(address, 16);
    assert!(a != b);
    assert_eq!(a.compare(&b), Ordering::Equal);
    assert_eq!(a.partial_cmp(&b), Some(Ordering::Equal));
}

#[test]
fn v6_order_is_by_address() {
    let low = IPv6CIDR::new(IPv6Address::new(1, 0xffff, 0xffff, 0xffff, 0xffff, 0xffff, 0xffff, 0xffff), 128);
    let high = IPv6CIDR::new(IPv6Address::new(2, 0, 0, 0, 0, 0, 0, 0), 0);
    assert_eq!(low.compare(&high), Ordering::Less);
    assert_eq!(high.compare(&low), Ordering::Greater);
    assert!(low < high);
    assert_eq!(
        IPv6Address::new(1, 2, 3, 4, 5, 6, 7, 8).to_bits(),
        0x0001_0002_0003_0004_0005_0006_0007_0008
    );
    assert_eq!(
        IPv6Address::new(0xffff, 0xffff, 0xffff, 0xffff, 0xffff, 0xffff, 0xffff, 0xffff).to_bits(),
        u128::MAX
    );
}

#[test]
fn v6_accessors_and_mutators() {
    let mut cidr = IPv6CIDR::new(IPv6Address::new(0xfe80, 0, 0, 0, 0, 0, 0, 0), 10);
    cidr.set_prefix(128);
    assert_eq!(cidr.prefix(), 128);
    cidr.set_address(IPv6Address::new(0, 0, 0, 0, 0, 0, 0, 1));
    assert_eq!(cidr.to_string(), "::1/128");
    assert_eq!(cidr, IPv6CIDR::new_unchecked(IPv6Address::new(0, 0, 0, 0, 0, 0, 0, 1), 128));
}

#[test]
fn v6_conversions() {
    let address = IPv6Address::new(0x2001, 0xdb8, 0, 0, 0, 0, 0, 1);
    let host = IPv6CIDR::from(address);
    assert_eq!(host.prefix(), 128);
    let back: IPv6Address = host.into();
    assert_eq!(back, address);
    let parts: (IPv6Address, u8) = IPv6CIDR::new(address, 48).into();
    assert_eq!(parts, (address, 48));
    assert_eq!(IPv6CIDR::try_from((address, 64)), Ok(IPv6CIDR::new(address, 64)));
    assert_eq!(IPv6CIDR::try_from((address, 200)), Err(InvalidPrefixError { prefix: 200 }));
}

#[test]
fn v6_mapped_text_holds_the_v4_text() {
    let v4 = IPv4Address::new(10, 20, 30, 40);
    let o = v4.octets();
    let mapped = IPv6Address::new(
        0,
        0,
        0,
        0,
        0,
        0xffff,
        u16::from(o[0]) * 256 + u16::from(o[1]),
        u16::from(o[2]) * 256 + u16::from(o[3]),
    );
    assert_eq!(mapped.to_string(), format!("::ffff:{}", v4.to_string()));
}
