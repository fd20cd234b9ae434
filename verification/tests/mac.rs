use lib_net_utils::mac::InvalidMACAddress;
use lib_net_utils::mac::MACAddress;
use std::cmp::Ordering;

#[test]
fn mac_parse_and_text() {
    let address = MACAddress::parse("00:1a:2B:3c:4D:ff").unwrap();
    assert_eq!(address.octets(), [0x00, 0x1a, 0x2b, 0x3c, 0x4d, 0xff]);
    assert_eq!(address.as_slice(), &[0x00, 0x1a, 0x2b, 0x3c, 0x4d, 0xff][..]);
    assert_eq!(address.to_string(), "00:1A:2B:3C:4D:FF");
    assert_eq!(MACAddress::new([1, 2, 3, 10, 11, 12]).to_string(), "01:02:03:0A:0B:0C");
}

#[test]
fn mac_parse_rejects() {
    for text in [
        "",
        "00:1a:2b:3c:4d",
        "00:1a:2b:3c:4d:ff:00",
        "00:1a:2b:3c:4d:ff:",
        ":00:1a:2b:3c:4d:ff",
        "0:1a:2b:3c:4d:ff",
        "000:1a:2b:3c:4d:ff",
        "00:1a:2b:3c:4d:fg",
        "00-1a-2b-3c-4d-ff",
        "001a2b3c4dff",
        "00:1a:2b:3c:4d:ff ",
        "00:1a::2b:3c:4d:ff",
    ] {
        assert_eq!(MACAddress::parse(text), Err(InvalidMACAddress), "{}", text);
    }
}

#[test]
fn mac_round_trip() {
    for octets in [[0u8; 6], [0xff; 6], [0x01, 0x23, 0x45, 0x67, 0x89, 0xab], [9, 10, 15, 16, 159, 160]] {
        let address = MACAddress::from(octets);
        assert_eq!(MACAddress::parse(&address.to_string()), Ok(address));
    }
}

#[test]
fn mac_named_addresses() {
    assert_eq!(MACAddress::broadcast().octets(), [0xff; 6]);
    assert_eq!(MACAddress::broadcast().to_string(), "FF:FF:FF:FF:FF:FF");
    assert_eq!(MACAddress::unspecified().octets(), [0; 6]);
    assert_eq!(MACAddress::unspecified().to_string(), "00:00:00:00:00:00");
    assert_eq!(MACAddress::BITS, 48);
}

#[test]
fn mac_order() {
    let low = MACAddress::new([0, 0xff, 0xff, 0xff, 0xff, 0xff]);
    let high = MACAddress::new([1, 0, 0, 0, 0, 0]);
    assert!(low < high);
    assert_eq!(high.compare(&low), Ordering::Greater);
    assert_eq!(low.compare(&low), Ordering::Equal);
    assert_eq!(MACAddress::new([1, 2, 3, 4, 5, 6]).to_bits(), 0x0102_0304_0506);
    assert!(low != high);
}

#[test]
fn mac_error_message() {
    assert_eq!(InvalidMACAddress.to_string(), "invalid MAC address");
}
