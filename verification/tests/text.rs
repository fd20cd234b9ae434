use lib_net_utils::text::chars::chars_of;
use lib_net_utils::text::chars::string_of;
use lib_net_utils::text::digits::dec_digit_of;
use lib_net_utils::text::digits::hex_digit_of;
use lib_net_utils::text::digits::parse_dec_u8;
use lib_net_utils::text::digits::push_dec_u8;
use lib_net_utils::text::digits::push_hex_u16;
use lib_net_utils::text::digits::IntegerParseError;
use lib_net_utils::text::fields::split_fields;

fn chars(s: &str) -> Vec<char> {
    s.chars().collect()
}

#[test]
fn chars_and_strings() {
    assert_eq!(chars_of("a/é:1"), vec!['a', '/', 'é', ':', '1']);
    assert_eq!(chars_of(""), Vec::<char>::new());
    assert_eq!(string_of(&['x', 'ÿ', '0']), "xÿ0");
    assert_eq!(string_of(&[]), "");
    assert_eq!(string_of(&chars_of("2001:db8::/32")), "2001:db8::/32");
}

#[test]
fn split_keeps_empty_fields() {
    let cases: [(&str, Vec<&str>); 7] = [
        ("", vec![""]),
        ("a", vec!["a"]),
        ("a/b", vec!["a", "b"]),
        ("a/", vec!["a", ""]),
        ("/a", vec!["", "a"]),
        ("//", vec!["", "", ""]),
        ("ab/c//d", vec!["ab", "c", "", "d"]),
    ];
    for (text, expected) in cases {
        let text = chars(text);
        let fields: Vec<String> = split_fields(&text, '/').into_iter().map(string_of).collect();
        assert_eq!(fields, expected);
    }
}

#[test]
fn decimal_numerals() {
    for n in 0..=255u8 {
        let mut out = vec!['#'];
        push_dec_u8(&mut out, n);
        assert_eq!(string_of(&out), format!("#{}", n));
        assert_eq!(parse_dec_u8(&out[1..]), Ok(n));
    }
    assert_eq!(parse_dec_u8(&chars("")), Err(IntegerParseError::Empty));
    assert_eq!(parse_dec_u8(&chars("256")), Err(IntegerParseError::Overflow));
    assert_eq!(parse_dec_u8(&chars("1000")), Err(IntegerParseError::Overflow));
    assert_eq!(parse_dec_u8(&chars("12a")), Err(IntegerParseError::InvalidDigit));
    assert_eq!(parse_dec_u8(&chars("+1")), Err(IntegerParseError::InvalidDigit));
    assert_eq!(parse_dec_u8(&chars("-")), Err(IntegerParseError::InvalidDigit));
    assert_eq!(parse_dec_u8(&chars("007")), Ok(7));
    assert_eq!(parse_dec_u8(&chars("255")), Ok(255));
}

#[test]
fn hexadecimal_numerals() {
    for n in [0u16, 1, 9, 10, 15, 16, 255, 256, 0xfff, 0x1000, 0xabcd, 0xffff] {
        let mut out = Vec::new();
        push_hex_u16(&mut out, n);
        assert_eq!(string_of(&out), format!("{:x}", n));
    }
}

#[test]
fn digits() {
    assert_eq!(dec_digit_of('0'), Some(0));
    assert_eq!(dec_digit_of('9'), Some(9));
    assert_eq!(dec_digit_of('a'), None);
    assert_eq!(dec_digit_of('/'), None);
    assert_eq!(dec_digit_of(':'), None);
    assert_eq!(hex_digit_of('9'), Some(9));
    assert_eq!(hex_digit_of('a'), Some(10));
    assert_eq!(hex_digit_of('F'), Some(15));
    assert_eq!(hex_digit_of('g'), None);
    assert_eq!(hex_digit_of('G'), None);
    assert_eq!(hex_digit_of('@'), None);
    assert_eq!(hex_digit_of('`'), None);
}
