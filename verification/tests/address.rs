use creator_scan::address::{event_topic, Address, Word32};
use creator_scan::input::parse_address_field;

fn address_ending(last: u8) -> Address {
    let mut bytes = [0u8; 20];
    bytes[19] = last;
    Address::from_bytes(bytes)
}

#[test]
fn parses_prefixed_lower_case_text() {
    let parsed = Address::parse("0x000000a56aaca3e9a4c479ea6b6cd0dbcb6634f5");
    let expected = Address::from_bytes([
        0x00, 0x00, 0x00, 0xa5, 0x6a, 0xac, 0xa3, 0xe9, 0xa4, 0xc4, 0x79, 0xea, 0x6b, 0x6c, 0xd0,
        0xdb, 0xcb, 0x66, 0x34, 0xf5,
    ]);
    assert_eq!(parsed, Some(expected));
}

#[test]
fn parses_mixed_case_digits_without_prefix() {
    let parsed = Address::parse("000000a56Aaca3e9a4C479ea6b6CD0DbcB6634F5");
    assert_eq!(parsed, Address::parse("0x000000a56aaca3e9a4c479ea6b6cd0dbcb6634f5"));
    assert!(parsed.is_some());
}

#[test]
fn skips_blanks_between_digits() {
    let parsed = Address::parse("0x00000000000000000000 000000000000\t0000\r\n00a a \n");
    assert_eq!(parsed, Some(address_ending(0xaa)));
}

#[test]
fn rejects_wrong_digit_counts() {
    assert_eq!(Address::parse(""), None);
    assert_eq!(Address::parse("0x"), None);
    assert_eq!(Address::parse("0xaa"), None);
    assert_eq!(Address::parse("0x00000000000000000000000000000000000000a"), None);
    assert_eq!(Address::parse("0x00000000000000000000000000000000000000aabb"), None);
    assert_eq!(Address::parse("0x00000000000000000000000000000000000000aab"), None);
}

#[test]
fn rejects_other_characters() {
    assert_eq!(Address::parse("0x00000000000000000000000000000000000000ag"), None);
    assert_eq!(Address::parse("0x00000000000000000000000000000000000000aa!"), None);
    assert_eq!(Address::parse(" 0x00000000000000000000000000000000000000aa"), None);
    assert_eq!(Address::parse("0x0000000000000000000000000000000000000\u{e9}aa"), None);
}

#[test]
fn upper_case_prefix_needs_lower_casing() {
    let text = "0X00000000000000000000000000000000000000AA";
    assert_eq!(Address::parse(text), None);
    assert_eq!(parse_address_field(text), Some(address_ending(0xaa)));
}

#[test]
fn field_parsing_rejects_what_is_no_address() {
    assert_eq!(parse_address_field("not an address"), None);
    assert_eq!(parse_address_field(""), None);
}

#[test]
fn formats_as_prefixed_lower_case_hex() {
    assert_eq!(address_ending(0xaa).to_hex(), "0x00000000000000000000000000000000000000aa");
    let mixed = Address::from_bytes([
        0x00, 0x00, 0x00, 0xa5, 0x6a, 0xac, 0xa3, 0xe9, 0xa4, 0xc4, 0x79, 0xea, 0x6b, 0x6c, 0xd0,
        0xdb, 0xcb, 0x66, 0x34, 0xf5,
    ]);
    assert_eq!(mixed.to_hex(), "0x000000a56aaca3e9a4c479ea6b6cd0dbcb6634f5");
    assert_eq!(Address::from_bytes([0xff; 20]).to_hex(), format!("0x{}", "ff".repeat(20)));
}

#[test]
fn formatting_and_parsing_agree() {
    let address = Address::from_bytes([
        1, 2, 3, 4, 5, 6, 7, 8, 9, 10, 11, 12, 13, 14, 15, 16, 17, 18, 19, 200,
    ]);
    assert_eq!(Address::parse(&address.to_hex()), Some(address));
}

#[test]
fn takes_the_last_twenty_bytes_of_a_word() {
    let mut bytes = [0u8; 32];
    for (i, byte) in bytes.iter_mut().enumerate() {
        *byte = i as u8;
    }
    let account = Address::from_word(&Word32::from_bytes(bytes));
    let mut expected = [0u8; 20];
    for (i, byte) in expected.iter_mut().enumerate() {
        *byte = (i + 12) as u8;
    }
    assert_eq!(account, Address::from_bytes(expected));
}

#[test]
fn equality_is_by_bytes() {
    assert!(address_ending(1).equals(&address_ending(1)));
    assert!(!address_ending(1).equals(&address_ending(2)));
    let mut first = [0u8; 20];
    first[0] = 1;
    assert!(!Address::from_bytes(first).equals(&Address::from_bytes([0u8; 20])));
    assert!(Word32::from_bytes([7; 32]).equals(&Word32::from_bytes([7; 32])));
    let mut other = [7u8; 32];
    other[31] = 8;
    assert!(!Word32::from_bytes([7; 32]).equals(&Word32::from_bytes(other)));
}

#[test]
fn event_topic_is_the_keccak_digest_of_the_signature() {
    let topic = event_topic("Transfer(address,address,uint256)");
    let expected: [u8; 32] = [
        0xdd, 0xf2, 0x52, 0xad, 0x1b, 0xe2, 0xc8, 0x9b, 0x69, 0xc2, 0xb0, 0x68, 0xfc, 0x37, 0x8d,
        0xaa, 0x95, 0x2b, 0xa7, 0xf1, 0x63, 0xc4, 0xa1, 0x16, 0x28, 0xf5, 0x5a, 0x4d, 0xf5, 0x23,
        0xb3, 0xef,
    ];
    assert_eq!(topic, Word32::from_bytes(expected));
}

#[test]
fn event_topic_of_the_empty_signature() {
    let expected: [u8; 32] = [
        0xc5, 0xd2, 0x46, 0x01, 0x86, 0xf7, 0x23, 0x3c, 0x92, 0x7e, 0x7d, 0xb2, 0xdc, 0xc7, 0x03,
        0xc0, 0xe5, 0x00, 0xb6, 0x53, 0xca, 0x82, 0x27, 0x3b, 0x7b, 0xfa, 0xd8, 0x04, 0x5d, 0x85,
        0xa4, 0x70,
    ];
    assert_eq!(event_topic(""), Word32::from_bytes(expected));
}
