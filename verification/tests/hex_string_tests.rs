use warp_route_ids::hex_string::{FormatError, HexString};

fn sample_20() -> Vec<u8> {
    (0u8..20).map(|i| i.wrapping_mul(13).wrapping_add(7)).collect()
}

#[test]
fn render_then_parse_returns_bytes() {
    let v = HexString::<20>::from_raw_bytes(sample_20()).unwrap();
    let text = v.render_to_text();
    let back = HexString::<20>::parse_from_text(&text).unwrap();
    assert_eq!(back.render_to_binary(), sample_20());
}

#[test]
fn parse_then_render_normalizes_case() {
    let input = "0xAbCdEf0102030405060708090a0B0C0D0E0F1011";
    let v = HexString::<20>::parse_from_text(input).unwrap();
    let text = v.render_to_text();
    assert_eq!(text, input.to_lowercase());
}

#[test]
fn parse_without_prefix() {
    let v = HexString::<2>::parse_from_text("beef").unwrap();
    assert_eq!(v.render_to_binary(), vec![0xbe, 0xef]);
    assert_eq!(v.render_to_text(), "0xbeef");
}

#[test]
fn render_matches_reference_hex_encoder() {
    let v = HexString::<20>::from_raw_bytes(sample_20()).unwrap();
    assert_eq!(v.render_to_text(), format!("0x{}", hex::encode(sample_20())));
}

#[test]
fn odd_digit_count_rejected() {
    assert_eq!(
        HexString::<2>::parse_from_text("0xbee"),
        Err(FormatError::OddLength)
    );
    assert_eq!(
        HexString::<2>::parse_from_text("f"),
        Err(FormatError::OddLength)
    );
}

#[test]
fn invalid_character_rejected() {
    assert_eq!(
        HexString::<2>::parse_from_text("0xbeqf"),
        Err(FormatError::InvalidChar)
    );
    assert_eq!(
        HexString::<2>::parse_from_text("zzzz"),
        Err(FormatError::InvalidChar)
    );
    // An `0x` in the middle is not a prefix.
    assert_eq!(
        HexString::<2>::parse_from_text("be0x"),
        Err(FormatError::InvalidChar)
    );
}

#[test]
fn wrong_decoded_length_rejected() {
    // Too short and too long, with and without prefix, in both cases.
    assert_eq!(
        HexString::<20>::parse_from_text("0xbeef"),
        Err(FormatError::WrongLength)
    );
    assert_eq!(
        HexString::<2>::parse_from_text("beefbeef"),
        Err(FormatError::WrongLength)
    );
    assert_eq!(
        HexString::<2>::parse_from_text("0xBEEFBE"),
        Err(FormatError::WrongLength)
    );
    assert_eq!(
        HexString::<2>::parse_from_text("0x"),
        Err(FormatError::WrongLength)
    );
}

#[test]
fn from_raw_bytes_enforces_length() {
    assert_eq!(
        HexString::<20>::from_raw_bytes(vec![1, 2, 3]),
        Err(FormatError::WrongLength)
    );
    let v = HexString::<3>::from_raw_bytes(vec![1, 2, 3]).unwrap();
    assert_eq!(v.render_to_binary(), vec![1, 2, 3]);
}

#[test]
fn equality_is_byte_wise() {
    let a = HexString::<2>::parse_from_text("0xbeef").unwrap();
    let b = HexString::<2>::parse_from_text("0xBEEF").unwrap();
    let c = HexString::<2>::parse_from_text("0xbeee").unwrap();
    assert!(a == b);
    assert!(a != c);
}

#[test]
fn uppercase_prefix_is_not_a_prefix() {
    // Only the exact text `0x` is stripped; `0X` leaves a non-hex `X`.
    assert_eq!(
        HexString::<2>::parse_from_text("0Xbeef"),
        Err(FormatError::InvalidChar)
    );
}

#[test]
fn ordering_is_lexicographic() {
    let a = HexString::<2>::parse_from_text("0x00ff").unwrap();
    let b = HexString::<2>::parse_from_text("0x0100").unwrap();
    let c = HexString::<2>::parse_from_text("0x0100").unwrap();
    assert!(a < b);
    assert!(b > a);
    assert!(b <= c);
    assert!(b >= c);
    assert_eq!(b.partial_cmp(&c), Some(std::cmp::Ordering::Equal));
}

#[test]
fn render_is_always_lowercase_and_sized() {
    let v = HexString::<32>::from_raw_bytes(vec![0xff; 32]).unwrap();
    let text = v.render_to_text();
    assert_eq!(text.len(), 2 + 64);
    assert_eq!(text, format!("0x{}", "ff".repeat(32)));
}
