use otlp_embedded::hex::{decode_hex, hex};

#[test]
fn hex_of_nothing_is_empty() {
    assert_eq!(hex(&[]), "");
}

#[test]
fn hex_writes_two_lowercase_digits_per_byte() {
    assert_eq!(hex(&[0x00, 0x0f, 0x10, 0xa1, 0xff]), "000f10a1ff");
}

#[test]
fn hex_agrees_with_the_hex_crate_on_every_byte() {
    let all: Vec<u8> = (0..=255).collect();
    assert_eq!(hex(&all), ::hex::encode(&all));
}

#[test]
fn decode_hex_reads_both_cases() {
    assert_eq!(decode_hex("00ff"), Some(vec![0x00, 0xff]));
    assert_eq!(decode_hex("DeadBEEF"), Some(vec![0xde, 0xad, 0xbe, 0xef]));
    assert_eq!(decode_hex(""), Some(vec![]));
}

#[test]
fn decode_hex_refuses_odd_length() {
    assert_eq!(decode_hex("abc"), None);
    assert_eq!(decode_hex("a"), None);
}

#[test]
fn decode_hex_refuses_other_characters() {
    assert_eq!(decode_hex("zz"), None);
    assert_eq!(decode_hex("0g"), None);
    assert_eq!(decode_hex("0x10"), None);
    assert_eq!(decode_hex(" 1"), None);
    assert_eq!(decode_hex("é1"), None);
    assert_eq!(decode_hex("1é"), None);
}

#[test]
fn decode_hex_agrees_with_the_hex_crate() {
    for text in ["", "00", "a1b2", "A1B2", "abc", "xy", "0123456789abcdefABCDEF", "12 4"] {
        assert_eq!(decode_hex(text), ::hex::decode(text).ok(), "{}", text);
    }
}

#[test]
fn decode_hex_reads_back_what_hex_wrote() {
    let bytes = vec![0x11, 0x22, 0x00, 0xfe, 0x7f, 0x80];
    assert_eq!(decode_hex(&hex(&bytes)), Some(bytes));
}
