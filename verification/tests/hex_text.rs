use gtp::statm::resident_pages;
use gtp::hex::{decode_hex, decode_hex32, hex_slicing_cuts_a_char, HexDecodeError};

#[test]
fn hex_pairs_decode_in_either_case() {
    assert_eq!(decode_hex("00ff10"), Ok(vec![0x00, 0xff, 0x10]));
    assert_eq!(decode_hex("ABcd"), Ok(vec![0xab, 0xcd]));
    assert_eq!(decode_hex(""), Ok(vec![]));
}

#[test]
fn a_plus_sign_pair_reads_as_one_digit() {
    assert_eq!(decode_hex("+f"), Ok(vec![0x0f]));
    assert_eq!(decode_hex("-f"), Err(HexDecodeError::InvalidDigit));
    assert_eq!(decode_hex("f+"), Err(HexDecodeError::InvalidDigit));
}

#[test]
fn odd_length_and_bad_digits_are_refused() {
    assert_eq!(decode_hex("abc"), Err(HexDecodeError::OddLength));
    assert_eq!(decode_hex("zz"), Err(HexDecodeError::InvalidDigit));
    assert_eq!(decode_hex("00zz11"), Err(HexDecodeError::InvalidDigit));
}

#[test]
fn non_ascii_input_is_refused_or_flagged() {
    // Two-byte characters on pair boundaries: refused as digits.
    assert!(!hex_slicing_cuts_a_char("\u{e9}\u{e9}"));
    assert_eq!(decode_hex("\u{e9}\u{e9}"), Err(HexDecodeError::InvalidDigit));
    // A pair boundary inside a character would cut it.
    assert!(hex_slicing_cuts_a_char("a\u{e9}1"));
    // ...unless an earlier pair already failed.
    assert!(!hex_slicing_cuts_a_char("zza\u{e9}1"));
    assert!(!hex_slicing_cuts_a_char("abc"));
}

#[test]
fn thirty_two_byte_keys_need_sixty_four_digits() {
    let hex64 = "00112233445566778899aabbccddeeff00112233445566778899aabbccddeeff";
    let key = decode_hex32(hex64).unwrap();
    assert_eq!(key[0], 0x00);
    assert_eq!(key[15], 0xff);
    assert_eq!(key[31], 0xff);
    assert_eq!(decode_hex32(&hex64[..62]), Err(HexDecodeError::WrongLength));
    assert_eq!(decode_hex32(&hex64[..63]), Err(HexDecodeError::OddLength));
}

#[test]
fn statm_resident_field_is_the_second_word() {
    assert_eq!(resident_pages("3457 1203 890 12 0 455 0\n"), Some(1203));
    assert_eq!(resident_pages("  3457\t\t+77  "), Some(77));
    assert_eq!(resident_pages("3457\u{3000}42"), Some(42));
    assert_eq!(resident_pages("3457"), None);
    assert_eq!(resident_pages("3457 x12"), None);
    assert_eq!(resident_pages(""), None);
}
