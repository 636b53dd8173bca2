use dsn_sync::entropy::{parse_pot_external_entropy, EntropyError};

#[test]
fn hex_digits_decode_to_bytes() {
    assert_eq!(parse_pot_external_entropy("00ff7a").unwrap(), vec![0x00, 0xff, 0x7a]);
}

#[test]
fn both_cases_decode() {
    assert_eq!(parse_pot_external_entropy("DEADbeef").unwrap(), vec![0xde, 0xad, 0xbe, 0xef]);
}

#[test]
fn empty_text_is_no_bytes() {
    assert_eq!(parse_pot_external_entropy("").unwrap(), Vec::<u8>::new());
}

#[test]
fn odd_length_is_refused() {
    assert_eq!(parse_pot_external_entropy("abc"), Err(EntropyError::OddLength));
}

#[test]
fn odd_length_comes_before_bad_digits() {
    assert_eq!(parse_pot_external_entropy("zzz"), Err(EntropyError::OddLength));
}

#[test]
fn first_bad_digit_is_reported() {
    assert_eq!(
        parse_pot_external_entropy("0g1z"),
        Err(EntropyError::InvalidHexCharacter { c: 'g', index: 1 })
    );
}
