use automaton::parse::{
    ascii_to_binary, parse_input, parse_preset, parse_size, InputError, PresetError, SizeError,
};
use automaton::preset::PresetOption;

fn bits(s: &str) -> Vec<bool> {
    s.chars().map(|c| c == '1').collect()
}

#[test]
fn parse_size_accepts_valid_sizes() {
    assert_eq!(parse_size(&b"256".to_vec()), Ok(256));
    assert_eq!(parse_size(&b"3".to_vec()), Ok(3));
    assert_eq!(parse_size(&b"+17".to_vec()), Ok(17));
    assert_eq!(parse_size(&b"007".to_vec()), Ok(7));
}

#[test]
fn parse_size_rejects_small_sizes() {
    assert_eq!(parse_size(&b"2".to_vec()), Err(SizeError::TooSmall));
    assert_eq!(parse_size(&b"0".to_vec()), Err(SizeError::TooSmall));
}

#[test]
fn parse_size_rejects_non_numbers() {
    assert_eq!(parse_size(&b"abc".to_vec()), Err(SizeError::NotANumber));
    assert_eq!(parse_size(&b"".to_vec()), Err(SizeError::NotANumber));
    assert_eq!(parse_size(&b"+".to_vec()), Err(SizeError::NotANumber));
    assert_eq!(parse_size(&b"12 ".to_vec()), Err(SizeError::NotANumber));
    assert_eq!(parse_size(&b"-4".to_vec()), Err(SizeError::NotANumber));
    // larger than any machine size
    assert_eq!(
        parse_size(&b"99999999999999999999999999".to_vec()),
        Err(SizeError::NotANumber)
    );
}

#[test]
fn parse_preset_accepts_the_four_options() {
    assert_eq!(parse_preset(&b"0".to_vec()), Ok(PresetOption::Random));
    assert_eq!(parse_preset(&b"1".to_vec()), Ok(PresetOption::Centre));
    assert_eq!(parse_preset(&b"2".to_vec()), Ok(PresetOption::Corners));
    assert_eq!(parse_preset(&b"3".to_vec()), Ok(PresetOption::Alternate));
}

#[test]
fn parse_preset_rejects_unknown_options() {
    assert_eq!(parse_preset(&b"4".to_vec()), Err(PresetError::NoSuchOption));
    assert_eq!(parse_preset(&b"255".to_vec()), Err(PresetError::NoSuchOption));
}

#[test]
fn parse_preset_rejects_non_numbers() {
    assert_eq!(parse_preset(&b"x".to_vec()), Err(PresetError::NotANumber));
    assert_eq!(parse_preset(&b"".to_vec()), Err(PresetError::NotANumber));
    // past the 8-bit range, as a byte-sized option is
    assert_eq!(parse_preset(&b"256".to_vec()), Err(PresetError::NotANumber));
}

#[test]
fn parse_input_binary() {
    assert_eq!(parse_input(&b"0b00100".to_vec()), Ok(bits("00100")));
    assert_eq!(parse_input(&b"0b111".to_vec()), Ok(bits("111")));
    assert_eq!(parse_input(&b"0b012".to_vec()), Err(InputError::InvalidBinary));
    assert_eq!(parse_input(&b"0b1".to_vec()), Err(InputError::TooShort));
    assert_eq!(parse_input(&b"0b11".to_vec()), Err(InputError::TooShort));
}

#[test]
fn parse_input_hexadecimal() {
    assert_eq!(parse_input(&b"0xA".to_vec()), Ok(bits("1010")));
    assert_eq!(parse_input(&b"0xa".to_vec()), Ok(bits("1010")));
    assert_eq!(parse_input(&b"0x2F".to_vec()), Ok(bits("00101111")));
    assert_eq!(parse_input(&b"0xG".to_vec()), Err(InputError::InvalidHexadecimal));
    assert_eq!(parse_input(&b"0x 1".to_vec()), Err(InputError::InvalidHexadecimal));
}

#[test]
fn parse_input_ascii() {
    // 'A' is 65: 01000001
    assert_eq!(parse_input(&b"A".to_vec()), Ok(bits("01000001")));
    // a bare "0b" is two ASCII bytes, '0' (00110000) and 'b' (01100010)
    assert_eq!(parse_input(&b"0b".to_vec()), Ok(bits("0011000001100010")));
    assert_eq!(parse_input(&b"hi".to_vec()), Ok(bits("0110100001101001")));
    assert_eq!(parse_input(&vec![48u8, 121, 200]), Err(InputError::InvalidAscii));
}

#[test]
fn parse_input_empty_is_out_of_range() {
    assert_eq!(parse_input(&b"".to_vec()), Err(InputError::LengthOutOfRange));
}

#[test]
fn ascii_to_binary_decodes_bytes() {
    assert_eq!(ascii_to_binary(&b"A".to_vec()), Ok(bits("01000001")));
    assert_eq!(ascii_to_binary(&b"".to_vec()), Ok(vec![]));
    assert_eq!(ascii_to_binary(&vec![255u8]), Err(InputError::InvalidAscii));
}
