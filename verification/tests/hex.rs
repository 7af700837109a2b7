use void_ship::error::{EMPTY_RANGE, INVALID_HEX};
use void_ship::hex::hex_digit_value;
use void_ship::{parse_addresses, parse_hex_address, Error, IntErrorKind, MemoryRegion};

fn invalid_hex() -> Error {
    Error::InvalidFormat(INVALID_HEX.to_string())
}

#[test]
fn digit_values_cover_both_cases() {
    assert_eq!(hex_digit_value(b'0'), Some(0));
    assert_eq!(hex_digit_value(b'9'), Some(9));
    assert_eq!(hex_digit_value(b'a'), Some(10));
    assert_eq!(hex_digit_value(b'f'), Some(15));
    assert_eq!(hex_digit_value(b'A'), Some(10));
    assert_eq!(hex_digit_value(b'F'), Some(15));
}

#[test]
fn digit_values_stop_at_the_edges() {
    assert_eq!(hex_digit_value(b'/'), None);
    assert_eq!(hex_digit_value(b':'), None);
    assert_eq!(hex_digit_value(b'`'), None);
    assert_eq!(hex_digit_value(b'g'), None);
    assert_eq!(hex_digit_value(b'@'), None);
    assert_eq!(hex_digit_value(b'G'), None);
    assert_eq!(hex_digit_value(b' '), None);
    assert_eq!(hex_digit_value(0xff), None);
}

#[test]
fn address_of_lowercase_digits() {
    assert_eq!(parse_hex_address(b"7ffe1000"), Ok(0x7ffe1000));
    assert_eq!(parse_hex_address(b"1f"), Ok(31));
    assert_eq!(parse_hex_address(b"0"), Ok(0));
}

#[test]
fn address_of_uppercase_and_mixed_digits() {
    assert_eq!(parse_hex_address(b"7FFE1000"), Ok(0x7ffe1000));
    assert_eq!(parse_hex_address(b"DeadBeef"), Ok(0xdead_beef));
}

#[test]
fn address_of_twelve_digits() {
    assert_eq!(parse_hex_address(b"7ffc12345000"), Ok(0x7ffc_1234_5000));
}

#[test]
fn address_with_leading_zeros() {
    assert_eq!(parse_hex_address(b"000000000000000000000000000000ff"), Ok(255));
}

#[test]
fn address_of_no_digit_is_zero() {
    assert_eq!(parse_hex_address(b""), Ok(0));
}

#[test]
fn address_with_a_letter_that_is_no_digit() {
    assert_eq!(parse_hex_address(b"7ffle000"), Err(invalid_hex()));
}

#[test]
fn address_with_a_prefix_is_refused() {
    assert_eq!(parse_hex_address(b"0x10"), Err(invalid_hex()));
    assert_eq!(parse_hex_address(b"+10"), Err(invalid_hex()));
}

#[test]
fn largest_address_is_read() {
    let digits = format!("{:x}", usize::MAX);
    assert_eq!(parse_hex_address(digits.as_bytes()), Ok(usize::MAX));
}

#[test]
fn address_above_the_machine_word_overflows() {
    let digits = format!("1{:x}", usize::MAX);
    assert_eq!(
        parse_hex_address(digits.as_bytes()),
        Err(Error::ParseIntError(IntErrorKind::PosOverflow))
    );
    let digits = format!("{:x}0", usize::MAX);
    assert_eq!(
        parse_hex_address(digits.as_bytes()),
        Err(Error::ParseIntError(IntErrorKind::PosOverflow))
    );
}

#[test]
fn bad_digit_after_an_overflow_is_still_a_bad_digit() {
    let digits = format!("{:x}00g", usize::MAX);
    assert_eq!(parse_hex_address(digits.as_bytes()), Err(invalid_hex()));
}

#[test]
fn range_gives_base_and_size() {
    assert_eq!(
        parse_addresses(b"7ffe1000", b"7ffe3000"),
        Ok(MemoryRegion { base_address: 0x7ffe1000, size: 0x2000 })
    );
    assert_eq!(parse_addresses(b"0", b"1"), Ok(MemoryRegion { base_address: 0, size: 1 }));
}

#[test]
fn range_up_to_the_last_address() {
    let end = format!("{:x}", usize::MAX);
    assert_eq!(
        parse_addresses(b"10", end.as_bytes()),
        Ok(MemoryRegion { base_address: 0x10, size: usize::MAX - 0x10 })
    );
}

#[test]
fn empty_range_is_refused() {
    assert_eq!(
        parse_addresses(b"7ffe1000", b"7ffe1000"),
        Err(Error::InvalidFormat(EMPTY_RANGE.to_string()))
    );
}

#[test]
fn inverted_range_is_refused() {
    assert_eq!(
        parse_addresses(b"7ffe3000", b"7ffe1000"),
        Err(Error::InvalidFormat(EMPTY_RANGE.to_string()))
    );
}

#[test]
fn range_reports_the_first_bad_side() {
    let too_long = format!("{:x}0", usize::MAX);
    assert_eq!(parse_addresses(b"xyz", too_long.as_bytes()), Err(invalid_hex()));
    assert_eq!(
        parse_addresses(too_long.as_bytes(), b"xyz"),
        Err(Error::ParseIntError(IntErrorKind::PosOverflow))
    );
    assert_eq!(parse_addresses(b"10", b"2g"), Err(invalid_hex()));
}

#[test]
fn fixed_messages() {
    assert_eq!(INVALID_HEX, "Invalid hexadecimal number");
    assert_eq!(EMPTY_RANGE, "Address range is empty or inverted");
}
