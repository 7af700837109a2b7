use void_ship::error::{EMPTY_RANGE, INVALID_HEX};
use void_ship::line::{is_blank_byte, label_bytes};
use void_ship::{classify, contains_bytes, parse_line, Error, Label, MemoryRegion};

fn names(line: &[u8]) -> Error {
    Error::InvalidFormat(line.iter().map(|&b| b as char).collect())
}

#[test]
fn labels_are_bracketed_names() {
    assert_eq!(&label_bytes(Label::Vdso), b"[vdso]");
    assert_eq!(&label_bytes(Label::Vvar), b"[vvar]");
}

#[test]
fn blanks_are_ascii_whitespace() {
    for byte in 0..=255u8 {
        assert_eq!(is_blank_byte(byte), byte.is_ascii_whitespace());
    }
}

#[test]
fn needle_is_found_anywhere() {
    assert!(contains_bytes(b"[vdso]", b"[vdso]"));
    assert!(contains_bytes(b"[vdso] tail", b"[vdso]"));
    assert!(contains_bytes(b"head [vdso]", b"[vdso]"));
    assert!(contains_bytes(b"head [vdso] tail", b"[vdso]"));
    assert!(contains_bytes(b"[[vdso]]", b"[vdso]"));
    assert!(contains_bytes(b"[vds[vdso]", b"[vdso]"));
}

#[test]
fn needle_is_not_found_where_it_is_not() {
    assert!(!contains_bytes(b"", b"[vdso]"));
    assert!(!contains_bytes(b"[vdso", b"[vdso]"));
    assert!(!contains_bytes(b"vdso]", b"[vdso]"));
    assert!(!contains_bytes(b"[vds o]", b"[vdso]"));
    assert!(!contains_bytes(b"[VDSO]", b"[vdso]"));
    assert!(!contains_bytes(b"[vvar]", b"[vdso]"));
}

#[test]
fn empty_needle_is_found_everywhere() {
    assert!(contains_bytes(b"", b""));
    assert!(contains_bytes(b"abc", b""));
}

#[test]
fn line_is_classified_by_its_label() {
    assert_eq!(
        classify(b"7ffe1000-7ffe3000 r-xp 00000000 00:00 0                  [vdso]"),
        Some(Label::Vdso)
    );
    assert_eq!(
        classify(b"7ffe0000-7ffe1000 r--p 00000000 00:00 0                  [vvar]"),
        Some(Label::Vvar)
    );
    assert_eq!(
        classify(b"7ffd0000-7ffe0000 rw-p 00000000 00:00 0                  [stack]"),
        None
    );
    assert_eq!(classify(b"55d0-55d1 r--p 00000000 08:01 42 /usr/bin/cat"), None);
    assert_eq!(classify(b""), None);
}

#[test]
fn label_counts_with_text_after_it() {
    assert_eq!(classify(b"1000-2000 r-xp 0 00:00 0 [vdso]   "), Some(Label::Vdso));
    assert_eq!(classify(b"1000-2000 r-xp 0 00:00 0 [vvar] (deleted)"), Some(Label::Vvar));
}

#[test]
fn line_with_both_labels_counts_for_vdso() {
    assert_eq!(classify(b"1000-2000 [vvar] [vdso]"), Some(Label::Vdso));
    assert_eq!(classify(b"1000-2000 [vdso] [vvar]"), Some(Label::Vdso));
}

#[test]
fn vvar_vclock_is_no_label() {
    assert_eq!(classify(b"1000-2000 r--p 0 00:00 0 [vvar_vclock]"), None);
}

#[test]
fn line_gives_its_range() {
    assert_eq!(
        parse_line(b"7ffe1000-7ffe3000 r-xp 00000000 00:00 0                  [vdso]"),
        Ok(MemoryRegion { base_address: 0x7ffe1000, size: 0x2000 })
    );
}

#[test]
fn line_of_twelve_digit_addresses() {
    assert_eq!(
        parse_line(b"7ffc12345000-7ffc12347000 r-xp 00000000 00:00 0 [vdso]"),
        Ok(MemoryRegion { base_address: 0x7ffc_1234_5000, size: 0x2000 })
    );
}

#[test]
fn field_ends_at_any_blank() {
    let expected = Ok(MemoryRegion { base_address: 0x1000, size: 0x1000 });
    assert_eq!(parse_line(b"1000-2000\tr-xp"), expected);
    assert_eq!(parse_line(b"1000-2000\rr-xp"), expected);
    assert_eq!(parse_line(b"1000-2000\x0cr-xp"), expected);
    assert_eq!(parse_line(b"1000-2000   r-xp"), expected);
    assert_eq!(parse_line(b"1000-2000"), expected);
}

#[test]
fn hyphens_after_the_first_field_do_not_count() {
    assert_eq!(
        parse_line(b"1000-2000 r--p 0 00:00 0 /lib/x86_64-linux-gnu/libc.so.6"),
        Ok(MemoryRegion { base_address: 0x1000, size: 0x1000 })
    );
}

#[test]
fn line_without_a_hyphen_is_named() {
    let line = b"10002000 r-xp 00000000 00:00 0 [vdso]";
    assert_eq!(parse_line(line), Err(names(line)));
}

#[test]
fn line_with_two_hyphens_is_named() {
    let line = b"1000-2000-3000 r-xp [vdso]";
    assert_eq!(parse_line(line), Err(names(line)));
    let line = b"1000--2000 r-xp [vdso]";
    assert_eq!(parse_line(line), Err(names(line)));
}

#[test]
fn line_with_an_empty_side_is_named() {
    let line = b"-2000 r-xp [vdso]";
    assert_eq!(parse_line(line), Err(names(line)));
    let line = b"1000- r-xp [vdso]";
    assert_eq!(parse_line(line), Err(names(line)));
    let line = b"- [vdso]";
    assert_eq!(parse_line(line), Err(names(line)));
}

#[test]
fn line_that_starts_with_a_blank_is_named() {
    let line = b" 1000-2000 r-xp [vdso]";
    assert_eq!(parse_line(line), Err(names(line)));
    assert_eq!(parse_line(b""), Err(Error::InvalidFormat(String::new())));
}

#[test]
fn named_line_keeps_each_byte_as_one_character() {
    let line = [0x5b, 0x76, 0x64, 0x73, 0x6f, 0x5d, 0xe9, 0xff];
    assert_eq!(
        parse_line(&line),
        Err(Error::InvalidFormat("[vdso]\u{e9}\u{ff}".to_string()))
    );
}

#[test]
fn line_with_a_letter_in_an_address() {
    assert_eq!(
        parse_line(b"7ffle000-7fff0000 r-xp 00000000 00:00 0 [vdso]"),
        Err(Error::InvalidFormat(INVALID_HEX.to_string()))
    );
    assert_eq!(
        parse_line(b"7ffe0000-7fffg000 r-xp 00000000 00:00 0 [vdso]"),
        Err(Error::InvalidFormat(INVALID_HEX.to_string()))
    );
}

#[test]
fn line_with_an_empty_range() {
    assert_eq!(
        parse_line(b"7ffe1000-7ffe1000 r-xp 00000000 00:00 0 [vdso]"),
        Err(Error::InvalidFormat(EMPTY_RANGE.to_string()))
    );
}

#[test]
fn line_with_an_inverted_range() {
    assert_eq!(
        parse_line(b"7ffe3000-7ffe1000 r-xp 00000000 00:00 0 [vdso]"),
        Err(Error::InvalidFormat(EMPTY_RANGE.to_string()))
    );
}
