use tu::text::{chars_of, find_from, parse_number, push_decimal, push_hex, push_zero_padded};

fn chars(text: &str) -> Vec<char> {
    text.chars().collect()
}

#[test]
fn chars_of_gives_the_characters() {
    assert_eq!(chars_of("a-ß-字"), vec!['a', '-', 'ß', '-', '字']);
    assert_eq!(chars_of(""), Vec::<char>::new());
}

#[test]
fn find_from_finds_the_first() {
    let text = chars("ab-cd-e");
    assert_eq!(find_from(&text, 0, '-'), 2);
    assert_eq!(find_from(&text, 2, '-'), 2);
    assert_eq!(find_from(&text, 3, '-'), 5);
    assert_eq!(find_from(&text, 6, '-'), 7);
    assert_eq!(find_from(&text, 7, '-'), 7);
    assert_eq!(find_from(&text, 0, 'x'), 7);
}

#[test]
fn parse_number_reads_decimal_fields() {
    let text = chars("x0042+7-65535 65536");
    assert_eq!(parse_number(&text, 1, 5, 65_535), Some(42));
    assert_eq!(parse_number(&text, 1, 5, 41), None);
    assert_eq!(parse_number(&text, 1, 5, 42), Some(42));
    assert_eq!(parse_number(&text, 5, 7, 255), Some(7));
    assert_eq!(parse_number(&text, 5, 6, 255), None);
    assert_eq!(parse_number(&text, 6, 6, 255), None);
    assert_eq!(parse_number(&text, 0, 5, 255), None);
    assert_eq!(parse_number(&text, 7, 13, 65_535), None);
    assert_eq!(parse_number(&text, 8, 13, 65_535), Some(65_535));
    assert_eq!(parse_number(&text, 14, 19, 65_535), None);
    assert_eq!(parse_number(&text, 14, 19, u32::MAX), Some(65_536));
    let big = chars("4294967295 4294967296 00000000000000000000001");
    assert_eq!(parse_number(&big, 0, 10, u32::MAX), Some(u32::MAX));
    assert_eq!(parse_number(&big, 11, 21, u32::MAX), None);
    assert_eq!(parse_number(&big, 22, 45, 1), Some(1));
}

#[test]
fn numbers_are_written_in_decimal_and_hexadecimal() {
    let mut out = String::from(">");
    push_decimal(&mut out, 0);
    push_decimal(&mut out, 1203);
    push_hex(&mut out, 0);
    push_hex(&mut out, 0xc0ffee);
    assert_eq!(out, ">01203" .to_owned() + "0c0ffee");
    let mut out = String::new();
    push_decimal(&mut out, u64::MAX);
    assert_eq!(out, "18446744073709551615");
}

#[test]
fn padding_fills_up_to_the_width() {
    for (number, width, expected) in [
        (0u64, 0usize, "0"),
        (0, 1, "0"),
        (0, 3, "000"),
        (7, 2, "07"),
        (42, 2, "42"),
        (123, 2, "123"),
        (99, 4, "0099"),
        (12345, 4, "12345"),
        (u64::MAX, 25, "0000018446744073709551615"),
    ] {
        let mut out = String::new();
        push_zero_padded(&mut out, number, width);
        assert_eq!(out, expected);
    }
}
