use befunge::source::{load, measure};
use befunge::text::{byte_of, decimal_text, letter_text, read_char, read_number};

#[test]
fn decimal_of_every_byte() {
    for a in 0u8..=255 {
        assert_eq!(decimal_text(a), format!("{}", a));
    }
}

#[test]
fn decimal_has_no_leading_zeros() {
    assert_eq!(decimal_text(0), "0");
    assert_eq!(decimal_text(7), "7");
    assert_eq!(decimal_text(10), "10");
    assert_eq!(decimal_text(99), "99");
    assert_eq!(decimal_text(100), "100");
    assert_eq!(decimal_text(255), "255");
}

#[test]
fn letter_of_every_byte() {
    for a in 0u8..=255 {
        assert_eq!(letter_text(a), format!("{}", a as char));
    }
}

#[test]
fn letter_of_a_high_byte_is_one_character() {
    assert_eq!(letter_text(0x41), "A");
    assert_eq!(letter_text(0xe9), "\u{e9}");
    assert_eq!(letter_text(0xe9).chars().count(), 1);
}

#[test]
fn byte_of_a_character_is_its_code_point_modulo_256() {
    assert_eq!(byte_of('A'), 0x41);
    assert_eq!(byte_of('\u{e9}'), 0xe9);
    assert_eq!(byte_of('\u{141}'), 0x41);
    assert_eq!(byte_of('\u{10000}'), 0);
}

#[test]
fn number_on_a_line() {
    assert_eq!(read_number("5"), 5);
    assert_eq!(read_number("5\n"), 5);
    assert_eq!(read_number("  42 \r\n"), 42);
    assert_eq!(read_number("\t255\t"), 255);
    assert_eq!(read_number("+7"), 7);
    assert_eq!(read_number("007"), 7);
    assert_eq!(read_number("0"), 0);
}

#[test]
fn no_number_on_a_line_is_zero() {
    assert_eq!(read_number(""), 0);
    assert_eq!(read_number("\n"), 0);
    assert_eq!(read_number("abc"), 0);
    assert_eq!(read_number("12a"), 0);
    assert_eq!(read_number("1 2"), 0);
    assert_eq!(read_number("-1"), 0);
    assert_eq!(read_number("+"), 0);
    assert_eq!(read_number("++1"), 0);
    assert_eq!(read_number("1_0"), 0);
    assert_eq!(read_number("3.0"), 0);
}

#[test]
fn number_too_large_is_zero() {
    assert_eq!(read_number("256"), 0);
    assert_eq!(read_number("1000"), 0);
    assert_eq!(read_number("99999999999999999999999999"), 0);
}

#[test]
fn character_on_a_line() {
    assert_eq!(read_char("Z"), 90);
    assert_eq!(read_char("Z\n"), 90);
    assert_eq!(read_char("abc"), 97);
    assert_eq!(read_char(" x"), 32);
    assert_eq!(read_char("\n"), 10);
    assert_eq!(read_char("\u{e9}t\u{e9}"), 0xe9);
    assert_eq!(read_char("\u{141}"), 0x41);
}

#[test]
fn no_character_on_a_line_is_zero() {
    assert_eq!(read_char(""), 0);
}

#[test]
fn extents_of_a_text() {
    assert_eq!(measure(""), (0, 0));
    assert_eq!(measure("\n"), (1, 0));
    assert_eq!(measure("\n\n"), (2, 0));
    assert_eq!(measure("abc"), (1, 3));
    assert_eq!(measure("abc\n"), (1, 3));
    assert_eq!(measure("abc\nde"), (2, 3));
    assert_eq!(measure("a\nbcd\n"), (2, 3));
    assert_eq!(measure("a\n\nbc\n"), (3, 2));
    assert_eq!(measure("ab\n\n"), (2, 2));
}

#[test]
fn width_counts_bytes_of_utf8() {
    assert_eq!(measure("\u{e9}"), (1, 2));
    assert_eq!(measure("a\u{20ac}b\nxyz\n"), (2, 5));
    assert_eq!(measure("\u{1f600}\n"), (1, 4));
}

#[test]
fn rows_are_padded_with_blanks() {
    let area = load("12\n3\n456\n");
    assert_eq!((area.rows(), area.cols()), (3, 3));
    assert_eq!(area.to_text(), "12 \n3  \n456");
}

#[test]
fn last_row_needs_no_line_feed() {
    let area = load("ab\ncd");
    assert_eq!((area.rows(), area.cols()), (2, 2));
    assert_eq!(area.to_text(), "ab\ncd");
}

#[test]
fn empty_rows_are_rows() {
    let area = load("a\n\nb\n");
    assert_eq!((area.rows(), area.cols()), (3, 1));
    assert_eq!(area.to_text(), "a\n \nb");
}

#[test]
fn empty_text_is_an_empty_grid() {
    let area = load("");
    assert_eq!((area.rows(), area.cols()), (0, 0));
}

#[test]
fn characters_are_stored_one_to_a_cell() {
    let area = load("\u{e9}\u{141}!\n");
    assert_eq!((area.rows(), area.cols()), (1, 5));
    assert_eq!(area.read(0, 0), 0xe9);
    assert_eq!(area.read(0, 1), 0x41);
    assert_eq!(area.read(0, 2), b'!');
    assert_eq!(area.read(0, 3), b' ');
    assert_eq!(area.read(0, 4), b' ');
}
