use uuid_macro_internal::error::char_hex_width;
use uuid_macro_internal::try_parse;
use uuid_macro_internal::ParseError;

#[test]
fn char_error_spans_one_character() {
    let e = try_parse("67e5504X-10b1-426f-9247-bb680e5fe0c8").unwrap_err();
    assert_eq!(e.span(), Some((7, 1)));
}

#[test]
fn group_length_error_spans_the_group() {
    let e = try_parse("67e5504-10b1-426f-9247-bb680e5fe0c8").unwrap_err();
    assert_eq!(e.span(), Some((0, 7)));
    let e = try_parse("{67e5504-10b1-426f-9247-bb680e5fe0c88}").unwrap_err();
    assert_eq!(e.span(), Some((1, 7)));
}

#[test]
fn whole_input_errors_have_no_span() {
    assert_eq!(ParseError::GroupCount { found: 6 }.span(), None);
    assert_eq!(ParseError::Length { found: 0 }.span(), None);
}

#[test]
fn renders_group_length_message() {
    let e = try_parse("67e55044-10b-1426f-9247-bb680e5fe0c8").unwrap_err();
    assert_eq!(e.message(), "invalid length: expected length 4 for group 1, found 3");
}

#[test]
fn renders_character_message() {
    let e = try_parse("67e55U44-10b1-426f-9247-bb680e5fe0c8").unwrap_err();
    assert_eq!(e, ParseError::Char { character: 'U', index: 5 });
    assert_eq!(e.message(), "invalid character: expected an ASCII hex digit, found U, at 5");
}

#[test]
fn renders_group_count_message() {
    let e = try_parse("67e55044-10b1-426f-9247-bb680e5fe0c8-extra").unwrap_err();
    assert_eq!(e.message(), "invalid number of groups: expected 5, found 6");
}

#[test]
fn renders_length_message() {
    let e = try_parse("").unwrap_err();
    assert_eq!(e.message(), "invalid length: expected 32, 36, 38 or 45 characters, found 0");
    let e = ParseError::Length { found: 120 };
    assert_eq!(e.message(), "invalid length: expected 32, 36, 38 or 45 characters, found 120");
}

#[test]
fn hex_width_counts_nibbles() {
    assert_eq!(char_hex_width('\u{0}'), 0);
    assert_eq!(char_hex_width('\u{f}'), 1);
    assert_eq!(char_hex_width('X'), 2);
    assert_eq!(char_hex_width('\u{e9}'), 2);
    assert_eq!(char_hex_width('\u{fff}'), 3);
    assert_eq!(char_hex_width('\u{1f600}'), 5);
    assert_eq!(char_hex_width(char::MAX), 6);
}
