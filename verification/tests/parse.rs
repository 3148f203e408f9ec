use uuid_macro_internal::try_parse;
use uuid_macro_internal::ParseError;

const BYTES: [u8; 16] = [
    0x67, 0xe5, 0x50, 0x44, 0x10, 0xb1, 0x42, 0x6f, 0x92, 0x47, 0xbb, 0x68, 0x0e, 0x5f, 0xe0,
    0xc8,
];

#[test]
fn parses_hyphenated() {
    assert_eq!(try_parse("67e55044-10b1-426f-9247-bb680e5fe0c8"), Ok(BYTES));
}

#[test]
fn parses_simple() {
    assert_eq!(try_parse("67e5504410b1426f9247bb680e5fe0c8"), Ok(BYTES));
}

#[test]
fn parses_braced() {
    assert_eq!(try_parse("{67e55044-10b1-426f-9247-bb680e5fe0c8}"), Ok(BYTES));
}

#[test]
fn parses_urn() {
    assert_eq!(try_parse("urn:uuid:67e55044-10b1-426f-9247-bb680e5fe0c8"), Ok(BYTES));
}

#[test]
fn parses_urn_prefix_any_case() {
    assert_eq!(try_parse("URN:UUID:67e55044-10b1-426f-9247-bb680e5fe0c8"), Ok(BYTES));
    assert_eq!(try_parse("Urn:Uuid:67e55044-10b1-426f-9247-bb680e5fe0c8"), Ok(BYTES));
}

#[test]
fn case_does_not_matter() {
    let lower = "67e55044-10b1-426f-9247-bb680e5fe0c8";
    assert_eq!(try_parse(&lower.to_uppercase()), try_parse(lower));
    assert_eq!(try_parse("67E55044-10B1-426F-9247-BB680E5FE0C8"), Ok(BYTES));
    assert_eq!(try_parse("67e55044-10B1-426f-9247-Bb680E5fe0c8"), Ok(BYTES));
}

#[test]
fn parsing_is_deterministic() {
    let text = "67e55044-10b1-426f-9247-bb680e5fe0c8";
    assert_eq!(try_parse(text), try_parse(text));
    let bad = "67e5504X-10b1-426f-9247-bb680e5fe0c8";
    assert_eq!(try_parse(bad), try_parse(bad));
}

#[test]
fn wrapped_forms_agree_with_bare() {
    let body = "67e55044-10b1-426f-9247-bb680e5fe0c8";
    let braced = format!("{{{}}}", body);
    let urn = format!("urn:uuid:{}", body);
    assert_eq!(try_parse(&braced), try_parse(body));
    assert_eq!(try_parse(&urn), try_parse(body));
    assert!(try_parse(body).is_ok());
}

#[test]
fn canonical_text_round_trips() {
    for bytes in [BYTES, [0u8; 16], [0xffu8; 16], [0x0fu8; 16]] {
        let mut text = String::new();
        for (i, b) in bytes.iter().enumerate() {
            if i == 4 || i == 6 || i == 8 || i == 10 {
                text.push('-');
            }
            text.push_str(&format!("{:02x}", b));
        }
        assert_eq!(text.len(), 36);
        assert_eq!(try_parse(&text), Ok(bytes));
    }
}

#[test]
fn rejects_extra_group() {
    assert_eq!(
        try_parse("67e55044-10b1-426f-9247-bb680e5fe0c8-extra"),
        Err(ParseError::GroupCount { found: 6 }),
    );
}

#[test]
fn rejects_bad_character() {
    assert_eq!(
        try_parse("67e5504X-10b1-426f-9247-bb680e5fe0c8"),
        Err(ParseError::Char { character: 'X', index: 7 }),
    );
}

#[test]
fn rejects_non_ascii_character() {
    assert_eq!(
        try_parse("67e5504\u{e9}-10b1-426f-9247-bb680e5fe0c8"),
        Err(ParseError::Char { character: '\u{e9}', index: 7 }),
    );
}

#[test]
fn rejects_short_first_group() {
    assert_eq!(
        try_parse("67e5504-10b1-426f-9247-bb680e5fe0c8"),
        Err(ParseError::GroupLength { group: 0, index: 0, len_observed: 7, len_expected: 8 }),
    );
}

#[test]
fn rejects_short_middle_group() {
    assert_eq!(
        try_parse("67e55044-10b-1426f-9247-bb680e5fe0c8"),
        Err(ParseError::GroupLength { group: 1, index: 9, len_observed: 3, len_expected: 4 }),
    );
}

#[test]
fn rejects_short_last_group() {
    assert_eq!(
        try_parse("67e55044-10b1-426f-9247-bb680e5fe0c"),
        Err(ParseError::GroupLength { group: 4, index: 24, len_observed: 11, len_expected: 12 }),
    );
}

#[test]
fn rejects_empty_with_length_error() {
    assert_eq!(try_parse(""), Err(ParseError::Length { found: 0 }));
}

#[test]
fn rejects_wrong_simple_length() {
    assert_eq!(
        try_parse("67e5504410b1426f9247bb680e5fe0c8f"),
        Err(ParseError::Length { found: 33 }),
    );
    assert_eq!(
        try_parse("67e5504410b1426f9247bb680e5fe0c"),
        Err(ParseError::Length { found: 31 }),
    );
    // 36 characters without a single hyphen are a wrong-length simple form,
    // not a hyphenated one.
    assert_eq!(
        try_parse("67e5504410b1426f9247bb680e5fe0c8abcd"),
        Err(ParseError::Length { found: 36 }),
    );
}

#[test]
fn rejects_braced_simple() {
    assert_eq!(
        try_parse("{67e5504410b1426f9247bb680e5fe0c8}"),
        Err(ParseError::Length { found: 34 }),
    );
}

#[test]
fn rejects_unbalanced_braces() {
    assert_eq!(
        try_parse("{67e55044-10b1-426f-9247-bb680e5fe0c8"),
        Err(ParseError::Length { found: 37 }),
    );
    assert_eq!(
        try_parse("67e55044-10b1-426f-9247-bb680e5fe0c8}"),
        Err(ParseError::Length { found: 37 }),
    );
}

#[test]
fn rejects_malformed_urn_prefix() {
    assert_eq!(
        try_parse("urn:uuxd:67e55044-10b1-426f-9247-bb680e5fe0c8"),
        Err(ParseError::Length { found: 45 }),
    );
}

#[test]
fn reports_indices_of_the_original_text() {
    assert_eq!(
        try_parse("{67e5504X-10b1-426f-9247-bb680e5fe0c8}"),
        Err(ParseError::Char { character: 'X', index: 8 }),
    );
    assert_eq!(
        try_parse("urn:uuid:67e5504X-10b1-426f-9247-bb680e5fe0c8"),
        Err(ParseError::Char { character: 'X', index: 16 }),
    );
    assert_eq!(
        try_parse("{67e5504-10b1-426f-9247-bb680e5fe0c88}"),
        Err(ParseError::GroupLength { group: 0, index: 1, len_observed: 7, len_expected: 8 }),
    );
}

#[test]
fn shape_errors_come_before_character_errors() {
    // A bad character in a body of the wrong shape is not reported: the
    // shape error wins.
    assert_eq!(
        try_parse("67e5504X-10b1-426f-9247-bb680e5fe0c8-e"),
        Err(ParseError::GroupCount { found: 6 }),
    );
    assert_eq!(
        try_parse("67e5504X-10b1-426f-9247-bb680e5fe0c88"),
        Err(ParseError::GroupLength { group: 4, index: 24, len_observed: 13, len_expected: 12 }),
    );
}
