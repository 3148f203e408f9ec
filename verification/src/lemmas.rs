//! General facts about the parser, stated and proved once over the spec
//! model: the canonical text of any 16-byte value parses back to it, case
//! does not matter for valid texts, and braces or a URN prefix around a
//! valid hyphenated body change nothing of the decoded bytes.

use vstd::prelude::*;

use crate::error::ParseError;
use crate::parser::bytes_of;
use crate::parser::digit_pos;
use crate::parser::first_bad_group;
use crate::parser::first_non_hex_at;
use crate::parser::group_start;
use crate::parser::hex_val;
use crate::parser::hyphen_count;
use crate::parser::hyphenated_digits;
use crate::parser::is_hex_digit;
use crate::parser::lemma_digits_index;
use crate::parser::lemma_first_non_hex_props;
use crate::parser::lemma_first_non_hex_skip;
use crate::parser::lemma_hyphenated_ok_shape;
use crate::parser::next_hyphen;
use crate::parser::parse_body_spec;
use crate::parser::parse_hyphenated_spec;
use crate::parser::parse_spec;
use crate::parser::starts_urn_marker;
use crate::parser::urn_prefix_ok;

verus! {

/// The lowercase hex digit with value `v` (for `v` below 16).
pub open spec fn hex_char_lower(v: u8) -> char {
    if v == 0 {
        '0'
    } else if v == 1 {
        '1'
    } else if v == 2 {
        '2'
    } else if v == 3 {
        '3'
    } else if v == 4 {
        '4'
    } else if v == 5 {
        '5'
    } else if v == 6 {
        '6'
    } else if v == 7 {
        '7'
    } else if v == 8 {
        '8'
    } else if v == 9 {
        '9'
    } else if v == 10 {
        'a'
    } else if v == 11 {
        'b'
    } else if v == 12 {
        'c'
    } else if v == 13 {
        'd'
    } else if v == 14 {
        'e'
    } else {
        'f'
    }
}

/// Which digit of the concatenated 32-digit form stands at position `j` of
/// a canonical hyphenated body: `j` less the hyphens passed so far.
pub open spec fn inv_digit_pos(j: int) -> int {
    if j < 8 {
        j
    } else if j < 13 {
        j - 1
    } else if j < 18 {
        j - 2
    } else if j < 23 {
        j - 3
    } else {
        j - 4
    }
}

/// Character `j` of the canonical hyphenated lowercase text of `bytes`: a
/// hyphen at positions 8, 13, 18 and 23, elsewhere the high or low nibble
/// of the byte that digit belongs to.
pub open spec fn canonical_char(bytes: Seq<u8>, j: int) -> char {
    if j == 8 || j == 13 || j == 18 || j == 23 {
        '-'
    } else {
        let d = inv_digit_pos(j);
        if d % 2 == 0 {
            hex_char_lower(bytes[d / 2] / 16)
        } else {
            hex_char_lower(bytes[d / 2] % 16)
        }
    }
}

/// The canonical textual form of a 16-byte value: 36 characters, the 32
/// lowercase hex digits in order, hyphenated 8-4-4-4-12.
pub open spec fn canonical_form(bytes: Seq<u8>) -> Seq<char> {
    Seq::new(36, |j: int| canonical_char(bytes, j))
}

/// A lowercase hex digit is a hex digit, is not a hyphen, and denotes its
/// own value.
proof fn lemma_hex_char_lower_props(v: u8)
    ensures
        is_hex_digit(hex_char_lower(v)),
        hex_char_lower(v) != '-',
        v < 16 ==> hex_val(hex_char_lower(v)) == v,
{
}

/// Every character of the canonical text is a hex digit or one of the four
/// hyphens.
proof fn lemma_canonical_char_class(bytes: Seq<u8>, j: int)
    requires
        bytes.len() == 16,
        0 <= j < 36,
    ensures
        (j == 8 || j == 13 || j == 18 || j == 23) ==> canonical_form(bytes)[j] == '-',
        !(j == 8 || j == 13 || j == 18 || j == 23) ==> is_hex_digit(canonical_form(bytes)[j])
            && canonical_form(bytes)[j] != '-',
{
    if !(j == 8 || j == 13 || j == 18 || j == 23) {
        if inv_digit_pos(j) % 2 == 0 {
            lemma_hex_char_lower_props(bytes[inv_digit_pos(j) / 2] / 16);
        } else {
            lemma_hex_char_lower_props(bytes[inv_digit_pos(j) / 2] % 16);
        }
    }
}

/// Scanning the canonical text from position `i`: the hyphens left to see
/// are exactly those of 8, 13, 18 and 23 at or after `i`, and the next one
/// is the nearest of them.
proof fn lemma_canonical_hyphens(bytes: Seq<u8>, i: int)
    requires
        bytes.len() == 16,
        0 <= i <= 36,
    ensures
        hyphen_count(canonical_form(bytes), i) == (if i <= 8 {
            4int
        } else if i <= 13 {
            3int
        } else if i <= 18 {
            2int
        } else if i <= 23 {
            1int
        } else {
            0int
        }),
        next_hyphen(canonical_form(bytes), i) == (if i <= 8 {
            8int
        } else if i <= 13 {
            13int
        } else if i <= 18 {
            18int
        } else if i <= 23 {
            23int
        } else {
            36int
        }),
    decreases 36 - i,
{
    if i < 36 {
        lemma_canonical_hyphens(bytes, i + 1);
        lemma_canonical_char_class(bytes, i);
    }
}

/// Round-trip: the canonical hyphenated lowercase 36-character text of any
/// 16-byte value parses back to exactly those bytes; `try_parse` returns
/// what `parse_spec` says, so the text parses back via `try_parse` too.
pub proof fn lemma_round_trip(bytes: Seq<u8>)
    requires
        bytes.len() == 16,
    ensures
        parse_spec(canonical_form(bytes)) == Ok::<Seq<u8>, ParseError>(bytes),
{
    let cf = canonical_form(bytes);
    assert(cf.len() == 36);
    // The text is neither URN-prefixed nor braced: the characters that
    // would mark it are hex digits or hyphens.
    lemma_canonical_char_class(bytes, 0);
    lemma_canonical_char_class(bytes, 3);
    lemma_canonical_char_class(bytes, 35);
    assert(!urn_prefix_ok(cf));
    assert(!starts_urn_marker(cf));
    assert(parse_spec(cf) == parse_body_spec(cf, 0, 36));
    // The four hyphens stand exactly at 8, 13, 18 and 23.
    lemma_canonical_hyphens(bytes, 0);
    lemma_canonical_hyphens(bytes, 9);
    lemma_canonical_hyphens(bytes, 14);
    lemma_canonical_hyphens(bytes, 19);
    lemma_canonical_hyphens(bytes, 24);
    assert(group_start(cf, 0) == 0);
    assert(group_start(cf, 1) == 9);
    assert(group_start(cf, 2) == 14);
    assert(group_start(cf, 3) == 19);
    assert(group_start(cf, 4) == 24);
    assert(first_bad_group(cf) == 5);
    // Digit for digit, the text holds the nibbles of `bytes`, so decoding
    // gives `bytes` back.
    lemma_digits_index(cf);
    let d = hyphenated_digits(cf);
    assert forall|k: int| 0 <= k < 32 implies is_hex_digit(d[k]) && hex_val(d[k]) == (if k % 2 == 0 {
        bytes[k / 2] / 16
    } else {
        bytes[k / 2] % 16
    }) by {
        assert(d[k] == cf[digit_pos(k)]);
        assert(inv_digit_pos(digit_pos(k)) == k);
        if k % 2 == 0 {
            lemma_hex_char_lower_props(bytes[k / 2] / 16);
        } else {
            lemma_hex_char_lower_props(bytes[k / 2] % 16);
        }
    }
    lemma_first_non_hex_skip(d, 32);
    assert(first_non_hex_at(d, 0) == 32);
    assert(bytes_of(d) =~= bytes);
}

/// A valid text of length 36 is a bare hyphenated body: no other unwrapping
/// leaves a body that can parse.
proof fn lemma_valid_36_is_bare(body: Seq<char>)
    requires
        body.len() == 36,
        parse_spec(body) is Ok,
    ensures
        !urn_prefix_ok(body),
        !starts_urn_marker(body),
        !(body[0] == '{' && body[35] == '}'),
        !(body[0] == '{' || body[35] == '}'),
        hyphen_count(body, 0) != 0,
        parse_spec(body) == parse_hyphenated_spec(body, 0),
{
    if urn_prefix_ok(body) {
        let b = body.subrange(9, 36);
        assert(parse_body_spec(b, 9, 36) is Ok);
        assert(parse_hyphenated_spec(b, 9) is Ok);
        lemma_hyphenated_ok_shape(b, 9);
        assert(false);
    }
    if body[0] == '{' && body[35] == '}' {
        let b = body.subrange(1, 35);
        assert(parse_body_spec(b, 1, 36) is Ok);
        assert(parse_hyphenated_spec(b, 1) is Ok);
        lemma_hyphenated_ok_shape(b, 1);
        assert(false);
    }
    assert(parse_spec(body) == parse_body_spec(body, 0, 36));
    if hyphen_count(body, 0) == 0 {
        assert(parse_body_spec(body, 0, 36) is Err);
        assert(false);
    }
    lemma_hyphenated_ok_shape(body, 0);
    lemma_digits_index(body);
    assert(is_hex_digit(body[0]));
    assert(is_hex_digit(hyphenated_digits(body)[31]));
    assert(body[digit_pos(31)] == hyphenated_digits(body)[31]);
    assert(is_hex_digit(body[35]));
}

/// Brace/URN equivalence: wrapping a valid 36-character hyphenated body in
/// braces, or putting the `urn:uuid:` prefix in front of it, parses to
/// exactly the same outcome as the bare body.
pub proof fn lemma_brace_urn_equivalence(body: Seq<char>)
    requires
        body.len() == 36,
        parse_spec(body) is Ok,
    ensures
        parse_spec(seq!['{'] + body + seq!['}']) == parse_spec(body),
        parse_spec(seq!['u', 'r', 'n', ':', 'u', 'u', 'i', 'd', ':'] + body) == parse_spec(body),
{
    lemma_valid_36_is_bare(body);
    lemma_hyphenated_ok_shape(body, 0);
    let braced = seq!['{'] + body + seq!['}'];
    let urn = seq!['u', 'r', 'n', ':', 'u', 'u', 'i', 'd', ':'] + body;
    assert(braced.len() == 38);
    assert(braced[0] == '{');
    assert(braced[37] == '}');
    assert(!urn_prefix_ok(braced));
    assert(!starts_urn_marker(braced));
    assert(braced.subrange(1, 37) =~= body);
    assert(urn.len() == 45);
    assert(urn_prefix_ok(urn));
    assert(urn.subrange(9, 45) =~= body);
    // The offset the wrappers add shows up only in error indices, and a
    // valid body raises none.
    assert(parse_hyphenated_spec(body, 1) == parse_hyphenated_spec(body, 0));
    assert(parse_hyphenated_spec(body, 9) == parse_hyphenated_spec(body, 0));
}

/// The ASCII uppercasing of one character: lowercase letters move to their
/// uppercase form, everything else stays.
pub open spec fn to_upper(c: char) -> char {
    if 'a' <= c && c <= 'z' {
        ((c as u32) - 32) as char
    } else {
        c
    }
}

/// The ASCII uppercasing of a text, character by character. On any text the
/// parser accepts this agrees with Unicode uppercasing, since valid texts
/// hold only ASCII characters that uppercase one-to-one.
pub open spec fn upper_seq(s: Seq<char>) -> Seq<char> {
    Seq::new(s.len(), |i: int| to_upper(s[i]))
}

/// Uppercasing keeps hex digits hex digits with the same value, makes
/// nothing a hex digit or a hyphen that was not one, and keeps hyphens.
proof fn lemma_to_upper_char(c: char)
    ensures
        is_hex_digit(to_upper(c)) == is_hex_digit(c),
        is_hex_digit(c) ==> hex_val(to_upper(c)) == hex_val(c),
        (to_upper(c) == '-') == (c == '-'),
{
}

/// Uppercasing moves no hyphen: hyphen counts and positions agree between a
/// text and its uppercased form.
proof fn lemma_upper_hyphens(s: Seq<char>, i: int)
    requires
        0 <= i <= s.len(),
    ensures
        hyphen_count(upper_seq(s), i) == hyphen_count(s, i),
        next_hyphen(upper_seq(s), i) == next_hyphen(s, i),
    decreases s.len() - i,
{
    if i < s.len() {
        lemma_to_upper_char(s[i]);
        lemma_upper_hyphens(s, i + 1);
    }
}

/// A valid hyphenated body and its uppercased form parse to the same
/// outcome, wherever the body stands in the original text.
proof fn lemma_upper_hyphenated(b: Seq<char>, offset: int)
    requires
        parse_hyphenated_spec(b, offset) is Ok,
    ensures
        parse_hyphenated_spec(upper_seq(b), offset) == parse_hyphenated_spec(b, offset),
{
    lemma_hyphenated_ok_shape(b, offset);
    let u = upper_seq(b);
    assert(u.len() == 36);
    // The four hyphens stand where the group lengths put them, in both
    // texts alike.
    lemma_upper_hyphens(b, 0);
    lemma_upper_hyphens(b, 9);
    lemma_upper_hyphens(b, 14);
    lemma_upper_hyphens(b, 19);
    lemma_upper_hyphens(b, 24);
    assert(group_start(u, 0) == 0 && group_start(b, 0) == 0);
    assert(group_start(u, 1) == 9);
    assert(group_start(u, 2) == 14);
    assert(group_start(u, 3) == 19);
    assert(group_start(u, 4) == 24);
    assert(first_bad_group(u) == 5);
    // Digit for digit, the uppercased body holds the uppercased digit, so
    // everything stays hex with the same value.
    let db = hyphenated_digits(b);
    let du = hyphenated_digits(u);
    lemma_digits_index(b);
    lemma_digits_index(u);
    assert forall|k: int| 0 <= k < 32 implies du[k] == to_upper(db[k]) by {
        assert(db[k] == b[digit_pos(k)]);
        assert(du[k] == u[digit_pos(k)]);
    }
    assert forall|k: int| 0 <= k < 32 implies is_hex_digit(du[k]) && hex_val(du[k]) == hex_val(
        db[k],
    ) by {
        lemma_to_upper_char(db[k]);
    }
    lemma_first_non_hex_skip(du, 32);
    assert(first_non_hex_at(du, 0) == 32);
    assert(bytes_of(du) =~= bytes_of(db));
}

/// Case insensitivity: a text the parser accepts parses to the same bytes
/// after uppercasing; `try_parse(s)` and `try_parse` of the uppercased `s`
/// agree on every valid `s`.
pub proof fn lemma_case_insensitive(s: Seq<char>)
    requires
        parse_spec(s) is Ok,
    ensures
        parse_spec(upper_seq(s)) == parse_spec(s),
{
    let u = upper_seq(s);
    assert(u.len() == s.len());
    if urn_prefix_ok(s) {
        let body = s.subrange(9, s.len() as int);
        assert(parse_body_spec(body, 9, s.len() as int) is Ok);
        assert(parse_hyphenated_spec(body, 9) is Ok);
        lemma_hyphenated_ok_shape(body, 9);
        assert(urn_prefix_ok(u));
        assert(u.subrange(9, u.len() as int) =~= upper_seq(body));
        lemma_upper_hyphens(body, 0);
        lemma_upper_hyphenated(body, 9);
    } else if starts_urn_marker(s) {
        assert(false);
    } else if s.len() >= 2 && s[0] == '{' && s[s.len() - 1] == '}' {
        let body = s.subrange(1, s.len() - 1);
        assert(parse_body_spec(body, 1, s.len() as int) is Ok);
        assert(parse_hyphenated_spec(body, 1) is Ok);
        lemma_hyphenated_ok_shape(body, 1);
        assert(s.len() == 38);
        assert(u[0] == '{' && u[37] == '}');
        assert(!urn_prefix_ok(u));
        assert(!starts_urn_marker(u));
        assert(u.subrange(1, 37) =~= upper_seq(body));
        lemma_upper_hyphens(body, 0);
        lemma_upper_hyphenated(body, 1);
    } else if s.len() >= 1 && (s[0] == '{' || s[s.len() - 1] == '}') {
        assert(false);
    } else {
        assert(parse_spec(s) == parse_body_spec(s, 0, s.len() as int));
        if hyphen_count(s, 0) != 0 {
            assert(parse_hyphenated_spec(s, 0) is Ok);
            lemma_hyphenated_ok_shape(s, 0);
            lemma_digits_index(s);
            assert(s[digit_pos(0)] == hyphenated_digits(s)[0]);
            assert(s[digit_pos(3)] == hyphenated_digits(s)[3]);
            assert(s[digit_pos(31)] == hyphenated_digits(s)[31]);
            assert(is_hex_digit(s[0]) && is_hex_digit(s[3]) && is_hex_digit(s[35]));
            lemma_to_upper_char(s[0]);
            lemma_to_upper_char(s[3]);
            lemma_to_upper_char(s[35]);
            assert(!urn_prefix_ok(u));
            assert(!starts_urn_marker(u));
            assert(!(u[0] == '{' || u[35] == '}'));
            lemma_upper_hyphens(s, 0);
            lemma_upper_hyphenated(s, 0);
        } else {
            // The simple form: 32 hex digits, every one of which uppercases
            // to a hex digit of the same value.
            assert(s.len() == 32);
            lemma_first_non_hex_props(s, 0);
            assert(first_non_hex_at(s, 0) == 32);
            assert forall|k: int| 0 <= k < 32 implies is_hex_digit(u[k]) && hex_val(u[k])
                == hex_val(s[k]) by {
                lemma_to_upper_char(s[k]);
            }
            lemma_to_upper_char(s[0]);
            lemma_to_upper_char(s[3]);
            lemma_to_upper_char(s[31]);
            assert(!urn_prefix_ok(u));
            assert(!starts_urn_marker(u));
            assert(!(u[0] == '{' || u[31] == '}'));
            lemma_upper_hyphens(s, 0);
            lemma_first_non_hex_skip(u, 32);
            assert(first_non_hex_at(u, 0) == 32);
            assert(bytes_of(u) =~= bytes_of(s));
        }
    }
}

} // verus!
