//! The UUID literal parser.
//!
//! `try_parse` recognizes the four textual UUID forms — simple (32 hex
//! digits), hyphenated (8-4-4-4-12), braced hyphenated, and URN-prefixed
//! hyphenated — and decodes them into the canonical 16 bytes. Shape checks
//! (wrapping, group count, group and overall lengths) come before
//! character-class checks, and scanning stops at the first offending
//! character, so the error always names the first bad thing in the text.
//!
//! The whole behaviour is pinned down by the spec function [`parse_spec`]:
//! `try_parse` returns exactly what `parse_spec` says for its input, both on
//! success and on failure.

use vstd::prelude::*;

use crate::error::ParseError;

verus! {

/// An ASCII hex digit, either case.
pub open spec fn is_hex_digit(c: char) -> bool {
    ('0' <= c && c <= '9') || ('a' <= c && c <= 'f') || ('A' <= c && c <= 'F')
}

/// The numeric value of an ASCII hex digit (0 for anything else).
pub open spec fn hex_val(c: char) -> u8 {
    if '0' <= c && c <= '9' {
        (c as u32 - 48) as u8
    } else if 'a' <= c && c <= 'f' {
        (c as u32 - 87) as u8
    } else if 'A' <= c && c <= 'F' {
        (c as u32 - 55) as u8
    } else {
        0
    }
}

/// Byte `i` of the value denoted by 32 hex digits: digits `2i` and `2i + 1`
/// combined big-endian.
pub open spec fn byte_at(s: Seq<char>, i: int) -> u8 {
    (hex_val(s[2 * i]) * 16 + hex_val(s[2 * i + 1])) as u8
}

/// The 16 bytes denoted by a sequence of 32 hex digits.
pub open spec fn bytes_of(s: Seq<char>) -> Seq<u8> {
    Seq::new(16, |i: int| byte_at(s, i))
}

/// The first position at or after `i` holding a character that is not a hex
/// digit, or `s.len()` if every character from `i` on is one.
pub open spec fn first_non_hex_at(s: Seq<char>, i: int) -> int
    decreases s.len() - i,
{
    if i < 0 || i >= s.len() {
        s.len() as int
    } else if !is_hex_digit(s[i]) {
        i
    } else {
        first_non_hex_at(s, i + 1)
    }
}

/// The result of parsing a bare run of 32 hex digits (the simple form): the
/// first character that is not a hex digit is a `Char` error; otherwise the
/// run denotes its 16 decoded bytes.
pub open spec fn parse_simple_spec(s: Seq<char>) -> Result<Seq<u8>, ParseError> {
    let j = first_non_hex_at(s, 0);
    if j < s.len() {
        Err(ParseError::Char { character: s[j], index: j as usize })
    } else {
        Ok(bytes_of(s))
    }
}

/// The first position at or after `i` holding a hyphen, or `s.len()` if no
/// hyphen stands at or after `i`.
pub open spec fn next_hyphen(s: Seq<char>, i: int) -> int
    decreases s.len() - i,
{
    if i < 0 || i >= s.len() {
        s.len() as int
    } else if s[i] == '-' {
        i
    } else {
        next_hyphen(s, i + 1)
    }
}

/// How many hyphens stand at or after position `i`.
pub open spec fn hyphen_count(s: Seq<char>, i: int) -> int
    decreases s.len() - i,
{
    if i < 0 || i >= s.len() {
        0
    } else {
        (if s[i] == '-' {
            1int
        } else {
            0int
        }) + hyphen_count(s, i + 1)
    }
}

/// The expected hex-digit count of canonical group `k`: 8-4-4-4-12.
pub open spec fn group_len_expected(k: int) -> int {
    if k == 0 {
        8
    } else if k == 4 {
        12
    } else {
        4
    }
}

/// The position of the first character of group `k` when the body is split
/// on hyphens: group 0 starts at 0, each later group right after the hyphen
/// that ends the previous one.
pub open spec fn group_start(s: Seq<char>, k: int) -> int
    decreases k,
{
    if k <= 0 {
        0
    } else {
        next_hyphen(s, group_start(s, k - 1)) + 1
    }
}

/// One past the last character of group `k`: the next hyphen, or the end.
pub open spec fn group_end(s: Seq<char>, k: int) -> int {
    next_hyphen(s, group_start(s, k))
}

/// The observed hex-digit count of group `k`.
pub open spec fn group_len(s: Seq<char>, k: int) -> int {
    group_end(s, k) - group_start(s, k)
}

/// The first of the five groups whose observed length differs from the
/// expected 8-4-4-4-12, or 5 if every group has its expected length. The
/// last group reaches to the end of the body, so a body of the wrong
/// overall length always has a bad group.
pub open spec fn first_bad_group(s: Seq<char>) -> int {
    if group_len(s, 0) != 8 {
        0
    } else if group_len(s, 1) != 4 {
        1
    } else if group_len(s, 2) != 4 {
        2
    } else if group_len(s, 3) != 4 {
        3
    } else if group_len(s, 4) != 12 {
        4
    } else {
        5
    }
}

/// The 32 digit characters of a well-grouped 36-character hyphenated body:
/// everything but the hyphens at positions 8, 13, 18 and 23.
pub open spec fn hyphenated_digits(s: Seq<char>) -> Seq<char> {
    s.subrange(0, 8) + s.subrange(9, 13) + s.subrange(14, 18) + s.subrange(19, 23) + s.subrange(
        24,
        36,
    )
}

/// The position, in a well-grouped hyphenated body, of digit `j` of the
/// concatenated 32-digit form: each of the four hyphens passed so far
/// shifts the position right by one.
pub open spec fn digit_pos(j: int) -> int {
    if j < 8 {
        j
    } else if j < 12 {
        j + 1
    } else if j < 16 {
        j + 2
    } else if j < 20 {
        j + 3
    } else {
        j + 4
    }
}

/// The result of parsing a body that holds at least one hyphen, standing at
/// character offset `offset` of the original text (0 for a bare hyphenated
/// form, 1 inside braces, 9 after a URN prefix); all reported indices are
/// offsets into the original text. Shape first: anything but five groups is
/// a wrong group count, then the first group of wrong length is reported
/// (the last group reaching to the end of the body, so that a wrong overall
/// length surfaces as a wrong group length), and only then the first
/// character that is not a hex digit.
pub open spec fn parse_hyphenated_spec(s: Seq<char>, offset: int) -> Result<Seq<u8>, ParseError> {
    if hyphen_count(s, 0) != 4 {
        Err(
            ParseError::GroupCount {
                found: if hyphen_count(s, 0) + 1 > usize::MAX {
                    usize::MAX
                } else {
                    (hyphen_count(s, 0) + 1) as usize
                },
            },
        )
    } else if first_bad_group(s) < 5 {
        let k = first_bad_group(s);
        Err(
            ParseError::GroupLength {
                group: k as usize,
                index: (offset + group_start(s, k)) as usize,
                len_observed: group_len(s, k) as usize,
                len_expected: group_len_expected(k) as usize,
            },
        )
    } else {
        let d = hyphenated_digits(s);
        let j = first_non_hex_at(d, 0);
        if j < 32 {
            Err(ParseError::Char { character: d[j], index: (offset + digit_pos(j)) as usize })
        } else {
            Ok(bytes_of(d))
        }
    }
}

/// The result of parsing the body left after unwrapping: a body with
/// hyphens is analysed as the five canonical groups; a body without them is
/// the simple form, which must be bare (`offset` 0) and exactly 32
/// characters long, any other shape failing with a `Length` error that
/// cites the length `full` of the whole original text.
pub open spec fn parse_body_spec(b: Seq<char>, offset: int, full: int) -> Result<
    Seq<u8>,
    ParseError,
> {
    if hyphen_count(b, 0) != 0 {
        parse_hyphenated_spec(b, offset)
    } else if b.len() == 32 && offset == 0 {
        parse_simple_spec(b)
    } else {
        Err(ParseError::Length { found: full as usize })
    }
}

/// The nine characters `urn:uuid:`, each letter in either case.
pub open spec fn urn_prefix_ok(s: Seq<char>) -> bool {
    s.len() >= 9 && (s[0] == 'u' || s[0] == 'U') && (s[1] == 'r' || s[1] == 'R') && (s[2] == 'n'
        || s[2] == 'N') && s[3] == ':' && (s[4] == 'u' || s[4] == 'U') && (s[5] == 'u' || s[5]
        == 'U') && (s[6] == 'i' || s[6] == 'I') && (s[7] == 'd' || s[7] == 'D') && s[8] == ':'
}

/// The four characters `urn:`, letters in either case: the text means to
/// carry a URN prefix, even where the full prefix is malformed.
pub open spec fn starts_urn_marker(s: Seq<char>) -> bool {
    s.len() >= 4 && (s[0] == 'u' || s[0] == 'U') && (s[1] == 'r' || s[1] == 'R') && (s[2] == 'n'
        || s[2] == 'N') && s[3] == ':'
}

/// What `try_parse` returns, as a function of the input text.
///
/// A full `urn:uuid:` prefix or a balanced pair of braces is stripped
/// before the body is analysed. A text that begins `urn:` without the full
/// prefix, or carries an unbalanced brace, fails with a `Length` error
/// citing the whole text, before any body analysis.
pub open spec fn parse_spec(s: Seq<char>) -> Result<Seq<u8>, ParseError> {
    if urn_prefix_ok(s) {
        parse_body_spec(s.subrange(9, s.len() as int), 9, s.len() as int)
    } else if starts_urn_marker(s) {
        Err(ParseError::Length { found: s.len() as usize })
    } else if s.len() >= 2 && s[0] == '{' && s[s.len() - 1] == '}' {
        parse_body_spec(s.subrange(1, s.len() - 1), 1, s.len() as int)
    } else if s.len() >= 1 && (s[0] == '{' || s[s.len() - 1] == '}') {
        Err(ParseError::Length { found: s.len() as usize })
    } else {
        parse_body_spec(s, 0, s.len() as int)
    }
}

/// `r` carries exactly the outcome `sr`: the same 16 bytes on success, the
/// same structured error on failure.
pub open spec fn matches_outcome(r: Result<[u8; 16], ParseError>, sr: Result<
    Seq<u8>,
    ParseError,
>) -> bool {
    match sr {
        Ok(bs) => r is Ok && r->Ok_0@ == bs,
        Err(e) => r is Err && r->Err_0 == e,
    }
}

/// `r` is exactly what `parse_spec` says for the text `s`.
pub open spec fn result_matches(r: Result<[u8; 16], ParseError>, s: Seq<char>) -> bool {
    matches_outcome(r, parse_spec(s))
}

/// What the position returned by `first_non_hex_at` means: everything
/// before it (from `i` on) is a hex digit, and the character there, if any,
/// is not.
pub proof fn lemma_first_non_hex_props(s: Seq<char>, i: int)
    requires
        0 <= i <= s.len(),
    ensures
        i <= first_non_hex_at(s, i) <= s.len(),
        forall|k: int| i <= k < first_non_hex_at(s, i) ==> is_hex_digit(s[k]),
        first_non_hex_at(s, i) < s.len() ==> !is_hex_digit(s[first_non_hex_at(s, i)]),
    decreases s.len() - i,
{
    if i < s.len() && is_hex_digit(s[i]) {
        lemma_first_non_hex_props(s, i + 1);
    }
}

/// Positions before `j` hold only hex digits, so the scan for the first
/// non-hex character can as well start at `j`.
pub proof fn lemma_first_non_hex_skip(s: Seq<char>, j: int)
    requires
        0 <= j <= s.len(),
        forall|k: int| 0 <= k < j ==> is_hex_digit(s[k]),
    ensures
        first_non_hex_at(s, 0) == first_non_hex_at(s, j),
    decreases j,
{
    if j > 0 {
        lemma_first_non_hex_skip(s, j - 1);
        assert(first_non_hex_at(s, j - 1) == first_non_hex_at(s, j));
    }
}

/// How the hyphens at or after `i` lie: their count is never negative; if
/// there is one, the next one stands before the end and accounts for one of
/// the count; if there is none, the scan runs to the end.
proof fn lemma_next_hyphen_count(s: Seq<char>, i: int)
    requires
        0 <= i <= s.len(),
    ensures
        hyphen_count(s, i) >= 0,
        i <= next_hyphen(s, i) <= s.len(),
        hyphen_count(s, i) > 0 ==> next_hyphen(s, i) < s.len() && hyphen_count(
            s,
            next_hyphen(s, i) + 1,
        ) == hyphen_count(s, i) - 1,
        hyphen_count(s, i) == 0 ==> next_hyphen(s, i) == s.len(),
    decreases s.len() - i,
{
    if i < s.len() {
        lemma_next_hyphen_count(s, i + 1);
    }
}

/// In a well-grouped hyphenated body, digit `j` of the concatenated
/// 32-digit form is the character at `digit_pos(j)`.
pub proof fn lemma_digits_index(s: Seq<char>)
    requires
        s.len() == 36,
    ensures
        hyphenated_digits(s).len() == 32,
        forall|j: int| 0 <= j < 32 ==> hyphenated_digits(s)[j] == s[digit_pos(j)],
{
    assert forall|j: int| 0 <= j < 32 implies hyphenated_digits(s)[j] == s[digit_pos(j)] by {
        assert(hyphenated_digits(s)[j] == s[digit_pos(j)]);
    }
}

/// The shape a body must have for its hyphenated parse to succeed: exactly
/// 36 characters with the four hyphens at 8, 13, 18 and 23, every group of
/// its expected length, and all 32 digit positions hex.
pub proof fn lemma_hyphenated_ok_shape(b: Seq<char>, offset: int)
    requires
        parse_hyphenated_spec(b, offset) is Ok,
    ensures
        b.len() == 36,
        hyphen_count(b, 0) == 4,
        first_bad_group(b) == 5,
        next_hyphen(b, 0) == 8,
        next_hyphen(b, 9) == 13,
        next_hyphen(b, 14) == 18,
        next_hyphen(b, 19) == 23,
        next_hyphen(b, 24) == 36,
        group_start(b, 1) == 9,
        group_start(b, 2) == 14,
        group_start(b, 3) == 19,
        group_start(b, 4) == 24,
        first_non_hex_at(hyphenated_digits(b), 0) == 32,
        forall|k: int| 0 <= k < 32 ==> is_hex_digit(hyphenated_digits(b)[k]),
{
    assert(hyphen_count(b, 0) == 4);
    assert(first_bad_group(b) == 5);
    lemma_next_hyphen_count(b, 0);
    assert(group_start(b, 0) == 0);
    assert(next_hyphen(b, 0) == 8) by {
        assert(group_len(b, 0) == 8);
    }
    assert(group_start(b, 1) == 9);
    lemma_next_hyphen_count(b, 9);
    assert(next_hyphen(b, 9) == 13) by {
        assert(group_len(b, 1) == 4);
    }
    assert(group_start(b, 2) == 14);
    lemma_next_hyphen_count(b, 14);
    assert(next_hyphen(b, 14) == 18) by {
        assert(group_len(b, 2) == 4);
    }
    assert(group_start(b, 3) == 19);
    lemma_next_hyphen_count(b, 19);
    assert(next_hyphen(b, 19) == 23) by {
        assert(group_len(b, 3) == 4);
    }
    assert(group_start(b, 4) == 24);
    lemma_next_hyphen_count(b, 24);
    assert(hyphen_count(b, 24) == 0);
    assert(next_hyphen(b, 24) == b.len());
    assert(b.len() == 36) by {
        assert(group_len(b, 4) == 12);
    }
    let d = hyphenated_digits(b);
    lemma_digits_index(b);
    lemma_first_non_hex_props(d, 0);
    assert(first_non_hex_at(d, 0) == 32);
}

fn hex_digit(c: char) -> (r: bool)
    ensures
        r == is_hex_digit(c),
{
    let u = c as u32;
    (48 <= u && u <= 57) || (97 <= u && u <= 102) || (65 <= u && u <= 70)
}

fn hex_value(c: char) -> (r: u8)
    requires
        is_hex_digit(c),
    ensures
        r == hex_val(c),
        r < 16,
{
    let u = c as u32;
    if u <= 57 {
        (u - 48) as u8
    } else if u >= 97 {
        (u - 87) as u8
    } else {
        (u - 55) as u8
    }
}

/// The characters of `s`, in order, as a vector.
fn chars_of(s: &str) -> (r: Vec<char>)
    ensures
        r@ == s@,
{
    let n = s.unicode_len();
    let mut v: Vec<char> = Vec::new();
    let mut i: usize = 0;
    while i < n
        invariant
            n == s@.len(),
            i <= n,
            v@ == s@.subrange(0, i as int),
        decreases n - i,
    {
        v.push(s.get_char(i));
        i = i + 1;
        proof {
            assert(v@ =~= s@.subrange(0, i as int));
        }
    }
    proof {
        assert(v@ =~= s@);
    }
    v
}

/// Decode the simple form: `chars` must hold exactly 32 characters, all of
/// them hex digits; the first that is not is the error.
fn parse_simple(chars: &Vec<char>) -> (r: Result<[u8; 16], ParseError>)
    requires
        chars@.len() == 32,
    ensures
        matches_outcome(r, parse_simple_spec(chars@)),
{
    let mut bytes: [u8; 16] = [0;16];
    let mut i: usize = 0;
    while i < 16
        invariant
            chars@.len() == 32,
            i <= 16,
            forall|k: int| 0 <= k < 2 * i ==> is_hex_digit(chars@[k]),
            forall|k: int| 0 <= k < i ==> bytes@[k] == byte_at(chars@, k),
        decreases 16 - i,
    {
        let c1 = chars[2 * i];
        if !hex_digit(c1) {
            proof {
                lemma_first_non_hex_skip(chars@, 2 * i);
            }
            return Err(ParseError::Char { character: c1, index: 2 * i });
        }
        let c2 = chars[2 * i + 1];
        if !hex_digit(c2) {
            proof {
                lemma_first_non_hex_skip(chars@, 2 * i + 1);
            }
            return Err(ParseError::Char { character: c2, index: 2 * i + 1 });
        }
        bytes[i] = hex_value(c1) * 16 + hex_value(c2);
        i = i + 1;
    }
    proof {
        lemma_first_non_hex_skip(chars@, 32);
        assert(bytes@ =~= bytes_of(chars@));
    }
    Ok(bytes)
}

/// The position of the first hyphen at or after `i` in the window of
/// `chars` from `off` to `end`, counted from `off`.
fn find_hyphen(chars: &Vec<char>, off: usize, end: usize, i: usize) -> (r: usize)
    requires
        off <= end <= chars.len(),
        i <= end - off,
    ensures
        r == next_hyphen(chars@.subrange(off as int, end as int), i as int),
        i <= r <= end - off,
{
    let ghost body = chars@.subrange(off as int, end as int);
    let mut j: usize = i;
    while off + j < end
        invariant
            off <= end <= chars.len(),
            body == chars@.subrange(off as int, end as int),
            i <= j <= end - off,
            next_hyphen(body, i as int) == next_hyphen(body, j as int),
        decreases end - off - j,
    {
        if chars[off + j] == '-' {
            proof {
                assert(next_hyphen(body, j as int) == j);
            }
            return j;
        }
        j = j + 1;
    }
    j
}

/// The exec mirror of `digit_pos`.
fn digit_position(j: usize) -> (r: usize)
    requires
        j < 32,
    ensures
        r == digit_pos(j as int),
{
    if j < 8 {
        j
    } else if j < 12 {
        j + 1
    } else if j < 16 {
        j + 2
    } else if j < 20 {
        j + 3
    } else {
        j + 4
    }
}

/// Decode a well-grouped hyphenated body of `chars`, the 36-character
/// window starting at `off`; every reported index is an offset into `chars`
/// as a whole.
fn parse_digits(chars: &Vec<char>, off: usize) -> (r: Result<[u8; 16], ParseError>)
    requires
        off + 36 <= chars.len(),
        hyphen_count(chars@.subrange(off as int, off as int + 36), 0) == 4,
        first_bad_group(chars@.subrange(off as int, off as int + 36)) == 5,
    ensures
        matches_outcome(
            r,
            parse_hyphenated_spec(chars@.subrange(off as int, off as int + 36), off as int),
        ),
{
    let ghost body = chars@.subrange(off as int, off as int + 36);
    let ghost d = hyphenated_digits(body);
    proof {
        lemma_digits_index(body);
    }
    let mut bytes: [u8; 16] = [0;16];
    let mut i: usize = 0;
    while i < 16
        invariant
            off + 36 <= chars.len(),
            body == chars@.subrange(off as int, off as int + 36),
            hyphen_count(body, 0) == 4,
            first_bad_group(body) == 5,
            d == hyphenated_digits(body),
            d.len() == 32,
            forall|j: int| 0 <= j < 32 ==> d[j] == body[digit_pos(j)],
            i <= 16,
            forall|k: int| 0 <= k < 2 * i ==> is_hex_digit(d[k]),
            forall|k: int| 0 <= k < i ==> bytes@[k] == byte_at(d, k),
        decreases 16 - i,
    {
        let p1 = digit_position(2 * i);
        let c1 = chars[off + p1];
        if !hex_digit(c1) {
            proof {
                lemma_first_non_hex_skip(d, 2 * i);
            }
            return Err(ParseError::Char { character: c1, index: off + p1 });
        }
        let p2 = digit_position(2 * i + 1);
        let c2 = chars[off + p2];
        if !hex_digit(c2) {
            proof {
                lemma_first_non_hex_skip(d, 2 * i + 1);
            }
            return Err(ParseError::Char { character: c2, index: off + p2 });
        }
        bytes[i] = hex_value(c1) * 16 + hex_value(c2);
        i = i + 1;
    }
    proof {
        lemma_first_non_hex_skip(d, 32);
        assert(bytes@ =~= bytes_of(d));
    }
    Ok(bytes)
}

/// Analyse the unwrapped body, the window of `chars` from `off` to `end`:
/// hyphens mean the five-group form, none the simple form.
fn parse_body(chars: &Vec<char>, off: usize, end: usize) -> (r: Result<[u8; 16], ParseError>)
    requires
        off <= end <= chars.len(),
        off == 0 ==> end == chars.len(),
    ensures
        matches_outcome(
            r,
            parse_body_spec(chars@.subrange(off as int, end as int), off as int, chars@.len() as int),
        ),
{
    let ghost body = chars@.subrange(off as int, end as int);
    let blen = end - off;
    // Count the hyphens of the body.
    let mut cnt: usize = 0;
    let mut j: usize = 0;
    while j < blen
        invariant
            off <= end <= chars.len(),
            blen == end - off,
            body == chars@.subrange(off as int, end as int),
            j <= blen,
            cnt <= j,
            cnt + hyphen_count(body, j as int) == hyphen_count(body, 0),
        decreases blen - j,
    {
        if chars[off + j] == '-' {
            cnt = cnt + 1;
        }
        j = j + 1;
    }
    if cnt == 0 {
        // No hyphens: the simple form, which must be bare and exactly 32
        // characters long.
        if off == 0 && blen == 32 {
            proof {
                assert(body =~= chars@);
            }
            parse_simple(chars)
        } else {
            Err(ParseError::Length { found: chars.len() })
        }
    } else if cnt != 4 {
        // Hyphens split the body into anything but five groups. No text
        // that fits in memory brings the count near the top of `usize`, but
        // nothing here bounds it, so saturate as the model does.
        Err(
            ParseError::GroupCount {
                found: if cnt == usize::MAX {
                    usize::MAX
                } else {
                    cnt + 1
                },
            },
        )
    } else {
        // Locate the four hyphens; with exactly four of them each search
        // ends strictly before the end of the body.
        proof {
            lemma_next_hyphen_count(body, 0);
        }
        let h1 = find_hyphen(chars, off, end, 0);
        proof {
            lemma_next_hyphen_count(body, h1 + 1);
        }
        let h2 = find_hyphen(chars, off, end, h1 + 1);
        proof {
            lemma_next_hyphen_count(body, h2 + 1);
        }
        let h3 = find_hyphen(chars, off, end, h2 + 1);
        proof {
            lemma_next_hyphen_count(body, h3 + 1);
        }
        let h4 = find_hyphen(chars, off, end, h3 + 1);
        proof {
            lemma_next_hyphen_count(body, h4 + 1);
            assert(group_start(body, 0) == 0);
            assert(group_start(body, 1) == h1 + 1);
            assert(group_start(body, 2) == h2 + 1);
            assert(group_start(body, 3) == h3 + 1);
            assert(group_start(body, 4) == h4 + 1);
        }
        // The first group whose observed length differs from 8-4-4-4-12
        // wins; the last group reaches to the end of the body.
        if h1 != 8 {
            return Err(
                ParseError::GroupLength {
                    group: 0,
                    index: off,
                    len_observed: h1,
                    len_expected: 8,
                },
            );
        }
        if h2 - h1 - 1 != 4 {
            return Err(
                ParseError::GroupLength {
                    group: 1,
                    index: off + h1 + 1,
                    len_observed: h2 - h1 - 1,
                    len_expected: 4,
                },
            );
        }
        if h3 - h2 - 1 != 4 {
            return Err(
                ParseError::GroupLength {
                    group: 2,
                    index: off + h2 + 1,
                    len_observed: h3 - h2 - 1,
                    len_expected: 4,
                },
            );
        }
        if h4 - h3 - 1 != 4 {
            return Err(
                ParseError::GroupLength {
                    group: 3,
                    index: off + h3 + 1,
                    len_observed: h4 - h3 - 1,
                    len_expected: 4,
                },
            );
        }
        if blen - h4 - 1 != 12 {
            return Err(
                ParseError::GroupLength {
                    group: 4,
                    index: off + h4 + 1,
                    len_observed: blen - h4 - 1,
                    len_expected: 12,
                },
            );
        }
        proof {
            assert(first_bad_group(body) == 5);
            assert(body =~= chars@.subrange(off as int, off as int + 36));
        }
        parse_digits(chars, off)
    }
}

/// Whether the first nine characters spell `urn:uuid:`, letters in either
/// case.
fn urn_prefix(chars: &Vec<char>) -> (r: bool)
    requires
        chars@.len() >= 9,
    ensures
        r == urn_prefix_ok(chars@),
{
    let c0 = chars[0];
    let c1 = chars[1];
    let c2 = chars[2];
    let c4 = chars[4];
    let c5 = chars[5];
    let c6 = chars[6];
    let c7 = chars[7];
    (c0 == 'u' || c0 == 'U') && (c1 == 'r' || c1 == 'R') && (c2 == 'n' || c2 == 'N') && chars[3]
        == ':' && (c4 == 'u' || c4 == 'U') && (c5 == 'u' || c5 == 'U') && (c6 == 'i' || c6 == 'I')
        && (c7 == 'd' || c7 == 'D') && chars[8] == ':'
}

/// Whether the first four characters spell `urn:`, letters in either case.
fn urn_marker(chars: &Vec<char>) -> (r: bool)
    requires
        chars@.len() >= 4,
    ensures
        r == starts_urn_marker(chars@),
{
    let c0 = chars[0];
    let c1 = chars[1];
    let c2 = chars[2];
    (c0 == 'u' || c0 == 'U') && (c1 == 'r' || c1 == 'R') && (c2 == 'n' || c2 == 'N') && chars[3]
        == ':'
}

/// Parse a UUID string literal into its canonical 16 bytes.
///
/// The recognized forms are auto-detected: the simple form (exactly 32 hex
/// digits), the hyphenated form (8-4-4-4-12 hex digits), the hyphenated
/// form in braces, and the hyphenated form after a `urn:uuid:` prefix
/// (matched case-insensitively). Shape is checked before characters: a
/// malformed prefix, an unbalanced brace or a wrong overall length is a
/// `Length` error; a hyphenated body with anything but five groups is a
/// `GroupCount` error; then the first group of wrong length is a
/// `GroupLength` error; and only then the first character that is not an
/// ASCII hex digit is a `Char` error. Indices in errors are character
/// offsets into `s`. The result is exactly `parse_spec(s@)`, so equal texts
/// always parse to equal outcomes.
pub fn try_parse(s: &str) -> (r: Result<[u8; 16], ParseError>)
    ensures
        result_matches(r, s@),
{
    let chars = chars_of(s);
    let n = chars.len();
    if n >= 9 && urn_prefix(&chars) {
        parse_body(&chars, 9, n)
    } else if n >= 4 && urn_marker(&chars) {
        Err(ParseError::Length { found: n })
    } else if n >= 2 && chars[0] == '{' && chars[n - 1] == '}' {
        parse_body(&chars, 1, n - 1)
    } else if n >= 1 && (chars[0] == '{' || chars[n - 1] == '}') {
        Err(ParseError::Length { found: n })
    } else {
        proof {
            assert(chars@.subrange(0, n as int) =~= chars@);
        }
        parse_body(&chars, 0, n)
    }
}

} // verus!
