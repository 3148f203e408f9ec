//! Structured parse errors.
//!
//! Each variant carries enough data to compute, without re-scanning the
//! input, the exact substring of the original text that is responsible for
//! the failure, and to render a single-line human-readable message.

use vstd::prelude::*;

verus! {

/// Why parsing failed.
///
/// All indices and lengths count characters of the original input text
/// (including any braces or URN prefix), not bytes.
#[derive(Clone, Copy, PartialEq, Eq, Structural, Debug)]
pub enum ParseError {
    /// The hyphenated body did not split into the five canonical groups;
    /// `found` is the number of hyphen-delimited groups observed.
    GroupCount { found: usize },
    /// A specific group (0-based among the five canonical groups) has the
    /// wrong number of hex digits. `index` is the character offset of the
    /// group's first character.
    GroupLength { group: usize, index: usize, len_observed: usize, len_expected: usize },
    /// A character that is not an ASCII hex digit stands where a hex digit
    /// was expected. `index` is its character offset.
    Char { character: char, index: usize },
    /// The overall length fits none of the recognized formats before any
    /// group splitting was attempted.
    Length { found: usize },
}

impl ParseError {
    /// The `(start, length)` highlight span in the original text, for the
    /// variants that concern a proper substring; `None` means the whole
    /// input should be highlighted.
    pub open spec fn span_spec(self) -> Option<(usize, usize)> {
        match self {
            ParseError::Char { character: _, index } => Some((index, 1)),
            ParseError::GroupLength { group: _, index, len_observed, len_expected: _ } => Some(
                (index, len_observed),
            ),
            _ => None,
        }
    }

    /// The highlight span of this error, as `span_spec` states it.
    pub fn span(&self) -> (r: Option<(usize, usize)>)
        ensures
            r == self.span_spec(),
    {
        match *self {
            ParseError::Char { character: _, index } => Some((index, 1)),
            ParseError::GroupLength { group: _, index, len_observed, len_expected: _ } => Some(
                (index, len_observed),
            ),
            _ => None,
        }
    }
}

/// How many hex digits a code point `n` prints as: the count of nibbles up
/// to and including its most significant nonzero one (zero for zero).
pub open spec fn nibble_width(n: int) -> int
    decreases n,
{
    if n <= 0 {
        0
    } else {
        1 + nibble_width(n / 16)
    }
}

spec fn pow16(k: int) -> int
    decreases k,
{
    if k <= 0 {
        1
    } else {
        16 * pow16(k - 1)
    }
}

proof fn lemma_nibble_width_nonneg(n: int)
    ensures
        nibble_width(n) >= 0,
    decreases n,
{
    if n > 0 {
        lemma_nibble_width_nonneg(n / 16);
    }
}

proof fn lemma_nibble_width_le(n: int, k: int)
    requires
        0 <= n,
        0 <= k,
        n < pow16(k),
    ensures
        nibble_width(n) <= k,
    decreases k,
{
    if n > 0 {
        lemma_nibble_width_le(n / 16, k - 1);
    }
}

/// The width, in characters, of the code point of `c` written as hex
/// digits: what an embedding layer widens a `Char` highlight to when the
/// offending character prints as an escape. Zero for the NUL character.
pub fn char_hex_width(c: char) -> (r: usize)
    ensures
        r == nibble_width(c as int),
{
    proof {
        assert(pow16(0) == 1);
        assert(pow16(1) == 16);
        assert(pow16(2) == 256);
        assert(pow16(3) == 4096);
        assert(pow16(4) == 65536);
        assert(pow16(5) == 1048576);
        assert(pow16(6) == 16777216);
        lemma_nibble_width_le(c as int, 6);
    }
    let mut bits = c as u32;
    let mut width: usize = 0;
    while bits != 0
        invariant
            width + nibble_width(bits as int) == nibble_width(c as int),
            nibble_width(c as int) <= 6,
        decreases bits,
    {
        proof {
            lemma_nibble_width_nonneg(bits as int / 16);
        }
        bits = bits / 16;
        width = width + 1;
    }
    proof {
        lemma_nibble_width_nonneg(c as int);
    }
    width
}

/// The decimal digit with value `d` (for `d` below 10).
pub open spec fn dec_digit_char(d: int) -> char {
    if d == 1 {
        '1'
    } else if d == 2 {
        '2'
    } else if d == 3 {
        '3'
    } else if d == 4 {
        '4'
    } else if d == 5 {
        '5'
    } else if d == 6 {
        '6'
    } else if d == 7 {
        '7'
    } else if d == 8 {
        '8'
    } else if d == 9 {
        '9'
    } else {
        '0'
    }
}

/// The decimal digits of `n`, most significant first, without leading
/// zeros (a single `0` for zero).
pub open spec fn dec_rep(n: int) -> Seq<char>
    decreases n,
{
    if n < 10 {
        seq![dec_digit_char(n)]
    } else {
        dec_rep(n / 10) + seq![dec_digit_char(n % 10)]
    }
}

/// Relies on String::push: appends the given character to the end of the
/// string.
#[verifier::external_body]
fn push_char(out: &mut String, c: char)
    ensures
        final(out)@ == old(out)@ + seq![c],
{
    out.push(c);
}

fn push_digit(out: &mut String, d: usize)
    requires
        d < 10,
    ensures
        final(out)@ == old(out)@ + seq![dec_digit_char(d as int)],
{
    if d == 1 {
        push_char(out, '1');
    } else if d == 2 {
        push_char(out, '2');
    } else if d == 3 {
        push_char(out, '3');
    } else if d == 4 {
        push_char(out, '4');
    } else if d == 5 {
        push_char(out, '5');
    } else if d == 6 {
        push_char(out, '6');
    } else if d == 7 {
        push_char(out, '7');
    } else if d == 8 {
        push_char(out, '8');
    } else if d == 9 {
        push_char(out, '9');
    } else {
        push_char(out, '0');
    }
}

/// Append the decimal digits of `n`, as `dec_rep` states them.
fn push_decimal(out: &mut String, n: usize)
    ensures
        final(out)@ == old(out)@ + dec_rep(n as int),
    decreases n,
{
    if n < 10 {
        push_digit(out, n);
    } else {
        push_decimal(out, n / 10);
        push_digit(out, n % 10);
        proof {
            assert(final(out)@ =~= old(out)@ + dec_rep(n as int));
        }
    }
}

impl ParseError {
    /// The single-line human-readable message of each variant.
    pub open spec fn message_spec(self) -> Seq<char> {
        match self {
            ParseError::GroupCount { found } => "invalid number of groups: expected 5, found "@
                + dec_rep(found as int),
            ParseError::GroupLength { group, index: _, len_observed, len_expected } => {
                "invalid length: expected length "@ + dec_rep(len_expected as int)
                    + " for group "@ + dec_rep(group as int) + ", found "@ + dec_rep(
                    len_observed as int,
                )
            },
            ParseError::Char { character, index } => {
                "invalid character: expected an ASCII hex digit, found "@ + seq![character]
                    + ", at "@ + dec_rep(index as int)
            },
            ParseError::Length { found } => "invalid length: expected 32, 36, 38 or 45 characters, found "@
                + dec_rep(found as int),
        }
    }

    /// Render the message of this error, exactly as `message_spec` states
    /// it.
    pub fn message(&self) -> (r: String)
        ensures
            r@ == self.message_spec(),
    {
        let mut out = String::new();
        match *self {
            ParseError::GroupCount { found } => {
                out.append("invalid number of groups: expected 5, found ");
                push_decimal(&mut out, found);
            },
            ParseError::GroupLength { group, index: _, len_observed, len_expected } => {
                out.append("invalid length: expected length ");
                push_decimal(&mut out, len_expected);
                out.append(" for group ");
                push_decimal(&mut out, group);
                out.append(", found ");
                push_decimal(&mut out, len_observed);
            },
            ParseError::Char { character, index } => {
                out.append("invalid character: expected an ASCII hex digit, found ");
                push_char(&mut out, character);
                out.append(", at ");
                push_decimal(&mut out, index);
            },
            ParseError::Length { found } => {
                out.append("invalid length: expected 32, 36, 38 or 45 characters, found ");
                push_decimal(&mut out, found);
            },
        }
        proof {
            assert(out@ =~= self.message_spec());
        }
        out
    }
}

} // verus!
