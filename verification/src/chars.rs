//! Character classes used by the lexeme splitter, and character-wise
//! string comparison.
//!
//! The splitter's classes are fixed to ASCII: digits, ASCII letters and
//! underscore form word runs, and the ASCII whitespace characters are the
//! ones the splitter skips.
use vstd::prelude::*;

verus! {

/// `c` is a decimal digit.
pub open spec fn is_digit(c: char) -> bool {
    48 <= c as u32 && c as u32 <= 57
}

/// `c` is an ASCII letter.
pub open spec fn is_alpha(c: char) -> bool {
    (65 <= c as u32 && c as u32 <= 90) || (97 <= c as u32 && c as u32 <= 122)
}

/// `c` can stand inside a word run: a letter, a digit or an underscore.
pub open spec fn is_word_char(c: char) -> bool {
    is_digit(c) || is_alpha(c) || c == '_'
}

/// `c` is whitespace the splitter skips: space, tab, carriage return,
/// vertical tab, form feed or the line terminator itself.
pub open spec fn is_space(c: char) -> bool {
    c == ' ' || c == '\t' || c == '\r' || c == '\n' || c as u32 == 11 || c as u32 == 12
}

/// Numeric value of a digit character.
pub open spec fn digit_of(c: char) -> int {
    c as u32 - 48
}

pub fn digit_char(c: char) -> (b: bool)
    ensures
        b == is_digit(c),
{
    let u = c as u32;
    48 <= u && u <= 57
}

pub fn alpha_char(c: char) -> (b: bool)
    ensures
        b == is_alpha(c),
{
    let u = c as u32;
    (65 <= u && u <= 90) || (97 <= u && u <= 122)
}

pub fn word_char(c: char) -> (b: bool)
    ensures
        b == is_word_char(c),
{
    digit_char(c) || alpha_char(c) || c == '_'
}

pub fn space_char(c: char) -> (b: bool)
    ensures
        b == is_space(c),
{
    let u = c as u32;
    c == ' ' || c == '\t' || c == '\r' || c == '\n' || u == 11 || u == 12
}

/// Character-wise equality of two string slices.
pub fn str_eq(a: &str, b: &str) -> (r: bool)
    ensures
        r == (a@ == b@),
{
    let na = a.unicode_len();
    let nb = b.unicode_len();
    if na != nb {
        return false;
    }
    let mut i: usize = 0;
    while i < na
        invariant
            na == a@.len(),
            na == b@.len(),
            i <= na,
            forall|j: int| 0 <= j < i ==> a@[j] == b@[j],
        decreases na - i,
    {
        if a.get_char(i) != b.get_char(i) {
            return false;
        }
        i += 1;
    }
    proof {
        assert(a@ =~= b@);
    }
    true
}

} // verus!
