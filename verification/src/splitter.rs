//! The lexeme splitter: partitions source text into maximal candidate
//! lexemes by a fixed, ordered set of alternatives.
//!
//! The alternatives, tried in this order at every position:
//! 1. numeric literal — a digit run, optionally followed by a point and a
//!    second digit run (a lone point directly before a digit also opens a
//!    numeric lexeme);
//! 2. double-quoted string — shortest match, the content may not hold a
//!    quote or a line terminator;
//! 3. word run — letters, digits and underscores;
//! 4. the two-character symbols `//` `==` `<=` `>=` `!=` `||` `&&`;
//! 5. the line terminator `\n`;
//! 6. any other non-whitespace character, alone.
//!
//! Whitespace matches no alternative and is skipped; the splitter never
//! fails, so every non-whitespace character of the source stands in
//! exactly one lexeme.
use vstd::prelude::*;
use crate::chars::{is_digit, is_space, is_word_char, digit_char, space_char, word_char};
use crate::numbers::{digit_run_end, digit_run_end_at, lemma_digit_run_end};

verus! {

/// One candidate lexeme: where it starts in the source, and its text.
pub struct Lexeme {
    pub start: int,
    pub text: Seq<char>,
}

/// First position at or after `i` that does not hold a word character.
pub open spec fn word_run_end(s: Seq<char>, i: int) -> int
    decreases s.len() - i,
{
    if 0 <= i < s.len() && is_word_char(s[i]) {
        word_run_end(s, i + 1)
    } else {
        i
    }
}

pub proof fn lemma_word_run_end(s: Seq<char>, i: int)
    requires
        0 <= i <= s.len(),
    ensures
        i <= word_run_end(s, i) <= s.len(),
        forall|j: int| i <= j < word_run_end(s, i) ==> is_word_char(s[j]),
        word_run_end(s, i) < s.len() ==> !is_word_char(s[word_run_end(s, i)]),
    decreases s.len() - i,
{
    if i < s.len() && is_word_char(s[i]) {
        lemma_word_run_end(s, i + 1);
    }
}

/// Executable twin of [`word_run_end`].
fn word_run_end_at(s: &str, i: usize) -> (e: usize)
    requires
        i <= s@.len(),
    ensures
        e == word_run_end(s@, i as int),
        i <= e <= s@.len(),
{
    let n = s.unicode_len();
    let mut e = i;
    while e < n && word_char(s.get_char(e))
        invariant
            i <= e <= n,
            n == s@.len(),
            word_run_end(s@, i as int) == word_run_end(s@, e as int),
        decreases n - e,
    {
        e += 1;
    }
    proof {
        lemma_word_run_end(s@, i as int);
    }
    e
}

/// Position of the first quote at or after `i` on the current line, if
/// any: the search stops at a line terminator or at the end of input.
pub open spec fn str_close(s: Seq<char>, i: int) -> Option<int>
    decreases s.len() - i,
{
    if !(0 <= i < s.len()) {
        None
    } else if s[i] == '\n' {
        None
    } else if s[i] == '"' {
        Some(i)
    } else {
        str_close(s, i + 1)
    }
}

pub proof fn lemma_str_close(s: Seq<char>, i: int)
    requires
        0 <= i,
    ensures
        match str_close(s, i) {
            Some(j) => i <= j < s.len() && s[j] == '"' && forall|k: int|
                i <= k < j ==> s[k] != '"' && s[k] != '\n',
            None => true,
        },
    decreases s.len() - i,
{
    if 0 <= i < s.len() && s[i] != '\n' && s[i] != '"' {
        lemma_str_close(s, i + 1);
    }
}

/// Executable twin of [`str_close`].
fn str_close_at(s: &str, i: usize) -> (r: Option<usize>)
    requires
        i <= s@.len(),
    ensures
        match r {
            Some(j) => str_close(s@, i as int) == Some(j as int) && i <= j < s@.len(),
            None => str_close(s@, i as int) is None,
        },
{
    let n = s.unicode_len();
    let mut j = i;
    while j < n
        invariant
            i <= j <= n,
            n == s@.len(),
            str_close(s@, i as int) == str_close(s@, j as int),
        decreases n - j,
    {
        let c = s.get_char(j);
        if c == '\n' {
            return None;
        }
        if c == '"' {
            return Some(j);
        }
        j += 1;
    }
    None
}

/// A two-character symbol stands at position `i`.
pub open spec fn two_char_op(s: Seq<char>, i: int) -> bool {
    0 <= i && i + 1 < s.len() && {
        let a = s[i];
        let b = s[i + 1];
        (a == '/' && b == '/') || (a == '=' && b == '=') || (a == '<' && b == '=') || (a == '>'
            && b == '=') || (a == '!' && b == '=') || (a == '|' && b == '|') || (a == '&' && b
            == '&')
    }
}

/// How many characters the lexeme starting at position `i` spans; zero
/// when the character at `i` is skipped whitespace.
pub open spec fn lexeme_len(s: Seq<char>, i: int) -> int
    recommends
        0 <= i < s.len(),
{
    let c = s[i];
    if is_digit(c) {
        let e1 = digit_run_end(s, i);
        if e1 < s.len() && s[e1] == '.' && e1 + 1 < s.len() && is_digit(s[e1 + 1]) {
            digit_run_end(s, e1 + 1) - i
        } else {
            e1 - i
        }
    } else if c == '.' && i + 1 < s.len() && is_digit(s[i + 1]) {
        digit_run_end(s, i + 1) - i
    } else if c == '"' {
        match str_close(s, i + 1) {
            Some(j) => j + 1 - i,
            None => 1,
        }
    } else if is_word_char(c) {
        word_run_end(s, i) - i
    } else if two_char_op(s, i) {
        2
    } else if c == '\n' {
        1
    } else if is_space(c) {
        0
    } else {
        1
    }
}

/// A lexeme never runs past the end of the source, and a non-whitespace
/// character always opens a lexeme of at least one character.
pub proof fn lemma_lexeme_len_bounds(s: Seq<char>, i: int)
    requires
        0 <= i < s.len(),
    ensures
        0 <= lexeme_len(s, i),
        i + lexeme_len(s, i) <= s.len(),
        lexeme_len(s, i) == 0 ==> is_space(s[i]) && s[i] != '\n',
{
    let c = s[i];
    if is_digit(c) {
        lemma_digit_run_end(s, i);
        let e1 = digit_run_end(s, i);
        if e1 < s.len() && s[e1] == '.' && e1 + 1 < s.len() && is_digit(s[e1 + 1]) {
            lemma_digit_run_end(s, e1 + 1);
        }
    } else if c == '.' && i + 1 < s.len() && is_digit(s[i + 1]) {
        lemma_digit_run_end(s, i + 1);
    } else if c == '"' {
        lemma_str_close(s, i + 1);
    } else if is_word_char(c) {
        lemma_word_run_end(s, i);
    }
}

/// No lexeme but the line terminator itself contains a line terminator.
pub proof fn lemma_lexeme_no_newline(s: Seq<char>, i: int)
    requires
        0 <= i < s.len(),
        lexeme_len(s, i) >= 1,
        s[i] != '\n',
    ensures
        forall|j: int| i <= j < i + lexeme_len(s, i) ==> s[j] != '\n',
{
    let c = s[i];
    if is_digit(c) {
        lemma_digit_run_end(s, i);
        let e1 = digit_run_end(s, i);
        if e1 < s.len() && s[e1] == '.' && e1 + 1 < s.len() && is_digit(s[e1 + 1]) {
            lemma_digit_run_end(s, e1 + 1);
            assert(forall|j: int| i <= j < i + lexeme_len(s, i) ==> s[j] != '\n') by {
                assert(forall|j: int| i <= j < e1 ==> is_digit(s[j]) && s[j] != '\n');
                assert(forall|j: int|
                    e1 + 1 <= j < digit_run_end(s, e1 + 1) ==> is_digit(s[j]) && s[j] != '\n');
                assert(s[e1] != '\n');
            }
        } else {
            assert(forall|j: int| i <= j < e1 ==> is_digit(s[j]) && s[j] != '\n');
        }
    } else if c == '.' && i + 1 < s.len() && is_digit(s[i + 1]) {
        lemma_digit_run_end(s, i + 1);
        assert(forall|j: int|
            i + 1 <= j < digit_run_end(s, i + 1) ==> is_digit(s[j]) && s[j] != '\n');
    } else if c == '"' {
        lemma_str_close(s, i + 1);
    } else if is_word_char(c) {
        lemma_word_run_end(s, i);
        assert(forall|j: int| i <= j < word_run_end(s, i) ==> is_word_char(s[j]) && s[j] != '\n');
    }
}

/// The lexemes of `s` from position `i` on, in source order.
pub open spec fn spec_lexemes(s: Seq<char>, i: int) -> Seq<Lexeme>
    decreases s.len() - i,
    when 0 <= i
    via spec_lexemes_decreases
{
    if !(0 <= i < s.len()) {
        Seq::empty()
    } else {
        let l = lexeme_len(s, i);
        if l == 0 {
            spec_lexemes(s, i + 1)
        } else {
            seq![Lexeme { start: i, text: s.subrange(i, i + l) }] + spec_lexemes(s, i + l)
        }
    }
}

#[via_fn]
proof fn spec_lexemes_decreases(s: Seq<char>, i: int) {
    if 0 <= i < s.len() {
        lemma_lexeme_len_bounds(s, i);
    }
}

/// One well-formed lexeme of `src`, found at or after position `i`:
/// non-empty, inside the source, and the exact source text between its
/// start and its end.
pub open spec fn lexeme_ok(src: Seq<char>, i: int, x: Lexeme) -> bool {
    &&& i <= x.start
    &&& 1 <= x.text.len()
    &&& x.start + x.text.len() <= src.len()
    &&& x.text == src.subrange(x.start, x.start + x.text.len())
}

/// Shape of the lexeme list: every lexeme is a well-formed piece of the
/// source, and consecutive lexemes do not overlap.
pub proof fn lemma_lexemes_form(src: Seq<char>, i: int)
    requires
        0 <= i <= src.len(),
    ensures
        forall|k: int|
            0 <= k < spec_lexemes(src, i).len() ==> lexeme_ok(
                src,
                i,
                #[trigger] spec_lexemes(src, i)[k],
            ),
        forall|k: int|
            0 <= k && k + 1 < spec_lexemes(src, i).len() ==> spec_lexemes(src, i)[k].start
                + spec_lexemes(src, i)[k].text.len() <= spec_lexemes(src, i)[k + 1].start,
    decreases src.len() - i,
{
    let ls = spec_lexemes(src, i);
    if i < src.len() {
        let l = lexeme_len(src, i);
        lemma_lexeme_len_bounds(src, i);
        if l == 0 {
            lemma_lexemes_form(src, i + 1);
            assert(ls == spec_lexemes(src, i + 1));
            assert forall|k: int| 0 <= k < ls.len() implies lexeme_ok(src, i, ls[k]) by {
                assert(lexeme_ok(src, i + 1, spec_lexemes(src, i + 1)[k]));
            }
        } else {
            lemma_lexemes_form(src, i + l);
            let x = Lexeme { start: i, text: src.subrange(i, i + l) };
            let rest = spec_lexemes(src, i + l);
            assert(ls == seq![x] + rest);
            assert(ls[0] == x);
            assert(x.text.len() == l);
            assert forall|k: int| 0 <= k < ls.len() implies lexeme_ok(src, i, ls[k]) by {
                if k == 0 {
                    assert(lexeme_ok(src, i, x));
                } else {
                    assert(ls[k] == rest[k - 1]);
                    assert(lexeme_ok(src, i + l, rest[k - 1]));
                }
            }
            assert forall|k: int| 0 <= k && k + 1 < ls.len() implies ls[k].start + ls[k].text.len()
                <= ls[k + 1].start by {
                if k == 0 {
                    assert(ls[1] == rest[0]);
                    assert(lexeme_ok(src, i + l, rest[0]));
                } else {
                    assert(ls[k] == rest[k - 1]);
                    assert(ls[k + 1] == rest[k]);
                }
            }
        }
    }
}

/// Position `p` of the source stands inside one of the lexemes of `ls`.
pub open spec fn covered_by_lexeme(ls: Seq<Lexeme>, p: int) -> bool {
    exists|k: int|
        0 <= k < ls.len() && (#[trigger] ls[k]).start <= p < ls[k].start + ls[k].text.len()
}

/// The splitter drops nothing but whitespace: every non-whitespace
/// character of the source stands inside some lexeme.
pub proof fn lemma_splitter_covers(src: Seq<char>, i: int)
    requires
        0 <= i <= src.len(),
    ensures
        forall|p: int|
            i <= p < src.len() && !is_space(#[trigger] src[p]) ==> covered_by_lexeme(
                spec_lexemes(src, i),
                p,
            ),
    decreases src.len() - i,
{
    if i < src.len() {
        let l = lexeme_len(src, i);
        lemma_lexeme_len_bounds(src, i);
        let ls = spec_lexemes(src, i);
        if l == 0 {
            lemma_splitter_covers(src, i + 1);
            assert forall|p: int| i <= p < src.len() && !is_space(src[p]) implies covered_by_lexeme(
                ls,
                p,
            ) by {
                assert(p != i);
            }
        } else {
            lemma_splitter_covers(src, i + l);
            let x = Lexeme { start: i, text: src.subrange(i, i + l) };
            let rest = spec_lexemes(src, i + l);
            assert(ls == seq![x] + rest);
            assert(ls[0] == x);
            assert(x.text.len() == l);
            assert forall|p: int| i <= p < src.len() && !is_space(src[p]) implies covered_by_lexeme(
                ls,
                p,
            ) by {
                if p < i + l {
                    assert(ls[0].start <= p < ls[0].start + ls[0].text.len());
                } else {
                    assert(covered_by_lexeme(rest, p));
                    let k0 = choose|k: int|
                        0 <= k < rest.len() && (#[trigger] rest[k]).start <= p < rest[k].start
                            + rest[k].text.len();
                    assert(ls[k0 + 1] == rest[k0]);
                    assert(ls[k0 + 1].start <= p < ls[k0 + 1].start + ls[k0 + 1].text.len());
                }
            }
        }
    }
}

/// Executable twin of [`lexeme_len`].
pub fn lexeme_len_at(s: &str, i: usize) -> (l: usize)
    requires
        i < s@.len(),
    ensures
        l == lexeme_len(s@, i as int),
        i + l <= s@.len(),
{
    proof {
        lemma_lexeme_len_bounds(s@, i as int);
    }
    let n = s.unicode_len();
    let c = s.get_char(i);
    if digit_char(c) {
        let e1 = digit_run_end_at(s, i);
        if e1 < n && s.get_char(e1) == '.' && e1 + 1 < n && digit_char(s.get_char(e1 + 1)) {
            digit_run_end_at(s, e1 + 1) - i
        } else {
            e1 - i
        }
    } else if c == '.' && i + 1 < n && digit_char(s.get_char(i + 1)) {
        digit_run_end_at(s, i + 1) - i
    } else if c == '"' {
        match str_close_at(s, i + 1) {
            Some(j) => j + 1 - i,
            None => 1,
        }
    } else if word_char(c) {
        word_run_end_at(s, i) - i
    } else if i + 1 < n && {
        let b = s.get_char(i + 1);
        (c == '/' && b == '/') || (c == '=' && b == '=') || (c == '<' && b == '=') || (c == '>'
            && b == '=') || (c == '!' && b == '=') || (c == '|' && b == '|') || (c == '&' && b
            == '&')
    } {
        2
    } else if c == '\n' {
        1
    } else if space_char(c) {
        0
    } else {
        1
    }
}

} // verus!
