//! The scanner's laws: properties that hold of every source text,
//! stated over the same specification functions the scanner's own
//! contracts use, and proved once and for all.
use vstd::prelude::*;
use crate::chars::is_digit;
use crate::numbers::{all_digits, dec_val, digit_run_end};
use crate::splitter::{Lexeme, lexeme_len, spec_lexemes, lemma_lexeme_len_bounds,
    lemma_lexeme_no_newline};
use crate::token::spec_token_value;
use crate::scanner::{spec_classify, spec_keyword_kind, spec_tokens, scan_lexemes, step_line,
    step_sup, step_emit, is_terminator, is_comment_open, inc_line};
use crate::token_type::TokenType;
use crate::token_value::ValueView;

verus! {

/// The lexemes that survive the scan: line terminators, comment openers
/// and suppressed lexemes are dropped, every other lexeme is kept.
pub open spec fn emitted_lexemes(ls: Seq<Lexeme>, sup: bool) -> Seq<Lexeme>
    decreases ls.len(),
{
    if ls.len() == 0 {
        Seq::empty()
    } else {
        let t = ls[0].text;
        (if is_terminator(t) || is_comment_open(t) || sup {
            Seq::empty()
        } else {
            seq![ls[0]]
        }) + emitted_lexemes(ls.drop_first(), step_sup(t, sup))
    }
}

/// The scan emits exactly one token per surviving lexeme, in order, and
/// each token's literal is its lexeme's text.  In particular the token
/// count equals the number of lexemes left after dropping terminators
/// and suppressed content.
pub proof fn lemma_token_count(ls: Seq<Lexeme>, line: int, sup: bool)
    ensures
        scan_lexemes(ls, line, sup).len() == emitted_lexemes(ls, sup).len(),
        forall|k: int|
            0 <= k < scan_lexemes(ls, line, sup).len() ==> scan_lexemes(ls, line, sup)[k].literal
                == emitted_lexemes(ls, sup)[k].text,
    decreases ls.len(),
{
    if ls.len() > 0 {
        let t = ls[0].text;
        lemma_token_count(ls.drop_first(), step_line(t, line), step_sup(t, sup));
    }
}

/// The token count of a whole source: one token per surviving lexeme.
pub proof fn lemma_token_count_of_source(src: Seq<char>)
    ensures
        spec_tokens(src).len() == emitted_lexemes(spec_lexemes(src, 0), false).len(),
{
    lemma_token_count(spec_lexemes(src, 0), 0, false);
}

/// Every surviving lexeme is one of the lexemes it was drawn from.
proof fn lemma_emitted_are_lexemes(ls: Seq<Lexeme>, sup: bool)
    ensures
        forall|k: int|
            0 <= k < emitted_lexemes(ls, sup).len() ==> exists|j: int|
                0 <= j < ls.len() && #[trigger] emitted_lexemes(ls, sup)[k] == ls[j],
    decreases ls.len(),
{
    if ls.len() > 0 {
        let t = ls[0].text;
        let rest = ls.drop_first();
        let em = emitted_lexemes(ls, sup);
        lemma_emitted_are_lexemes(rest, step_sup(t, sup));
        let kept: int = if is_terminator(t) || is_comment_open(t) || sup {
            0
        } else {
            1
        };
        assert forall|k: int| 0 <= k < em.len() implies exists|j: int|
            0 <= j < ls.len() && #[trigger] em[k] == ls[j] by {
            if kept == 1 && k == 0 {
                assert(em[0] == ls[0]);
            } else {
                assert(em[k] == emitted_lexemes(rest, step_sup(t, sup))[k - kept]);
                let j0 = choose|j: int|
                    0 <= j < rest.len() && #[trigger] emitted_lexemes(rest, step_sup(t, sup))[k
                        - kept] == rest[j];
                assert(rest[j0] == ls[j0 + 1]);
                assert(em[k] == ls[j0 + 1]);
            }
        }
    }
}

/// `t` is an exact contiguous piece of `src`.
pub open spec fn is_substring_of(t: Seq<char>, src: Seq<char>) -> bool {
    exists|start: int|
        0 <= start && start + t.len() <= src.len() && t == #[trigger] src.subrange(
            start,
            start + t.len(),
        )
}

/// Every token's literal is an exact substring of the source text.
pub proof fn lemma_literals_are_substrings(src: Seq<char>)
    ensures
        forall|k: int|
            0 <= k < spec_tokens(src).len() ==> is_substring_of(
                (#[trigger] spec_tokens(src)[k]).literal,
                src,
            ),
{
    let ls = spec_lexemes(src, 0);
    let toks = spec_tokens(src);
    let em = emitted_lexemes(ls, false);
    lemma_token_count(ls, 0, false);
    lemma_emitted_are_lexemes(ls, false);
    crate::splitter::lemma_lexemes_form(src, 0);
    assert forall|k: int| 0 <= k < toks.len() implies is_substring_of(toks[k].literal, src) by {
        assert(toks[k].literal == em[k].text);
        let j = choose|j: int| 0 <= j < ls.len() && #[trigger] em[k] == ls[j];
        assert(crate::splitter::lexeme_ok(src, 0, ls[j]));
        let start = ls[j].start;
        assert(toks[k].literal == src.subrange(start, start + toks[k].literal.len()));
    }
}

/// Keyword precedence: a lexeme that exactly matches an entry of the
/// keyword and operator table always classifies to that entry's kind,
/// never to `Identifier` or `Unknown`, whatever line it stands on.
pub proof fn lemma_keyword_precedence(t: Seq<char>, line: int)
    requires
        spec_keyword_kind(t) is Some,
    ensures
        spec_classify(t, line).token_type == spec_keyword_kind(t)->0,
        spec_classify(t, line).token_type != TokenType::Identifier,
        spec_classify(t, line).token_type != TokenType::Unknown,
{
}

/// Value consistency: every token the scan emits carries exactly the
/// value its kind and literal decode to — never a stale or foreign
/// payload.
pub proof fn lemma_value_consistent(ls: Seq<Lexeme>, line: int, sup: bool)
    ensures
        forall|k: int|
            0 <= k < scan_lexemes(ls, line, sup).len() ==> (#[trigger] scan_lexemes(
                ls,
                line,
                sup,
            )[k]).value == spec_token_value(
                scan_lexemes(ls, line, sup)[k].token_type,
                scan_lexemes(ls, line, sup)[k].literal,
            ),
    decreases ls.len(),
{
    if ls.len() > 0 {
        let t = ls[0].text;
        lemma_value_consistent(ls.drop_first(), step_line(t, line), step_sup(t, sup));
    }
}

/// Value consistency for a whole source.
pub proof fn lemma_value_consistent_of_source(src: Seq<char>)
    ensures
        forall|k: int|
            0 <= k < spec_tokens(src).len() ==> (#[trigger] spec_tokens(src)[k]).value
                == spec_token_value(
                spec_tokens(src)[k].token_type,
                spec_tokens(src)[k].literal,
            ),
{
    lemma_value_consistent(spec_lexemes(src, 0), 0, false);
}

/// Number of line terminators in `s`.
pub open spec fn nl_count(s: Seq<char>) -> int
    decreases s.len(),
{
    if s.len() == 0 {
        0
    } else {
        nl_count(s.drop_last()) + if s.last() == '\n' {
            1int
        } else {
            0int
        }
    }
}

proof fn lemma_nl_count_snoc(s: Seq<char>, i: int)
    requires
        0 <= i < s.len(),
    ensures
        nl_count(s.take(i + 1)) == nl_count(s.take(i)) + if s[i] == '\n' {
            1int
        } else {
            0int
        },
{
    assert(s.take(i + 1).drop_last() =~= s.take(i));
}

proof fn lemma_nl_count_no_nl(s: Seq<char>, i: int, j: int)
    requires
        0 <= i <= j <= s.len(),
        forall|k: int| i <= k < j ==> s[k] != '\n',
    ensures
        nl_count(s.take(j)) == nl_count(s.take(i)),
    decreases j - i,
{
    if i < j {
        lemma_nl_count_snoc(s, j - 1);
        lemma_nl_count_no_nl(s, i, j - 1);
    }
}

proof fn lemma_nl_count_le(s: Seq<char>, i: int, j: int)
    requires
        0 <= i <= j <= s.len(),
    ensures
        nl_count(s.take(i)) <= nl_count(s.take(j)),
    decreases j - i,
{
    if i < j {
        lemma_nl_count_snoc(s, j - 1);
        lemma_nl_count_le(s, i, j - 1);
    }
}

/// Line counting, from any starting position whose line counter agrees
/// with the terminators already passed: every emitted token is stamped
/// with the number of line terminators that precede its lexeme's first
/// character.
proof fn lemma_line_positions(src: Seq<char>, i: int, line: int, sup: bool)
    requires
        0 <= i <= src.len(),
        line == nl_count(src.take(i)),
        nl_count(src) <= i32::MAX,
    ensures
        forall|k: int|
            0 <= k < scan_lexemes(spec_lexemes(src, i), line, sup).len() ==> scan_lexemes(
                spec_lexemes(src, i),
                line,
                sup,
            )[k].line == nl_count(
                src.take(emitted_lexemes(spec_lexemes(src, i), sup)[k].start),
            ),
    decreases src.len() - i,
{
    lemma_token_count(spec_lexemes(src, i), line, sup);
    if i < src.len() {
        let l = lexeme_len(src, i);
        lemma_lexeme_len_bounds(src, i);
        if l == 0 {
            assert(src[i] != '\n');
            lemma_nl_count_snoc(src, i);
            lemma_line_positions(src, i + 1, line, sup);
        } else {
            let x = Lexeme { start: i, text: src.subrange(i, i + l) };
            let ls = spec_lexemes(src, i);
            let rest = spec_lexemes(src, i + l);
            assert(ls == seq![x] + rest);
            assert(ls[0] == x);
            assert(ls.drop_first() =~= rest);
            let scan = scan_lexemes(ls, line, sup);
            let em = emitted_lexemes(ls, sup);
            if is_terminator(x.text) {
                assert(x.text[0] == src[i]);
                assert(src[i] == '\n');
                assert(l == 1);
                lemma_nl_count_snoc(src, i);
                lemma_nl_count_le(src, i + 1, src.len() as int);
                assert(src.take(src.len() as int) =~= src);
                assert(inc_line(line) == line + 1);
                lemma_line_positions(src, i + 1, line + 1, false);
                lemma_token_count(rest, line + 1, false);
                assert forall|k: int| 0 <= k < scan.len() implies scan[k].line == nl_count(
                    src.take(em[k].start),
                ) by {
                    assert(scan[k] == scan_lexemes(rest, line + 1, false)[k]);
                    assert(em[k] == emitted_lexemes(rest, false)[k]);
                }
            } else {
                assert(x.text[0] == src[i]);
                lemma_lexeme_no_newline(src, i);
                lemma_nl_count_no_nl(src, i, i + l);
                let sup2 = step_sup(x.text, sup);
                lemma_line_positions(src, i + l, line, sup2);
                lemma_token_count(rest, line, sup2);
                if is_comment_open(x.text) || sup {
                    assert forall|k: int| 0 <= k < scan.len() implies scan[k].line == nl_count(
                        src.take(em[k].start),
                    ) by {
                        assert(scan[k] == scan_lexemes(rest, line, sup2)[k]);
                        assert(em[k] == emitted_lexemes(rest, sup2)[k]);
                    }
                } else {
                    assert forall|k: int| 0 <= k < scan.len() implies scan[k].line == nl_count(
                        src.take(em[k].start),
                    ) by {
                        if k == 0 {
                            assert(scan[0] == spec_classify(x.text, line));
                            assert(em[0] == x);
                        } else {
                            assert(scan[k] == scan_lexemes(rest, line, sup2)[k - 1]);
                            assert(em[k] == emitted_lexemes(rest, sup2)[k - 1]);
                        }
                    }
                }
            }
        }
    }
}

/// Line counting for a whole source: each token's line equals the number
/// of line terminators before its lexeme's first character.  (Stated for
/// sources whose terminator count fits the line counter; beyond that the
/// counter saturates rather than failing.)
pub proof fn lemma_line_counting(src: Seq<char>)
    requires
        nl_count(src) <= i32::MAX,
    ensures
        forall|k: int|
            0 <= k < spec_tokens(src).len() ==> spec_tokens(src)[k].line == nl_count(
                src.take(emitted_lexemes(spec_lexemes(src, 0), false)[k].start),
            ),
{
    assert(src.take(0) =~= Seq::<char>::empty());
    lemma_line_positions(src, 0, 0, false);
}

/// Comment suppression: while suppression is on, a run of lexemes that
/// holds no line terminator yields no token at all, to the end of input.
pub proof fn lemma_comment_suppression(ls: Seq<Lexeme>, line: int)
    requires
        forall|k: int| 0 <= k < ls.len() ==> !is_terminator(ls[k].text),
    ensures
        scan_lexemes(ls, line, true) == Seq::<crate::token::TokenView>::empty(),
    decreases ls.len(),
{
    if ls.len() > 0 {
        assert(forall|k: int|
            0 <= k < ls.drop_first().len() ==> !is_terminator(ls.drop_first()[k].text));
        lemma_comment_suppression(ls.drop_first(), step_line(ls[0].text, line));
    }
}

/// Comment suppression: while suppression is on, the scan of a lexeme
/// run whose first `j` lexemes hold no terminator equals the scan from
/// position `j` on — the suppressed prefix contributes nothing.
pub proof fn lemma_suppressed_prefix(ls: Seq<Lexeme>, line: int, j: int)
    requires
        0 <= j <= ls.len(),
        forall|k: int| 0 <= k < j ==> !is_terminator(ls[k].text),
    ensures
        scan_lexemes(ls, line, true) == scan_lexemes(ls.skip(j), line, true),
    decreases j,
{
    if j > 0 {
        assert(ls.len() > 0);
        assert(!is_terminator(ls[0].text));
        assert(step_sup(ls[0].text, true) == true);
        assert(step_line(ls[0].text, line) == line);
        assert(step_emit(ls[0].text, line, true) is None);
        lemma_suppressed_prefix(ls.drop_first(), line, j - 1);
        assert(ls.drop_first().skip(j - 1) =~= ls.skip(j));
    } else {
        assert(ls.skip(0) =~= ls);
    }
}

proof fn lemma_no_keyword_opens_with(t: Seq<char>)
    requires
        t.len() > 0,
        is_digit(t[0]) || t[0] == '"',
    ensures
        spec_keyword_kind(t) is None,
{
    reveal_strlit("=");
    reveal_strlit("==");
    reveal_strlit(">");
    reveal_strlit(">=");
    reveal_strlit("<=");
    reveal_strlit("<");
    reveal_strlit("!=");
    reveal_strlit("!");
    reveal_strlit(";");
    reveal_strlit(")");
    reveal_strlit("(");
    reveal_strlit("}");
    reveal_strlit("{");
    reveal_strlit("]");
    reveal_strlit("[");
    reveal_strlit("+");
    reveal_strlit("-");
    reveal_strlit("/");
    reveal_strlit("*");
    reveal_strlit(".");
    reveal_strlit(",");
    reveal_strlit("||");
    reveal_strlit("&&");
    reveal_strlit("true");
    reveal_strlit("false");
    reveal_strlit("int");
    reveal_strlit("float");
    reveal_strlit("string");
    reveal_strlit("bool");
    reveal_strlit("if");
    reveal_strlit("else");
    reveal_strlit("for");
    reveal_strlit("while");
    reveal_strlit("fun");
    reveal_strlit("return");
    reveal_strlit("print");
    reveal_strlit("nil");
}

/// Integer decoding round-trip: a numeric lexeme without a decimal
/// point — a plain digit run — classifies as an integer literal whose
/// decoded value is the run read in base 10, or the zero default where
/// that value does not fit the value type.
pub proof fn lemma_integer_decode(lit: Seq<char>, line: int)
    requires
        lit.len() > 0,
        all_digits(lit),
    ensures
        spec_classify(lit, line).token_type == TokenType::Integer,
        spec_classify(lit, line).value == ValueView::Int(
            if dec_val(lit) <= i32::MAX {
                dec_val(lit)
            } else {
                0
            },
        ),
{
    lemma_no_keyword_opens_with(lit);
    assert(!lit.contains('.')) by {
        if lit.contains('.') {
            let k = choose|k: int| 0 <= k < lit.len() && lit[k] == '.';
            assert(is_digit(lit[k]));
        }
    }
}

/// Real decoding round-trip: a numeric lexeme with a decimal point — a
/// digit run, a point and a non-empty digit run — classifies as a real
/// literal whose decoded parts are the two runs read in base 10 and the
/// fraction's length.  (Stated for parts that fit the part type; beyond
/// that the decode yields the zero default.)
pub proof fn lemma_real_decode(lit: Seq<char>, line: int)
    requires
        lit.len() > 0,
        is_digit(lit[0]),
        ({
            let k = digit_run_end(lit, 0);
            1 <= k < lit.len() && lit[k] == '.' && k + 1 < lit.len() && digit_run_end(lit, k + 1)
                == lit.len()
        }),
        dec_val(lit.subrange(0, digit_run_end(lit, 0))) <= u64::MAX,
        dec_val(lit.subrange(digit_run_end(lit, 0) + 1, lit.len() as int)) <= u64::MAX,
    ensures
        spec_classify(lit, line).token_type == TokenType::Real,
        spec_classify(lit, line).value == (ValueView::Real {
            whole: dec_val(lit.subrange(0, digit_run_end(lit, 0))),
            frac: dec_val(lit.subrange(digit_run_end(lit, 0) + 1, lit.len() as int)),
            frac_len: lit.len() - digit_run_end(lit, 0) - 1,
        }),
{
    lemma_no_keyword_opens_with(lit);
    let k = digit_run_end(lit, 0);
    assert(lit.contains('.')) by {
        assert(lit[k] == '.');
    }
}

/// String decoding round-trip: a lexeme quoted at both ends classifies
/// as a string literal whose decoded value is the lexeme with exactly
/// one leading and one trailing quote character removed.
pub proof fn lemma_string_decode(lit: Seq<char>, line: int)
    requires
        lit.len() > 1,
        lit[0] == '"',
        lit[lit.len() - 1] == '"',
    ensures
        spec_classify(lit, line).token_type == TokenType::Str,
        spec_classify(lit, line).value == ValueView::Str(lit.subrange(1, lit.len() - 1)),
{
    lemma_no_keyword_opens_with(lit);
}

} // verus!
