//! One classified lexical unit, with its decoded value.
use vstd::prelude::*;
use crate::chars::str_eq;
use crate::numbers::{all_digits, dec_val, digit_run_end, digit_run_end_at, parse_digits,
    lemma_digit_run_end};
use crate::token_type::TokenType;
use crate::token_value::{TokenValue, ValueView};

verus! {

/// An immutable lexical unit: classification, exact source text, decoded
/// value and the 0-based line its lexeme begins on.
#[derive(Debug, Clone, PartialEq)]
pub struct Token {
    pub token_type: TokenType,
    pub literal: String,
    pub value: TokenValue,
    pub line: i32,
}

/// Mathematical image of a [`Token`].
pub struct TokenView {
    pub token_type: TokenType,
    pub literal: Seq<char>,
    pub value: ValueView,
    pub line: int,
}

impl View for Token {
    type V = TokenView;

    open spec fn view(&self) -> TokenView {
        TokenView {
            token_type: self.token_type,
            literal: self.literal@,
            value: self.value@,
            line: self.line as int,
        }
    }
}

/// The mathematical images of a sequence of tokens, in order.
pub open spec fn views_of(ts: Seq<Token>) -> Seq<TokenView> {
    ts.map_values(|t: Token| t@)
}

/// Decoded value of an integer literal: the base-10 value of its digits,
/// or zero when the text is not a digit run or does not fit in an `i32`
/// (the lenient decoding policy: a failed decode yields the zero default,
/// never an error).
pub open spec fn spec_int_value(lit: Seq<char>) -> int {
    if lit.len() > 0 && all_digits(lit) && dec_val(lit) <= i32::MAX {
        dec_val(lit)
    } else {
        0
    }
}

/// Decoded value of a real literal: either a plain digit run, or a digit
/// run, a point and a non-empty digit run.  Any other shape, and parts
/// that do not fit in a `u64`, decode to the zero default.
pub open spec fn spec_real_value(lit: Seq<char>) -> ValueView {
    let n = lit.len() as int;
    let k = digit_run_end(lit, 0);
    if n > 0 && k == n {
        if dec_val(lit) <= u64::MAX {
            ValueView::Real { whole: dec_val(lit), frac: 0, frac_len: 0 }
        } else {
            ValueView::Real { whole: 0, frac: 0, frac_len: 0 }
        }
    } else if 1 <= k < n && lit[k] == '.' && k + 1 < n && digit_run_end(lit, k + 1) == n {
        if dec_val(lit.subrange(0, k)) <= u64::MAX && dec_val(lit.subrange(k + 1, n)) <= u64::MAX {
            ValueView::Real {
                whole: dec_val(lit.subrange(0, k)),
                frac: dec_val(lit.subrange(k + 1, n)),
                frac_len: n - k - 1,
            }
        } else {
            ValueView::Real { whole: 0, frac: 0, frac_len: 0 }
        }
    } else {
        ValueView::Real { whole: 0, frac: 0, frac_len: 0 }
    }
}

/// The value a token of kind `token_type` with text `lit` carries.
///
/// The boolean keywords carry their truth value; a string literal carries
/// its text with exactly one leading and one trailing quote removed (so
/// the text must be at least two characters); numeric kinds decode by
/// [`spec_int_value`] and [`spec_real_value`]; every other kind carries
/// no value.
pub open spec fn spec_token_value(token_type: TokenType, lit: Seq<char>) -> ValueView {
    if token_type == TokenType::True && lit == "true"@ {
        ValueView::Bool(true)
    } else if token_type == TokenType::False && lit == "false"@ {
        ValueView::Bool(false)
    } else if token_type == TokenType::Str && lit.len() >= 2 && lit[0] == '"'
        && lit[lit.len() - 1] == '"' {
        ValueView::Str(lit.subrange(1, lit.len() - 1))
    } else if token_type == TokenType::Real {
        spec_real_value(lit)
    } else if token_type == TokenType::Integer {
        ValueView::Int(spec_int_value(lit))
    } else {
        ValueView::NoValue
    }
}

impl Token {
    /// Make one token: the value is derived from the kind and the literal
    /// text, deterministically, at construction.
    pub fn new(token_type: TokenType, literal: String, line: i32) -> (t: Self)
        ensures
            t@ == (TokenView {
                token_type,
                literal: literal@,
                value: spec_token_value(token_type, literal@),
                line: line as int,
            }),
    {
        let value = Self::get_token_value(token_type, literal.as_str());
        Self { token_type, literal, value, line }
    }

    /// Decode the value a token of this kind and text carries.
    fn get_token_value(token_type: TokenType, literal: &str) -> (v: TokenValue)
        ensures
            v@ == spec_token_value(token_type, literal@),
    {
        let n = literal.unicode_len();
        if token_type == TokenType::True && str_eq(literal, "true") {
            TokenValue::Bool(true)
        } else if token_type == TokenType::False && str_eq(literal, "false") {
            TokenValue::Bool(false)
        } else if token_type == TokenType::Str && n >= 2 && literal.get_char(0) == '"'
            && literal.get_char(n - 1) == '"' {
            TokenValue::Str(literal.substring_char(1, n - 1).to_owned())
        } else if token_type == TokenType::Real {
            Self::real_value(literal)
        } else if token_type == TokenType::Integer {
            TokenValue::Int(Self::int_value(literal))
        } else {
            TokenValue::NoValue
        }
    }

    /// Decode an integer literal, zero where the text is no digit run or
    /// its value does not fit.
    fn int_value(literal: &str) -> (v: i32)
        ensures
            v as int == spec_int_value(literal@),
    {
        let n = literal.unicode_len();
        let k = digit_run_end_at(literal, 0);
        if n > 0 && k == n {
            proof {
                lemma_digit_run_end(literal@, 0);
                assert(literal@.subrange(0, n as int) =~= literal@);
            }
            match parse_digits(literal, 0, n) {
                Some(w) => {
                    if w <= 2147483647 {
                        w as i32
                    } else {
                        0
                    }
                },
                None => 0,
            }
        } else {
            proof {
                if n > 0 && all_digits(literal@) {
                    lemma_digit_run_end(literal@, 0);
                }
            }
            0
        }
    }

    /// Decode a real literal into its exact decimal parts, the zero
    /// default where the shape or the range does not fit.
    fn real_value(literal: &str) -> (v: TokenValue)
        ensures
            v@ == spec_real_value(literal@),
    {
        let n = literal.unicode_len();
        let k = digit_run_end_at(literal, 0);
        proof {
            lemma_digit_run_end(literal@, 0);
        }
        if n > 0 && k == n {
            proof {
                assert(literal@.subrange(0, n as int) =~= literal@);
            }
            match parse_digits(literal, 0, n) {
                Some(w) => TokenValue::Real { whole: w, frac: 0, frac_len: 0 },
                None => TokenValue::Real { whole: 0, frac: 0, frac_len: 0 },
            }
        } else if 1 <= k && k < n && literal.get_char(k) == '.' && k + 1 < n
            && digit_run_end_at(literal, k + 1) == n {
            proof {
                lemma_digit_run_end(literal@, k + 1);
            }
            let whole = parse_digits(literal, 0, k);
            let frac = parse_digits(literal, k + 1, n);
            match (whole, frac) {
                (Some(w), Some(f)) => TokenValue::Real { whole: w, frac: f, frac_len: n - k - 1 },
                _ => TokenValue::Real { whole: 0, frac: 0, frac_len: 0 },
            }
        } else {
            TokenValue::Real { whole: 0, frac: 0, frac_len: 0 }
        }
    }
}

} // verus!
