//! The scanner: splits source text into lexemes, classifies them, and
//! tracks lines and single-line comments.
use vstd::prelude::*;
use crate::chars::{is_alpha, is_digit, str_eq, alpha_char, digit_char};
use crate::splitter::{Lexeme, lexeme_len_at, spec_lexemes};
use crate::token::{Token, TokenView, spec_token_value};
use crate::token_type::TokenType;

verus! {

/// The kind a lexeme classifies to when it exactly matches one entry of
/// the fixed keyword and operator table, tried before any shape rule.
pub open spec fn spec_keyword_kind(t: Seq<char>) -> Option<TokenType> {
    if t == "="@ {
        Some(TokenType::Equal)
    } else if t == "=="@ {
        Some(TokenType::EqualEqual)
    } else if t == ">"@ {
        Some(TokenType::Greater)
    } else if t == ">="@ {
        Some(TokenType::GreaterEqual)
    } else if t == "<="@ {
        Some(TokenType::LessEqual)
    } else if t == "<"@ {
        Some(TokenType::Less)
    } else if t == "!="@ {
        Some(TokenType::BangEqual)
    } else if t == "!"@ {
        Some(TokenType::Bang)
    } else if t == ";"@ {
        Some(TokenType::Semicolon)
    } else if t == ")"@ {
        Some(TokenType::RightParen)
    } else if t == "("@ {
        Some(TokenType::LeftParen)
    } else if t == "}"@ {
        Some(TokenType::RightBrace)
    } else if t == "{"@ {
        Some(TokenType::LeftBrace)
    } else if t == "]"@ {
        Some(TokenType::RightSquareBracket)
    } else if t == "["@ {
        Some(TokenType::LeftSquareBracket)
    } else if t == "+"@ {
        Some(TokenType::Plus)
    } else if t == "-"@ {
        Some(TokenType::Minus)
    } else if t == "/"@ {
        Some(TokenType::Slash)
    } else if t == "*"@ {
        Some(TokenType::Star)
    } else if t == "."@ {
        Some(TokenType::Dot)
    } else if t == ","@ {
        Some(TokenType::Comma)
    } else if t == "||"@ {
        Some(TokenType::Or)
    } else if t == "&&"@ {
        Some(TokenType::And)
    } else if t == "true"@ {
        Some(TokenType::True)
    } else if t == "false"@ {
        Some(TokenType::False)
    } else if t == "int"@ {
        Some(TokenType::Int)
    } else if t == "float"@ {
        Some(TokenType::Float)
    } else if t == "string"@ {
        Some(TokenType::String)
    } else if t == "bool"@ {
        Some(TokenType::Boolean)
    } else if t == "if"@ {
        Some(TokenType::If)
    } else if t == "else"@ {
        Some(TokenType::Else)
    } else if t == "for"@ {
        Some(TokenType::For)
    } else if t == "while"@ {
        Some(TokenType::While)
    } else if t == "fun"@ {
        Some(TokenType::Fun)
    } else if t == "return"@ {
        Some(TokenType::Return)
    } else if t == "print"@ {
        Some(TokenType::Print)
    } else if t == "nil"@ {
        Some(TokenType::Nil)
    } else {
        None
    }
}

/// The kind a lexeme falls back to when it matches no table entry:
/// quoted text is a string literal, a digit-led lexeme is numeric (real
/// when it holds a point, else integer), a letter-led lexeme is an
/// identifier, and anything else is unknown.
pub open spec fn spec_fallback_kind(t: Seq<char>) -> TokenType {
    if t.len() > 1 && t[0] == '"' && t[t.len() - 1] == '"' {
        TokenType::Str
    } else if t.len() > 0 && is_digit(t[0]) {
        if t.contains('.') {
            TokenType::Real
        } else {
            TokenType::Integer
        }
    } else if t.len() > 0 && is_alpha(t[0]) {
        TokenType::Identifier
    } else {
        TokenType::Unknown
    }
}

/// The kind a lexeme classifies to: the keyword and operator table takes
/// precedence over the shape rules.
pub open spec fn spec_kind(t: Seq<char>) -> TokenType {
    match spec_keyword_kind(t) {
        Some(k) => k,
        None => spec_fallback_kind(t),
    }
}

/// The token one lexeme classifies to, stamped with `line`.
pub open spec fn spec_classify(t: Seq<char>, line: int) -> TokenView {
    TokenView {
        token_type: spec_kind(t),
        literal: t,
        value: spec_token_value(spec_kind(t), t),
        line,
    }
}

/// The lexeme is the line terminator.
pub open spec fn is_terminator(t: Seq<char>) -> bool {
    t.len() == 1 && t[0] == '\n'
}

/// The lexeme is the single-line comment opener.
pub open spec fn is_comment_open(t: Seq<char>) -> bool {
    t.len() == 2 && t[0] == '/' && t[1] == '/'
}

/// Advance the line counter, saturating at the largest representable
/// line rather than failing.
pub open spec fn inc_line(line: int) -> int {
    if line < i32::MAX {
        line + 1
    } else {
        line
    }
}

/// Line counter after one lexeme is consumed.
pub open spec fn step_line(t: Seq<char>, line: int) -> int {
    if is_terminator(t) {
        inc_line(line)
    } else {
        line
    }
}

/// Suppression state after one lexeme is consumed: a terminator clears
/// it, a comment opener sets it, anything else leaves it.
pub open spec fn step_sup(t: Seq<char>, sup: bool) -> bool {
    if is_terminator(t) {
        false
    } else if is_comment_open(t) {
        true
    } else {
        sup
    }
}

/// The token one lexeme emits, if any: terminators and comment openers
/// emit none, suppressed lexemes emit none, every other lexeme emits its
/// classification.
pub open spec fn step_emit(t: Seq<char>, line: int, sup: bool) -> Option<TokenView> {
    if is_terminator(t) || is_comment_open(t) || sup {
        None
    } else {
        Some(spec_classify(t, line))
    }
}

/// The tokens a lexeme sequence yields, walked in order with the given
/// line counter and suppression state.
pub open spec fn scan_lexemes(ls: Seq<Lexeme>, line: int, sup: bool) -> Seq<TokenView>
    decreases ls.len(),
{
    if ls.len() == 0 {
        Seq::empty()
    } else {
        let t = ls[0].text;
        (match step_emit(t, line, sup) {
            Some(tv) => seq![tv],
            None => Seq::empty(),
        }) + scan_lexemes(ls.drop_first(), step_line(t, line), step_sup(t, sup))
    }
}

/// The complete token sequence of a source text: split it from the
/// start, then scan with the line counter at zero and suppression off.
///
/// This is a function of the source alone, so scanning the same source
/// twice yields structurally equal sequences.
pub open spec fn spec_tokens(src: Seq<char>) -> Seq<TokenView> {
    scan_lexemes(spec_lexemes(src, 0), 0, false)
}

/// Owns one source text and produces its token sequence.
#[derive(Debug)]
pub struct Scanner {
    source: String,
}

impl View for Scanner {
    type V = Seq<char>;

    closed spec fn view(&self) -> Seq<char> {
        self.source@
    }
}

/// Transient per-scan state: the current 0-based line, and whether the
/// rest of the current line is suppressed by a comment opener.
#[derive(Debug)]
struct TempState {
    current_line: i32,
    ignore_next: bool,
}

impl TempState {
    /// Fresh state for one scan: line counter at zero, suppression off.
    fn start() -> (s: Self)
        ensures
            s.current_line == 0,
            !s.ignore_next,
    {
        TempState { current_line: 0, ignore_next: false }
    }
}

impl Scanner {
    /// Capture an owned copy of the source text.
    pub fn new(src: &str) -> (s: Self)
        ensures
            s@ == src@,
    {
        Self { source: src.to_owned() }
    }

    /// Produce the complete ordered token sequence of the source.
    ///
    /// The result is pinned to `spec_tokens` of the source alone, and the
    /// per-call state starts fresh, so repeated calls on one scanner are
    /// idempotent: each yields the same sequence.
    pub fn get_tokens(&self) -> (tokens: Vec<Token>)
        ensures
            tokens@.map_values(|t: Token| t@) == spec_tokens(self@),
    {
        let mut state = TempState::start();
        let mut tokens: Vec<Token> = Vec::new();
        let s = self.source.as_str();
        let n = s.unicode_len();
        proof {
            assert(tokens@.map_values(|t: Token| t@) + spec_tokens(s@) =~= spec_tokens(s@));
        }
        let mut i: usize = 0;
        while i < n
            invariant
                i <= n,
                n == s@.len(),
                s@ == self@,
                tokens@.map_values(|t: Token| t@) + scan_lexemes(
                    spec_lexemes(s@, i as int),
                    state.current_line as int,
                    state.ignore_next,
                ) == spec_tokens(s@),
            decreases n - i,
        {
            let l = lexeme_len_at(s, i);
            if l == 0 {
                i += 1;
            } else {
                let element = s.substring_char(i, i + l);
                let ghost x = Lexeme { start: i as int, text: s@.subrange(i as int, i + l as int) };
                let ghost ls_old = spec_lexemes(s@, i as int);
                let ghost ls_new = spec_lexemes(s@, i + l as int);
                let ghost old_map = tokens@.map_values(|t: Token| t@);
                let ghost old_line = state.current_line as int;
                let ghost old_sup = state.ignore_next;
                proof {
                    assert(ls_old == seq![x] + ls_new);
                    assert(ls_old.len() == 1 + ls_new.len());
                    assert(ls_old[0] == x);
                    assert(ls_old.drop_first() =~= ls_new);
                    assert(element@ == x.text);
                }
                let r = self.get_token(element, &mut state);
                proof {
                    assert(scan_lexemes(ls_old, old_line, old_sup) == (match step_emit(
                        x.text,
                        old_line,
                        old_sup,
                    ) {
                        Some(tv) => seq![tv],
                        None => Seq::empty(),
                    }) + scan_lexemes(ls_new, state.current_line as int, state.ignore_next));
                }
                match r {
                    Some(t) => {
                        let ghost tv = t@;
                        tokens.push(t);
                        proof {
                            assert(tokens@.map_values(|t: Token| t@) =~= old_map + seq![tv]);
                            assert((old_map + seq![tv]) + scan_lexemes(
                                ls_new,
                                state.current_line as int,
                                state.ignore_next,
                            ) =~= old_map + (seq![tv] + scan_lexemes(
                                ls_new,
                                state.current_line as int,
                                state.ignore_next,
                            )));
                        }
                    },
                    None => {
                        proof {
                            assert(old_map + (Seq::<TokenView>::empty() + scan_lexemes(
                                ls_new,
                                state.current_line as int,
                                state.ignore_next,
                            )) =~= old_map + scan_lexemes(
                                ls_new,
                                state.current_line as int,
                                state.ignore_next,
                            ));
                        }
                    },
                }
                i += l;
            }
        }
        proof {
            assert(spec_lexemes(s@, i as int) =~= Seq::<Lexeme>::empty());
            assert(tokens@.map_values(|t: Token| t@) + Seq::<TokenView>::empty() =~= tokens@
                .map_values(|t: Token| t@));
        }
        tokens
    }

    /// Consume one lexeme: drive the line counter and the suppression
    /// state, and emit the lexeme's token unless it is a terminator, a
    /// comment opener, or suppressed.
    fn get_token(&self, element: &str, state: &mut TempState) -> (r: Option<Token>)
        ensures
            final(state).current_line as int == step_line(element@, old(state).current_line as int),
            final(state).ignore_next == step_sup(element@, old(state).ignore_next),
            match r {
                Some(t) => step_emit(element@, old(state).current_line as int, old(state).ignore_next)
                    == Some(t@),
                None => step_emit(element@, old(state).current_line as int, old(state).ignore_next)
                    is None,
            },
    {
        proof {
            reveal_strlit("\n");
            reveal_strlit("//");
            if is_terminator(element@) {
                assert(element@ =~= "\n"@);
            }
            if is_comment_open(element@) {
                assert(element@ =~= "//"@);
            }
        }
        if str_eq(element, "\n") {
            if state.current_line < i32::MAX {
                state.current_line = state.current_line + 1;
            }
            state.ignore_next = false;
            None
        } else if str_eq(element, "//") {
            state.ignore_next = true;
            None
        } else if state.ignore_next {
            None
        } else {
            self.create_correct_token(element, state)
        }
    }

    /// Classify one lexeme against the keyword and operator table, or
    /// fall back to the shape rules.
    fn create_correct_token(&self, element: &str, state: &TempState) -> (r: Option<Token>)
        ensures
            r matches Some(t) && t@ == spec_classify(element@, state.current_line as int),
    {
        let line = state.current_line;
        let token = if str_eq(element, "=") {
            Token::new(TokenType::Equal, element.to_owned(), line)
        } else if str_eq(element, "==") {
            Token::new(TokenType::EqualEqual, element.to_owned(), line)
        } else if str_eq(element, ">") {
            Token::new(TokenType::Greater, element.to_owned(), line)
        } else if str_eq(element, ">=") {
            Token::new(TokenType::GreaterEqual, element.to_owned(), line)
        } else if str_eq(element, "<=") {
            Token::new(TokenType::LessEqual, element.to_owned(), line)
        } else if str_eq(element, "<") {
            Token::new(TokenType::Less, element.to_owned(), line)
        } else if str_eq(element, "!=") {
            Token::new(TokenType::BangEqual, element.to_owned(), line)
        } else if str_eq(element, "!") {
            Token::new(TokenType::Bang, element.to_owned(), line)
        } else if str_eq(element, ";") {
            Token::new(TokenType::Semicolon, element.to_owned(), line)
        } else if str_eq(element, ")") {
            Token::new(TokenType::RightParen, element.to_owned(), line)
        } else if str_eq(element, "(") {
            Token::new(TokenType::LeftParen, element.to_owned(), line)
        } else if str_eq(element, "}") {
            Token::new(TokenType::RightBrace, element.to_owned(), line)
        } else if str_eq(element, "{") {
            Token::new(TokenType::LeftBrace, element.to_owned(), line)
        } else if str_eq(element, "]") {
            Token::new(TokenType::RightSquareBracket, element.to_owned(), line)
        } else if str_eq(element, "[") {
            Token::new(TokenType::LeftSquareBracket, element.to_owned(), line)
        } else if str_eq(element, "+") {
            Token::new(TokenType::Plus, element.to_owned(), line)
        } else if str_eq(element, "-") {
            Token::new(TokenType::Minus, element.to_owned(), line)
        } else if str_eq(element, "/") {
            Token::new(TokenType::Slash, element.to_owned(), line)
        } else if str_eq(element, "*") {
            Token::new(TokenType::Star, element.to_owned(), line)
        } else if str_eq(element, ".") {
            Token::new(TokenType::Dot, element.to_owned(), line)
        } else if str_eq(element, ",") {
            Token::new(TokenType::Comma, element.to_owned(), line)
        } else if str_eq(element, "||") {
            Token::new(TokenType::Or, element.to_owned(), line)
        } else if str_eq(element, "&&") {
            Token::new(TokenType::And, element.to_owned(), line)
        } else if str_eq(element, "true") {
            Token::new(TokenType::True, element.to_owned(), line)
        } else if str_eq(element, "false") {
            Token::new(TokenType::False, element.to_owned(), line)
        } else if str_eq(element, "int") {
            Token::new(TokenType::Int, element.to_owned(), line)
        } else if str_eq(element, "float") {
            Token::new(TokenType::Float, element.to_owned(), line)
        } else if str_eq(element, "string") {
            Token::new(TokenType::String, element.to_owned(), line)
        } else if str_eq(element, "bool") {
            Token::new(TokenType::Boolean, element.to_owned(), line)
        } else if str_eq(element, "if") {
            Token::new(TokenType::If, element.to_owned(), line)
        } else if str_eq(element, "else") {
            Token::new(TokenType::Else, element.to_owned(), line)
        } else if str_eq(element, "for") {
            Token::new(TokenType::For, element.to_owned(), line)
        } else if str_eq(element, "while") {
            Token::new(TokenType::While, element.to_owned(), line)
        } else if str_eq(element, "fun") {
            Token::new(TokenType::Fun, element.to_owned(), line)
        } else if str_eq(element, "return") {
            Token::new(TokenType::Return, element.to_owned(), line)
        } else if str_eq(element, "print") {
            Token::new(TokenType::Print, element.to_owned(), line)
        } else if str_eq(element, "nil") {
            Token::new(TokenType::Nil, element.to_owned(), line)
        } else {
            self.create_variable_token(element, line)
        };
        Some(token)
    }

    /// Classify a lexeme that matched no table entry by its shape.
    fn create_variable_token(&self, element: &str, line: i32) -> (t: Token)
        requires
            spec_keyword_kind(element@) is None,
        ensures
            t@ == spec_classify(element@, line as int),
    {
        if self.is_string_literal(element) {
            Token::new(TokenType::Str, element.to_owned(), line)
        } else if self.is_number(element) {
            if contains_dot(element) {
                Token::new(TokenType::Real, element.to_owned(), line)
            } else {
                Token::new(TokenType::Integer, element.to_owned(), line)
            }
        } else if self.is_identifier(element) {
            Token::new(TokenType::Identifier, element.to_owned(), line)
        } else {
            Token::new(TokenType::Unknown, element.to_owned(), line)
        }
    }

    /// The lexeme is at least two characters and quoted at both ends.
    fn is_string_literal(&self, element: &str) -> (b: bool)
        ensures
            b == (element@.len() > 1 && element@[0] == '"' && element@[element@.len() - 1] == '"'),
    {
        let n = element.unicode_len();
        n > 1 && element.get_char(0) == '"' && element.get_char(n - 1) == '"'
    }

    /// The lexeme opens with a decimal digit.
    fn is_number(&self, element: &str) -> (b: bool)
        ensures
            b == (element@.len() > 0 && is_digit(element@[0])),
    {
        element.unicode_len() > 0 && digit_char(element.get_char(0))
    }

    /// The lexeme opens with an ASCII letter.
    fn is_identifier(&self, element: &str) -> (b: bool)
        ensures
            b == (element@.len() > 0 && is_alpha(element@[0])),
    {
        element.unicode_len() > 0 && alpha_char(element.get_char(0))
    }
}

/// The lexeme holds a decimal point somewhere.
fn contains_dot(element: &str) -> (b: bool)
    ensures
        b == element@.contains('.'),
{
    let n = element.unicode_len();
    let mut i: usize = 0;
    while i < n
        invariant
            i <= n,
            n == element@.len(),
            forall|j: int| 0 <= j < i ==> element@[j] != '.',
        decreases n - i,
    {
        if element.get_char(i) == '.' {
            return true;
        }
        i += 1;
    }
    false
}

} // verus!
