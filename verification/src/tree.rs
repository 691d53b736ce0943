//! A stub syntax-tree builder: consumes a token sequence in order and
//! keeps the integer literals it recognizes.
use vstd::prelude::*;
use crate::token::{Token, TokenView, views_of};
use crate::token_type::TokenType;
use crate::token_value::{TokenValue, ValueView};
use crate::tree_types::Expresion;

verus! {

/// Why the tree builder rejected a token sequence.
#[derive(Debug, Clone, Copy, PartialEq, Eq, Structural)]
pub enum TreeError {
    /// A token of the diagnostic `Unknown` kind was met; the builder
    /// fails fast rather than guessing at garbage input.
    UnknownToken,
}

/// Some token of the sequence carries the diagnostic `Unknown` kind.
pub open spec fn has_unknown(toks: Seq<TokenView>) -> bool {
    exists|k: int| 0 <= k < toks.len() && toks[k].token_type == TokenType::Unknown
}

/// The statements a token sequence yields: one integer expression per
/// token of the integer kind that carries an integer value, in order;
/// every other token is skipped.
pub open spec fn int_statements(toks: Seq<TokenView>) -> Seq<Expresion>
    decreases toks.len(),
{
    if toks.len() == 0 {
        Seq::empty()
    } else {
        int_statements(toks.drop_last()) + (if toks.last().token_type == TokenType::Integer {
            match toks.last().value {
                ValueView::Int(v) => seq![Expresion::Integer(v as i32)],
                _ => Seq::empty(),
            }
        } else {
            Seq::empty()
        })
    }
}

/// Holds the statements accepted so far.
#[derive(Debug)]
pub struct AbstractSyntaxTree {
    statements: Vec<Expresion>,
}

impl View for AbstractSyntaxTree {
    type V = Seq<Expresion>;

    closed spec fn view(&self) -> Seq<Expresion> {
        self.statements@
    }
}

/// Transient per-call state of one `accept_tokens` pass.
#[derive(Debug)]
struct TempState {
    current: usize,
    statements: Vec<Expresion>,
}

impl TempState {
    fn new() -> (s: Self)
        ensures
            s.current == 0,
            s.statements@ == Seq::<Expresion>::empty(),
    {
        Self { current: 0, statements: vec![] }
    }
}

impl AbstractSyntaxTree {
    pub fn new() -> (t: Self)
        ensures
            t@ == Seq::<Expresion>::empty(),
    {
        Self { statements: vec![] }
    }

    /// Walk the token sequence once.  On any `Unknown` token the walk
    /// fails fast with an error and the tree is left as it was; else the
    /// kept statements are replaced by the integer expressions of the
    /// sequence.
    pub fn accept_tokens(&mut self, tokens: &[Token]) -> (r: Result<(), TreeError>)
        ensures
            match r {
                Ok(()) => !has_unknown(views_of(tokens@)) && final(self)@ == int_statements(
                    views_of(tokens@),
                ),
                Err(e) => has_unknown(views_of(tokens@)) && final(self)@ == old(self)@ && e
                    == TreeError::UnknownToken,
            },
    {
        let mut state = TempState::new();

        while state.current < tokens.len()
            invariant
                state.current <= tokens@.len(),
                state.statements@ == int_statements(views_of(tokens@).take(state.current as int)),
                forall|k: int|
                    0 <= k < state.current ==> views_of(tokens@)[k].token_type
                        != TokenType::Unknown,
                self == old(self),
            decreases tokens@.len() - state.current,
        {
            let ghost cur = state.current as int;
            let ghost views = views_of(tokens@);
            match self.match_tokens(&tokens[state.current], &mut state) {
                Ok(()) => {
                    proof {
                        assert(views.take(cur + 1).drop_last() =~= views.take(cur));
                        assert(views.take(cur + 1).last() == views[cur]);
                    }
                },
                Err(e) => {
                    proof {
                        assert(views[cur] == tokens@[cur]@);
                        assert(has_unknown(views));
                    }
                    return Err(e);
                },
            }
        }
        proof {
            assert(views_of(tokens@).take(tokens@.len() as int) =~= views_of(tokens@));
        }
        self.statements.clear();
        self.statements = state.statements;
        Ok(())
    }

    /// Handle one token: `Unknown` is refused, an integer token's value
    /// is kept as a statement, and any other kind is skipped.
    fn match_tokens(&self, token: &Token, state: &mut TempState) -> (r: Result<(), TreeError>)
        requires
            old(state).current < usize::MAX,
        ensures
            match r {
                Ok(()) => token@.token_type != TokenType::Unknown && final(state).current == old(
                    state,
                ).current + 1 && final(state).statements@ == old(state).statements@ + (
                if token@.token_type == TokenType::Integer {
                    match token@.value {
                        ValueView::Int(v) => seq![Expresion::Integer(v as i32)],
                        _ => Seq::<Expresion>::empty(),
                    }
                } else {
                    Seq::<Expresion>::empty()
                }),
                Err(e) => token@.token_type == TokenType::Unknown && *final(state) == *old(state)
                    && e == TreeError::UnknownToken,
            },
    {
        match token.token_type {
            TokenType::Unknown => Err(TreeError::UnknownToken),
            TokenType::Integer => {
                match &token.value {
                    TokenValue::Int(value) => {
                        let value = Expresion::Integer(*value);
                        state.current += 1;
                        state.statements.push(value);
                        proof {
                            assert(state.statements@ =~= old(state).statements@ + seq![
                                Expresion::Integer(token.value->Int_0 as int as i32),
                            ]);
                        }
                        Ok(())
                    },
                    _ => {
                        state.current += 1;
                        proof {
                            assert(state.statements@ =~= old(state).statements@
                                + Seq::<Expresion>::empty());
                        }
                        Ok(())
                    },
                }
            },
            _ => {
                state.current += 1;
                proof {
                    assert(state.statements@ =~= old(state).statements@
                        + Seq::<Expresion>::empty());
                }
                Ok(())
            },
        }
    }

    /// The statements accepted by the last successful walk.
    pub fn get(&self) -> (r: &[Expresion])
        ensures
            r@ == self@,
    {
        self.statements.as_slice()
    }
}

} // verus!
