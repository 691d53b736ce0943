//! The decoded semantic payload a token carries.
use vstd::prelude::*;

verus! {

/// Decoded payload of one token, derived from its kind and its literal
/// text when the token is made.
///
/// A real literal's value is kept exactly, as decimal parts: the digits
/// before the point, the digits after the point, and how many digits the
/// fraction has (so `1.001` keeps its leading zeros).  Rendering the parts
/// as binary floating point is left to unverified callers.
#[derive(Debug, Clone, PartialEq)]
pub enum TokenValue {
    /// No decoded payload.
    NoValue,
    /// Value of an integer literal.
    Int(i32),
    /// Value of a real literal: `whole` + `frac` / 10^`frac_len`.
    Real { whole: u64, frac: u64, frac_len: usize },
    /// Value of a string literal, the surrounding quotes stripped.
    Str(String),
    /// Value of the boolean keywords.
    Bool(bool),
}

/// Mathematical image of a [`TokenValue`].
pub enum ValueView {
    NoValue,
    Int(int),
    Real { whole: int, frac: int, frac_len: int },
    Str(Seq<char>),
    Bool(bool),
}

impl View for TokenValue {
    type V = ValueView;

    open spec fn view(&self) -> ValueView {
        match self {
            TokenValue::NoValue => ValueView::NoValue,
            TokenValue::Int(v) => ValueView::Int(*v as int),
            TokenValue::Real { whole, frac, frac_len } => ValueView::Real {
                whole: *whole as int,
                frac: *frac as int,
                frac_len: *frac_len as int,
            },
            TokenValue::Str(s) => ValueView::Str(s@),
            TokenValue::Bool(b) => ValueView::Bool(*b),
        }
    }
}

} // verus!
