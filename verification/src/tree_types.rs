//! Expression nodes the tree builder produces.
use vstd::prelude::*;

verus! {

/// One expression or statement node.
///
/// Only integer literals are recognized so far; the other variants are
/// the shapes later stages are expected to fill in.
#[derive(Debug, PartialEq)]
pub enum Expresion {
    Unknown(String),
    Integer(i32),
    Binary(Box<Expresion>, String, Box<Expresion>),
    Unary(String, Box<Expresion>),
}

} // verus!
