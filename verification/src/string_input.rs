//! A source of program text, for callers that feed the scanner from
//! somewhere of their own.
use vstd::prelude::*;

verus! {

/// Implemented by anything that can hand over a source text to scan.
pub trait StringInput {
    fn get() -> String;
}

} // verus!
