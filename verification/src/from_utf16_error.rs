//! The error of decoding UTF-16 that holds a lone surrogate.
use vstd::prelude::*;

verus! {

/// UTF-16 that could not be decoded: it holds a lone surrogate.
#[derive(Clone, Copy, Debug)]
pub struct FromUtf16Error(pub(crate) ());

impl FromUtf16Error {
    /// What went wrong, in words.
    pub fn message(&self) -> (r: &'static str)
        ensures
            r@ == "invalid utf-16: lone surrogate found"@,
    {
        "invalid utf-16: lone surrogate found"
    }
}

} // verus!
