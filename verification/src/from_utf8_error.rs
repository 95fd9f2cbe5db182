//! The error of converting bytes that are not valid UTF-8 into a string: it
//! gives the bytes back together with the standard library's description of
//! the first invalid sequence.
use vstd::prelude::*;

verus! {

use crate::fixed_bump_vec::FixedBumpVec;
use core::str::Utf8Error;
use vstd::string::StringSliceAdditionalSpecFns;
use vstd::utf8::valid_utf8;

/// The standard library's description of invalid UTF-8, carried through
/// unopened.
#[verifier::external_type_specification]
#[verifier::external_body]
pub struct ExUtf8Error(core::str::Utf8Error);

/// The error `core::str::from_utf8` reports for `bytes`.
pub uninterp spec fn utf8_error_of(bytes: Seq<u8>) -> Utf8Error;

/// Checks that `bytes` are valid UTF-8 and views them as a string.
///
/// Calls `core::str::from_utf8`, whose documentation says that it succeeds
/// exactly for valid UTF-8 and returns a string of the same bytes; the error
/// it returns otherwise is named [`utf8_error_of`] of the bytes.
#[verifier::external_body]
pub(crate) fn str_from_utf8(bytes: &[u8]) -> (r: Result<&str, Utf8Error>)
    ensures
        r is Ok <==> valid_utf8(bytes@),
        r matches Ok(s) ==> s.spec_bytes() == bytes@,
        r matches Err(e) ==> e == utf8_error_of(bytes@),
{
    core::str::from_utf8(bytes)
}

/// Bytes that are not valid UTF-8, with the error that describes them.
pub struct FromUtf8Error<Bytes> {
    bytes: Bytes,
    error: Utf8Error,
}

impl<Bytes> FromUtf8Error<Bytes> {
    /// The bytes.
    pub closed spec fn spec_bytes(self) -> Bytes {
        self.bytes
    }

    /// The error.
    pub closed spec fn spec_error(self) -> Utf8Error {
        self.error
    }

    /// The error `error` for the bytes `bytes`.
    pub(crate) fn new(error: Utf8Error, bytes: Bytes) -> (r: Self)
        ensures
            r.spec_bytes() == bytes,
            r.spec_error() == error,
    {
        FromUtf8Error { bytes, error }
    }

    /// Gives the bytes back.
    pub fn into_bytes(self) -> (r: Bytes)
        ensures
            r == self.spec_bytes(),
    {
        self.bytes
    }

    /// The error that describes the first invalid sequence of the bytes.
    pub fn utf8_error(&self) -> (r: Utf8Error)
        ensures
            r == self.spec_error(),
    {
        self.error
    }
}

impl FromUtf8Error<FixedBumpVec<u8>> {
    /// The bytes, as a slice.
    pub fn as_bytes(&self) -> (r: &[u8])
        ensures
            r@ == self.spec_bytes()@,
    {
        self.bytes.as_slice()
    }
}

} // verus!
