//! The ways in which a lookup can fail.

use core::str::Utf8Error;
use vstd::prelude::*;
use vstd::std_specs::convert::FromSpecImpl;
use vstd::string::*;
use vstd::utf8::valid_utf8;

verus! {

/// The error of `core::str::from_utf8`, carried through as it came.
#[verifier::external_type_specification]
#[verifier::external_body]
pub struct ExUtf8Error(Utf8Error);

/// `core::str::from_utf8` accepts exactly the byte sequences that are valid
/// UTF-8, and the string it returns is made of the bytes it was given. The
/// contract is taken on trust, and says nothing of what the error holds.
pub assume_specification[ core::str::from_utf8 ](v: &[u8]) -> (r: Result<&str, Utf8Error>)
    ensures
        r is Ok <==> valid_utf8(v@),
        r matches Ok(s) ==> s.spec_bytes() == v@,
;

/// Why a lookup failed.
#[derive(Debug)]
pub enum Error {
    /// The page has no description to read.
    PageError,
    /// The text of the description is not valid UTF-8.
    Utf8Error(Utf8Error),
}

/// The kind of an [`Error`], without what it carries.
pub enum ErrorKind {
    /// The page has no description to read.
    Page,
    /// The text of the description is not valid UTF-8.
    Utf8,
}

impl Error {
    /// The kind of this error.
    pub open spec fn kind(self) -> ErrorKind {
        match self {
            Error::PageError => ErrorKind::Page,
            Error::Utf8Error(_) => ErrorKind::Utf8,
        }
    }
}

impl From<Utf8Error> for Error {
    fn from(e: Utf8Error) -> (r: Error) {
        Error::Utf8Error(e)
    }
}

impl FromSpecImpl<Utf8Error> for Error {
    open spec fn obeys_from_spec() -> bool {
        true
    }

    open spec fn from_spec(e: Utf8Error) -> Error {
        Error::Utf8Error(e)
    }
}

} // verus!
