//! The errors that decoding and validated construction report.
use vstd::prelude::*;
use vstd::string::StringExecFns;
use std::num::TryFromIntError;
use std::string::FromUtf8Error;

verus! {

#[verifier::external_type_specification]
#[verifier::external_body]
pub struct ExFromUtf8Error(FromUtf8Error);

/// The ways in which decoding, or building a value, can fail.
#[derive(Debug, PartialEq)]
#[non_exhaustive]
pub enum Error {
    /// The input ended where a data item was expected to begin.
    Incomplete,
    /// The bytes of a text string are not UTF-8.
    FromUtf8(FromUtf8Error),
    /// An indefinite-length item never reached its break byte.
    IncompleteIndefinite,
    /// A simple value outside the legal range.
    InvalidSimple,
    /// A number did not fit the integer type asked for.
    FromInt(TryFromIntError),
    /// The input breaks a rule of the format; the text says which.
    NotWellFormed(String),
    /// A break byte stands where no indefinite-length item is open.
    InvalidBreakStop,
    /// A message from a serialization bridge, carried through unchanged.
    SerdeMessage(String),
}

/// `to_string` on a `FromUtf8Error`: what the error says.
#[verifier::external_body]
fn utf8_error_text(e: &FromUtf8Error) -> (r: String) {
    e.to_string()
}

/// `to_string` on a `TryFromIntError`: what the error says.
#[verifier::external_body]
fn int_error_text(e: &TryFromIntError) -> (r: String) {
    e.to_string()
}

impl Error {
    /// What the error says. Of an error of the standard library, what that
    /// error says itself.
    pub fn message(&self) -> (r: String)
        ensures
            match *self {
                Error::Incomplete => r@ == "incomplete CBOR bytes"@,
                Error::IncompleteIndefinite => r@ == "incomplete indefinite length data"@,
                Error::InvalidSimple => r@
                    == "invalid simple value simple value cannot be between 20-32"@,
                Error::NotWellFormed(text) => r@ == "not well formed data : "@ + text@,
                Error::InvalidBreakStop => r@ == "break stop position is invalid"@,
                Error::SerdeMessage(text) => r@ == text@,
                _ => true,
            },
    {
        match self {
            Error::Incomplete => String::from_str("incomplete CBOR bytes"),
            Error::FromUtf8(internal) => utf8_error_text(internal),
            Error::IncompleteIndefinite => String::from_str("incomplete indefinite length data"),
            Error::InvalidSimple => String::from_str(
                "invalid simple value simple value cannot be between 20-32",
            ),
            Error::FromInt(internal) => int_error_text(internal),
            Error::NotWellFormed(text) => {
                let mut out = String::from_str("not well formed data : ");
                out.append(text.as_str());
                out
            },
            Error::InvalidBreakStop => String::from_str("break stop position is invalid"),
            Error::SerdeMessage(text) => text.clone(),
        }
    }
}

} // verus!
