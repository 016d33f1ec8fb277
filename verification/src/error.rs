//! Errors of the message model: malformed wire input and malformed
//! envelopes. Message-level error responses are not here — they are valid
//! protocol outcomes, carried as the error variant of a fetch result.

use vstd::prelude::*;

verus! {

/// Why a unit of wire input or an envelope was rejected.
#[derive(Debug, PartialEq, Eq, Clone, Copy)]
pub enum Error {
    /// The input ended inside a unit.
    UnexpectedEnd,
    /// The leading byte is not a known wire type marker.
    UnknownTag,
    /// A string unit's payload is not valid UTF-8.
    InvalidUtf8,
    /// A map entry's key is not a string unit.
    NonStringKey,
    /// A well-formed unit ended before the end of the input.
    TrailingBytes,
    /// A decoded number does not fit the field that receives it.
    NumberTooLarge,
    /// A typed message shape was read from a value of the wrong structure.
    WrongShape,
    /// An envelope carries neither a request identifier nor a responds-to
    /// identifier.
    MissingIdentifiers,
}

impl Error {
    /// A short stable name for the error, for logs and messages.
    pub fn describe(&self) -> (r: &'static str)
        ensures
            r@.len() > 0,
    {
        proof {
            reveal_strlit("unexpected end of input");
            reveal_strlit("unknown wire type marker");
            reveal_strlit("string payload is not UTF-8");
            reveal_strlit("map key is not a string");
            reveal_strlit("trailing bytes after value");
            reveal_strlit("number too large for field");
            reveal_strlit("value has the wrong shape");
            reveal_strlit("envelope carries no identifier");
        }
        match self {
            Error::UnexpectedEnd => "unexpected end of input",
            Error::UnknownTag => "unknown wire type marker",
            Error::InvalidUtf8 => "string payload is not UTF-8",
            Error::NonStringKey => "map key is not a string",
            Error::TrailingBytes => "trailing bytes after value",
            Error::NumberTooLarge => "number too large for field",
            Error::WrongShape => "value has the wrong shape",
            Error::MissingIdentifiers => "envelope carries no identifier",
        }
    }
}

} // verus!
