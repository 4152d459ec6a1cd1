//! The failures a decode can end in.
use vstd::prelude::*;

verus! {

/// Why a decode stopped. Each variant carries a message for people.
#[derive(Debug, Clone)]
pub enum Error {
    /// The header carries a value the format does not allow.
    HeaderParseError(String),
    /// The opcode stream contradicts the decoder's own bookkeeping. Neither
    /// decoder of this library ever answers with it: each is proved to meet
    /// no such contradiction.
    DecodingError(String),
    /// The input ended early: inside the header, or before every pixel the
    /// header announces was decoded.
    IoError(String),
}

impl Error {
    /// The message, as characters.
    pub open spec fn text(self) -> Seq<char> {
        match self {
            Error::HeaderParseError(s) => s@,
            Error::DecodingError(s) => s@,
            Error::IoError(s) => s@,
        }
    }

    /// The message.
    pub fn message(&self) -> (s: &str)
        ensures
            s@ == self.text(),
    {
        match self {
            Error::HeaderParseError(s) => s.as_str(),
            Error::DecodingError(s) => s.as_str(),
            Error::IoError(s) => s.as_str(),
        }
    }
}

} // verus!
