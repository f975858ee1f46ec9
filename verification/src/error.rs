use crate::hex_decode::FromHexError;
use vstd::prelude::*;

verus! {

/// The failure conditions around a fingerprint computation. The core itself
/// is total; these arise while gathering its input, and a caller maps them
/// to its own diagnostics and exit codes.
#[derive(Debug)]
pub enum Error {
    /// No input was supplied at all.
    EmptyInput,
    /// A hex string and a file were both supplied; they conflict.
    InputAndFileConflict,
    /// Reading the input failed; the message says how.
    IOError(String),
    /// The hex string could not be decoded.
    HexError(FromHexError),
}

impl Error {
    /// The diagnostic line this error renders as.
    pub open spec fn spec_message(&self) -> Seq<char> {
        match self {
            Error::EmptyInput => "Input is empty"@,
            Error::InputAndFileConflict => "Input hex string and given file have a conflicte"@,
            Error::IOError(m) => m@,
            Error::HexError(e) => e.spec_message(),
        }
    }

    /// Render the diagnostic line.
    pub fn message(&self) -> (s: String)
        ensures
            s@ == self.spec_message(),
    {
        match self {
            Error::EmptyInput => "Input is empty".to_owned(),
            Error::InputAndFileConflict => {
                "Input hex string and given file have a conflicte".to_owned()
            },
            Error::IOError(m) => m.clone(),
            Error::HexError(e) => e.message(),
        }
    }
}

} // verus!
