//! The error type.

use vstd::prelude::*;

verus! {

/// `std::io::Error`, carried through as it is.
#[verifier::external_type_specification]
#[verifier::external_body]
pub struct ExIoError(std::io::Error);

/// Unified error type.
#[derive(Debug)]
pub enum Error {
    /// Wraps a `std::io::Error`, such as file not found, etc.
    IoError(std::io::Error),
    /// Wraps an error from SDL2.
    SdlError(String),
}

impl Error {
    /// Wraps the message of an SDL2 error.
    pub fn from_sdl(err: String) -> (e: Error)
        ensures
            e == Error::SdlError(err),
    {
        Error::SdlError(err)
    }

    /// The error as text, for a person to read: the variant and, in
    /// brackets, what it wraps. This is what `std::fmt::Debug` writes for
    /// the error; nothing is claimed of the text.
    #[verifier::external_body]
    pub fn message(&self) -> (text: String) {
        format!("{:?}", self)
    }
}

impl From<std::io::Error> for Error {
    fn from(error: std::io::Error) -> (e: Self) {
        Error::IoError(error)
    }
}

impl vstd::std_specs::convert::FromSpecImpl<std::io::Error> for Error {
    open spec fn obeys_from_spec() -> bool {
        true
    }

    open spec fn from_spec(error: std::io::Error) -> Self {
        Error::IoError(error)
    }
}

} // verus!
