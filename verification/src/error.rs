//! Why unpacking can fail.

use vstd::prelude::*;
use vstd::string::{to_string_from_display_ensures, StringExecFns};

verus! {

/// `std::io::Error`, carried as it is; nothing is known of what it holds.
#[verifier::external_type_specification]
#[verifier::external_body]
pub struct ExIoError(std::io::Error);

/// `std::string::FromUtf8Error`, carried as it is; nothing is known of what
/// it holds.
#[verifier::external_type_specification]
#[verifier::external_body]
pub struct ExFromUtf8Error(std::string::FromUtf8Error);

/// The ways in which unpacking fails, without the cause.
#[derive(Clone, Copy, Debug, PartialEq, Eq, Structural)]
pub enum ErrorKind {
    /// The source ran out of bytes, or could not be read.
    Source,
    /// A text was not valid UTF-8.
    Encoding,
    /// The bytes were read, but the type does not admit what they say:
    /// a zero for an integer that is never zero.
    Invariant,
    /// A failure that a type outside this crate reports.
    Custom,
}

/// Error that may occur while unpacking. Each variant holds its cause.
#[derive(Debug)]
pub enum Error {
    /// The source ran out of bytes, or could not be read.
    IO(std::io::Error),
    /// A text was not valid UTF-8.
    UTF8(std::string::FromUtf8Error),
    /// A zero was read for an integer that is never zero.
    Invariant,
    /// A failure of a type outside this crate, held by its text.
    Custom(String),
}

impl Error {
    /// The way of failing that this error stands for.
    pub open spec fn spec_kind(&self) -> ErrorKind {
        match self {
            Error::IO(_) => ErrorKind::Source,
            Error::UTF8(_) => ErrorKind::Encoding,
            Error::Invariant => ErrorKind::Invariant,
            Error::Custom(_) => ErrorKind::Custom,
        }
    }

    /// The way of failing that this error stands for.
    #[verifier::when_used_as_spec(spec_kind)]
    pub fn kind(&self) -> (kind: ErrorKind)
        ensures
            kind == self.spec_kind(),
    {
        match self {
            Error::IO(_) => ErrorKind::Source,
            Error::UTF8(_) => ErrorKind::Encoding,
            Error::Invariant => ErrorKind::Invariant,
            Error::Custom(_) => ErrorKind::Custom,
        }
    }

    /// The text of this error: where it wraps a cause, the text that the
    /// cause displays, with nothing before it or after it.
    pub fn message(&self) -> (text: String)
        ensures
            self matches Error::IO(cause) ==> to_string_from_display_ensures::<std::io::Error>(
                &cause,
                text,
            ),
            self matches Error::UTF8(cause) ==> to_string_from_display_ensures::<
                std::string::FromUtf8Error,
            >(&cause, text),
            self is Invariant ==> text@ == "zero read for an integer that is never zero"@,
            self matches Error::Custom(cause) ==> text@ == cause@,
    {
        match self {
            Error::IO(cause) => cause.to_string(),
            Error::UTF8(cause) => cause.to_string(),
            Error::Invariant => String::from_str("zero read for an integer that is never zero"),
            Error::Custom(cause) => cause.clone(),
        }
    }
}

} // verus!
