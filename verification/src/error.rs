//! Error values for parsing operations.

use vstd::prelude::*;
use vstd::string::StringExecFns;

verus! {

/// What went wrong during a parse, with a descriptive message.
#[derive(Debug, Clone, PartialEq)]
pub enum KicadError {
    /// An I/O failure, reported by the caller that read the file;
    /// never produced by the parsers themselves.
    IoError(String),
    /// A general parse failure.
    ParseError(String),
    /// Input recognized as the wrong format.
    InvalidFormat(String),
    /// A recognized record lacked a mandatory sub-field.
    MissingField(String),
    /// An expected token class or keyword was not found.
    UnexpectedToken(String),
}

impl KicadError {
    /// The message this error renders as.
    pub open spec fn spec_message(&self) -> Seq<char> {
        match self {
            KicadError::IoError(m) => "IO error: "@ + m@,
            KicadError::ParseError(m) => "Parse error: "@ + m@,
            KicadError::InvalidFormat(m) => "Invalid format: "@ + m@,
            KicadError::MissingField(m) => "Missing field: "@ + m@,
            KicadError::UnexpectedToken(m) => "Unexpected token: "@ + m@,
        }
    }

    /// Render the error as a human-readable message.
    pub fn to_message(&self) -> (r: String)
        ensures
            r@ == self.spec_message(),
    {
        match self {
            KicadError::IoError(m) => {
                let mut s = String::from_str("IO error: ");
                s.append(m.as_str());
                s
            },
            KicadError::ParseError(m) => {
                let mut s = String::from_str("Parse error: ");
                s.append(m.as_str());
                s
            },
            KicadError::InvalidFormat(m) => {
                let mut s = String::from_str("Invalid format: ");
                s.append(m.as_str());
                s
            },
            KicadError::MissingField(m) => {
                let mut s = String::from_str("Missing field: ");
                s.append(m.as_str());
                s
            },
            KicadError::UnexpectedToken(m) => {
                let mut s = String::from_str("Unexpected token: ");
                s.append(m.as_str());
                s
            },
        }
    }
}

} // verus!
