//! The ways in which reading a C3D byte source can fail.

use vstd::prelude::*;

verus! {

/// Why a byte source was not accepted.
#[derive(Clone, Copy, Debug, PartialEq, Eq, Structural)]
pub enum ParserError {
    /// The header or the parameter sub-header does not carry its magic byte.
    UnmatchMagic,
    /// The parameter section contradicts itself.
    ParseParameterError,
    /// The byte source ended in the middle of a structure.
    Truncated,
    /// A position before the start of the byte source was asked for.
    IoError,
    /// The header or the parameter dictionary has not been read yet.
    MissingField,
}

impl ParserError {
    /// A one-line description for people.
    pub fn message(&self) -> (text: &'static str)
        ensures
            text@ == self.spec_message()@,
    {
        match self {
            ParserError::UnmatchMagic => "magic word not unmatched, might not be a c3d file",
            ParserError::ParseParameterError => "unable to parse paramter file",
            ParserError::Truncated => "byte source ended early",
            ParserError::IoError => "io error",
            ParserError::MissingField => "missing header/parameter",
        }
    }

    /// The text of [`ParserError::message`].
    pub open spec fn spec_message(&self) -> &'static str {
        match self {
            ParserError::UnmatchMagic => "magic word not unmatched, might not be a c3d file",
            ParserError::ParseParameterError => "unable to parse paramter file",
            ParserError::Truncated => "byte source ended early",
            ParserError::IoError => "io error",
            ParserError::MissingField => "missing header/parameter",
        }
    }
}

} // verus!
