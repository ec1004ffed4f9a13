//! Classified parse failures.

use vstd::prelude::*;
use crate::types::Section;

verus! {

/// Why a document, a record or an override code was rejected.
#[derive(Clone, Copy, Debug, PartialEq, Eq, Structural)]
pub enum Error {
    /// Basic file structure invalid: a section header, a record or an
    /// override block is malformed, or a format declaration is missing.
    StructureInvalid,
    /// A style or event field does not have the form its kind asks for.
    FieldInvalid,
    /// An event names a style that was never defined.
    StyleUndefined,
    /// Invalid override code: the tag name is not known.
    OCInvalid,
    /// Invalid override code parameters.
    OCInvalidParams,
    /// Missing override code parameters.
    OCMissingParams,
}

impl Error {
    /// The message that belongs to this error.
    pub fn message(&self) -> (s: &'static str)
        ensures
            s@ == match *self {
                Error::StructureInvalid => "basic file structure invalid"@,
                Error::FieldInvalid => "field value invalid"@,
                Error::StyleUndefined => "style does not exist or was not defined"@,
                Error::OCInvalid => "invalid override code"@,
                Error::OCInvalidParams => "invalid override code parameters"@,
                Error::OCMissingParams => "missing override code parameters"@,
            },
    {
        match self {
            Error::StructureInvalid => "basic file structure invalid",
            Error::FieldInvalid => "field value invalid",
            Error::StyleUndefined => "style does not exist or was not defined",
            Error::OCInvalid => "invalid override code",
            Error::OCInvalidParams => "invalid override code parameters",
            Error::OCMissingParams => "missing override code parameters",
        }
    }
}

/// An error together with the place in the script that it belongs to.
#[derive(Clone, Copy, Debug, PartialEq, Eq)]
pub struct Diagnostic {
    /// The section in which the error lies; `Unknown` for a header that
    /// never closes.
    pub section: Section,
    /// Which record of the section it is, counted from 0 over the rows of
    /// that section; 0 where the section as a whole is at fault.
    pub record: usize,
    /// What is wrong.
    pub error: Error,
    /// For a fault in the text of an event: the bytes of that text that
    /// are at fault, from the first index up to, not including, the second.
    pub span: Option<(usize, usize)>,
}

} // verus!
