//! The failures the engine reports.

use vstd::prelude::*;

verus! {

/// Why an operation on one item failed.
#[derive(Clone, Copy, Debug, PartialEq, Eq, Structural)]
pub enum EngineError {
    /// The bytes are no image in a format that is understood.
    DecodeError,
    /// A parameter of the request is missing or is no number.
    InvalidParameter,
    /// The border scan found no pixel brighter than the threshold.
    AllBlackImage,
    /// The detector could not be initialised.
    ModelUnavailable,
    /// The result could not be written in the output format.
    EncodeError,
}

impl EngineError {
    /// The text shown for this failure.
    pub open spec fn text(self) -> Seq<char> {
        match self {
            EngineError::DecodeError => "image bytes could not be decoded"@,
            EngineError::InvalidParameter => "a request parameter is missing or malformed"@,
            EngineError::AllBlackImage => "provided image is completely black"@,
            EngineError::ModelUnavailable => "the detection model is unavailable"@,
            EngineError::EncodeError => "image could not be encoded"@,
        }
    }

    pub fn message(&self) -> (s: String)
        ensures
            s@ == self.text(),
    {
        match self {
            EngineError::DecodeError => "image bytes could not be decoded".to_owned(),
            EngineError::InvalidParameter => "a request parameter is missing or malformed".to_owned(),
            EngineError::AllBlackImage => "provided image is completely black".to_owned(),
            EngineError::ModelUnavailable => "the detection model is unavailable".to_owned(),
            EngineError::EncodeError => "image could not be encoded".to_owned(),
        }
    }
}

} // verus!
