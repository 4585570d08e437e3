//! Error taxonomy for the container engines.
//!
//! A `Decode` error means the input's structure could not be read (bad
//! signature, a length that overruns the input, an empty or inverted audio
//! span). The remaining variants classify failures of the surrounding
//! conversion and re-compression stages.

use vstd::prelude::*;

verus! {

/// Why processing a single file failed. Processing other files in a batch is
/// unaffected by an error on one of them.
#[derive(Debug)]
pub enum ProcessingError {
    /// The file's format is not one the engines understand.
    UnsupportedFormat(String),
    /// The input bytes do not form a valid container.
    Decode(String),
    /// Colour quantization failed.
    Quantize(String),
    /// Re-encoding the processed data failed.
    Encode(String),
    /// Lossless re-compression failed.
    Optimize(String),
}

impl ProcessingError {
    /// A human-readable description of the error.
    pub fn message(&self) -> (r: String)
        ensures
            r@ == self.spec_message(),
    {
        match self {
            ProcessingError::UnsupportedFormat(s) => s.clone(),
            ProcessingError::Decode(s) => s.clone(),
            ProcessingError::Quantize(s) => s.clone(),
            ProcessingError::Encode(s) => s.clone(),
            ProcessingError::Optimize(s) => s.clone(),
        }
    }

    /// The message carried by whichever variant this is.
    pub open spec fn spec_message(&self) -> Seq<char> {
        match self {
            ProcessingError::UnsupportedFormat(s) => s@,
            ProcessingError::Decode(s) => s@,
            ProcessingError::Quantize(s) => s@,
            ProcessingError::Encode(s) => s@,
            ProcessingError::Optimize(s) => s@,
        }
    }
}

} // verus!
