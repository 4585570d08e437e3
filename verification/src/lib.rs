//! A multi-format binary-container metadata engine.
//!
//! Four container engines - PNG, WebP, WAV, and MP3 (ID3) - share one shape:
//! a chunk walker that scans a byte buffer into (identifier, payload)
//! records, a classifier that tags each record by sensitivity under a strip
//! policy, and a reconstructor that emits a new byte-exact container holding
//! only the records the policy permits, with its size fields corrected.
//!
//! Everything else around the engines - pixel codecs, quantizers, lossless
//! re-compressors, transcoding processes, and file discovery - is an
//! external collaborator reached from the surrounding program, not from
//! here.

pub mod bytes;
pub mod config;
pub mod converter;
pub mod error;
pub mod format;
pub mod id3v2;
pub mod io;
pub mod jpg;
pub mod mp3;
pub mod mp4;
pub mod png;
pub mod report;
pub mod riff;
pub mod wav;
pub mod webp;
