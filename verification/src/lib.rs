//! Planning logic for a batch audio-to-WAV conversion tool.
//!
//! The tool walks an input directory, keeps the files whose extension is in a
//! fixed set of audio extensions, and converts each one to a 16-bit mono
//! 16 kHz WAV file under an output directory that mirrors the input's
//! subdirectory structure. This crate holds everything that can be decided
//! without touching the filesystem or a subprocess: which file names count as
//! audio files, how a discovered path is re-rooted under the output directory
//! with a `.wav` extension, and the exact argument list handed to the
//! external transcoder. The binary around it only reads directories, creates
//! them, and launches the subprocess.

pub mod convert;
pub mod discover;
pub mod names;
pub mod paths;
