//! Rust Audio Workbench: clips of 16-bit audio, compound clips built from
//! them, tracks that arrange clips on a timeline, WAV encoding, and the
//! command handlers of the raw command-line environment.

pub mod outline;
pub mod samplearray;
pub mod compounds;
pub mod track;
pub mod wavreader;
pub mod text;
pub mod tempo;
pub mod rawcli;
