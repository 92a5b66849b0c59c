//! Recording audio beside a file: the waveform summary shown while recording,
//! the choice of the output path, and the FLAC encoding session.

pub mod config;
pub mod devices;
pub mod flac;
pub mod paths;
pub mod session;
pub mod utils;
pub mod waveform;
