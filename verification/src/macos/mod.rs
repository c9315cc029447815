//! Capture through Core Audio process taps.

pub mod version;
pub mod status;
pub mod devices;
pub mod processes;
pub mod tap;
pub mod backend;
