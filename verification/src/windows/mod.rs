//! Capture through WASAPI loopback.

pub mod version;
pub mod common;
pub mod processes;
pub mod system;
pub mod process;
