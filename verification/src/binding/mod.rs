//! The binding for scripts: options in, chunks and events out.

pub mod errors;
pub mod convert;
pub mod options;
pub mod chunk;
pub mod bridge;
pub mod pairing;
pub mod open;
pub mod stop;
pub mod stream;
pub mod vad;
pub mod flac;
