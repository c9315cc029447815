//! Verified core of a cross-platform audio capture library.
//!
//! The crate holds the decisions of the library: how speech is cut into segments, how a
//! recording is paired with its secondary feed, how capture graphs are wired, how devices and
//! processes are listed, and how options and errors are read and reported. Samples and
//! probabilities are carried as their binary32 bit patterns, see [`level::Level`].

pub mod backend;
pub mod binding;
pub mod level;
pub mod linux;
pub mod macos;
pub mod table;
pub mod text;
pub mod types;
pub mod vad;
pub mod windows;
