//! Voice activity detection: configuration, segmentation and framing.

pub mod config;
pub mod segmenter;
pub mod error;
pub mod framing;
pub mod pcm;
pub mod engine;
pub mod detector;
