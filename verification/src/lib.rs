//! Speed-reading engine: splits text into evenly sized chunks of words with
//! grapheme-accurate offsets, and decides how playback moves through them.

pub mod app_settings;
pub mod common;
pub mod offsets;
pub mod round_trip;
pub mod scheduler;
pub mod splitter;
pub mod unicode;
pub mod words;
