//! Media player: video and music.
//!
//! A decoding engine keeps half a second of audio queued in the mixer and a
//! few video frames ready; the window shows the frame whose time has come
//! according to the audio clock, so picture and sound stay in sync.

pub mod engine;
pub mod names;
pub mod paint;
pub mod tick;
pub mod viz;
pub mod window;
