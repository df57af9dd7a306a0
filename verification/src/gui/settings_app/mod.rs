//! The Settings app: display, personalisation, sound, network, mouse &
//! keyboard, date & time, storage and about pages.
//!
//! Every interactive control of the page that is shown has a hit rectangle;
//! events are matched against the rectangles from the last frame.

pub mod disks;
pub mod labels;
pub mod nettest;
pub mod network;
pub mod pages;
pub mod prefs;
pub mod sheet;
pub mod window;
