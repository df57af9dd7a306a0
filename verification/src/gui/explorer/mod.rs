//! File explorer: browse, open, create, rename, copy, move and delete files.
//!
//! What has to be done to the disk the explorer hands back as a request;
//! what came of it is told to it with the methods of [`outcome`].

pub mod layout;
pub mod list;
pub mod menu;
pub mod outcome;
pub mod paint;
pub mod window;
