//! Virtual file system front-end.
//!
//! The main volume is mounted at `/`; extra disks appear as top-level
//! folders (`/disk1`, ...). All paths handed to this module are absolute;
//! `normalize` resolves relative paths against a working directory.

pub mod copy;
pub mod entry;
pub mod info;
pub mod path;
pub mod vfs;
