//! The page scripts' view of the system.

pub mod asks;
pub mod calls;
pub mod dom;
pub mod host;
pub mod libc;
pub mod props;
pub mod store;
pub mod table;
