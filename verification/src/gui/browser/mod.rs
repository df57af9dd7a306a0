//! Web browser: what the user types, where the pages are kept, and what is
//! made of what comes back.

pub mod history;
pub mod load;
pub mod page;
pub mod paint;
pub mod typed;
pub mod window;
