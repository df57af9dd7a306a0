//! The window manager.

pub mod anim;
pub mod clock;
pub mod commands;
pub mod damage;
pub mod desktop;
pub mod frame;
pub mod laws;
pub mod opening;
pub mod paint;
pub mod pointer;
pub mod stack;
