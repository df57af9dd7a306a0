//! The decision logic of MayOS: paths and mounts, drivers, sound, the
//! desktop and its applications, as verified functions on plain values.

pub mod acpi;
pub mod arch;
pub mod arith;
pub mod audio;
pub mod boot;
pub mod bytes;
pub mod drivers;
pub mod fs;
pub mod gui;
pub mod input;
pub mod interrupts;
pub mod log;
pub mod text;
