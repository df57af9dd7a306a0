//! Device drivers: what to write to the devices, and what to make of what
//! they answer.

pub mod ahci;
pub mod block;
pub mod bochs_vga;
pub mod e1000;
pub mod ide;
pub mod io;
pub mod pci;
pub mod ps2;
pub mod ramdisk;
pub mod virtio;
pub mod virtio_blk;
pub mod virtio_gpu;
pub mod virtio_input;
pub mod vmmdev;
pub mod vmware_svga;
