//! Drivers.

use mayos::drivers::ahci::{self, AhciDisk};
use mayos::drivers::block::{identify, plan, Piece};
use mayos::drivers::bochs_vga::{BochsVga, DATA, INDEX};
use mayos::drivers::e1000::{self, E1000, Received};
use mayos::drivers::ide::{self, IdeDisk};
use mayos::drivers::io::{Io, Poll};
use mayos::drivers::pci::{addr, bar, capabilities, device_at, enabled, enabled_io, PciDevice, Scan};
use mayos::drivers::ps2::{set1_key, State};
use mayos::drivers::ramdisk::RamDisk;
use mayos::drivers::virtio::{answer, Buf, Capability, Transport, Virtqueue};
use mayos::drivers::virtio_blk::{VirtioBlk, T_IN, T_OUT};
use mayos::drivers::virtio_gpu::{display_info, VirtioGpu};
use mayos::drivers::virtio_input::VirtioInput;
use mayos::drivers::vmmdev::{self, VmmDev};
use mayos::drivers::vmware_svga::{Fifo, Registers, UpdateStep, VmwareSvga};
use mayos::input::{InputEvent, Key};

// PCI ------------------------------------------------------------------

#[test]
fn registers_have_addresses() {
    assert_eq!(addr(0, 0, 0, 0), 0x8000_0000);
    assert_eq!(addr(1, 2, 3, 0x13), 0x8001_1310);
}

#[test]
fn base_addresses_are_read() {
    assert_eq!(bar(0xfebc_0000, 7), 0xfebc_0000);
    assert_eq!(bar(0xfebc_000c, 1), 0x1_febc_0000);
    assert_eq!(bar(0xc001, 9), 0xc000);
}

#[test]
fn capabilities_are_walked() {
    let mut cfg = vec![0u8; 256];
    cfg[6] = 0x10;
    cfg[0x34] = 0x43;
    cfg[0x40] = 9;
    cfg[0x41] = 0x50;
    cfg[0x50] = 5;
    cfg[0x51] = 0x60;
    cfg[0x60] = 9;
    assert_eq!(capabilities(&cfg, 9), [0x40, 0x60]);
    cfg[6] = 0;
    assert!(capabilities(&cfg, 9).is_empty());
}

#[test]
fn a_list_of_capabilities_that_goes_round_ends() {
    let mut cfg = vec![0u8; 256];
    cfg[6] = 0x10;
    cfg[0x34] = 0x40;
    cfg[0x40] = 9;
    cfg[0x41] = 0x40;
    assert_eq!(capabilities(&cfg, 9).len(), 48);
}

#[test]
fn the_command_register_is_extended() {
    assert_eq!(enabled(0) & 6, 6);
    assert_eq!(enabled_io(0) & 7, 7);
}

#[test]
fn devices_have_classes() {
    let d = device_at(0, 1, 0, 0x100e_8086, 0x0200_0003);
    assert_eq!((d.vendor, d.device, d.class, d.subclass), (0x8086, 0x100e, 2, 0));
    assert_eq!(d.class_name(), "Network controller");
    assert_eq!(PciDevice { class: 1, subclass: 6, ..d }.class_name(), "SATA controller");
    assert_eq!(PciDevice { class: 0xff, ..d }.class_name(), "Device");
}

#[test]
fn a_scan_finds_every_function() {
    // One device in slot 2 of bus 0, one with functions 0 and 3 on bus 1.
    let read = |r: (u8, u8, u8, u8)| match r {
        (0, 2, 0, 0) => 0x1111_8086u32,
        (0, 2, 0, 8) => 0x0300_0000,
        (1, 0, 0, 0) => 0x2222_8086,
        (1, 0, 0, 0x0c) => 0x0080_0000,
        (1, 0, 0, 8) => 0x0106_0100,
        (1, 0, 3, 0) => 0x3333_8086,
        (1, 0, 3, 8) => 0x0c03_0000,
        (_, _, _, 0) => 0xffff_ffff,
        _ => 0,
    };
    let mut s = Scan::new();
    while let Some(r) = s.ask() {
        s.tell(read(r));
    }
    let found: Vec<(u8, u8, u8, u16)> = s.devices().iter().map(|d| (d.bus, d.slot, d.func, d.device)).collect();
    assert_eq!(found, [(0, 2, 0, 0x1111), (1, 0, 0, 0x2222), (1, 0, 3, 0x3333)]);
}

// Keyboard and mouse ----------------------------------------------------

#[test]
fn scancodes_are_keys() {
    assert_eq!(set1_key(0x1e, false, false, false), Key::Char('a'));
    assert_eq!(set1_key(0x1e, false, true, false), Key::Char('A'));
    assert_eq!(set1_key(0x1e, false, true, true), Key::Char('a'));
    assert_eq!(set1_key(0x02, false, false, true), Key::Char('1'));
    assert_eq!(set1_key(0x02, false, true, false), Key::Char('!'));
    assert_eq!(set1_key(0x48, true, false, false), Key::Up);
    assert_eq!(set1_key(0x3b, false, false, false), Key::F(1));
    assert_eq!(set1_key(0x7f, false, false, false), Key::Unknown);
}

#[test]
fn modifiers_are_remembered() {
    let mut s = State::new();
    let e = s.on_keyboard_irq(0x2a).unwrap();
    assert!(e.pressed && e.shift);
    let e = s.on_keyboard_irq(0x1e).unwrap();
    assert_eq!((e.key, e.shift), (Key::Char('A'), true));
    let e = s.on_keyboard_irq(0xaa).unwrap();
    assert!(!e.pressed && !e.shift);
    assert_eq!(s.on_keyboard_irq(0xe0), None);
    assert_eq!(s.on_keyboard_irq(0x4b).unwrap().key, Key::Left);
}

#[test]
fn mouse_packets_have_three_bytes() {
    let mut s = State::new();
    assert!(s.on_mouse_irq(0x09).is_empty());
    assert!(s.on_mouse_irq(5).is_empty());
    let v = s.on_mouse_irq(3);
    assert_eq!(
        v,
        [InputEvent::MouseMove { dx: 5, dy: -3 }, InputEvent::MouseButton { button: 0, pressed: true }]
    );
    s.on_mouse_irq(0x18);
    s.on_mouse_irq(0xff);
    let v = s.on_mouse_irq(0);
    assert_eq!(
        v,
        [InputEvent::MouseMove { dx: -1, dy: 0 }, InputEvent::MouseButton { button: 0, pressed: false }]
    );
}

// Disks ------------------------------------------------------------------

#[test]
fn a_ram_disk_gives_back_what_was_written() {
    let mut d = RamDisk::from_boot_module(Some(vec![7; 2048])).unwrap();
    assert_eq!(d.sectors, 4);
    let new = vec![9u8; 512];
    assert_eq!(d.write(2, &new), Ok(()));
    assert_eq!(d.read(2, 512), Ok(new));
    assert_eq!(d.read(1, 512), Ok(vec![7; 512]));
    assert_eq!(d.read(4, 512), Err(()));
    assert_eq!(d.write(3, &vec![0; 1024]), Err(()));
    assert!(RamDisk::from_boot_module(None).is_none());
}

#[test]
fn transfers_are_cut_into_pieces() {
    let (p, ok) = plan(10, 1536, 100, 1024);
    assert!(ok);
    assert_eq!(
        p,
        [Piece { sector: 10, offset: 0, bytes: 1024 }, Piece { sector: 12, offset: 1024, bytes: 512 }]
    );
    let (p, ok) = plan(98, 2048, 100, 1024);
    assert!(!ok);
    assert_eq!(p.len(), 1);
    assert_eq!(plan(0, 0, 0, 512), (vec![], true));
}

fn identity() -> Vec<u8> {
    let mut id = vec![0u8; 512];
    id[120] = 0x10;
    for (i, b) in b"EQUMH RADDSI K".iter().enumerate() {
        id[54 + i] = *b;
    }
    for b in &mut id[68..94] {
        *b = b' ';
    }
    id
}

#[test]
fn disks_say_what_they_are() {
    let mut id = identity();
    let (n, model) = identify(&id);
    assert_eq!(n, 16);
    assert_eq!(model.iter().collect::<String>(), "QEMU HARDDISK");
    id[200] = 5;
    assert_eq!(identify(&id).0, 5);
}

#[test]
fn sata_ports_are_checked() {
    assert!(ahci::has_disk(0b100, 2, 0x123, ahci::SIG_ATA));
    assert!(!ahci::has_disk(0b100, 1, 0x123, ahci::SIG_ATA));
    assert!(!ahci::has_disk(0b100, 2, 0x023, ahci::SIG_ATA));
    assert!(!ahci::has_disk(0b100, 2, 0x123, 0xeb14_0101));
    assert_eq!(ahci::port_base(3), 0x280);
}

#[test]
fn sata_commands_hold_the_sector() {
    let c = AhciDisk::command(ahci::ATA_READ_DMA_EXT, 0x1234_5678_9abc, 3, false, 0x1000, 0x8000);
    assert_eq!(c.header[0], 0x1_0005);
    assert_eq!(c.header[2], 0x1800);
    assert_eq!(c.data, Some((0x8000, 1535)));
    assert_eq!(c.frame[2], 0x25);
    assert_eq!([c.frame[4], c.frame[5], c.frame[6]], [0xbc, 0x9a, 0x78]);
    assert_eq!([c.frame[8], c.frame[9], c.frame[10]], [0x56, 0x34, 0x12]);
    assert_eq!(c.frame[12], 3);
    let c = AhciDisk::command(ahci::ATA_FLUSH_EXT, 0, 0, true, 0x1000, 0x8000);
    assert_eq!(c.data, None);
    assert_eq!(c.header[0] & 0x40, 0x40);
}

#[test]
fn sata_disks_are_named() {
    let d = AhciDisk::new(4, &identity());
    assert_eq!(d.name.iter().collect::<String>(), "sata4");
    assert_eq!(d.sectors, 16);
    let (p, ok) = d.transfer(0, 16 * 512);
    assert!(ok && p.len() == 1);
    assert!(!d.transfer(0, 17 * 512).1);
}

#[test]
fn ide_disks_are_found_and_named() {
    assert!(ide::is_floating(0xff));
    assert!(!ide::answers(0));
    assert!(ide::is_ata(0, 0) && !ide::is_ata(0x14, 0xeb));
    let d = IdeDisk::new(1, true, &identity()).unwrap();
    assert_eq!(d.name.iter().collect::<String>(), "ide3");
    assert_eq!((d.io, d.ctrl), (0x170, 0x376));
    assert!(IdeDisk::new(0, false, &vec![0; 512]).is_none());
    let steps = d.setup(0x0102_0304_0506, 0x100, ide::READ);
    assert_eq!(steps[0], Io::Out8(0x176, 0x50));
    assert_eq!(steps[5], Io::Out8(0x172, 1));
    assert_eq!(steps[6], Io::Out8(0x173, 3));
    assert_eq!(*steps.last().unwrap(), Io::Out8(0x177, 0x24));
    assert_eq!(ide::batch(300, 0), 256);
    assert_eq!(ide::batch(300, 256), 44);
}

#[test]
fn ide_disks_are_waited_for() {
    assert_eq!(IdeDisk::wait_ready(0x80, 10, 500), Poll::Wait);
    assert_eq!(IdeDisk::wait_ready(0x80, 501, 500), Poll::Failed);
    assert_eq!(IdeDisk::wait_ready(0x50, 10, 500), Poll::Done);
}

// virtio ---------------------------------------------------------------

fn buf(phys: u64, device_writes: bool) -> Buf {
    Buf { phys, len: 16, device_writes }
}

#[test]
fn the_parts_of_a_device_are_found() {
    let cap = |kind, base, multiplier| Capability { kind, base, offset: 0, length: 16, multiplier };
    let t = Transport::new(&[cap(1, 0x1000, 0), cap(2, 0x2000, 4), cap(4, 0, 0), cap(1, 0x3000, 0)]).unwrap();
    assert_eq!((t.common, t.notify, t.notify_mult, t.device_cfg), (3, 1, 4, None));
    assert_eq!(t.notify_offset(3), 12);
    assert!(Transport::new(&[cap(1, 0x1000, 0)]).is_none());
}

#[test]
fn version_one_is_required() {
    assert_eq!(Transport::negotiate(0xffff_ffff, 0, 0x200), None);
    assert_eq!(Transport::negotiate(0xffff_ffff, 3, 0x200), Some((0x200, 1)));
}

#[test]
fn chains_go_out_and_come_back() {
    let mut q = Virtqueue::new(4);
    assert_eq!(q.free_descriptors(), 4);
    let s = q.submit(&[buf(1, false), buf(2, true), buf(3, true)]).unwrap();
    assert_eq!(s.head, 0);
    let links: Vec<(u16, u16, u16)> = s.descs.iter().map(|(i, d)| (*i, d.flags, d.next)).collect();
    assert_eq!(links, [(0, 1, 1), (1, 3, 2), (2, 2, 0)]);
    assert_eq!((s.slot, s.avail), (0, 1));
    assert!(q.submit(&[buf(1, false), buf(2, true)]).is_none());
    assert!(q.submit(&[]).is_none());
    assert_eq!(q.pop_used(0, 0, 0), None);
    assert!(q.is_outstanding(0));
    assert!(!q.is_outstanding(3));
    assert_eq!(q.pop_used(1, 0, 99), Some((0, 99)));
    assert_eq!(q.free_descriptors(), 4);
    assert!(!q.is_outstanding(0));
    assert_eq!(answer(0, Some((0, 99))), Some(99));
    assert_eq!(answer(1, Some((0, 99))), None);
}

#[test]
fn queues_are_laid_out() {
    let l = Virtqueue::layout(64);
    assert_eq!((l.avail_off, l.used_off, l.total), (1024, 4096, 4096 + 518));
}

#[test]
fn block_requests_are_chains() {
    let (h, bufs) = VirtioBlk::request(T_OUT, 0x1_0000_0002, 512, 0x1000, 0x2000);
    assert_eq!(h, [1, 0, 0, 0, 0, 0, 0, 0, 2, 0, 0, 0, 1, 0, 0, 0, 0xff]);
    assert_eq!(bufs.len(), 3);
    assert!(!bufs[1].device_writes && bufs[2].device_writes && bufs[2].phys == 0x1010);
    let (_, bufs) = VirtioBlk::request(T_IN, 0, 512, 0x1000, 0x2000);
    assert!(bufs[1].device_writes);
    assert_eq!(VirtioBlk::request(4, 0, 0, 0x1000, 0x2000).1.len(), 2);
}

#[test]
fn a_disk_that_cannot_flush_is_not_asked_again() {
    let mut d = VirtioBlk::new(100, 0);
    assert!(d.can_flush && d.capacity == 100);
    d.flush(true);
    assert!(d.can_flush);
    d.flush(false);
    assert!(!d.can_flush);
    d.flush(true);
    assert!(!d.can_flush);
}

#[test]
fn the_display_says_its_size() {
    let mut r = vec![0u8; 408];
    r[0..4].copy_from_slice(&0x1101u32.to_le_bytes());
    r[32..36].copy_from_slice(&1024u32.to_le_bytes());
    r[36..40].copy_from_slice(&768u32.to_le_bytes());
    assert_eq!(display_info(&r), None);
    r[40] = 1;
    assert_eq!(display_info(&r), Some((1024, 768)));
    assert_eq!(display_info(&r[..20]), None);
    let g = VirtioGpu::new(None);
    assert_eq!((g.width, g.height), (1280, 800));
}

#[test]
fn modes_use_two_resources_in_turn() {
    let mut g = VirtioGpu::new(Some((800, 600)));
    assert_eq!(VirtioGpu::mode_bytes(600, 480), None);
    assert_eq!(VirtioGpu::mode_bytes(1024, 768), Some(1024 * 768 * 4));
    let c = g.mode_commands(1024, 768, 0x5000);
    assert_eq!(c[0], [0x101, 0, 0, 0, 0, 0, 3, 2, 1024, 768]);
    assert_eq!(c[2], [0x103, 0, 0, 0, 0, 0, 0, 0, 1024, 768, 0, 3]);
    let undo = g.set_mode(1024, 768, false);
    assert_eq!(undo, [vec![0x102, 0, 0, 0, 0, 0, 3, 0]]);
    assert_eq!((g.width, g.fb_resource), (800, 1));
    let done = g.set_mode(1024, 768, true);
    assert_eq!(done[0], [0x107, 0, 0, 0, 0, 0, 1, 0]);
    assert_eq!((g.width, g.fb_resource), (1024, 3));
    g.set_mode(800, 600, true);
    assert_eq!(g.fb_resource, 1);
}

#[test]
fn rectangles_are_flushed() {
    let g = VirtioGpu::new(Some((800, 600)));
    assert!(g.flush(1, 2, 0, 5).is_empty());
    let c = g.flush(10, 2, 30, 40);
    assert_eq!(c[0], [0x105, 0, 0, 0, 0, 0, 10, 2, 30, 40, (2 * 800 + 10) * 4, 0, 1, 0]);
    assert_eq!(c[1], [0x104, 0, 0, 0, 0, 0, 10, 2, 30, 40, 1, 0]);
    assert_eq!(VirtioGpu::move_cursor(5, 6).len(), 14);
}

#[test]
fn tablets_report_moves_as_a_whole() {
    let mut d = VirtioInput::new(b"QEMU Virtio Tablet", Some(999), None);
    assert_eq!(d.name, "QEMU Virtio Tablet");
    assert_eq!(d.abs_max, (999, 32767));
    assert_eq!(d.handle(3, 0, 999), None);
    assert_eq!(d.handle(3, 1, 0), None);
    assert_eq!(d.handle(0, 0, 0), Some(InputEvent::MouseAbsolute { x: Some(65535), y: Some(0) }));
    assert_eq!(d.handle(0, 0, 0), None);
    assert_eq!(d.handle(1, 0x111, 1), Some(InputEvent::MouseButton { button: 1, pressed: true }));
    assert_eq!(d.handle(1, 0x113, 1), None);
    assert_eq!(d.handle(2, 8, 0xffff_ffff), Some(InputEvent::Wheel(1)));
    assert_eq!(VirtioInput::new(b"", Some(0), Some(5)).abs_max, (1, 5));
}

// Display adapters -------------------------------------------------------

#[test]
fn bochs_modes_are_set_and_checked() {
    let mut b = BochsVga::new(0xb0c5, 0xfd00_0008, 0xfd00_0000, 256).unwrap();
    assert_eq!(b.fb_len, 16 << 20);
    assert!(BochsVga::new(0, 0xfd00_0008, 0xfd00_0000, 256).is_none());
    assert!(b.supports(1024, 768) && !b.supports(1366, 768) && !b.supports(320, 200));
    let s = b.set_mode(1024, 768).unwrap();
    assert_eq!(s.len(), 18);
    assert_eq!((s[0], s[1]), (Io::Out16(INDEX, 4), Io::Out16(DATA, 0)));
    assert_eq!(s[17], Io::Out16(DATA, 0x41));
    assert_eq!(b.mode_set(1024, 768, 1024, 768), (true, None));
    assert_eq!(b.framebuffer(), (4096, 16 << 20));
    assert_eq!(b.mode_set(1280, 800, 1024, 768), (false, Some((1024, 768))));
    assert_eq!(b.width, 0);
}

fn svga() -> VmwareSvga {
    let r = Registers {
        id: 0x9000_0002,
        fb_start: 0,
        vram: 16 << 20,
        max_width: 1920,
        max_height: 1200,
        mem_start: 0xfe00_0000,
        mem_size: 65536,
        capabilities: 0x8000,
    };
    VmwareSvga::new(0xc011, r, 0xfd00_0000, 0).unwrap()
}

#[test]
fn vmware_adapters_are_checked() {
    let d = svga();
    assert_eq!((d.io, d.fb_phys, d.fifo_phys), (0xc010, 0xfd00_0000, 0xfe00_0000));
    assert!(d.supports(1920, 1080) && !d.supports(2560, 1440));
    let w = VmwareSvga::fifo_init(0x8000, 65536);
    assert_eq!(w.len(), 293 + 4);
    assert_eq!(w[293], (0, 1172));
    assert_eq!(VmwareSvga::fifo_init(0, 65536).len(), 8);
}

#[test]
fn vmware_modes_hold_or_not() {
    let mut d = svga();
    assert!(d.apply_mode(800, 600, (800, 600), 3200, 0));
    assert_eq!(d.previous_mode(), Some((800, 600)));
    assert!(!d.apply_mode(1024, 768, (800, 600), 4096, 0));
    assert!(!d.apply_mode(1024, 768, (1024, 768), 4000, 0));
    assert!(!d.apply_mode(1024, 768, (1024, 768), 4096, 16 << 20));
    assert_eq!(d.width, 800);
}

#[test]
fn vmware_updates_go_round_the_fifo() {
    let mut d = svga();
    let f = Fifo { lo: 16, hi: 64, next: 56, stop: 16 };
    assert!(f.is_sound());
    match d.update(Fifo { stop: 40, ..f }, None, 1, 2, 3, 4) {
        UpdateStep::Write { words } => {
            assert_eq!(words, [(14, 1), (15, 1), (4, 2), (5, 3), (6, 4), (2, 28)]);
        }
        _ => panic!("no room"),
    }
    assert!(d.kick());
    assert!(!d.kick());
    let full = Fifo { lo: 16, hi: 64, next: 36, stop: 40 };
    assert!(matches!(d.update(full, None, 1, 2, 3, 4), UpdateStep::Sync));
    assert!(matches!(d.update(full, Some(false), 1, 2, 3, 4), UpdateStep::Skip { fresh: true }));
    assert!(matches!(d.update(full, Some(false), 1, 2, 3, 4), UpdateStep::Skip { fresh: false }));
    assert!(matches!(d.update(full, Some(true), 1, 2, 3, 4), UpdateStep::Skip { fresh: false }));
}

#[test]
fn the_host_is_asked_in_words() {
    assert_eq!(vmmdev::request(1, &[5]), [28, 0x10001, 1, 0xffff_ffff, 0, 0, 5]);
    assert_eq!(vmmdev::answer(&[0, 0, 0, 1, 0, 0, 9], 1), None);
    assert_eq!(vmmdev::answer(&[0, 0, 0, 0, 0, 0, 9], 1), Some([9, 0, 0, 0, 0, 0, 0, 0]));
    assert!(VmmDev::new(0xc020, 0x1000).is_none());
    assert!(VmmDev::new(0xc021, 0x1_0000_0000).is_none());
    let mut d = VmmDev::new(0xc021, 0x1000).unwrap();
    assert_eq!(d.port, 0xc020);
    assert_eq!(d.poll_mouse(0, 5, 5), None);
    assert_eq!(d.poll_mouse(2, 5, 70000), Some(InputEvent::MouseAbsolute { x: Some(5), y: Some(0xffff) }));
    assert_eq!(d.poll_mouse(2, 5, 70000), None);
    assert_eq!(d.display_change(0, 600), None);
    assert_eq!(d.display_change(800, 600), Some((800, 600)));
    assert_eq!(d.display_change(800, 600), None);
}

// Network ------------------------------------------------------------------

#[test]
fn hardware_addresses_are_read() {
    assert_eq!(e1000::mac_from_registers(0x1200_5452, 0x8000_5634), Some([0x52, 0x54, 0, 0x12, 0x34, 0x56]));
    assert_eq!(e1000::mac_from_registers(0, 0x8000_0000), None);
    let (mac, lo, hi) = e1000::mac_from_eeprom(0x5452, 0x1200, 0x5634);
    assert_eq!(mac, [0x52, 0x54, 0, 0x12, 0x34, 0x56]);
    assert_eq!((lo, hi), (0x1200_5452, 0x8000_5634));
    assert_eq!(e1000::eeprom_read(0x1234_0010), Some(0x1234));
    assert_eq!(e1000::eeprom_read(0x1234_0000), None);
}

#[test]
fn frames_go_round_the_rings() {
    let mut n = E1000::new([0; 6]);
    assert_eq!(n.slot_for(2049), None);
    assert_eq!(n.slot_for(60), Some(0));
    assert_eq!(n.send(60), (0x0b00_003c, Io::Mem32(e1000::TDT, 1)));
    for _ in 0..31 {
        n.send(60);
    }
    assert_eq!(n.tx_cur, 0);
    assert_eq!(n.recv(0, 60, 0), (Received::Nothing, None));
    assert_eq!(n.recv(3, 60, 0), (Received::Frame { buffer: 0, len: 60 }, Some(Io::Mem32(e1000::RDT, 0))));
    assert_eq!(n.recv(3, 60, 1).0, Received::Broken { buffer: 1 });
    assert_eq!(n.recv(3, 5000, 0).0, Received::Frame { buffer: 2, len: 2048 });
    assert_eq!(E1000::speed_mbps(0x80), 1000);
    assert_eq!(E1000::speed_mbps(0x40), 100);
    assert!(E1000::link_up(2));
    assert!(e1000::is_device(0x10d3) && !e1000::is_device(0x1234));
    assert_eq!(E1000::setup(0x1000, 0x2000).len(), 128 + 6 + 7);
    assert_eq!(E1000::receive_ring(0x10000)[2].address, 0x11000);
    assert_eq!(E1000::transmit_ring(0)[0].control, 1 << 32);
}
