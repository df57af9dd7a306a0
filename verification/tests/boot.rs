//! Starting up: tables, interrupts, clock and log.

use mayos::acpi::{find_s5, parse_fadt, root_entries, root_table, table_kind, AcpiInfo, IrqOverride, Kind};
use mayos::arch::apic::{calibrate, disable_pic, pit_count, route_irq};
use mayos::arch::gdt::gdt_for;
use mayos::arch::idt::{efer_with_nx, efer_with_syscall, gate, gates, star, TrapFrame, VEC_KEYBOARD, VEC_SYSCALL, VEC_TIMER};
use mayos::arch::percpu::{install, CpuCount};
use mayos::arch::rtc::{now, updating, DateTime};
use mayos::boot::{cmdline, request_id, BaseRevision, CmdlineResponse};
use mayos::input::{self, InputEvent, InputQueue, Key, KeyEvent, QUEUE_LIMIT};
use mayos::interrupts::{crash_message, exception, exception_name, interrupt_dispatch, Dispatch, Outcome};
use mayos::log::{log_text, Ring, CAP, TAIL};

fn frame(vector: u64, cs: u64) -> TrapFrame {
    TrapFrame {
        r15: 0,
        r14: 0,
        r13: 0,
        r12: 0,
        r11: 0,
        r10: 0,
        r9: 0,
        r8: 0,
        rbp: 0,
        rdi: 0,
        rsi: 0,
        rdx: 0,
        rcx: 0,
        rbx: 0,
        rax: 0,
        vector,
        error: 0,
        rip: 0x1234,
        cs,
        rflags: 0,
        rsp: 0,
        ss: 0,
    }
}

#[test]
fn interrupts_are_dispatched() {
    assert_eq!(interrupt_dispatch(&frame(VEC_TIMER as u64, 8)), Dispatch::Timer);
    assert_eq!(interrupt_dispatch(&frame(VEC_KEYBOARD as u64, 8)), Dispatch::Keyboard);
    assert_eq!(interrupt_dispatch(&frame(VEC_SYSCALL as u64, 8)), Dispatch::Syscall);
    assert_eq!(interrupt_dispatch(&frame(13, 8)), Dispatch::Exception(13));
}

#[test]
fn user_faults_crash_and_kernel_faults_panic() {
    assert!(frame(14, 0x23).from_user());
    assert_eq!(exception(&frame(14, 0x23), true), Outcome::Resume);
    assert_eq!(exception(&frame(14, 0x23), false), Outcome::Crash);
    assert_eq!(exception(&frame(13, 8), false), Outcome::Panic);
    assert_eq!(exception_name(14), "Page fault");
    assert!(crash_message(&frame(14, 0x23), 0xabc).contains("Page fault"));
}

#[test]
fn gates_point_to_their_handlers() {
    let g = gate(0x1122_3344_5566_7700, 0);
    let at = g.off_lo as u64 | (g.off_mid as u64) << 16 | (g.off_hi as u64) << 32;
    assert_eq!(at, 0x1122_3344_5566_7700);
    assert_eq!(gates(0x1000).len(), 256);
    assert_eq!(efer_with_syscall(0) & 1, 1);
    assert_eq!(efer_with_nx(0), 0x800);
    assert_eq!(star() >> 32, 0x0010_0008);
}

#[test]
fn the_tss_is_in_the_table() {
    let t = gdt_for(0x1234_5678_9abc);
    assert_eq!(t[0], 0);
    assert_eq!(t[6], 0x1234);
    let low = t[5];
    assert_eq!((low >> 16) & 0xff_ffff | (low >> 56) << 24, 0x5678_9abc);
}

#[test]
fn processors_are_counted_and_set_up() {
    let mut c = CpuCount::new();
    c.set_count(4);
    assert_eq!(c.count(), 4);
    let mut p = install(2, 7, 0x4000);
    assert_eq!((p.index, p.lapic_id, p.self_ptr), (2, 7, 0x4000));
    p.set_kernel_stack(0x9000);
    assert_eq!(p.tss.rsp[0], 0x9000);
}

#[test]
fn legacy_interrupts_are_routed() {
    let mut info = AcpiInfo::new();
    info.overrides.push(IrqOverride { irq: 0, gsi: 2, flags: 0 });
    let r = route_irq(&info, 0, 0x20, 0, 1);
    assert_eq!((r.low_reg, r.high_reg, r.low, r.high), (0x14, 0x15, 0x20, 0x0100_0000));
    let r = route_irq(&info, 1, 0x21, 0, 0);
    assert_eq!(r.low_reg, 0x12);
    assert_eq!(pit_count(20), 23863);
    assert_eq!(disable_pic().len(), 10);
    assert_eq!(calibrate(u32::MAX - 2_000_000, 100, 60_000_100, 1000), (100_000, 3_000_000));
}

#[test]
fn acpi_tables_are_found() {
    let mut madt = vec![0u8; 44];
    madt[0..4].copy_from_slice(b"APIC");
    madt[36..40].copy_from_slice(&0xfee0_0000u32.to_le_bytes());
    // A processor, an I/O APIC and an override.
    madt.extend([0, 8, 0, 0, 1, 0, 0, 0]);
    madt.extend([1, 12, 0, 0, 0, 0, 0xc0, 0xfe, 0, 0, 0, 0]);
    madt.extend([2, 10, 0, 0, 2, 0, 0, 0, 0, 0]);
    let mut info = AcpiInfo::new();
    info.parse_madt(&madt);
    assert_eq!(info.lapic_phys, 0xfee0_0000);
    assert_eq!(info.cpu_count, 1);
    assert_eq!(info.ioapics[0].phys, 0xfec0_0000);
    assert_eq!(info.overrides[0].gsi, 2);
    assert_eq!(table_kind(&madt), Kind::Madt);
    assert_eq!(table_kind(b"FACP"), Kind::Fadt);
    assert_eq!(table_kind(b"XXXX"), Kind::Other);
}

#[test]
fn a_cut_off_entry_ends_the_list() {
    let mut madt = vec![0u8; 44];
    madt.extend([1, 12, 0, 0]);
    let mut info = AcpiInfo::new();
    info.parse_madt(&madt);
    assert!(info.ioapics.is_empty());
}

#[test]
fn the_power_off_code_is_found() {
    let mut aml = b"xx_S5_".to_vec();
    aml.extend([0x12, 0x06, 0x04, 0x0a, 0x05, 0x0a, 0x05]);
    assert_eq!(find_s5(&aml), Some(5));
    assert_eq!(find_s5(b"nothing here"), None);
    assert_eq!(parse_fadt(&vec![0u8; 200]), (None, None));
}

#[test]
fn the_root_table_lists_the_others() {
    let mut rsdp = vec![0u8; 36];
    rsdp[16..20].copy_from_slice(&0x7fe0_0000u32.to_le_bytes());
    assert_eq!(root_table(&rsdp), (0x7fe0_0000, 4));
    rsdp[15] = 2;
    rsdp[24..32].copy_from_slice(&0x1_0000_0000u64.to_le_bytes());
    assert_eq!(root_table(&rsdp), (0x1_0000_0000, 8));
    let mut t = vec![0u8; 36];
    t.extend(5u32.to_le_bytes());
    t.extend(6u32.to_le_bytes());
    assert_eq!(root_entries(&t, 4), [5, 6]);
}

#[test]
fn the_clock_is_read_when_it_rests() {
    assert!(updating(0x80));
    assert!(!updating(0));
    let bcd = [0x59, 0x30, 0x23, 0x09, 0x12, 0x24, 0x20];
    let t = DateTime { year: 2024, month: 12, day: 9, hour: 23, minute: 30, second: 59 };
    assert_eq!(now(&bcd, &bcd, 0x02), Some(t));
    let binary = [59, 30, 23, 9, 12, 24, 20];
    assert_eq!(now(&binary, &binary, 0x06), Some(t));
    let mut other = bcd;
    other[0] = 0x58;
    assert_eq!(now(&bcd, &other, 0x02), None);
}

#[test]
fn the_clock_knows_the_afternoon() {
    let pm = [0, 0, 0x81, 1, 1, 0x24, 0x20];
    assert_eq!(now(&pm, &pm, 0).unwrap().hour, 13);
    let noon = [0, 0, 0x92, 1, 1, 0x24, 0x20];
    assert_eq!(now(&noon, &noon, 0).unwrap().hour, 12);
    let morning = [0, 0, 0x11, 1, 1, 0x24, 0x20];
    assert_eq!(now(&morning, &morning, 0).unwrap().hour, 11);
    let midnight = [0, 0, 0x12, 1, 1, 0x24, 0x20];
    assert_eq!(now(&midnight, &midnight, 0).unwrap().hour, 0);
}

#[test]
fn the_log_ends_with_its_last_lines() {
    let tail = |r: &Ring, n: usize| -> Vec<String> { r.tail(n).lines().iter().map(|l| l.iter().collect()).collect() };
    let mut r = Ring::new();
    log_text(&mut r, "a\nb\nc\n");
    assert!(tail(&r, 0).is_empty());
    assert_eq!(tail(&r, 1), ["c"]);
    assert_eq!(tail(&r, 2), ["b", "c"]);
    assert_eq!(tail(&r, 9), ["a", "b", "c"]);
    log_text(&mut r, "open");
    assert_eq!(tail(&r, 2), ["c", "open"]);
    // Lines that are too long lose their beginning.
    let mut r = Ring::new();
    log_text(&mut r, &"x".repeat(TAIL));
    log_text(&mut r, "\nend");
    assert_eq!(tail(&r, 2), [String::from("x").repeat(TAIL - 4), String::from("end")]);
}

#[test]
fn the_log_keeps_the_newest() {
    let mut r = Ring::new();
    log_text(&mut r, "first\n");
    log_text(&mut r, "second\n");
    assert_eq!(r.contents(), "first\nsecond\n");
    let big = vec![b'x'; CAP];
    r.write(&big);
    assert_eq!(r.contents().len(), CAP);
    assert!(!r.contents().contains("first"));
    let mut r = Ring::new();
    log_text(&mut r, "a\nb\nc\n");
    let lines: Vec<String> = r.tail(3).lines().iter().map(|l| l.iter().collect()).collect();
    assert_eq!(lines.last().map(|s| s.as_str()), Some("c"));
}

#[test]
fn the_command_line_is_text() {
    let r = CmdlineResponse { revision: 0, cmdline: Some(b"quiet test\0junk".to_vec()) };
    assert_eq!(r.as_str(), "quiet test");
    let broken = CmdlineResponse { revision: 0, cmdline: Some(b"quiet \xff".to_vec()) };
    assert_eq!(broken.as_str(), "");
    assert_eq!(cmdline(&None), "");
    assert_eq!(cmdline(&Some(CmdlineResponse { revision: 0, cmdline: None })), "");
    assert_eq!(request_id(1, 2)[2..], [1, 2]);
    assert!(BaseRevision { numbers: (1, 2, 0) }.is_supported());
    assert!(!BaseRevision { numbers: (1, 2, 3) }.is_supported());
}

#[test]
fn input_waits_in_a_queue() {
    let mut q = InputQueue::new();
    assert_eq!(input::pop(&mut q), None);
    for i in 0..QUEUE_LIMIT + 10 {
        input::push(&mut q, InputEvent::Wheel(i as i32));
    }
    for i in 0..QUEUE_LIMIT {
        assert_eq!(input::pop(&mut q), Some(InputEvent::Wheel(i as i32)));
    }
    assert_eq!(input::pop(&mut q), None);
}

#[test]
fn keys_with_ctrl_type_nothing() {
    let k = KeyEvent { key: Key::Char('a'), pressed: true, shift: false, ctrl: false, alt: false };
    assert_eq!(k.text(), Some('a'));
    assert_eq!(KeyEvent { ctrl: true, ..k }.text(), None);
    assert_eq!(KeyEvent { key: Key::Enter, ..k }.text(), None);
}
