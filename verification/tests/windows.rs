//! The window manager.

use mayos::arch::rtc::DateTime;
use mayos::drivers::bochs_vga::BochsVga;
use mayos::drivers::virtio_gpu::VirtioGpu;
use mayos::drivers::vmware_svga::VmwareSvga;
use mayos::gui::app::{AppEvent, AppKind};
use mayos::gui::display::{copy_rect, Display, ModeAnswer, ModeAsk};
use mayos::gui::geom::Rect;
use mayos::gui::wm::anim::{ease_in, ease_out, lerp, lerp_rect, Anim, AnimKind};
use mayos::gui::wm::clock::{format_clock, month_name, weekday, ClockStyle};
use mayos::gui::wm::damage::merged_damage;
use mayos::gui::wm::desktop::{Action, Wm};
use mayos::gui::wm::frame::{frame_sleep, volume_arcs, ClockFace};
use mayos::gui::wm::opening::Program;
use mayos::gui::wm::stack::{Habits, OpenInfo};
use mayos::gui::{display_description, display_mode, display_modes, update_display_description, DisplayInfo};
use mayos::input::{InputEvent, Key, KeyEvent};

fn desktop() -> Wm {
    let habits = Habits { animations: false, pointer_speed: 5, natural_scroll: false, double_click_ms: 400 };
    Wm::new(1280, 800, (3, 3), false, habits, 0)
}

fn info(kind: AppKind) -> OpenInfo {
    OpenInfo { kind, resizable: true, min_w: 200, min_h: 100, w: 400, h: 300 }
}

#[test]
fn a_new_desktop_is_painted_as_a_whole() {
    let mut wm = desktop();
    assert_eq!(wm.s.pointer, (640, 400));
    assert_eq!(wm.take_damage(), [Rect::new(0, 0, 1280, 800)]);
    assert!(wm.take_damage().is_empty());
}

#[test]
fn windows_are_stacked_and_focused() {
    let mut wm = desktop();
    let a = wm.launched(&info(AppKind::Terminal), None, 0);
    let b = wm.launched(&info(AppKind::Editor), None, 0);
    assert_ne!(a, b);
    assert_eq!(wm.s.focused, Some(b));
    assert_eq!(wm.index_of(a), Some(0));
    let i = wm.index_of(a).unwrap();
    wm.raise(i);
    assert_eq!(wm.index_of(a), Some(1));
    wm.focus(Some(a));
    assert_eq!(wm.s.focused, Some(a));
    wm.close(a, 0);
    wm.animate_frame(1000);
    assert_eq!(wm.index_of(a), None);
    assert_eq!(wm.s.focused, Some(b));
}

#[test]
fn windows_are_maximised_and_restored() {
    let mut wm = desktop();
    let a = wm.launched(&info(AppKind::Terminal), None, 0);
    let before = wm.windows[0].rect;
    wm.toggle_maximize(a, 0);
    assert!(wm.windows[0].maximized());
    assert_eq!(wm.windows[0].rect.w, 1280);
    wm.toggle_maximize(a, 0);
    assert_eq!(wm.windows[0].rect, before);
}

#[test]
fn minimised_windows_come_back() {
    let mut wm = desktop();
    let a = wm.launched(&info(AppKind::Terminal), None, 0);
    wm.minimize(a, 0);
    wm.animate_frame(1000);
    assert!(wm.windows[0].minimized);
    assert_eq!(wm.s.focused, None);
    wm.dock_click(AppKind::Terminal, false, 0);
    assert!(!wm.windows[0].minimized);
    assert_eq!(wm.s.focused, Some(a));
}

#[test]
fn the_pointer_stays_on_the_screen() {
    let mut wm = desktop();
    wm.handle(InputEvent::MouseAbsolute { x: Some(65535), y: Some(65535) }, 0);
    assert_eq!(wm.s.pointer, (1279, 799));
    wm.handle(InputEvent::MouseAbsolute { x: Some(0), y: Some(0) }, 0);
    assert_eq!(wm.s.pointer, (0, 0));
    wm.handle(InputEvent::MouseMove { dx: -50, dy: -50 }, 0);
    assert_eq!(wm.s.pointer, (0, 0));
}

#[test]
fn keys_go_to_the_focused_window() {
    let mut wm = desktop();
    let a = wm.launched(&info(AppKind::Editor), None, 0);
    wm.out.clear();
    let k = KeyEvent { key: Key::Char('x'), pressed: true, shift: false, ctrl: false, alt: false };
    wm.handle(InputEvent::Key(k), 0);
    assert!(wm.out.iter().any(|x| matches!(x, Action::Deliver(id, AppEvent::Key(_)) if *id == a)));
}

#[test]
fn a_click_on_the_dock_starts_an_app() {
    let mut wm = desktop();
    let r = wm.s.dock_icon_rect(0);
    wm.pointer_moved((r.x + 5) as i64, (r.y + 5) as i64);
    wm.handle(InputEvent::MouseButton { button: 0, pressed: true }, 0);
    assert!(wm.out.iter().any(|x| matches!(x, Action::Launch(_, _))));
}

#[test]
fn animations_ease() {
    assert_eq!((ease_out(0), ease_out(1024)), (0, 1024));
    assert_eq!((ease_in(0), ease_in(1024)), (0, 1024));
    assert_eq!((ease_out(512), ease_in(512)), (896, 256));
    assert_eq!(lerp(10, 20, 512), 15);
    assert_eq!(lerp_rect(Rect::new(0, 0, 10, 10), Rect::new(10, 20, 30, 40), 1024), Rect::new(10, 20, 30, 40));
    let a = Anim { kind: AnimKind::Close, start: 100, duration: 200 };
    assert!(!a.done(299) && a.done(300));
    assert_eq!(a.progress(200), 512);
}

#[test]
fn areas_that_meet_are_painted_once() {
    let far = merged_damage(vec![Rect::new(0, 0, 10, 10), Rect::new(500, 500, 10, 10)]);
    assert_eq!(far.len(), 2);
    let near = merged_damage(vec![Rect::new(0, 0, 10, 10), Rect::new(5, 5, 10, 10)]);
    assert_eq!(near, [Rect::new(0, 0, 15, 15)]);
    // The two on the outside meet only what the middle one made of them.
    let chain = vec![Rect::new(0, 0, 10, 10), Rect::new(16, 0, 10, 10), Rect::new(8, 0, 10, 10), Rect::new(200, 200, 5, 5)];
    let chain = merged_damage(chain);
    assert_eq!(chain.len(), 2);
    assert!(chain.contains(&Rect::new(0, 0, 26, 10)) && chain.contains(&Rect::new(200, 200, 5, 5)));
}

#[test]
fn the_clock_shows_the_day() {
    assert_eq!(weekday(2024, 2, 29), "Thu");
    assert_eq!(weekday(2000, 1, 1), "Sat");
    assert_eq!(month_name(12), "Dec");
    let t = DateTime { year: 2024, month: 2, day: 29, hour: 15, minute: 4, second: 9 };
    let c = format_clock(&t, &ClockStyle { clock_24h: true, show_seconds: false });
    assert!(c.contains("15:04") && !c.contains(":09"));
    let c = format_clock(&t, &ClockStyle { clock_24h: false, show_seconds: true });
    assert!(c.contains("3:04:09"));
}

#[test]
fn programs_open_in_their_size() {
    let i = Program::Settings.open_info();
    assert_eq!((i.w, i.h, i.min_w, i.min_h, i.resizable), (880, 600, 700, 420, true));
    let i = Program::About.open_info();
    assert_eq!((i.w, i.h, i.min_w, i.min_h, i.resizable), (460, 380, 260, 160, false));
    assert!(matches!(i.kind, AppKind::About));
    assert_eq!(Program::Player { song: true }.initial_size(), (820, 420));
    assert_eq!(Program::Player { song: false }.initial_size(), (960, 580));
    assert_eq!(Program::Dialog(300, 120).initial_size(), (300, 120));
}

#[test]
fn a_new_time_repaints_the_clock() {
    let mut wm = desktop();
    let mut face = ClockFace::new();
    wm.take_damage();
    let style = ClockStyle { clock_24h: true, show_seconds: false };
    let mut t = DateTime { year: 2024, month: 3, day: 9, hour: 8, minute: 5, second: 30 };
    assert!(face.is_due(100));
    assert!(wm.update_clock(&mut face, &t, &style, 100));
    assert_eq!(face.text.iter().collect::<String>(), "Sat Mar 9   08:05");
    assert_eq!(wm.take_damage(), [Rect::new(980, 0, 300, 28)]);
    assert!(!face.is_due(349) && face.is_due(350));
    assert!(!wm.update_clock(&mut face, &t, &style, 350));
    assert!(wm.take_damage().is_empty());
    t.minute = 6;
    assert!(wm.update_clock(&mut face, &t, &style, 600));
    face.clear();
    assert!(face.is_due(600));
    assert!(wm.dock_shadow_stale(None) && wm.dock_shadow_stale(Some((1, 1))) && !wm.dock_shadow_stale(Some((308, 68))));
}

#[test]
fn frames_are_paced() {
    assert_eq!(frame_sleep(true, 6), 10);
    assert_eq!(frame_sleep(true, 40), 1);
    assert_eq!(frame_sleep(false, 40), 10);
    assert_eq!(volume_arcs(0, false), volume_arcs(80, true));
}

#[test]
fn displays_offer_their_modes_in_order() {
    let d = Display::Virtio(VirtioGpu::new(Some((1000, 700))));
    let m = d.modes();
    assert!(m.contains(&(1000, 700)) && m.contains(&(1920, 1200)) && !m.contains(&(2560, 1440)));
    assert!(m.windows(2).all(|w| w[0] < w[1]));
    let fixed = Display::from_boot_framebuffer(32, 4096, 1024, 768).unwrap();
    assert_eq!(fixed.modes(), [(1024, 768)]);
    assert!(matches!(fixed.set_mode(1024, 768, 0), ModeAsk::Done(true)));
    assert!(matches!(fixed.set_mode(800, 600, 0), ModeAsk::Done(false)));
    assert!(Display::from_boot_framebuffer(24, 4096, 1024, 768).is_none());
    let bochs = Display::Bochs(BochsVga { fb_len: 16 << 20, width: 1024, height: 768 });
    assert!(!bochs.modes().contains(&(1366, 768)));
    assert_eq!(Display::boot_size(None), (1280, 800));
}

#[test]
fn a_virtio_adapter_changes_its_mode() {
    let mut d = Display::Virtio(VirtioGpu::new(Some((1000, 700))));
    assert!(matches!(d.set_mode(320, 200, 0), ModeAsk::Done(false)));
    let ModeAsk::Commands(c) = d.set_mode(1280, 800, 0x10_0000) else { panic!() };
    assert_eq!(c.iter().map(|c| c[0]).collect::<Vec<u32>>(), [0x101, 0x106, 0x103]);
    assert_eq!((c[0][6], c[0][8], c[0][9]), (3, 1280, 800));
    let r = d.mode_answered(1280, 800, ModeAnswer::Virtio(false));
    assert!(!r.shown && r.pixels == 0 && r.back.is_none());
    assert_eq!(r.commands.iter().map(|c| (c[0], c[6])).collect::<Vec<(u32, u32)>>(), [(0x102, 3)]);
    assert_eq!(d.size(), (1000, 700));
    let r = d.mode_answered(1280, 800, ModeAnswer::Virtio(true));
    assert_eq!((r.shown, r.pixels), (true, 1280 * 800));
    assert_eq!(r.commands.iter().map(|c| (c[0], c[6])).collect::<Vec<(u32, u32)>>(), [(0x107, 1), (0x102, 1)]);
    assert_eq!(d.size(), (1280, 800));
}

#[test]
fn an_adapter_goes_back_where_a_mode_is_refused() {
    let mut d = Display::Bochs(BochsVga { fb_len: 16 << 20, width: 1024, height: 768 });
    assert!(matches!(d.set_mode(1366, 768, 0), ModeAsk::Done(false)));
    assert!(matches!(d.set_mode(1280, 800, 0), ModeAsk::Steps(_)));
    let r = d.mode_answered(1280, 800, ModeAnswer::Bochs { xres: 1024, yres: 768 });
    assert_eq!((r.shown, r.back), (false, Some((1024, 768))));
    let r = d.mode_answered(1024, 768, ModeAnswer::Bochs { xres: 1024, yres: 768 });
    assert_eq!((r.shown, r.back, r.pixels), (true, None, 1024 * 768));
    assert_eq!(d.size(), (1024, 768));
    let dev = VmwareSvga {
        io: 0x1070,
        fb_phys: 0,
        fb_len: 16 << 20,
        fifo_phys: 0,
        fifo_size: 0,
        vram: 16 << 20,
        max: (2048, 1536),
        width: 1024,
        height: 768,
        pitch: 4096,
        offset: 0,
        stalled: false,
        pending: false,
    };
    let mut d = Display::Svga(dev);
    assert!(matches!(d.set_mode(4000, 768, 0), ModeAsk::Done(false)));
    assert!(matches!(d.set_mode(1280, 800, 0), ModeAsk::Registers(_)));
    let r = d.mode_answered(1280, 800, ModeAnswer::Svga { now: (1024, 768), pitch: 4096, offset: 0 });
    assert_eq!((r.shown, r.back), (false, Some((1024, 768))));
    let r = d.mode_answered(1280, 800, ModeAnswer::Svga { now: (1280, 800), pitch: 5120, offset: 0 });
    assert_eq!((r.shown, r.pixels), (true, 1280 * 800));
    assert_eq!(d.size(), (1280, 800));
}

#[test]
fn displays_are_described() {
    let mut i = DisplayInfo::new();
    assert_eq!(display_description(&i), "none");
    update_display_description(&mut i, &Display::Virtio(VirtioGpu::new(Some((1280, 800)))));
    assert_eq!(display_description(&i), "1280x800 (virtio-gpu)");
    assert_eq!(display_mode(&i), (1280, 800));
    assert!(display_modes(&i).contains(&(1280, 800)));
}

#[test]
fn only_the_screen_is_presented() {
    let d = Display::from_boot_framebuffer(32, 4096, 1024, 768).unwrap();
    assert_eq!(d.present(&Rect::new(-10, -10, 20, 20)), Some(Rect::new(0, 0, 10, 10)));
    assert_eq!(d.present(&Rect::new(2000, 0, 20, 20)), None);
    let rows = copy_rect(1024, 4096, 4096 * 768, &Rect::new(2, 3, 4, 2));
    assert_eq!(rows.len(), 2);
    assert_eq!((rows[1].from, rows[1].to, rows[1].pixels), (4 * 1024 + 2, 4 * 4096 + 8, 4));
    assert!(copy_rect(1024, 4096, 100, &Rect::new(2, 3, 4, 2)).is_empty());
}
