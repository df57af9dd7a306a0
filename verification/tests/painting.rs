//! What windows and the desktop paint, and where their controls are.

use mayos::gui::app::{AppEvent, AppKind, Command, Ctx, Msg};
use mayos::gui::browser::paint::{pick_font, FontSpec, Item, Label as PageLabel, Sight};
use mayos::gui::browser::window::Browser;
use mayos::gui::dialog::Dialog;
use mayos::gui::editor::{Editor, Metrics};
use mayos::gui::editor_view::{Label as LineLabel, Type};
use mayos::gui::explorer::paint::{Label as FileLabel, Surroundings};
use mayos::gui::explorer::window::Explorer;
use mayos::gui::geom::{Area, Rect};
use mayos::gui::imageview::ImageViewer;
use mayos::gui::keep_resolution::KeepResolution;
use mayos::gui::paint::{at, shaded, Font, Ink, Shape};
use mayos::gui::player::paint::{draw_icon, Label as SongLabel, Show};
use mayos::gui::player::window::{Btn, Moment, Player, Status, Summary};
use mayos::gui::screen::Cell;
use mayos::gui::settings_app::disks::{disk_targets, Blank, Volume};
use mayos::gui::settings_app::network::Link;
use mayos::gui::settings_app::pages::{Dhcp, Facts, Net, Setup};
use mayos::gui::settings_app::prefs::{Settings, Slider, Toggle};
use mayos::gui::settings_app::sheet::{note_width, text_of_note, Label, Note};
use mayos::gui::settings_app::window::{Action, Effect, Page, SettingsApp};
use mayos::gui::views::{about_window, color_runs};
use mayos::gui::widgets::{button, ButtonStyle, TextInput};
use mayos::gui::wm::commands::Chore;
use mayos::gui::wm::desktop::{Action as Do, Wm};
use mayos::gui::wm::paint::{render_window, Label as DeskLabel, Signs};
use mayos::gui::wm::stack::{Habits, OpenInfo};

fn chars(s: &str) -> Vec<char> {
    s.chars().collect()
}

fn text(v: &[char]) -> String {
    v.iter().collect()
}

fn settings() -> Settings {
    Settings {
        animations: false,
        muted: false,
        system_sounds: true,
        natural_scroll: false,
        clock_24h: true,
        show_seconds: false,
        dhcp: true,
        dock_autohide: false,
        volume: 50,
        pointer_speed: 5,
        double_click_ms: 400,
        key_repeat: 2,
        wallpaper: 0,
        accent: 0,
        dock_position: 0,
        dock_size: 1,
        tz_offset_min: 0,
    }
}

fn facts() -> Facts {
    Facts {
        rise: 6,
        lines: [2; 11],
        device_w: 80,
        modes: vec![(1024, 768), (1280, 720)],
        mode: (1024, 768),
        accents: 6,
        position_w: 40,
        size_w: 50,
        pictures: vec![true, false],
        scanning: false,
        picture_used: false,
        chosen: None,
        sound_present: true,
        sound_w: 60,
        net: None,
        carets: [0; 4],
        layout_w: 70,
        setup: Setup::Idle,
        mounts: Vec::new(),
        blanks: Vec::new(),
        root_persistent: false,
        path_w: 90,
        info: vec![30, 40],
        message_w: 100,
    }
}

fn app() -> SettingsApp {
    SettingsApp::new(settings(), "10.0.0.2", "255.0.0.0", "10.0.0.1", "")
}

fn click(a: &mut SettingsApp, x: i32, y: i32) -> (Effect, Ctx) {
    click_over(a, &mut settings(), x, y)
}

fn click_over(a: &mut SettingsApp, live: &mut Settings, x: i32, y: i32) -> (Effect, Ctx) {
    let mut ctx = Ctx::new(1);
    let e = a.event(&AppEvent::MouseDown { x, y, button: 0, clicks: 1 }, (1024, 768), live, 10, &mut ctx);
    (e, ctx)
}

fn show(a: &mut SettingsApp, p: Page, f: &Facts) -> Vec<Shape<Label>> {
    a.panel.page = p;
    a.render(860, 560, true, f, 10)
}

#[test]
fn a_click_on_a_page_name_opens_that_page() {
    let mut a = app();
    show(&mut a, Page::Display, &facts());
    assert_eq!(a.hits[2], (at(10, 100, 194, 38), Action::Page(Page::Sound)));
    click(&mut a, 100, 110);
    assert!(a.panel.page == Page::Sound);
}

#[test]
fn the_display_page_lists_the_modes() {
    let mut a = app();
    let s = show(&mut a, Page::Display, &facts());
    // The second mode stands in the second row of the list.
    let (_, ctx) = click(&mut a, 400, 290);
    assert!(matches!(ctx.commands[..], [Command::SetResolution(1280, 720)]));
    // The first one is in use: its mark is filled.
    assert!(s.contains(&Shape::Circle(802, 248, 9, Ink::Accent)));
    assert!(s.contains(&Shape::Outline(at(793, 291, 18, 18), 9, 2, Ink::Color(0xffc5_cad3))));
    assert!(!s.iter().any(|x| matches!(x, Shape::Text(_, _, _, Label::Line(Note::FixedScreen, _), _))));
    // With one mode there is a note below the list.
    let mut f = facts();
    f.modes.pop();
    let s = show(&mut a, Page::Display, &f);
    assert!(s.contains(&Shape::Text(Font::Ui, 246, 312, Label::Line(Note::FixedScreen, 1), Ink::TextDim)));
    assert_eq!(a.panel.bottom, 330);
}

#[test]
fn the_sound_page_has_a_slider_and_switches() {
    let mut a = app();
    let s = show(&mut a, Page::Sound, &facts());
    assert!(s.contains(&Shape::Rounded(at(574, 157, 100, 6), 3, Ink::Accent)));
    let (e, _) = click(&mut a, 674, 160);
    assert!(e == Effect::Nothing || e == Effect::Live);
    assert_eq!(a.panel.dragging, Some((Slider::Volume, at(562, 134, 224, 52))));
    a.panel.dragging = None;
    let mut live = settings();
    let (e, _) = click_over(&mut a, &mut live, 300, 200);
    assert_eq!(e, Effect::Update);
    assert!(live.muted && a.panel.cfg.muted);
    let (e, _) = click(&mut a, 250, 320);
    assert_eq!(e, Effect::TestSound);
}

#[test]
fn a_setting_that_was_changed_elsewhere_stays() {
    let mut a = app();
    // The volume was turned up while the window showed the old one.
    let mut live = Settings { volume: 90, ..settings() };
    let mut ctx = Ctx::new(1);
    assert_eq!(a.apply_action(Action::Accent(3), &mut live, 10, &mut ctx), Effect::Update);
    assert_eq!((live.accent, live.volume), (3, 90));
    // The window shows it at its next look.
    assert_eq!((a.panel.cfg.accent, a.panel.cfg.volume), (0, 50));
    assert_eq!(a.apply_action(Action::Wallpaper(2), &mut live, 10, &mut ctx), Effect::Wallpaper);
    assert_eq!((live.wallpaper, a.panel.cfg.wallpaper), (2, 0));
    a.tick(Some(live), false, false, 20, &mut ctx);
    assert_eq!((a.panel.cfg.accent, a.panel.cfg.wallpaper), (3, 2));
    assert_eq!(a.apply_action(Action::TzPlus, &mut live, 30, &mut ctx), Effect::Update);
    assert_eq!((live.tz_offset_min, a.panel.cfg.tz_offset_min), (30, 0));
    assert_eq!(a.apply_action(Action::Toggle(Toggle::Muted), &mut live, 30, &mut ctx), Effect::Update);
    assert!(live.muted && live.volume == 90 && a.panel.cfg.tz_offset_min == 30);
}

#[test]
fn the_wheel_stops_at_the_end_of_a_page() {
    let mut a = app();
    a.panel.size = (860, 560);
    a.panel.bottom = 1_000;
    let mut ctx = Ctx::new(1);
    let mut live = settings();
    a.event(&AppEvent::Wheel { x: 0, y: 0, delta: i32::MAX }, (1024, 768), &mut live, 10, &mut ctx);
    assert_eq!(a.panel.scroll, 1_000 + 24 - 560);
    a.event(&AppEvent::Wheel { x: 0, y: 0, delta: i32::MIN }, (1024, 768), &mut live, 10, &mut ctx);
    assert_eq!(a.panel.scroll, 0);
    a.panel.bottom = i32::MAX;
    a.event(&AppEvent::Wheel { x: 0, y: 0, delta: i32::MAX }, (1024, 768), &mut live, 10, &mut ctx);
    assert_eq!(a.panel.scroll, i32::MAX - 536);
}

#[test]
fn wallpapers_and_pictures_stand_in_a_grid() {
    let mut a = app();
    let f = facts();
    show(&mut a, Page::Personalization, &f);
    // 590 pixels are room for three pictures side by side.
    let tiles: Vec<&(Area, Action)> = a.hits.iter().filter(|h| matches!(h.1, Action::Wallpaper(_))).collect();
    assert_eq!(tiles.len(), 6);
    assert_eq!(tiles[0].0, at(242, 96, 186, 116));
    assert_eq!(tiles[4].0, at(444, 246, 186, 116));
    let pictures = a.hits.iter().filter(|h| matches!(h.1, Action::Picture(_))).count();
    assert_eq!(pictures, 2);
    assert_eq!(a.hits.iter().filter(|h| matches!(h.1, Action::Accent(_))).count(), 6);
    assert_eq!(a.hits.iter().filter(|h| matches!(h.1, Action::DockSize(_))).count(), 3);
    assert!(a.hits.iter().any(|h| h.1 == Action::Toggle(Toggle::DockAutohide)));
}

#[test]
fn the_network_page_offers_a_form_without_dhcp() {
    let mut a = app();
    let mut f = facts();
    let net = Net { link_up: true, addressed: false, dhcp: Dhcp::Failed, widths: [50; 6], result: Some(true) };
    f.net = Some(net);
    let s = show(&mut a, Page::Network, &f);
    assert!(s.contains(&Shape::Text(Font::Bold, 290, 110, Label::Name("No DHCP server answered"), Ink::Text)));
    assert!(a.hits.iter().any(|h| h.1 == Action::RenewDhcp) && !a.hits.iter().any(|h| h.1 == Action::Input(0)));
    a.panel.cfg.dhcp = false;
    f.carets = [300, 0, 0, 0];
    show(&mut a, Page::Network, &f);
    assert_eq!(a.inputs[0].scroll, 98);
    let field = a.hits.iter().find(|h| h.1 == Action::Input(2)).unwrap().0;
    assert_eq!(field, at(594, 658, 220, 32));
    assert!(a.hits.iter().any(|h| h.1 == Action::ApplyStatic));
    f.net = None;
    show(&mut a, Page::Network, &f);
    assert_eq!(a.hits.len(), 8);
}

#[test]
fn the_storage_page_offers_disks() {
    let volume = |point: &str, persistent: bool| Volume {
        point: chars(point),
        label: chars("DATA"),
        backend: chars("AHCI disk"),
        persistent,
        total: 2048,
        free: 1024,
    };
    let blank = || Blank { name: chars("sata1"), model: chars("QEMU"), bytes: 1536 };
    let mut a = app();
    let mut f = facts();
    f.mounts = vec![volume("/", false), volume("/disk", true)];
    f.blanks = vec![blank()];
    let s = show(&mut a, Page::Storage, &f);
    assert_eq!(a.disk_targets.len(), 2);
    assert_eq!(text(&a.disk_targets[0].0), "/disk (\u{201c}DATA\u{201d})");
    assert_eq!(a.disk_targets[1], (chars("sata1 (QEMU, 1.5 KB)"), true));
    assert!(a.hits.iter().any(|h| h.1 == Action::SetupDisk(1)));
    // Half of the bar.
    assert!(s.contains(&Shape::Rounded(at(260, 148, 277, 10), 5, Ink::Accent)));
    assert_eq!(text(&f.mounts[0].title()), "MayOS Disk");
    assert_eq!(text(&f.mounts[1].title()), "/disk  \u{2014}  DATA");
    assert_eq!(text(&f.mounts[0].kind()), "AHCI disk \u{2014} set up a disk below to keep your files");
    assert_eq!(text(&f.mounts[1].use_line()), "1.0 KB used \u{00b7} 1.0 KB free \u{00b7} 2.0 KB total");
    assert_eq!(text(&f.blanks[0].title()), "sata1 \u{2014} QEMU");
    assert_eq!(text(&f.blanks[0].size_line()), "1.5 KB \u{00b7} not formatted");
    assert!(disk_targets(&f.mounts, &[], true).is_empty());
}

#[test]
fn the_other_pages_have_their_controls() {
    let mut a = app();
    let f = facts();
    show(&mut a, Page::Input, &f);
    assert!(a.hits.iter().any(|h| h.1 == Action::Slider(Slider::KeyRepeat)));
    show(&mut a, Page::DateTime, &f);
    assert!(a.hits.iter().any(|h| h.1 == Action::TzMinus) && a.hits.iter().any(|h| h.1 == Action::TzPlus));
    let s = show(&mut a, Page::About, &f);
    assert!(s.iter().any(|x| matches!(x, Shape::Clipped(_, _, _, Label::InfoValue(1), _, _))));
    assert_eq!(a.hits.len(), 8);
    assert_eq!(note_width(Note::TestSound, 500), 310);
    assert!(text_of_note(Note::Keys).starts_with("Tip: "));
}

#[test]
fn the_page_is_not_scrolled_beyond_its_end() {
    let mut a = app();
    let f = facts();
    show(&mut a, Page::Personalization, &f);
    let end = a.panel.bottom + a.panel.scroll + 24 - 560;
    a.panel.scroll = end + 400;
    show(&mut a, Page::Personalization, &f);
    assert_eq!(a.panel.scroll, end);
}

#[test]
fn a_connection_is_described() {
    let l = Link {
        adapter: chars("Intel"),
        speed_mbps: 1000,
        ip: Some((chars("10.0.2.15"), 24)),
        gateway: None,
        dns: vec![chars("1.1.1.1"), chars("8.8.8.8")],
        mac: chars("52:54:00"),
        dhcp: Dhcp::Bound,
        tx_packets: 3,
        rx_packets: 12,
    };
    assert_eq!(text(&l.adapter_line()), "Intel \u{00b7} 1000 Mb/s");
    let all: Vec<String> = (0..6).map(|i| text(&l.detail_text(i))).collect();
    assert_eq!(
        all,
        ["10.0.2.15/24", "\u{2014}", "1.1.1.1, 8.8.8.8", "52:54:00", "Automatic (DHCP lease)", "3 packets sent, 12 received"]
    );
}

fn desktop() -> Wm {
    let habits = Habits { animations: false, pointer_speed: 5, natural_scroll: false, double_click_ms: 400 };
    Wm::new(1280, 800, (3, 3), true, habits, 0)
}

fn signs() -> Signs {
    Signs {
        bold_rise: 8,
        rise: 6,
        clock_w: 100,
        titled: false,
        network: Some(true),
        sound: Some((50, false)),
        name_w: [30; 5],
        dock_shadow: false,
    }
}

#[test]
fn the_bar_shows_the_clock_and_signs() {
    let mut wm = desktop();
    wm.s.boot_at = 0;
    let cursor = vec![0u32; 64 * 64];
    let bar = Rect::new(0, 0, 1280, 20);
    let s = wm.paint_shell(&signs(), &cursor, bar, 5);
    assert_eq!(s[0], Shape::Clip(at(0, 0, 1280, 20)));
    assert!(s.contains(&Shape::Text(Font::Ui, 1164, 18, DeskLabel::Clock, Ink::Text)));
    // Four bars for the network, and two arcs for half the volume.
    assert!(s.contains(&Shape::Rounded(at(1152, 6, 3, 13), 1, Ink::Text)));
    assert!(s.contains(&Shape::Fill(at(1127, 9, 1, 8), Ink::Text)));
    assert!(!s.iter().any(|x| matches!(x, Shape::Icon(..))));
    let s = wm.paint_shell(&signs(), &cursor, Rect::new(0, 700, 1280, 100), 5);
    assert_eq!(s.iter().filter(|x| matches!(x, Shape::Icon(DeskLabel::Entry(_), _, _, 48))).count(), 5);
    wm.s.menu_open = true;
    wm.s.menu_hover = Some(1);
    let s = wm.paint_shell(&signs(), &cursor, Rect::new(0, 0, 1280, 800), 5);
    assert!(s.contains(&Shape::Rounded(at(12, 66, 208, 28), 6, Ink::AccentFaded(255))));
}

#[test]
fn the_pointer_is_painted_where_the_display_has_none() {
    let mut wm = desktop();
    wm.s.boot_at = 0;
    wm.s.hw_cursor = false;
    let mut cursor = vec![0u32; 64 * 64];
    cursor[64 + 2] = 0x80ff_ffff;
    let s = wm.paint_shell(&signs(), &cursor, Rect::new(300, 300, 10, 10), 5);
    assert_eq!(s[1..], [Shape::Dot(639, 398, Ink::Color(0xffff_ffff), 128)]);
}

#[test]
fn windows_are_painted_with_frame_and_shadow() {
    let mut wm = desktop();
    let info = OpenInfo { kind: AppKind::Editor, resizable: true, min_w: 200, min_h: 100, w: 400, h: 300 };
    let id = wm.launched(&info, None, 0);
    let w = wm.windows[0];
    let r = Rect::new(0, 0, 1280, 800);
    let dest = at(w.rect.x as i64, w.rect.y as i64, w.rect.w as i64, w.rect.h as i64);
    let s = wm.composite(&[Some((w.rect.w, w.rect.h))], r, 0);
    assert_eq!(
        s,
        [
            Shape::Mask(DeskLabel::Window(id), dest, false, Ink::Color(0x6e08_0e1e), 255),
            Shape::Picture(DeskLabel::Window(id), dest, 255, 12),
            Shape::Outline(dest, 12, 1, Ink::Color(0x2600_0000)),
        ]
    );
    let s = render_window(&w, true, 100, 8);
    let mid = (w.rect.w as i64 - 100) / 2;
    let room = w.rect.w as i64 - 170;
    assert!(s.contains(&Shape::Clipped(Font::Bold, mid, 22, DeskLabel::WindowTitle(id), room, Ink::Text)));
    assert!(s.contains(&Shape::Circle(20, 18, 6, Ink::Color(0xffff_5f57))));
    wm.minimize(id, 0);
    assert!(wm.composite(&[None], r, 0).is_empty());
}

#[test]
fn commands_of_apps_are_carried_out() {
    let mut wm = desktop();
    let info = OpenInfo { kind: AppKind::Editor, resizable: true, min_w: 200, min_h: 100, w: 400, h: 300 };
    let id = wm.launched(&info, None, 0);
    wm.out.clear();
    assert!(matches!(wm.apply(id, Command::SetResolution(800, 600), 0), Chore::Resolution(800, 600)));
    wm.resolution_changed(id, true);
    assert!(matches!(wm.out[..], [Do::Deliver(i, AppEvent::Message(Msg::ResolutionResult(true)))] if i == id));
    assert!(matches!(wm.apply(id, Command::Close, 0), Chore::Nothing));
    assert!(wm.windows.is_empty());
    wm.out.clear();
    wm.send(id, Msg::ResolutionResult(false));
    assert!(wm.out.iter().all(|a| !matches!(a, Do::Deliver(_, AppEvent::Message(_)))));
    assert!(matches!(wm.apply(id, Command::Reboot, 0), Chore::Restart));
}

#[test]
fn buttons_and_fields_look_as_they_are() {
    let r = at(0, 0, 80, 30);
    let mut s: Vec<Shape<u8>> = Vec::new();
    button(&mut s, r, 1, ButtonStyle::Flat, false, false);
    assert_eq!(s, [Shape::Centered(Font::Ui, r, 1, Ink::Color(0x6e1d_1f24))]);
    s.clear();
    button(&mut s, r, 2, ButtonStyle::Normal, true, true);
    assert_eq!(s.len(), 3);
    let mut t = TextInput::new("a long text");
    s.clear();
    t.render(&mut s, r, 3, true, 90, 6);
    assert_eq!(t.scroll, 28);
    assert!(s.contains(&Shape::Text(Font::Ui, -20, 18, 3, Ink::Text)));
    assert!(s.contains(&Shape::Fill(at(70, 6, 1, 18), Ink::Accent)));
    assert_eq!(shaded(0x12_3456, 255), Ink::Color(0xff12_3456));
}

fn moment() -> Moment {
    Moment { now_ms: 0, now_us: 0, heard: 0, base_us: 0, epoch: 0 }
}

fn song() -> Show {
    Show {
        status: Status::Ready,
        lines: 0,
        cover: false,
        artist: true,
        album: false,
        warning: None,
        tip_w: 40,
        rise: 6,
        now: 0,
    }
}

#[test]
fn the_player_shows_music_and_its_controls() {
    let mut p = Player::open("/music/a.mp3", 50, &moment());
    let mut v = song();
    v.status = Status::Loading;
    assert_eq!(p.render(800, 500, &v).len(), 13);
    v.status = Status::Failed;
    v.lines = 2;
    assert_eq!(p.render(800, 500, &v).len(), 4);
    v.status = Status::Ready;
    assert!(p.render(800, 500, &v).is_empty());
    p.deck.summary = Some(Summary { duration_us: 1000, has_video: false, has_audio: true, width: 0, height: 0 });
    p.deck.controls_alpha = 255;
    p.deck.position = 500;
    let s = p.render(800, 500, &v);
    assert!(s.contains(&Shape::Clipped(Font::Large, 376, 95, SongLabel::Title, 394, Ink::White)));
    assert_eq!(p.deck.viz_rect, Rect::new(376, 215, 394, 140));
    assert!(s.contains(&Shape::Rounded(at(20, 426, 380, 6), 3, Ink::AccentAlpha(255))));
    assert!(s.contains(&Shape::Text(Font::Ui, 148, 469, SongLabel::Times(500, 1000), shaded(0xff_ffff, 255))));
    let mut out: Vec<Shape<SongLabel>> = Vec::new();
    draw_icon(&mut out, Btn::Play, at(0, 0, 40, 40), true, Ink::White, false, 50);
    assert_eq!(out.len(), 2);
    out.clear();
    draw_icon(&mut out, Btn::Mute, at(0, 0, 40, 40), true, Ink::White, false, 50);
    assert_eq!(out.len(), 9);
}

#[test]
fn the_explorer_paints_the_rows_in_sight() {
    let mut e = Explorer::new("/docs", true);
    e.render(900, 500, true);
    let v = Surroundings {
        rise: 6,
        bold_rise: 6,
        small_rise: 4,
        crumbs: vec![at(130, 12, 60, 26)],
        places: 2,
        here: Some(1),
        disk: Some((1000, 250)),
    };
    let s = e.draw(&v);
    assert!(s.contains(&Shape::Rounded(at(18, 436, 105, 8), 4, Ink::Color(0xff2f_7cf6))));
    assert!(s.iter().any(|x| matches!(x, Shape::Centered(_, _, FileLabel::Name("This folder is empty"), _))));
    assert!(s.contains(&Shape::Text(Font::Bold, 44, 131, FileLabel::Place(1), Ink::Text)));
}

#[test]
fn the_editor_paints_its_lines() {
    let e = Editor::new_empty();
    let t = Type { m: Metrics { cw: 8, lh: 16 }, ascent: 12, rise: 6, position_w: 60, number_w: vec![8; 40] };
    let s = e.draw(&t, true);
    assert!(s.contains(&Shape::Text(Font::Mono, 34, 64, LineLabel::Number(0), Ink::Text)));
    assert!(s.contains(&Shape::Text(Font::Mono, 60, 64, LineLabel::Line(0), Ink::Text)));
    assert!(s.contains(&Shape::Clipped(Font::Ui, 190, 25, LineLabel::Name("(not saved yet)"), 380, Ink::TextDim)));
}

#[test]
fn the_browser_paints_what_can_be_seen() {
    let mut b = Browser::new();
    b.tab.size = (800, 600);
    b.tab.height = Some(2000);
    b.tab.scroll = 100;
    let v = Sight {
        background: None,
        items: vec![
            Item::Rect { x: 5, y: 120, w: 10, h: 10, color: 0xff00_ff00 },
            Item::Rect { x: 5, y: 900, w: 10, h: 10, color: 0xff00_ff00 },
            Item::Image { x: 0, y: 130, w: 20, h: 20, found: false },
            Item::Text {
                x: 7,
                y: 140,
                base: 14,
                line_height: 16,
                ascent: 12,
                width: 30,
                font: FontSpec { size: 14, bold: false, mono: false },
                color: 0,
                underline: true,
                strike: false,
            },
        ],
        rise: 6,
        caret_x: 0,
        now: 0,
    };
    let s = b.render(&v, true);
    assert!(s.contains(&Shape::Fill(at(5, 66, 10, 10), Ink::Color(0xff00_ff00))));
    assert!(!s.iter().any(|x| matches!(x, Shape::Fill(a, _) if a.y == 846)));
    assert!(s.contains(&Shape::Fill(at(0, 76, 20, 20), Ink::Color(0xffe8_ebf0))));
    assert!(s.contains(&Shape::Text(Font::Ui, 7, 96, PageLabel::Item(3), Ink::Color(0xff00_0000))));
    assert!(s.contains(&Shape::Fill(at(7, 98, 30, 1), Ink::Color(0xff00_0000))));
}

#[test]
fn small_windows_are_painted() {
    let mut v = ImageViewer::open();
    let s = v.render(600, 400, 0);
    assert!(s.iter().any(|x| matches!(x, Shape::Centered(..))));
    v.decoded(100, 50);
    let s = v.render(600, 400, 0);
    assert!(s.iter().any(|x| matches!(x, Shape::Picture(_, a, 255, 0) if a.w == 100 && a.x == 250 && a.y == 197)));
    let mut d = Dialog::confirm("Title", "Sure?", "Delete", true, 1, 1);
    assert_eq!(d.render(400, 140).len(), 7);
    let mut d = Dialog::input("Title", "Name", "a", "OK", 1, 1);
    assert_eq!(d.render_field(400, 140, true, 8, 6).len(), 13);
    assert_eq!(about_window(400, 300, 3).len(), 11);
    let k = KeepResolution::new((1, 2), (3, 4), 0);
    assert_eq!(k.render(420, 140).len(), 8);
    let cell = |ch: char, color: u32| Cell { ch, color };
    let row = [cell('a', 1), cell('b', 1), cell('c', 2), cell('d', 1)];
    assert_eq!(color_runs(&row), [(0, 2), (2, 3), (3, 4)]);
    assert!(color_runs(&[]).is_empty());
}

#[test]
fn pages_are_set_in_the_nearest_font() {
    let font = |size: u16, bold: bool, mono: bool| pick_font(FontSpec { size, bold, mono });
    assert_eq!(font(14, false, false), Font::Ui);
    assert_eq!(font(14, true, false), Font::Bold);
    assert_eq!(font(18, false, false), Font::Bold);
    assert_eq!(font(21, false, false), Font::Large);
    assert_eq!(font(11, false, false), Font::SmallBold);
    assert_eq!(font(30, true, true), Font::Mono);
}
