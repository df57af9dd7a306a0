//! The editor, dialogs, the terminal and the file explorer.

use mayos::arch::rtc::DateTime;
use mayos::fs::entry::DirEntry;
use mayos::gui::app::{AppEvent, Command, Ctx, Msg, NewWindow};
use mayos::gui::dialog::Dialog;
use mayos::gui::editor::{Editor, Metrics, Request};
use mayos::gui::explorer::list::{crumbs, duplicate_name, status_text};
use mayos::gui::explorer::menu::{Action, ContextMenu};
use mayos::gui::explorer::outcome::{clip_after, Clip, Pasting};
use mayos::gui::explorer::window::{Env, Explorer};
use mayos::gui::geom::Rect;
use mayos::gui::keep_resolution::{KeepResolution, Verdict, TIMEOUT_MS};
use mayos::gui::open_path;
use mayos::gui::settings_app::labels::{
    add_pictures, aspect_label, date_label, mode_label, ping_summary, repeat_label, slider_label, tz_label, MAX_PICTURES,
};
use mayos::gui::settings_app::nettest::{NetAsk, NetTest};
use mayos::gui::settings_app::prefs::{set_slider, set_toggle, slider_value, toggle_value, Settings, Slider, Toggle};
use mayos::gui::terminal::{self, Terminal};
use mayos::gui::widgets::{scroll_thumb, TextInput};
use mayos::fs::entry::FsError;
use mayos::input::{Key, KeyEvent};

fn chars(s: &str) -> Vec<char> {
    s.chars().collect()
}

fn text(v: &[char]) -> String {
    v.iter().collect()
}

fn key(key: Key) -> KeyEvent {
    KeyEvent { key, pressed: true, shift: false, ctrl: false, alt: false }
}

fn ctrl(c: char) -> KeyEvent {
    KeyEvent { key: Key::Char(c), pressed: true, shift: false, ctrl: true, alt: false }
}

const M: Metrics = Metrics { cw: 8, lh: 16 };

fn press(e: &mut Editor, k: KeyEvent, clip: &str) -> Request {
    let mut ctx = Ctx::new(1);
    e.key(&k, 0, &chars(clip), &chars("/new.txt"), &M, &mut ctx)
}

#[test]
fn text_is_typed_and_taken_back() {
    let mut e = Editor::new_empty();
    e.insert_text(&chars("ab\ncd"));
    assert_eq!(text(&e.text()), "ab\ncd");
    assert_eq!(e.cursor, (1, 2));
    press(&mut e, key(Key::Char('x')), "");
    assert_eq!(text(&e.text()), "ab\ncdx");
    press(&mut e, key(Key::Backspace), "");
    assert_eq!(text(&e.text()), "ab\ncd");
    press(&mut e, key(Key::Enter), "");
    assert_eq!(text(&e.text()), "ab\ncd\n");
    assert!(e.modified);
    assert!(e.title().starts_with('\u{2022}'));
}

#[test]
fn what_is_cut_can_be_pasted() {
    let mut e = Editor::new_empty();
    e.insert_text(&chars("one\ntwo"));
    press(&mut e, ctrl('a'), "");
    assert_eq!(e.selected_text().map(|t| text(&t)).as_deref(), Some("one\ntwo"));
    match press(&mut e, ctrl('x'), "") {
        Request::Copy(t) => {
            assert_eq!(text(&e.text()), "");
            press(&mut e, ctrl('v'), &text(&t));
            assert_eq!(text(&e.text()), "one\ntwo");
        }
        _ => panic!("nothing cut"),
    }
}

#[test]
fn a_file_is_opened_and_saved() {
    let e = Editor::open("/a.txt", Ok(b"one\r\ntwo".to_vec()), 0);
    assert_eq!(text(&e.text()), "one\ntwo");
    assert_eq!(text(&e.name()), "a.txt");
    assert!(!e.modified);
    let mut e = e;
    e.insert_text(&chars("x"));
    match press(&mut e, ctrl('s'), "") {
        Request::Write { path, text: t } => {
            assert_eq!(text(&path), "/a.txt");
            assert_eq!(text(&t), text(&e.text()));
        }
        _ => panic!("not saved"),
    }
    let mut ctx = Ctx::new(1);
    e.write_done(&chars("/a.txt"), None, 0, &mut ctx);
    assert!(!e.modified);
}

#[test]
fn changes_are_not_lost_without_asking() {
    let mut e = Editor::new_empty();
    let mut ctx = Ctx::new(1);
    assert!(e.request_close(&mut ctx));
    e.insert_text(&chars("x"));
    assert!(!e.request_close(&mut ctx));
    assert!(matches!(ctx.commands.last(), Some(Command::OpenChild(NewWindow::Dialog(_)))));
}

#[test]
fn dialogs_answer_once() {
    let mut d = Dialog::confirm("Delete", "Really?", "Delete", true, 7, 3);
    let mut ctx = Ctx::new(9);
    d.event(&AppEvent::Key(key(Key::Enter)), &mut ctx);
    let sent = |ctx: &Ctx| ctx.commands.iter().filter(|c| matches!(c, Command::Send(3, Msg::DialogResult { tag: 7, .. }))).count();
    assert_eq!(sent(&ctx), 1);
    assert!(d.answered);
    d.request_close(&mut ctx);
    assert_eq!(sent(&ctx), 1);
}

#[test]
fn fields_take_text() {
    let mut t = TextInput::new("note.txt");
    t.select_stem();
    assert!(t.key(&key(Key::Char('a'))));
    t.key(&key(Key::Char('b')));
    t.key(&key(Key::Backspace));
    assert!(text(&t.text).starts_with('a'));
    assert_eq!(scroll_thumb(Rect::new(0, 0, 10, 100), 100, 100, 0), None);
    let r = scroll_thumb(Rect::new(0, 0, 10, 100), 400, 100, 0).unwrap();
    assert_eq!(r.y, 0);
}

#[test]
fn the_terminal_prints_and_remembers() {
    let mut t = Terminal::new();
    t.print("hello\n");
    assert!(t.plain_text().contains("hello"));
    let mut ctx = Ctx::new(1);
    for c in "ls".chars() {
        t.event(&AppEvent::Key(key(Key::Char(c))), 0, &mut ctx);
    }
    match t.event(&AppEvent::Key(key(Key::Enter)), 0, &mut ctx) {
        Some(terminal::Request::Run(line)) => assert_eq!(line, "ls"),
        _ => panic!("not run"),
    }
    assert_eq!(t.history(), ["ls"]);
    t.event(&AppEvent::Key(key(Key::Up)), 0, &mut ctx);
    assert_eq!(text(&t.input), "ls");
}

#[test]
fn a_terminal_can_start_with_a_command() {
    let mut t = Terminal::with_command("/bin", "hello");
    assert!(matches!(t.take_startup(), Some(terminal::Request::Run(c)) if c == "hello"));
    assert!(t.take_startup().is_none());
}

#[test]
fn folders_are_entered_and_left() {
    let mut e = Explorer::new("/docs", true);
    assert_eq!(text(&e.path), "/docs");
    e.enter(chars("/docs/a"), true);
    assert_eq!(text(&e.path), "/docs/a");
    assert_eq!(text(e.back.last().unwrap()), "/docs");
    e.refresh(Ok(vec![DirEntry::virtual_dir("x"), DirEntry::virtual_dir("y")]), 1, 0);
    e.test_select("y");
    assert_eq!(e.selected_path().map(|p| text(&p)).as_deref(), Some("/docs/a/y"));
    e.render(800, 600, true);
    assert_eq!((e.pane.w, e.pane.h), (800, 600));
    let env = Env { crumb_areas: vec![], crumb_paths: vec![], place_paths: vec![], has_clip: false, now: 0 };
    let mut ctx = Ctx::new(1);
    e.event(&AppEvent::Wheel { x: 400, y: 300, delta: 1 }, &env, &mut ctx);
    assert_eq!(e.pane.scroll, 0);
}

#[test]
fn crumbs_lead_to_every_folder() {
    let v: Vec<String> = crumbs(&chars("/a/b")).iter().map(|c| text(&c.path)).collect();
    assert_eq!(v, ["/", "/a", "/a/b"]);
    assert_eq!(text(&duplicate_name(&chars("a.txt"), false)), "a copy.txt");
    assert_eq!(text(&status_text(&[], None)), "0 folders, 0 files");
}

#[test]
fn menus_offer_what_fits() {
    let m = ContextMenu::new(5, 5, true, false);
    assert!(m.items.contains(&Some(Action::Rename)));
    let m = ContextMenu::new(5, 5, false, true);
    assert!(m.items.contains(&Some(Action::Paste)) && !m.items.contains(&Some(Action::Rename)));
}

#[test]
fn resolutions_are_kept_or_come_back() {
    let mut k = KeepResolution::new((800, 600), (1024, 768), 0);
    assert_eq!(k.tick(TIMEOUT_MS - 1), Verdict::Redraw);
    assert_eq!(k.tick(TIMEOUT_MS), Verdict::Revert(800, 600));
    assert_eq!(k.keep(), Verdict::Nothing);
    let mut k = KeepResolution::new((800, 600), (1024, 768), 0);
    assert_eq!(k.keep(), Verdict::Keep(1024, 768));
    assert_eq!(k.tick(TIMEOUT_MS), Verdict::Nothing);
}

fn settings() -> Settings {
    Settings {
        animations: true,
        muted: false,
        system_sounds: true,
        natural_scroll: false,
        clock_24h: true,
        show_seconds: false,
        dhcp: true,
        dock_autohide: false,
        volume: 80,
        pointer_speed: 5,
        double_click_ms: 400,
        key_repeat: 2,
        wallpaper: 0,
        accent: 0,
        dock_position: 0,
        dock_size: 1,
        tz_offset_min: 0,
    }
}

#[test]
fn settings_are_changed_one_by_one() {
    let mut s = settings();
    set_toggle(&mut s, Toggle::Muted, true);
    assert!(toggle_value(&s, Toggle::Muted) && toggle_value(&s, Toggle::Animations));
    set_slider(&mut s, Slider::Volume, 33);
    assert_eq!(slider_value(&s, Slider::Volume), 33);
    assert_eq!(s.pointer_speed, 5);
}

#[test]
fn settings_are_labelled() {
    assert_eq!(text(&tz_label(0)), "UTC+00:00");
    assert_eq!(text(&tz_label(330)), "UTC+05:30");
    assert_eq!(text(&tz_label(-90)), "UTC-01:30");
    assert_eq!(aspect_label(1920, 1080), Some("16:9"));
    assert_eq!(aspect_label(1000, 999), None);
    assert!(!repeat_label(0).is_empty());
}

fn opened(path: &str, stat: Result<bool, FsError>, data: &[u8], audio: bool) -> (Ctx, Result<Option<Vec<i16>>, FsError>) {
    let mut ctx = Ctx::new(1);
    let r = open_path(path, stat, Some(data), Ok(data), audio, &mut ctx);
    (ctx, r)
}

#[test]
fn files_open_with_their_programs() {
    let (ctx, r) = opened("/docs", Ok(true), b"", true);
    assert_eq!(r, Ok(None));
    assert!(matches!(&ctx.commands[0], Command::Open(NewWindow::Explorer(p)) if p == "/docs"));
    let (ctx, _) = opened("/my app", Ok(false), b"\x7fELF...", true);
    assert!(matches!(
        &ctx.commands[0],
        Command::Open(NewWindow::Terminal { dir, command }) if dir == "/" && command == "\"/my app\""
    ));
    let (ctx, _) = opened("/a.txt", Ok(false), b"RIFF", true);
    assert!(matches!(&ctx.commands[0], Command::Open(NewWindow::Editor(p)) if p == "/a.txt"));
    let (ctx, r) = opened("/x", Err(FsError::NotFound), b"", true);
    assert_eq!(r, Err(FsError::NotFound));
    assert!(ctx.commands.is_empty());
}

#[test]
fn sounds_are_played_if_they_can_be() {
    let wav = mayos::audio::wav::encode(&[1, 2, 3, 4]);
    let (ctx, r) = opened("/s.WAV", Ok(false), &wav, true);
    assert_eq!(r, Ok(Some(vec![1, 2, 3, 4])));
    assert!(ctx.commands.is_empty());
    let (ctx, r) = opened("/s.wav", Ok(false), &wav, false);
    assert_eq!(r, Ok(None));
    assert!(matches!(&ctx.commands[0], Command::Open(NewWindow::Editor(_))));
}

#[test]
fn a_double_click_takes_a_word() {
    let mut e = Editor::new_empty();
    e.insert_text(&chars("x, \u{e4}\u{3b1}7_b! y"));
    let mut ctx = Ctx::new(1);
    let ev = AppEvent::MouseDown { x: 100, y: 100, button: 0, clicks: 2 };
    e.event(&ev, 0, &chars(""), &chars("/new.txt"), &M, &mut ctx);
    assert_eq!((e.anchor, e.cursor), (Some((0, 3)), (0, 8)));
}

#[test]
fn names_are_completed_whatever_their_case() {
    let file = |name: &str| {
        let mut e = DirEntry::virtual_dir(name);
        e.is_dir = false;
        e
    };
    let mut t = Terminal::new();
    let mut ctx = Ctx::new(1);
    for c in "cat docs/\u{c4}p".chars() {
        t.event(&AppEvent::Key(key(Key::Char(c))), 0, &mut ctx);
    }
    assert_eq!(t.completion_dir(), "/docs");
    t.complete(&[file("\u{e4}pfel.txt"), file("birnen.txt")]);
    assert_eq!(text(&t.input), "cat docs/\u{e4}pfel.txt ");
    assert_eq!(t.caret, 19);
    for c in "/B".chars() {
        t.event(&AppEvent::Key(key(Key::Char(c))), 0, &mut ctx);
    }
    t.complete(&[DirEntry::virtual_dir("bin"), file("beta")]);
    assert!(t.plain_text().contains("bin  beta"));
    assert_eq!(text(&t.input), "cat docs/\u{e4}pfel.txt /B");
    t.complete(&[]);
    assert_eq!(text(&t.input), "cat docs/\u{e4}pfel.txt /B");
}

fn done(t: &NetTest) -> (String, bool) {
    match t.ask() {
        NetAsk::Done(text, ok) => (text.iter().collect(), ok),
        _ => panic!(),
    }
}

#[test]
fn the_gateway_is_pinged_three_times() {
    let mut t = NetTest::start(0, Some("10.0.2.2".chars().collect()));
    for (i, r) in [Ok(1500), Err("timed out".chars().collect::<Vec<char>>()), Ok(2500)].into_iter().enumerate() {
        assert!(matches!(t.ask(), NetAsk::Ping(n) if n as usize == i));
        t.ping_told(r);
    }
    assert_eq!(done(&t), (String::from("Ping 10.0.2.2: 2/3 replies, average 2.0 ms"), true));
    let mut t = NetTest::start(1, None);
    for _ in 0..3 {
        t.ping_told(Err("no route".chars().collect()));
    }
    assert_eq!(done(&t), (String::from("Ping 1.1.1.1: no route"), false));
    let mut t = NetTest::start(0, None);
    for _ in 0..3 {
        t.ping_told(Ok(1000));
    }
    assert!(done(&t).0.starts_with("Ping 0.0.0.0: 3/3"));
    assert_eq!(ping_summary("h", &[], "gone").0.iter().collect::<String>(), "Ping h: gone");
}

#[test]
fn a_name_is_looked_up() {
    let mut t = NetTest::start(2, None);
    assert!(matches!(t.ask(), NetAsk::Resolve));
    t.name_told(Ok("93.184.216.34".chars().collect()));
    assert_eq!(done(&t), (String::from("example.com resolves to 93.184.216.34"), true));
    let mut t = NetTest::start(2, None);
    t.name_told(Err("timed out".chars().collect()));
    assert_eq!(done(&t), (String::from("Looking up example.com failed: timed out"), false));
}

#[test]
fn settings_are_shown_in_words() {
    let s = |v: Vec<char>| v.into_iter().collect::<String>();
    assert_eq!(s(mode_label(1024, 768)), "1024 \u{d7} 768");
    let t = DateTime { year: 987, month: 3, day: 9, hour: 0, minute: 0, second: 0 };
    assert_eq!(s(date_label(&t)), "0987-03-09");
    let mut cfg = Settings { volume: 75, ..settings() };
    assert_eq!(s(slider_label(&cfg, Slider::Volume)), "75%");
    assert_eq!(s(slider_label(&cfg, Slider::PointerSpeed)), "5");
    assert_eq!(s(slider_label(&cfg, Slider::DoubleClick)), "400 ms");
    cfg.key_repeat = 9;
    assert_eq!(s(slider_label(&cfg, Slider::KeyRepeat)), "Fast");
}

#[test]
fn only_so_many_pictures_are_found() {
    let file = |name: &str| {
        let mut e = DirEntry::virtual_dir(name);
        e.is_dir = false;
        e
    };
    let mut found = Vec::new();
    let dir: Vec<char> = "/pictures".chars().collect();
    add_pictures(&mut found, &dir, &[DirEntry::virtual_dir("a.png"), file("b.txt"), file("c.png")]);
    assert_eq!(found.iter().map(|p| p.iter().collect::<String>()).collect::<Vec<String>>(), ["/pictures/c.png"]);
    let many: Vec<DirEntry> = (0..40).map(|i| file(&format!("{i}.jpg"))).collect();
    add_pictures(&mut found, &dir, &many);
    assert_eq!(found.len(), MAX_PICTURES);
    assert_eq!(found[MAX_PICTURES - 1].iter().collect::<String>(), "/pictures/28.jpg");
    add_pictures(&mut found, &dir, &many);
    assert_eq!(found.len(), MAX_PICTURES);
}

#[test]
fn what_was_moved_is_not_pasted_again() {
    let clip = |cut: bool| Some(Clip { path: "/a".chars().collect(), cut });
    assert!(clip_after(clip(true), Pasting::Gone, false).is_none());
    assert!(clip_after(clip(true), Pasting::Move, true).is_none());
    assert!(clip_after(clip(true), Pasting::Move, false).is_some());
    assert!(clip_after(clip(true), Pasting::Nothing, true).is_some());
    assert!(clip_after(clip(false), Pasting::Copy, true).is_some());
}
