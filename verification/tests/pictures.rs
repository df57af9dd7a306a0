//! Pictures, video, fonts and drawing.

use ab_glyph::Font;
use mayos::fs::entry::DirEntry;
use mayos::gui::about::{cpu_brand, system_info, Figures};
use mayos::gui::canvas2d::{aligned, baseline, family_text, parse_json, read_op, size_text, Arg, Op};
use mayos::gui::cursor::arrow;
use mayos::gui::geom::Rect;
use mayos::gui::imageview::{is_image_name, next_picture, siblings, ImageViewer};
use mayos::gui::linuxwin::LinuxWindow;
use mayos::gui::painting::{clear_rect, outline, part_of, Painting};
use mayos::gui::player::engine::{describe, AudioTrack, Engine, Packet, Turn, VideoTrack, VideoTurn};
use mayos::gui::player::names::{fmt_time, is_audio_name, is_video_name, sin_cos_deg};
use mayos::gui::player::viz::{move_bars, Viz};
use mayos::gui::thumbs::{Hunt, MAX_PACKETS, Search, Seeking, Sought, Source, Thumbs, frame_target, key, look_at_frame, path_of_key, source_for, supported};
use mayos::gui::video::{frames_due, next_work, VideoPlayer, Work};
use mayos::gui::wallpaper::{isqrt, strength, wallpaper, WALLPAPERS};
use mayos::gui::webfont::{
    add_web_font, family_key, fake_bold, glyph_face, pick, plain_font, px, sfnt, width_face, woff_to_sfnt, Face, Store, Style,
    Table, MONO, SANS, SANS_BOLD, SERIF,
};

fn chars(s: &str) -> Vec<char> {
    s.chars().collect()
}

fn text(v: &[char]) -> String {
    v.iter().collect()
}

#[test]
fn what_cannot_be_shown_says_why() {
    assert_eq!(text(&mayos::gui::imageview::error_text(&chars("broken"))), "Cannot open this picture: broken");
    assert_eq!(text(&mayos::gui::video::error_text(&chars("gone"))), "Cannot play this video: gone");
}

#[test]
fn rectangles_meet_and_join() {
    let a = Rect::new(0, 0, 10, 10);
    let b = Rect::new(5, 5, 10, 10);
    assert_eq!(a.intersect(&b), Rect::new(5, 5, 5, 5));
    assert_eq!(a.union(&b), Rect::new(0, 0, 15, 15));
    assert!(a.intersect(&Rect::new(20, 20, 5, 5)).is_empty());
    assert!(a.contains(9, 9) && !a.contains(10, 9));
}

#[test]
fn pictures_of_a_folder_are_walked() {
    assert!(is_image_name("A.PNG") && !is_image_name("a.txt"));
    let mut e: Vec<DirEntry> = ["b.png", "a.jpg", "c.txt"].iter().map(|n| DirEntry::virtual_dir(n)).collect();
    for x in &mut e {
        x.is_dir = false;
    }
    let v = siblings(&chars("/p"), &e);
    assert_eq!(v.len(), 2);
    let next = next_picture(&v, &v[0], true).unwrap();
    assert_eq!(next, v[1]);
    assert_eq!(next_picture(&v, &next, true).unwrap(), v[0]);
    assert_eq!(next_picture(&v, &next, false).unwrap(), v[0]);
}

#[test]
fn pictures_are_fitted_and_zoomed() {
    let mut v = ImageViewer::open();
    v.size = (800, 600);
    v.decoded(1600, 400);
    let (w, h) = v.display_size();
    assert!(w <= 800 && h <= 600 - 44);
    let before = v.effective_zoom();
    v.zoom_by(true);
    assert!(v.effective_zoom() > before);
    v.failed();
    v.load();
}

#[test]
fn drawing_commands_are_read() {
    let v = parse_json(b"[[\"fr\", 1, -2.5, \"#f00\"], [\"save\"]]").unwrap();
    assert_eq!(v.len(), 2);
    assert!(matches!(&v[0][1], Arg::Num(n) if n == b"1"));
    assert!(matches!(&v[0][2], Arg::Num(n) if n == b"-2.5"));
    assert!(matches!(&v[0][3], Arg::Str(s) if text(s) == "#f00"));
    assert!(matches!(read_op(&v[0]), Op::FillRect));
    assert!(matches!(read_op(&v[1]), Op::Save));
    assert!(matches!(read_op(&[Arg::Str(chars("nonsense"))]), Op::Unknown));
}

#[test]
fn text_is_aligned() {
    assert_eq!(aligned(100, 40, &chars("center")), 80);
    assert_eq!(aligned(100, 40, &chars("right")), 60);
    assert_eq!(aligned(100, 40, &chars("left")), 100);
    assert_eq!(baseline(50, 10, 20, &chars("top")), 60);
    assert_eq!(baseline(50, 10, 20, &chars("alphabetic")), 50);
    assert!(size_text(&chars("bold 12px Arial")).is_some());
    assert!(text(&family_text(&chars("12px Arial"))).contains("arial"));
}

#[test]
fn the_cursor_is_an_arrow() {
    let (p, hot) = arrow();
    assert_eq!(p.len(), 64 * 64);
    assert!(p.iter().any(|&c| c >> 24 == 0xff));
    assert_eq!(p[64 * 64 - 1], 0);
    assert!(hot.0 >= 0 && hot.0 < 64);
}

#[test]
fn wallpapers_fade() {
    for i in 0..WALLPAPERS {
        assert!(!wallpaper(i).name.is_empty());
    }
    for n in [0u64, 1, 15, 16, 17, 1 << 40, u64::MAX] {
        let r = isqrt(n) as u128;
        assert!(r * r <= n as u128 && (r + 1) * (r + 1) > n as u128);
    }
    assert_eq!(strength(100, 0, 100), None);
    assert!(strength(0, 0, 100) > strength(50, 0, 100));
}

#[test]
fn video_frames_are_due_in_time() {
    assert_eq!(frames_due(&[0, 1, 2, 3], 2), 3);
    assert_eq!(frames_due(&[], 2), 0);
    assert_eq!(next_work(true, 0, 0, 10), Work::End);
    assert_eq!(next_work(false, 6, 0, 10), Work::Wait);
    assert_eq!(next_work(false, 0, 3, 10), Work::Decode(3));
    let mut v = VideoPlayer::open();
    v.size = (640, 480);
    v.media_loaded(100, 40_000, None, 0);
    assert!(v.playing);
    assert_eq!(v.target_frame(0), 0);
    v.pause();
    assert!(!v.playing);
}

#[test]
fn thumbnails_are_made_once() {
    assert!(supported("a.jpg") && supported("a.mp3") && !supported("a.txt"));
    assert_eq!(source_for("a.jpg", 100), Source::Picture);
    assert_eq!(source_for("a.jpg", 1 << 30), Source::Impossible);
    let k = key(&chars("/p/a.jpg"), 100);
    assert_eq!(text(&path_of_key(&k)), "/p/a.jpg");
    let mut t = Thumbs::new();
    assert_eq!(t.get(&k), None);
    assert_eq!(t.get(&k), None);
    assert_eq!(t.next_job().map(|j| text(&j)), Some(text(&k)));
    assert!(t.next_job().is_none());
    t.finish(k.clone(), Some(7));
    assert_eq!(t.get(&k), Some(7));
    assert!(frame_target(100_000_000) > 0);
    assert_eq!(look_at_frame(None, 5, 10).0, true);
}

#[test]
fn media_is_named() {
    assert!(is_video_name("a.MP4") && is_audio_name("b.mp3") && !is_video_name("b.mp3"));
    assert_eq!(fmt_time(3_661_000_000), "1:01:01");
    assert_eq!(fmt_time(59_000_000), "0:59");
    let v = Some(VideoTrack { codec: String::from("H.264"), width: 640, height: 480 });
    let a = Some(AudioTrack { codec: String::from("AAC"), rate: 48000 });
    assert!(describe("MP4", &v, &a).contains("640"));
    let (s, c) = sin_cos_deg(90);
    assert!(s > 0 && c == 0);
}

#[test]
fn the_engine_waits_for_keyframes() {
    let mut e = Engine::new(true, true, 10_000_000);
    assert_eq!(e.turn(true, None, false, 0, 0), Turn::Stop);
    assert_eq!(e.turn(false, Some(5), false, 0, 0), Turn::Seek(5));
    e.video_packet(Packet { pts: 0, key: true });
    assert!(matches!(e.next_video(1_000_000, 0, 0), VideoTurn::Decode { .. } | VideoTurn::Drop | VideoTurn::Wait));
    e.end_of_file();
    assert!(e.eof);
}

#[test]
fn bars_rise_at_once_and_fall_slowly() {
    let mut bars = vec![0u8, 100];
    assert!(move_bars(&mut bars, &[50, 0]));
    assert!(bars[0] > 0 && bars[1] < 100 && bars[1] > 0);
    let mut v = Viz::new();
    v.push(&[1; 4096]);
    assert_eq!(v.written, 2048);
}

#[test]
fn pictures_of_linux_programs_fit() {
    let mut w = LinuxWindow::new(640, 480);
    w.size = (800, 800);
    w.layout();
    assert!(w.view.w <= 800 && w.view.h <= 800);
    let (x, y) = w.to_fb(0, 0);
    assert!(x <= 0 && y <= 0);
}

#[test]
fn the_processor_is_named() {
    let mut regs = [0u32; 12];
    let name = b"Test CPU @ 3.0";
    for (i, b) in name.iter().enumerate() {
        regs[i / 4] |= (*b as u32) << (8 * (i % 4));
    }
    assert_eq!(cpu_brand(&regs), "Test CPU @ 3.0");
    let f = Figures {
        version: String::from("1.0"),
        processor: String::from("P"),
        pages: (10, 100),
        heap: (1, 2),
        display: String::from("none"),
        disk: None,
        uptime_ms: 61_000,
        processes: 3,
    };
    let v = system_info(&f);
    assert!(v.iter().any(|(_, t)| text(t).contains("1.0")));
}

// Fonts ----------------------------------------------------------------------

fn be32(v: u32) -> [u8; 4] {
    v.to_be_bytes()
}

/// A WOFF file with one packed and one plain table.
fn woff(packed: &[u8], plain: &[u8]) -> Vec<u8> {
    let z = miniz_oxide::deflate::compress_to_vec_zlib(packed, 6);
    assert!(z.len() < packed.len());
    let mut d = b"wOFF".to_vec();
    d.extend(be32(0x0001_0000));
    d.extend(be32(0));
    d.extend(2u16.to_be_bytes());
    d.extend([0; 30]);
    let first = d.len() + 40;
    let second = first + z.len();
    for (tag, off, comp, orig) in [
        (*b"abcd", first, z.len(), packed.len()),
        (*b"wxyz", second, plain.len(), plain.len()),
    ] {
        d.extend(tag);
        d.extend(be32(off as u32));
        d.extend(be32(comp as u32));
        d.extend(be32(orig as u32));
        d.extend(be32(7));
    }
    d.extend(&z);
    d.extend(plain);
    d
}

#[test]
fn packed_fonts_are_unpacked() {
    let packed = vec![b'q'; 500];
    let plain = b"0123".to_vec();
    let f = woff_to_sfnt(&woff(&packed, &plain)).unwrap();
    assert_eq!(f[..4], be32(0x0001_0000));
    let want = sfnt(
        0x0001_0000,
        &[
            Table { tag: 0x6162_6364, sum: 7, data: packed.clone() },
            Table { tag: 0x7778_797a, sum: 7, data: plain.clone() },
        ],
    );
    assert_eq!(f, want);
    assert!(f.windows(500).any(|w| w == packed));
    assert_eq!(plain_font(woff(&packed, &plain)), Some(f));
}

#[test]
fn broken_fonts_are_refused() {
    let mut w = woff(&vec![b'q'; 500], b"0123");
    let n = w.len();
    w.truncate(n - 2);
    assert_eq!(woff_to_sfnt(&w), None);
    let mut w = woff(&vec![b'q'; 500], b"0123");
    w[84] ^= 0xff;
    assert_eq!(woff_to_sfnt(&w), None);
}

#[test]
fn fonts_are_picked_by_family() {
    assert_eq!(text(&family_key(&chars(" \"My Font\" "))), "my font");
    let face = |family: &str, bold: bool| Face { family: chars(family), bold, italic: false };
    let faces = [face("", false), face("", true), face("", false), face("", false), face("my font", true), face("my font", false)];
    let st = Style { bold: false, italic: false, mono: false };
    assert_eq!(pick(&faces, &chars("Other, My Font, serif"), st), 5);
    assert_eq!(pick(&faces, &chars("'My Font'"), Style { bold: true, ..st }), 4);
    assert_eq!(pick(&faces, &chars("serif"), st), SERIF);
    assert_eq!(pick(&[], &chars("Arial"), Style { bold: true, ..st }), SANS_BOLD);
    assert_eq!(pick(&[], &chars("x"), Style { mono: true, ..st }), MONO);
    assert_eq!((px(2), px(16), px(500)), (6, 16, 120));
}

/// A font of so many empty glyphs.
fn font(glyphs: u8) -> Vec<u8> {
    let mut head = vec![0; 54];
    head[1] = 1;
    head[18..20].copy_from_slice(&1000u16.to_be_bytes());
    let mut hhea = vec![0; 36];
    hhea[1] = 1;
    hhea[35] = 1;
    let table = |tag: &[u8; 4], data: Vec<u8>| Table { tag: u32::from_be_bytes(*tag), sum: 0, data };
    let maxp = vec![0, 0, 0x50, 0, 0, glyphs];
    sfnt(0x0001_0000, &[table(b"head", head), table(b"hhea", hhea), table(b"maxp", maxp)])
}

fn glyphs(s: &Store) -> Vec<usize> {
    s.fonts.iter().map(|f| f.glyph_count()).collect()
}

#[test]
fn fonts_of_pages_join_the_others() {
    assert!(Store::new(font(1), font(1), b"no font".to_vec(), font(1)).is_none());
    let mut s = Store::new(font(1), font(2), font(3), font(4)).unwrap();
    assert_eq!(s.faces.len(), 4);
    assert!(!s.faces[SANS as usize].bold && s.faces[SANS_BOLD as usize].bold);
    // Every face has the font that was read for it.
    assert_eq!(glyphs(&s), [1, 2, 3, 4]);
    assert!(!add_web_font(&mut s, "Broken", false, false, b"no font".to_vec()));
    assert!(!add_web_font(&mut s, "Packed", false, false, woff(&vec![b'q'; 500], b"0123")));
    assert_eq!((s.faces.len(), s.fonts.len()), (4, 4));
    assert!(add_web_font(&mut s, " \"My Font\" ", true, false, font(9)));
    assert_eq!(s.faces.len(), 5);
    assert_eq!(glyphs(&s), [1, 2, 3, 4, 9]);
    assert_eq!((text(&s.faces[4].family), s.faces[4].bold, s.faces[4].italic), (String::from("my font"), true, false));
    let st = Style { bold: true, italic: false, mono: false };
    assert_eq!(pick(&s.faces, &chars("My Font, serif"), st), 4);
    assert_eq!((glyph_face(4, true), glyph_face(4, false)), (4, SANS));
    assert_eq!((width_face(4, false, ' '), width_face(4, false, 'x')), (4, SANS));
    assert!(!fake_bold(&s.faces, 4, true) && fake_bold(&s.faces, SERIF, true) && !fake_bold(&s.faces, SERIF, false));
}

#[test]
fn canvas_keeps_transforms_and_path() {
    let mut p: Painting<u8, (i32, i32)> = Painting::new(1);
    p.restore();
    assert_eq!(p.xf, 1);
    p.save();
    p.xf = 7;
    p.restore();
    assert_eq!((p.xf, p.stack.len()), (1, 0));
    p.close_path();
    assert!(p.path.is_empty());
    p.line_to((0, 0));
    p.line_to((4, 0));
    p.arc(&[(4, 4), (0, 4)]);
    p.close_path();
    p.move_to((9, 9));
    assert_eq!(p.path, vec![vec![(0, 0), (4, 0), (4, 4), (0, 4), (0, 0)], vec![(9, 9)]]);
    assert_eq!(
        p.segments(),
        vec![((0, 0), (4, 0)), ((4, 0), (4, 4)), ((4, 4), (0, 4)), ((0, 4), (0, 0))]
    );
    p.begin_path();
    assert!(p.segments().is_empty());
    p.arc(&[]);
    assert_eq!(p.path.len(), 1);
}

#[test]
fn canvas_works_on_whole_pixels() {
    let bars = outline(&Rect::new(10, 20, 30, 40), 3);
    assert_eq!(
        bars,
        [
            Rect::new(10, 20, 30, 3),
            Rect::new(10, 57, 30, 3),
            Rect::new(10, 20, 3, 40),
            Rect::new(37, 20, 3, 40),
        ]
    );
    let mut data: Vec<u32> = vec![5; 12];
    clear_rect(&mut data, 4, 3, &Rect::new(2, -1, 9, 3));
    assert_eq!(data, vec![5, 5, 0, 0, 5, 5, 0, 0, 5, 5, 5, 5]);
    let img: Vec<u32> = vec![1, 2, 3, 4, 5, 6];
    assert_eq!(part_of(&img, 3, 2, 1, -1, 3, 3), vec![0, 0, 0, 2, 3, 0, 5, 6, 0]);
    assert_eq!(part_of(&img, 3, 2, 2, 1, 1, 0), vec![6]);
}

#[test]
fn a_frame_is_sought_a_little_way_into_a_video() {
    let target = frame_target(60_000_000);
    let (mut h, first) = Hunt::new(target);
    assert_eq!(first, Search::NextPacket);
    assert_eq!(h.next(Sought::Other), Search::NextPacket);
    assert_eq!(h.next(Sought::Packet), Search::NextFrame(false));
    assert_eq!(h.next(Sought::Frame(0)), Search::NextFrame(true));
    assert_eq!(h.next(Sought::Frame(1_000_000)), Search::NextFrame(false));
    assert_eq!(h.next(Sought::End), Search::Wait);
    assert_eq!(h.next(Sought::NoFrame), Search::NextPacket);
    assert_eq!(h.next(Sought::Packet), Search::NextFrame(false));
    assert_eq!(h.next(Sought::Frame(target - 100_000)), Search::TakeNew);
    assert_eq!((h.seeking, h.packets), (Seeking::Over, 2));
    let (mut h, _) = Hunt::new(target);
    h.next(Sought::Packet);
    h.next(Sought::Frame(5));
    h.next(Sought::NoFrame);
    for _ in 2..MAX_PACKETS {
        assert_eq!(h.next(Sought::Other), Search::NextPacket);
    }
    assert_eq!(h.next(Sought::Other), Search::TakeKept);
    let (mut h, _) = Hunt::new(0);
    assert_eq!(h.next(Sought::End), Search::Flush);
    assert_eq!(h.next(Sought::NoFrame), Search::GiveUp);
}
