//! The command line.

use mayos::audio::wav::encode;
use mayos::fs::entry::DirEntry;
use mayos::gui::shell::decide::{
    beep, cd, mkdir_parents, play, push_result, rm, touch, transfer_target, MakeAsk, MakeDirs, Removal,
};
use mayos::gui::shell::help::help;
use mayos::gui::shell::ping::{parse_ping, ping_summary, PingStats};
use mayos::gui::shell::plan::{builtin, Work};
use mayos::gui::shell::report::{cat, hexdump, ls, uptime, wc, Listed};
use mayos::gui::shell::tree::{tree, Node};
use mayos::gui::shell::words::{candidates, flags, redirect_output, run, strip_ansi, tokenize, CommandLine};

fn chars(s: &str) -> Vec<char> {
    s.chars().collect()
}

fn text(v: &[char]) -> String {
    v.iter().collect()
}

fn plain(v: &[char]) -> String {
    text(&strip_ansi(v))
}

#[test]
fn lines_are_split_into_words() {
    assert_eq!(tokenize("cp  'a b' \"c d\" e"), ["cp", "a b", "c d", "e"]);
    assert_eq!(tokenize("x ''"), ["x", ""]);
    assert!(tokenize("   ").is_empty());
}

#[test]
fn commands_have_arguments_and_a_file_for_their_output() {
    match run(&chars("/home"), "echo hi > out.txt") {
        CommandLine::Command { name, args, redirect } => {
            assert_eq!(text(&name), "echo");
            assert_eq!(args.len(), 1);
            let (path, append) = redirect.unwrap();
            assert_eq!((text(&path).as_str(), append), ("/home/out.txt", false));
        }
        _ => panic!("no command"),
    }
    assert!(matches!(run(&chars("/"), "  "), CommandLine::Empty));
    assert!(matches!(run(&chars("/"), "echo >"), CommandLine::Invalid(_)));
    match run(&chars("/"), "echo hi >> /log") {
        CommandLine::Command { redirect, .. } => assert!(redirect.unwrap().1),
        _ => panic!("no command"),
    }
}

#[test]
fn flags_are_told_from_names() {
    let (f, rest) = flags(&[chars("-la"), chars("dir"), chars("-R")]);
    assert!(f.contains(&'l') && f.contains(&'a') && f.contains(&'R'));
    assert_eq!(rest.len(), 1);
}

#[test]
fn colours_are_taken_out() {
    assert_eq!(plain(&chars("\x1b[31mred\x1b[0m")), "red");
}

#[test]
fn programs_are_looked_for() {
    let v: Vec<String> = candidates(&chars("/home"), &chars("hello")).iter().map(|c| text(c)).collect();
    assert!(v.contains(&String::from("/bin/hello")));
    let v: Vec<String> = candidates(&chars("/home"), &chars("./hello")).iter().map(|c| text(c)).collect();
    assert!(v.contains(&String::from("/home/hello")));
}

#[test]
fn builtins_are_planned() {
    match builtin(&chars("ls"), &[chars("-l")], &chars("/home")) {
        Some(Work::List { long, all, paths }) => {
            assert!(long && !all);
            assert_eq!(text(&paths[0]), "/home");
        }
        _ => panic!("no list"),
    }
    assert!(matches!(builtin(&chars("cd"), &[chars("..")], &chars("/home/me")), Some(Work::ChangeDir(p)) if text(&p) == "/home"));
    assert!(builtin(&chars("nonsense"), &[], &chars("/")).is_none());
    assert!(plain(&help()).contains("ls"));
}

#[test]
fn folders_are_removed_only_if_asked() {
    let mut out = Vec::new();
    assert!(matches!(rm(&chars("d"), &chars("/d"), &Ok(true), false, &mut out), Removal::Refused));
    assert!(!out.is_empty());
    let mut out = Vec::new();
    assert!(matches!(rm(&chars("d"), &chars("/d"), &Ok(true), true, &mut out), Removal::All));
    assert!(matches!(rm(&chars("f"), &chars("/f"), &Ok(false), false, &mut out), Removal::One));
    assert!(out.is_empty());
    assert!(matches!(
        rm(&chars("x"), &chars("/x"), &Err(String::from("not found")), false, &mut out),
        Removal::Refused
    ));
    assert!(plain(&out).contains("not found"));
}

#[test]
fn changing_to_a_file_fails() {
    let mut out = Vec::new();
    assert!(cd(&chars("/d"), &Ok(true), &mut out));
    assert!(!cd(&chars("/f"), &Ok(false), &mut out));
    assert!(!out.is_empty());
}

#[test]
fn files_go_into_folders() {
    assert_eq!(text(&transfer_target(&chars("/a/x"), &chars("/b"), true)), "/b/x");
    assert_eq!(text(&transfer_target(&chars("/a/x"), &chars("/b"), false)), "/b");
    let v: Vec<String> = mkdir_parents(&chars("/a/b/c")).iter().map(|c| text(c)).collect();
    assert_eq!(v, ["/a", "/a/b", "/a/b/c"]);
}

#[test]
fn files_are_listed_and_counted() {
    let mut e = DirEntry::virtual_dir("a b");
    e.is_dir = false;
    let l = Listed {
        path: chars("/"),
        found: Ok(DirEntry::virtual_dir("/")),
        listing: Ok(vec![DirEntry::virtual_dir("docs"), e]),
    };
    assert_eq!(plain(&ls(&[l], false, false)), "docs  'a b'\n");
    let mut out = Vec::new();
    wc(&chars("f"), &Ok(b"one two\nthree\n".to_vec()), &mut out);
    let t = plain(&out);
    assert!(t.contains('2') && t.contains('3') && t.contains("14"));
    let mut out = Vec::new();
    cat(&chars("f"), &Err(String::from("I/O error")), &mut out);
    assert!(plain(&out).contains("I/O error"));
}

#[test]
fn bytes_are_dumped() {
    let t = plain(&hexdump(b"Hello\n"));
    assert!(t.contains("48 65 6c 6c 6f 0a"));
    assert!(t.contains("Hello."));
}

#[test]
fn trees_are_drawn() {
    let n = vec![
        Node {
            name: chars("a"),
            is_dir: true,
            children: Some(vec![Node { name: chars("x"), is_dir: false, children: None }]),
        },
        Node { name: chars("b"), is_dir: false, children: None },
    ];
    let t = plain(&tree(&chars("/"), &n));
    assert!(t.contains("a") && t.contains("x"));
    assert!(t.contains("1 folder") || t.contains("1 director"));
}

#[test]
fn pings_are_summed_up() {
    assert_eq!(parse_ping(&chars("example.com -c 2")).1, 2);
    let mut s = PingStats::start();
    s.record(Some(1000));
    s.record(Some(3000));
    s.record(None);
    assert_eq!((s.sent, s.ok, s.min, s.max), (3, 2, 1000, 3000));
    let (t, code) = ping_summary(&chars("h"), &s);
    assert!(plain(&t).contains("3") && code == 0);
    assert_ne!(ping_summary(&chars("h"), &PingStats::start()).1, 0);
}

#[test]
fn time_is_told() {
    assert!(plain(&uptime(3_661_000)).contains('1'));
}

#[test]
fn sounds_are_played_from_the_command_line() {
    let samples: Vec<i16> = vec![7; 2 * 48000 * 65];
    let file: Result<Vec<u8>, String> = Ok(encode(&samples));
    let mut out = Vec::new();
    assert_eq!(play(&chars("a.wav"), &file, true, &mut out), Some(samples));
    assert_eq!(plain(&out), "playing a.wav (48000 Hz, 16-bit, 2 ch, 1:05)\n");
    let mut out = Vec::new();
    assert_eq!(play(&chars("a.wav"), &file, false, &mut out), None);
    assert_eq!(plain(&out), "no sound card\n");
    let mut out = Vec::new();
    assert_eq!(play(&chars("b"), &Ok(b"text".to_vec()), true, &mut out), None);
    assert_eq!(play(&chars("c"), &Err(String::from("not found")), true, &mut out), None);
    assert_eq!(plain(&out), "play: not a WAV file\nplay: c: not found\n");
    let mut out = Vec::new();
    assert!(beep(true, &mut out) && out.is_empty());
    assert!(!beep(false, &mut out));
    assert_eq!(plain(&out), "no sound card\n");
}

/// Makes a folder where `there` is; those that were created, and the result.
fn make(path: &str, parents: bool, there: &[&str], broken: &str) -> (Vec<String>, Result<(), String>) {
    let mut m = MakeDirs::start(&chars(path), parents);
    let mut created = Vec::new();
    loop {
        match m.ask() {
            MakeAsk::Look(p) => m.look_told(there.contains(&text(&p).as_str())),
            MakeAsk::Create(p) => {
                let fails = text(&p) == broken;
                if !fails {
                    created.push(text(&p));
                }
                m.create_told(if fails { Err(String::from("no space")) } else { Ok(()) });
            }
            MakeAsk::Done(r) => return (created, r),
        }
    }
}

#[test]
fn missing_folders_are_made_on_the_way() {
    let all = |v: &[&str]| v.iter().map(|s| String::from(*s)).collect::<Vec<String>>();
    assert_eq!(make("/a/b/c", true, &["/a"], ""), (all(&["/a/b", "/a/b/c"]), Ok(())));
    assert_eq!(make("/a/b", true, &["/a", "/a/b"], ""), (all(&[]), Ok(())));
    assert_eq!(make("/a/b/c", true, &[], "/a/b"), (all(&["/a"]), Err(String::from("no space"))));
    // Without the flag only the folder itself is created, seen or not.
    assert_eq!(make("/a/b", false, &["/a/b"], ""), (all(&["/a/b"]), Ok(())));
    assert_eq!(make("/a/b", false, &[], "/a/b"), (all(&[]), Err(String::from("no space"))));
    let mut out = Vec::new();
    push_result(&mut out, "mkdir", &chars("b"), &Ok(()));
    assert!(out.is_empty());
    push_result(&mut out, "mkdir", &chars("b"), &Err(String::from("no space")));
    assert_eq!(plain(&out), "mkdir: b: no space\n");
}

#[test]
fn touch_leaves_what_is_there() {
    assert!(touch(false) && !touch(true));
}

#[test]
fn output_goes_to_a_file_without_colours() {
    let out = chars("\x1b[91mno\x1b[0m \u{e9}\n");
    assert_eq!(redirect_output(&out, false, Some(b"old".to_vec())), "no \u{e9}\n".as_bytes());
    assert_eq!(redirect_output(&out, true, Some(b"old ".to_vec())), "old no \u{e9}\n".as_bytes());
    assert_eq!(redirect_output(&out, true, None), "no \u{e9}\n".as_bytes());
    let once = redirect_output(&chars("a\nb\n"), true, None);
    let twice = redirect_output(&chars("b\n"), true, Some(redirect_output(&chars("a\n"), true, None)));
    assert_eq!(once, twice);
}
