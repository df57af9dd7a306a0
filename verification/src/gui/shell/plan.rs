//! What each built-in command has to do.

use super::help::{err_line, error, help, help_text, push_err};
use super::words::{flag_letters, flags, operands};
use crate::fs::path::{normalize_chars, normalized};
use crate::text::{
    copy, copy_range, dec, find_char, has_char, is_digit, is_str, join, join_with, lemma_dec_digits, lemma_parse_dec,
    parse_uint, parsed, push_all, push_str, to_chars, views,
};
use vstd::prelude::*;

verus! {

/// An argument and the path it stands for.
pub struct Named {
    pub arg: Vec<char>,
    pub path: Vec<char>,
}

pub struct NamedState {
    pub arg: Seq<char>,
    pub path: Seq<char>,
}

impl View for Named {
    type V = NamedState;

    open spec fn view(&self) -> NamedState {
        NamedState { arg: self.arg@, path: self.path@ }
    }
}

pub open spec fn nameds(v: Seq<Named>) -> Seq<NamedState> {
    Seq::new(v.len(), |i: int| v[i]@)
}

pub open spec fn named(cwd: Seq<char>, a: Seq<char>) -> NamedState {
    NamedState { arg: a, path: normalized(cwd, a) }
}

pub open spec fn all_named(cwd: Seq<char>, args: Seq<Seq<char>>) -> Seq<NamedState> {
    Seq::new(args.len(), |i: int| named(cwd, args[i]))
}

pub open spec fn all_paths(cwd: Seq<char>, args: Seq<Seq<char>>) -> Seq<Seq<char>> {
    Seq::new(args.len(), |i: int| normalized(cwd, args[i]))
}

/// What a command has to do.
pub enum Work {
    /// Only print this.
    Print(Vec<char>),
    ChangeDir(Vec<char>),
    List { long: bool, all: bool, paths: Vec<Vec<char>> },
    Cat(Vec<Named>),
    Touch(Vec<Named>),
    MakeDirs { parents: bool, dirs: Vec<Named> },
    Remove { recursive: bool, items: Vec<Named> },
    RemoveDirs(Vec<Named>),
    Move { from: Vec<char>, to: Vec<char> },
    Copy { recursive: bool, shown: Vec<char>, from: Vec<char>, to: Vec<char> },
    Tree(Vec<char>),
    Stat(Vec<Named>),
    Count(Vec<Named>),
    Hexdump(Vec<char>),
    DiskUsage,
    Memory,
    Threads,
    Kill(u64),
    Uptime,
    Date,
    Devices,
    KernelLog,
    Version,
    History,
    Clear,
    Explore(Vec<char>),
    Edit(Option<Vec<char>>),
    Open(Named),
    Interface,
    Dhcp,
    Ping(Vec<char>),
    Lookup(Vec<char>),
    Play(Named),
    Beep,
    SetVolume(u8),
    ShowVolume,
    Settings,
    SetResolution(u32, u32),
    ShowResolutions,
    Shutdown,
    Reboot,
    Exit,
}

pub enum WorkState {
    Print(Seq<char>),
    ChangeDir(Seq<char>),
    List { long: bool, all: bool, paths: Seq<Seq<char>> },
    Cat(Seq<NamedState>),
    Touch(Seq<NamedState>),
    MakeDirs { parents: bool, dirs: Seq<NamedState> },
    Remove { recursive: bool, items: Seq<NamedState> },
    RemoveDirs(Seq<NamedState>),
    Move { from: Seq<char>, to: Seq<char> },
    Copy { recursive: bool, shown: Seq<char>, from: Seq<char>, to: Seq<char> },
    Tree(Seq<char>),
    Stat(Seq<NamedState>),
    Count(Seq<NamedState>),
    Hexdump(Seq<char>),
    DiskUsage,
    Memory,
    Threads,
    Kill(u64),
    Uptime,
    Date,
    Devices,
    KernelLog,
    Version,
    History,
    Clear,
    Explore(Seq<char>),
    Edit(Option<Seq<char>>),
    Open(NamedState),
    Interface,
    Dhcp,
    Ping(Seq<char>),
    Lookup(Seq<char>),
    Play(NamedState),
    Beep,
    SetVolume(u8),
    ShowVolume,
    Settings,
    SetResolution(u32, u32),
    ShowResolutions,
    Shutdown,
    Reboot,
    Exit,
}

impl View for Work {
    type V = WorkState;

    open spec fn view(&self) -> WorkState {
        match *self {
            Work::Print(s) => WorkState::Print(s@),
            Work::ChangeDir(p) => WorkState::ChangeDir(p@),
            Work::List { long, all, paths } => WorkState::List { long, all, paths: views(paths@) },
            Work::Cat(v) => WorkState::Cat(nameds(v@)),
            Work::Touch(v) => WorkState::Touch(nameds(v@)),
            Work::MakeDirs { parents, dirs } => WorkState::MakeDirs { parents, dirs: nameds(dirs@) },
            Work::Remove { recursive, items } => WorkState::Remove { recursive, items: nameds(items@) },
            Work::RemoveDirs(v) => WorkState::RemoveDirs(nameds(v@)),
            Work::Move { from, to } => WorkState::Move { from: from@, to: to@ },
            Work::Copy { recursive, shown, from, to } => WorkState::Copy {
                recursive,
                shown: shown@,
                from: from@,
                to: to@,
            },
            Work::Tree(p) => WorkState::Tree(p@),
            Work::Stat(v) => WorkState::Stat(nameds(v@)),
            Work::Count(v) => WorkState::Count(nameds(v@)),
            Work::Hexdump(p) => WorkState::Hexdump(p@),
            Work::DiskUsage => WorkState::DiskUsage,
            Work::Memory => WorkState::Memory,
            Work::Threads => WorkState::Threads,
            Work::Kill(p) => WorkState::Kill(p),
            Work::Uptime => WorkState::Uptime,
            Work::Date => WorkState::Date,
            Work::Devices => WorkState::Devices,
            Work::KernelLog => WorkState::KernelLog,
            Work::Version => WorkState::Version,
            Work::History => WorkState::History,
            Work::Clear => WorkState::Clear,
            Work::Explore(p) => WorkState::Explore(p@),
            Work::Edit(p) => WorkState::Edit(
                match p {
                    Some(v) => Some(v@),
                    None => None,
                },
            ),
            Work::Open(n) => WorkState::Open(n@),
            Work::Interface => WorkState::Interface,
            Work::Dhcp => WorkState::Dhcp,
            Work::Ping(a) => WorkState::Ping(a@),
            Work::Lookup(a) => WorkState::Lookup(a@),
            Work::Play(n) => WorkState::Play(n@),
            Work::Beep => WorkState::Beep,
            Work::SetVolume(v) => WorkState::SetVolume(v),
            Work::ShowVolume => WorkState::ShowVolume,
            Work::Settings => WorkState::Settings,
            Work::SetResolution(w, h) => WorkState::SetResolution(w, h),
            Work::ShowResolutions => WorkState::ShowResolutions,
            Work::Shutdown => WorkState::Shutdown,
            Work::Reboot => WorkState::Reboot,
            Work::Exit => WorkState::Exit,
        }
    }
}

pub open spec fn work_of(w: Option<Work>) -> Option<WorkState> {
    match w {
        Some(x) => Some(x@),
        None => None,
    }
}

/// The path of the first argument, or of `default`.
pub open spec fn first_path(cwd: Seq<char>, args: Seq<Seq<char>>, default: Seq<char>) -> Seq<char> {
    normalized(cwd, if args.len() > 0 { args[0] } else { default })
}

pub open spec fn usage(s: Seq<char>) -> WorkState {
    WorkState::Print(err_line(s))
}

/// The first `c` cuts a text in two.
pub open spec fn cut_at(s: Seq<char>, c: char) -> Option<(Seq<char>, Seq<char>)>
    decreases s.len(),
{
    if s.len() == 0 {
        None
    } else if s[0] == c {
        Some((Seq::empty(), s.skip(1)))
    } else {
        match cut_at(s.skip(1), c) {
            Some((a, b)) => Some((seq![s[0]] + a, b)),
            None => None,
        }
    }
}

proof fn lemma_cut_at(s: Seq<char>, c: char, i: int)
    requires
        0 <= i < s.len(),
        s[i] == c,
        forall|k: int| 0 <= k < i ==> s[k] != c,
    ensures
        cut_at(s, c) == Some((s.take(i), s.skip(i + 1))),
    decreases s.len(),
{
    if i == 0 {
        assert(s.take(0) =~= Seq::empty());
    } else {
        assert forall|k: int| 0 <= k < i - 1 implies s.skip(1)[k] != c by {
            assert(s[k + 1] != c);
        }
        lemma_cut_at(s.skip(1), c, i - 1);
        assert(seq![s[0]] + s.skip(1).take(i - 1) =~= s.take(i));
        assert(s.skip(1).skip(i) =~= s.skip(i + 1));
    }
}

proof fn lemma_no_cut(s: Seq<char>, c: char)
    requires
        !s.contains(c),
    ensures
        cut_at(s, c) is None,
    decreases s.len(),
{
    if s.len() > 0 {
        assert(s.contains(s[0]));
        assert forall|k: int| 0 <= k < s.skip(1).len() implies s.skip(1)[k] != c by {
            assert(s.contains(s[k + 1]));
        }
        lemma_no_cut(s.skip(1), c);
    }
}

/// "1024x768"
pub open spec fn mode_of(s: Seq<char>) -> Option<(u32, u32)> {
    match cut_at(s, 'x') {
        Some((a, b)) => match (parsed(a, u32::MAX as int), parsed(b, u32::MAX as int)) {
            (Some(w), Some(h)) => Some((w as u32, h as u32)),
            _ => None,
        },
        None => None,
    }
}

/// The commands for files.
pub open spec fn file_work(cmd: Seq<char>, args: Seq<Seq<char>>, cwd: Seq<char>) -> Option<WorkState> {
    let f = flag_letters(args);
    let rest = operands(args);
    if cmd == "pwd"@ {
        Some(WorkState::Print(cwd + "\n"@))
    } else if cmd == "cd"@ {
        Some(WorkState::ChangeDir(first_path(cwd, args, "/"@)))
    } else if cmd == "ls"@ || cmd == "dir"@ {
        let paths = if rest.len() == 0 { seq!["."@] } else { rest };
        Some(WorkState::List { long: f.contains('l'), all: f.contains('a'), paths: all_paths(cwd, paths) })
    } else if cmd == "cat"@ {
        Some(if args.len() == 0 { usage("usage: cat <file>..."@) } else { WorkState::Cat(all_named(cwd, args)) })
    } else if cmd == "echo"@ {
        Some(WorkState::Print(join(args, ' ') + "\n"@))
    } else if cmd == "touch"@ {
        Some(WorkState::Touch(all_named(cwd, args)))
    } else if cmd == "mkdir"@ {
        Some(
            if rest.len() == 0 {
                usage("usage: mkdir [-p] <dir>"@)
            } else {
                WorkState::MakeDirs { parents: f.contains('p'), dirs: all_named(cwd, rest) }
            },
        )
    } else if cmd == "rm"@ {
        Some(
            if rest.len() == 0 {
                usage("usage: rm [-r] <path>"@)
            } else {
                WorkState::Remove { recursive: f.contains('r'), items: all_named(cwd, rest) }
            },
        )
    } else if cmd == "rmdir"@ {
        Some(WorkState::RemoveDirs(all_named(cwd, args)))
    } else if cmd == "mv"@ || cmd == "cp"@ {
        Some(
            if rest.len() != 2 {
                usage("usage: "@ + cmd + " <from> <to>"@)
            } else if cmd == "mv"@ {
                WorkState::Move { from: normalized(cwd, rest[0]), to: normalized(cwd, rest[1]) }
            } else {
                WorkState::Copy {
                    recursive: f.contains('r'),
                    shown: rest[0],
                    from: normalized(cwd, rest[0]),
                    to: normalized(cwd, rest[1]),
                }
            },
        )
    } else if cmd == "tree"@ {
        Some(WorkState::Tree(first_path(cwd, args, "."@)))
    } else if cmd == "stat"@ {
        Some(WorkState::Stat(all_named(cwd, args)))
    } else if cmd == "wc"@ {
        Some(WorkState::Count(all_named(cwd, args)))
    } else if cmd == "hexdump"@ || cmd == "xxd"@ {
        Some(
            if args.len() == 0 {
                usage("usage: hexdump <file>"@)
            } else {
                WorkState::Hexdump(normalized(cwd, args[0]))
            },
        )
    } else if cmd == "df"@ {
        Some(WorkState::DiskUsage)
    } else {
        None
    }
}

/// The commands for the system.
pub open spec fn system_work(cmd: Seq<char>, args: Seq<Seq<char>>) -> Option<WorkState> {
    if cmd == "help"@ {
        Some(WorkState::Print(help_text()))
    } else if cmd == "free"@ || cmd == "mem"@ {
        Some(WorkState::Memory)
    } else if cmd == "ps"@ {
        Some(WorkState::Threads)
    } else if cmd == "kill"@ {
        Some(
            match if args.len() > 0 { parsed(args[0], u64::MAX as int) } else { None } {
                Some(pid) => WorkState::Kill(pid as u64),
                None => usage("usage: kill <pid>"@),
            },
        )
    } else if cmd == "uptime"@ {
        Some(WorkState::Uptime)
    } else if cmd == "date"@ {
        Some(WorkState::Date)
    } else if cmd == "lspci"@ {
        Some(WorkState::Devices)
    } else if cmd == "dmesg"@ {
        Some(WorkState::KernelLog)
    } else if cmd == "uname"@ {
        Some(WorkState::Version)
    } else if cmd == "history"@ {
        Some(WorkState::History)
    } else if cmd == "clear"@ || cmd == "cls"@ {
        Some(WorkState::Clear)
    } else if cmd == "shutdown"@ || cmd == "poweroff"@ {
        Some(WorkState::Shutdown)
    } else if cmd == "reboot"@ || cmd == "restart"@ {
        Some(WorkState::Reboot)
    } else if cmd == "exit"@ {
        Some(WorkState::Exit)
    } else {
        None
    }
}

/// The commands for windows, network, sound and screen.
pub open spec fn device_work(cmd: Seq<char>, args: Seq<Seq<char>>, cwd: Seq<char>) -> Option<WorkState> {
    if cmd == "explorer"@ || cmd == "files"@ {
        Some(WorkState::Explore(first_path(cwd, args, "."@)))
    } else if cmd == "edit"@ || cmd == "notepad"@ {
        Some(WorkState::Edit(if args.len() > 0 { Some(normalized(cwd, args[0])) } else { None }))
    } else if cmd == "open"@ {
        Some(if args.len() > 0 { WorkState::Open(named(cwd, args[0])) } else { usage("usage: open <path>"@) })
    } else if cmd == "ifconfig"@ || cmd == "ip"@ {
        Some(WorkState::Interface)
    } else if cmd == "dhcp"@ {
        Some(WorkState::Dhcp)
    } else if cmd == "ping"@ {
        Some(
            if args.len() > 0 {
                WorkState::Ping(join(args, ' '))
            } else {
                usage("usage: ping <host> [count]  (or ping -c <count> <host>)"@)
            },
        )
    } else if cmd == "nslookup"@ || cmd == "host"@ {
        Some(if args.len() > 0 { WorkState::Lookup(args[0]) } else { usage("usage: nslookup <name>"@) })
    } else if cmd == "play"@ {
        Some(if args.len() > 0 { WorkState::Play(named(cwd, args[0])) } else { usage("usage: play <file.wav>"@) })
    } else if cmd == "beep"@ {
        Some(WorkState::Beep)
    } else if cmd == "volume"@ {
        Some(
            match if args.len() > 0 { parsed(args[0], u8::MAX as int) } else { None } {
                Some(v) => WorkState::SetVolume((if v > 100 { 100int } else { v }) as u8),
                None => WorkState::ShowVolume,
            },
        )
    } else if cmd == "settings"@ {
        Some(WorkState::Settings)
    } else if cmd == "resolution"@ || cmd == "res"@ {
        Some(
            match if args.len() > 0 { mode_of(args[0]) } else { None } {
                Some((w, h)) => WorkState::SetResolution(w, h),
                None => WorkState::ShowResolutions,
            },
        )
    } else {
        None
    }
}

/// What a command has to do; nothing for one that is not built in.
pub open spec fn planned(cmd: Seq<char>, args: Seq<Seq<char>>, cwd: Seq<char>) -> Option<WorkState> {
    match file_work(cmd, args, cwd) {
        Some(w) => Some(w),
        None => match system_work(cmd, args) {
            Some(w) => Some(w),
            None => device_work(cmd, args, cwd),
        },
    }
}

/// How the names of the commands for files begin.
proof fn lemma_file_commands()
    ensures
        "pwd"@.len() == 3 && "pwd"@[0] == 'p' && "pwd"@[1] == 'w' && "pwd"@[2] == 'd',
        "cd"@.len() == 2 && "cd"@[0] == 'c' && "cd"@[1] == 'd',
        "ls"@.len() == 2 && "ls"@[0] == 'l' && "ls"@[1] == 's',
        "dir"@.len() == 3 && "dir"@[0] == 'd' && "dir"@[1] == 'i' && "dir"@[2] == 'r',
        "cat"@.len() == 3 && "cat"@[0] == 'c' && "cat"@[1] == 'a' && "cat"@[2] == 't',
        "echo"@.len() == 4 && "echo"@[0] == 'e' && "echo"@[1] == 'c' && "echo"@[2] == 'h',
        "touch"@.len() == 5 && "touch"@[0] == 't' && "touch"@[1] == 'o' && "touch"@[2] == 'u',
        "mkdir"@.len() == 5 && "mkdir"@[0] == 'm' && "mkdir"@[1] == 'k' && "mkdir"@[2] == 'd',
        "rm"@.len() == 2 && "rm"@[0] == 'r' && "rm"@[1] == 'm',
        "rmdir"@.len() == 5 && "rmdir"@[0] == 'r' && "rmdir"@[1] == 'm' && "rmdir"@[2] == 'd',
        "mv"@.len() == 2 && "mv"@[0] == 'm' && "mv"@[1] == 'v',
        "cp"@.len() == 2 && "cp"@[0] == 'c' && "cp"@[1] == 'p',
        "tree"@.len() == 4 && "tree"@[0] == 't' && "tree"@[1] == 'r' && "tree"@[2] == 'e',
        "stat"@.len() == 4 && "stat"@[0] == 's' && "stat"@[1] == 't' && "stat"@[2] == 'a',
        "wc"@.len() == 2 && "wc"@[0] == 'w' && "wc"@[1] == 'c',
        "hexdump"@.len() == 7 && "hexdump"@[0] == 'h' && "hexdump"@[1] == 'e' && "hexdump"@[2] == 'x',
        "xxd"@.len() == 3 && "xxd"@[0] == 'x' && "xxd"@[1] == 'x' && "xxd"@[2] == 'd',
        "df"@.len() == 2 && "df"@[0] == 'd' && "df"@[1] == 'f',
{
    reveal_strlit("pwd");
    reveal_strlit("cd");
    reveal_strlit("ls");
    reveal_strlit("dir");
    reveal_strlit("cat");
    reveal_strlit("echo");
    reveal_strlit("touch");
    reveal_strlit("mkdir");
    reveal_strlit("rm");
    reveal_strlit("rmdir");
    reveal_strlit("mv");
    reveal_strlit("cp");
    reveal_strlit("tree");
    reveal_strlit("stat");
    reveal_strlit("wc");
    reveal_strlit("hexdump");
    reveal_strlit("xxd");
    reveal_strlit("df");
}

/// How the names of the commands for the system begin.
proof fn lemma_system_commands()
    ensures
        "help"@.len() == 4 && "help"@[0] == 'h' && "help"@[1] == 'e' && "help"@[2] == 'l',
        "free"@.len() == 4 && "free"@[0] == 'f' && "free"@[1] == 'r' && "free"@[2] == 'e',
        "mem"@.len() == 3 && "mem"@[0] == 'm' && "mem"@[1] == 'e' && "mem"@[2] == 'm',
        "ps"@.len() == 2 && "ps"@[0] == 'p' && "ps"@[1] == 's',
        "kill"@.len() == 4 && "kill"@[0] == 'k' && "kill"@[1] == 'i' && "kill"@[2] == 'l',
        "uptime"@.len() == 6 && "uptime"@[0] == 'u' && "uptime"@[1] == 'p' && "uptime"@[2] == 't',
        "date"@.len() == 4 && "date"@[0] == 'd' && "date"@[1] == 'a' && "date"@[2] == 't',
        "lspci"@.len() == 5 && "lspci"@[0] == 'l' && "lspci"@[1] == 's' && "lspci"@[2] == 'p',
        "dmesg"@.len() == 5 && "dmesg"@[0] == 'd' && "dmesg"@[1] == 'm' && "dmesg"@[2] == 'e',
        "uname"@.len() == 5 && "uname"@[0] == 'u' && "uname"@[1] == 'n' && "uname"@[2] == 'a',
        "history"@.len() == 7 && "history"@[0] == 'h' && "history"@[1] == 'i' && "history"@[2] == 's',
        "clear"@.len() == 5 && "clear"@[0] == 'c' && "clear"@[1] == 'l' && "clear"@[2] == 'e',
        "cls"@.len() == 3 && "cls"@[0] == 'c' && "cls"@[1] == 'l' && "cls"@[2] == 's',
        "shutdown"@.len() == 8 && "shutdown"@[0] == 's' && "shutdown"@[1] == 'h' && "shutdown"@[2] == 'u',
        "poweroff"@.len() == 8 && "poweroff"@[0] == 'p' && "poweroff"@[1] == 'o' && "poweroff"@[2] == 'w',
        "reboot"@.len() == 6 && "reboot"@[0] == 'r' && "reboot"@[1] == 'e' && "reboot"@[2] == 'b',
        "restart"@.len() == 7 && "restart"@[0] == 'r' && "restart"@[1] == 'e' && "restart"@[2] == 's',
        "exit"@.len() == 4 && "exit"@[0] == 'e' && "exit"@[1] == 'x' && "exit"@[2] == 'i',
{
    reveal_strlit("help");
    reveal_strlit("free");
    reveal_strlit("mem");
    reveal_strlit("ps");
    reveal_strlit("kill");
    reveal_strlit("uptime");
    reveal_strlit("date");
    reveal_strlit("lspci");
    reveal_strlit("dmesg");
    reveal_strlit("uname");
    reveal_strlit("history");
    reveal_strlit("clear");
    reveal_strlit("cls");
    reveal_strlit("shutdown");
    reveal_strlit("poweroff");
    reveal_strlit("reboot");
    reveal_strlit("restart");
    reveal_strlit("exit");
}

/// How the names of the other commands begin.
proof fn lemma_device_commands()
    ensures
        "explorer"@.len() == 8 && "explorer"@[0] == 'e' && "explorer"@[1] == 'x' && "explorer"@[2] == 'p',
        "files"@.len() == 5 && "files"@[0] == 'f' && "files"@[1] == 'i' && "files"@[2] == 'l',
        "edit"@.len() == 4 && "edit"@[0] == 'e' && "edit"@[1] == 'd' && "edit"@[2] == 'i',
        "notepad"@.len() == 7 && "notepad"@[0] == 'n' && "notepad"@[1] == 'o' && "notepad"@[2] == 't',
        "open"@.len() == 4 && "open"@[0] == 'o' && "open"@[1] == 'p' && "open"@[2] == 'e',
        "ifconfig"@.len() == 8 && "ifconfig"@[0] == 'i' && "ifconfig"@[1] == 'f' && "ifconfig"@[2] == 'c',
        "ip"@.len() == 2 && "ip"@[0] == 'i' && "ip"@[1] == 'p',
        "dhcp"@.len() == 4 && "dhcp"@[0] == 'd' && "dhcp"@[1] == 'h' && "dhcp"@[2] == 'c',
        "ping"@.len() == 4 && "ping"@[0] == 'p' && "ping"@[1] == 'i' && "ping"@[2] == 'n',
        "nslookup"@.len() == 8 && "nslookup"@[0] == 'n' && "nslookup"@[1] == 's' && "nslookup"@[2] == 'l',
        "host"@.len() == 4 && "host"@[0] == 'h' && "host"@[1] == 'o' && "host"@[2] == 's',
        "play"@.len() == 4 && "play"@[0] == 'p' && "play"@[1] == 'l' && "play"@[2] == 'a',
        "beep"@.len() == 4 && "beep"@[0] == 'b' && "beep"@[1] == 'e' && "beep"@[2] == 'e',
        "volume"@.len() == 6 && "volume"@[0] == 'v' && "volume"@[1] == 'o' && "volume"@[2] == 'l',
        "settings"@.len() == 8 && "settings"@[0] == 's' && "settings"@[1] == 'e' && "settings"@[2] == 't',
        "resolution"@.len() == 10 && "resolution"@[0] == 'r' && "resolution"@[1] == 'e' && "resolution"@[2] == 's',
        "res"@.len() == 3 && "res"@[0] == 'r' && "res"@[1] == 'e' && "res"@[2] == 's',
{
    reveal_strlit("explorer");
    reveal_strlit("files");
    reveal_strlit("edit");
    reveal_strlit("notepad");
    reveal_strlit("open");
    reveal_strlit("ifconfig");
    reveal_strlit("ip");
    reveal_strlit("dhcp");
    reveal_strlit("ping");
    reveal_strlit("nslookup");
    reveal_strlit("host");
    reveal_strlit("play");
    reveal_strlit("beep");
    reveal_strlit("volume");
    reveal_strlit("settings");
    reveal_strlit("resolution");
    reveal_strlit("res");
}

/// `mv` and `cp` take what the first operand names to what the second one
/// names, whatever flags stand among them: both from the same path to the
/// same path. With another number of operands they only say how they are
/// used.
pub proof fn lemma_moves_first_to_second(args: Seq<Seq<char>>, cwd: Seq<char>)
    ensures
        operands(args).len() == 2 ==> {
            let a = operands(args)[0];
            let b = operands(args)[1];
            &&& planned("mv"@, args, cwd) matches Some(WorkState::Move { from, to }) && from == normalized(cwd, a) && to
                == normalized(cwd, b)
            &&& planned("cp"@, args, cwd) matches Some(WorkState::Copy { recursive, shown, from, to }) && shown == a
                && from == normalized(cwd, a) && to == normalized(cwd, b) && recursive == flag_letters(args).contains('r')
        },
        operands(args).len() != 2 ==> (planned("mv"@, args, cwd) matches Some(WorkState::Print(_))) && (planned(
            "cp"@,
            args,
            cwd,
        ) matches Some(WorkState::Print(_))),
{
    lemma_file_commands();
}

/// A command and what it names: every argument by itself, in order, each
/// with the path that it stands for.
pub open spec fn names_each(items: Seq<NamedState>, args: Seq<Seq<char>>, cwd: Seq<char>) -> bool {
    &&& items.len() == args.len()
    &&& forall|i: int|
        0 <= i < args.len() ==> (#[trigger] items[i]).arg == args[i] && items[i].path == normalized(cwd, args[i])
}

/// Commands that take any number of paths do their work on each of them in
/// order, and on nothing else; flags are no paths where the command has any.
pub proof fn lemma_works_on_each(args: Seq<Seq<char>>, cwd: Seq<char>)
    ensures
        args.len() > 0 ==> (planned("cat"@, args, cwd) matches Some(WorkState::Cat(v)) && names_each(v, args, cwd)),
        planned("touch"@, args, cwd) matches Some(WorkState::Touch(v)) && names_each(v, args, cwd),
        planned("rmdir"@, args, cwd) matches Some(WorkState::RemoveDirs(v)) && names_each(v, args, cwd),
        planned("stat"@, args, cwd) matches Some(WorkState::Stat(v)) && names_each(v, args, cwd),
        planned("wc"@, args, cwd) matches Some(WorkState::Count(v)) && names_each(v, args, cwd),
        operands(args).len() > 0 ==> (planned("mkdir"@, args, cwd) matches Some(
            WorkState::MakeDirs { parents, dirs },
        ) && parents == flag_letters(args).contains('p') && names_each(dirs, operands(args), cwd)),
        operands(args).len() > 0 ==> (planned("rm"@, args, cwd) matches Some(WorkState::Remove { recursive, items })
            && recursive == flag_letters(args).contains('r') && names_each(items, operands(args), cwd)),
        planned("ls"@, args, cwd) matches Some(WorkState::List { long, all, paths }) && long == flag_letters(
            args,
        ).contains('l') && all == flag_letters(args).contains('a') && (operands(args).len() > 0 ==> paths.len()
            == operands(args).len() && forall|i: int|
            0 <= i < paths.len() ==> #[trigger] paths[i] == normalized(cwd, operands(args)[i])) && (operands(args).len()
            == 0 ==> paths == seq![normalized(cwd, "."@)]),
        planned("dir"@, args, cwd) == planned("ls"@, args, cwd),
{
    lemma_file_commands();
    assert(all_paths(cwd, seq!["."@]) =~= seq![normalized(cwd, "."@)]);
}

/// `cd` goes to the path that its argument names, and without one to the
/// root; `pwd` says where that is, and `echo` says what it is told.
pub proof fn lemma_goes_and_says(args: Seq<Seq<char>>, cwd: Seq<char>)
    ensures
        args.len() > 0 ==> planned("cd"@, args, cwd) == Some(WorkState::ChangeDir(normalized(cwd, args[0]))),
        args.len() == 0 ==> planned("cd"@, args, cwd) == Some(WorkState::ChangeDir(normalized(cwd, "/"@))),
        planned("pwd"@, args, cwd) == Some(WorkState::Print(cwd + "\n"@)),
        planned("echo"@, args, cwd) == Some(WorkState::Print(join(args, ' ') + "\n"@)),
{
    lemma_file_commands();
}

/// Commands that take a number or a size as it is printed: the process to
/// stop, the volume, which is full at 100, and the resolution.
pub proof fn lemma_reads_numbers(pid: u64, volume: u8, w: u32, h: u32, cwd: Seq<char>)
    ensures
        planned("kill"@, seq![dec(pid as nat)], cwd) == Some(WorkState::Kill(pid)),
        volume <= 100 ==> planned("volume"@, seq![dec(volume as nat)], cwd) == Some(WorkState::SetVolume(volume)),
        volume >= 100 ==> planned("volume"@, seq![dec(volume as nat)], cwd) == Some(WorkState::SetVolume(100)),
        planned("resolution"@, seq![dec(w as nat) + seq!['x'] + dec(h as nat)], cwd) == Some(
            WorkState::SetResolution(w, h),
        ),
        planned("res"@, seq![dec(w as nat) + seq!['x'] + dec(h as nat)], cwd) == Some(WorkState::SetResolution(w, h)),
{
    lemma_file_commands();
    lemma_system_commands();
    lemma_device_commands();
    lemma_parse_dec(pid as nat, u64::MAX as int);
    lemma_parse_dec(volume as nat, u8::MAX as int);
    lemma_parse_dec(w as nat, u32::MAX as int);
    lemma_parse_dec(h as nat, u32::MAX as int);
    lemma_dec_digits(w as nat);
    let s = dec(w as nat) + seq!['x'] + dec(h as nat);
    let n = dec(w as nat).len() as int;
    assert forall|k: int| 0 <= k < n implies s[k] != 'x' by {
        assert(is_digit(dec(w as nat)[k]));
    }
    lemma_cut_at(s, 'x', n);
    assert(s.take(n) =~= dec(w as nat));
    assert(s.skip(n + 1) =~= dec(h as nat));
}

/// What is opened, edited, played, shown or dumped is what the first
/// argument names.
pub proof fn lemma_opens_what_is_named(args: Seq<Seq<char>>, cwd: Seq<char>)
    requires
        args.len() > 0,
    ensures
        ({
            let path = normalized(cwd, args[0]);
            &&& planned("open"@, args, cwd) matches Some(WorkState::Open(n)) && n.arg == args[0] && n.path == path
            &&& planned("play"@, args, cwd) matches Some(WorkState::Play(n)) && n.arg == args[0] && n.path == path
            &&& planned("edit"@, args, cwd) == Some(WorkState::Edit(Some(path)))
            &&& planned("notepad"@, args, cwd) == Some(WorkState::Edit(Some(path)))
            &&& planned("explorer"@, args, cwd) == Some(WorkState::Explore(path))
            &&& planned("files"@, args, cwd) == Some(WorkState::Explore(path))
            &&& planned("tree"@, args, cwd) == Some(WorkState::Tree(path))
            &&& planned("hexdump"@, args, cwd) == Some(WorkState::Hexdump(path))
            &&& planned("xxd"@, args, cwd) == Some(WorkState::Hexdump(path))
            &&& planned("nslookup"@, args, cwd) == Some(WorkState::Lookup(args[0]))
            &&& planned("host"@, args, cwd) == Some(WorkState::Lookup(args[0]))
        }),
{
    lemma_file_commands();
    lemma_system_commands();
    lemma_device_commands();
}

/// What a command without arguments does is not changed by any.
pub proof fn lemma_arguments_ignored(args: Seq<Seq<char>>, cwd: Seq<char>)
    ensures
        planned("df"@, args, cwd) == Some(WorkState::DiskUsage),
        planned("free"@, args, cwd) == Some(WorkState::Memory),
        planned("mem"@, args, cwd) == Some(WorkState::Memory),
        planned("ps"@, args, cwd) == Some(WorkState::Threads),
        planned("uptime"@, args, cwd) == Some(WorkState::Uptime),
        planned("date"@, args, cwd) == Some(WorkState::Date),
        planned("lspci"@, args, cwd) == Some(WorkState::Devices),
        planned("dmesg"@, args, cwd) == Some(WorkState::KernelLog),
        planned("uname"@, args, cwd) == Some(WorkState::Version),
        planned("history"@, args, cwd) == Some(WorkState::History),
        planned("clear"@, args, cwd) == Some(WorkState::Clear),
        planned("cls"@, args, cwd) == Some(WorkState::Clear),
        planned("shutdown"@, args, cwd) == Some(WorkState::Shutdown),
        planned("poweroff"@, args, cwd) == Some(WorkState::Shutdown),
        planned("reboot"@, args, cwd) == Some(WorkState::Reboot),
        planned("restart"@, args, cwd) == Some(WorkState::Reboot),
        planned("exit"@, args, cwd) == Some(WorkState::Exit),
        planned("ifconfig"@, args, cwd) == Some(WorkState::Interface),
        planned("ip"@, args, cwd) == Some(WorkState::Interface),
        planned("dhcp"@, args, cwd) == Some(WorkState::Dhcp),
        planned("beep"@, args, cwd) == Some(WorkState::Beep),
        planned("settings"@, args, cwd) == Some(WorkState::Settings),
{
    lemma_file_commands();
    lemma_system_commands();
    lemma_device_commands();
}

// ---------------------------------------------------------------------
// Functions
// ---------------------------------------------------------------------

fn name_one(cwd: &[char], a: &[char]) -> (r: Named)
    ensures
        r@ == named(cwd@, a@),
{
    Named { arg: copy(a), path: normalize_chars(cwd, a) }
}

fn name_all(cwd: &[char], args: &[Vec<char>]) -> (r: Vec<Named>)
    ensures
        nameds(r@) == all_named(cwd@, views(args@)),
{
    let mut out: Vec<Named> = Vec::new();
    let ghost want = all_named(cwd@, views(args@));
    let mut i: usize = 0;
    proof {
        assert(nameds(out@) =~= want.take(0));
    }
    while i < args.len()
        invariant
            i <= args@.len(),
            want == all_named(cwd@, views(args@)),
            nameds(out@) == want.take(i as int),
        decreases args@.len() - i,
    {
        let ghost o0 = nameds(out@);
        let n: Named = name_one(cwd, &args[i]);
        let ghost n0 = n@;
        out.push(n);
        i += 1;
        proof {
            assert(nameds(out@) =~= o0.push(n0));
            assert(want.take(i as int) =~= o0.push(want[i - 1]));
        }
    }
    proof {
        assert(want.take(want.len() as int) =~= want);
    }
    out
}

fn path_all(cwd: &[char], args: &[Vec<char>]) -> (r: Vec<Vec<char>>)
    ensures
        views(r@) == all_paths(cwd@, views(args@)),
{
    let mut out: Vec<Vec<char>> = Vec::new();
    let ghost want = all_paths(cwd@, views(args@));
    let mut i: usize = 0;
    proof {
        assert(views(out@) =~= want.take(0));
    }
    while i < args.len()
        invariant
            i <= args@.len(),
            want == all_paths(cwd@, views(args@)),
            views(out@) == want.take(i as int),
        decreases args@.len() - i,
    {
        let ghost o0 = views(out@);
        out.push(normalize_chars(cwd, &args[i]));
        i += 1;
        proof {
            assert(views(out@) =~= o0.push(want[i - 1]));
            assert(want.take(i as int) =~= o0.push(want[i - 1]));
        }
    }
    proof {
        assert(want.take(want.len() as int) =~= want);
    }
    out
}

fn path_first(cwd: &[char], args: &[Vec<char>], default: &str) -> (r: Vec<char>)
    ensures
        r@ == first_path(cwd@, views(args@), default@),
{
    if args.len() > 0 { normalize_chars(cwd, &args[0]) } else { normalize_chars(cwd, &to_chars(default)) }
}

fn parse_mode(s: &[char]) -> (r: Option<(u32, u32)>)
    ensures
        r == mode_of(s@),
{
    let n: usize = s.len();
    match find_char(s, 'x') {
        Some(i) => {
            proof {
                lemma_cut_at(s@, 'x', i as int);
            }
            let a: Vec<char> = copy_range(s, 0, i);
            let b: Vec<char> = copy_range(s, i + 1, n);
            proof {
                assert(a@ =~= s@.take(i as int));
                assert(b@ =~= s@.skip(i + 1));
            }
            match (parse_uint(&a, 0xffff_ffff), parse_uint(&b, 0xffff_ffff)) {
                (Some(w), Some(h)) => Some((w as u32, h as u32)),
                _ => None,
            }
        },
        None => {
            proof {
                lemma_no_cut(s@, 'x');
            }
            None
        },
    }
}

fn plan_files(cmd: &[char], args: &[Vec<char>], cwd: &[char]) -> (r: Option<Work>)
    ensures
        work_of(r) == file_work(cmd@, views(args@), cwd@),
{
    let (f, rest) = flags(args);
    let w: Work = if is_str(cmd, "pwd") {
        let mut out: Vec<char> = copy(cwd);
        push_str(&mut out, "\n");
        Work::Print(out)
    } else if is_str(cmd, "cd") {
        Work::ChangeDir(path_first(cwd, args, "/"))
    } else if is_str(cmd, "ls") || is_str(cmd, "dir") {
        let long: bool = has_char(&f, 'l');
        let all: bool = has_char(&f, 'a');
        if rest.len() == 0 {
            let mut here: Vec<Vec<char>> = Vec::new();
            here.push(to_chars("."));
            proof {
                assert(views(here@) =~= seq!["."@]);
            }
            Work::List { long, all, paths: path_all(cwd, &here) }
        } else {
            Work::List { long, all, paths: path_all(cwd, &rest) }
        }
    } else if is_str(cmd, "cat") {
        if args.len() == 0 { Work::Print(error("usage: cat <file>...")) } else { Work::Cat(name_all(cwd, args)) }
    } else if is_str(cmd, "echo") {
        let mut out: Vec<char> = join_with(args, ' ');
        push_str(&mut out, "\n");
        Work::Print(out)
    } else if is_str(cmd, "touch") {
        Work::Touch(name_all(cwd, args))
    } else if is_str(cmd, "mkdir") {
        if rest.len() == 0 {
            Work::Print(error("usage: mkdir [-p] <dir>"))
        } else {
            Work::MakeDirs { parents: has_char(&f, 'p'), dirs: name_all(cwd, &rest) }
        }
    } else if is_str(cmd, "rm") {
        if rest.len() == 0 {
            Work::Print(error("usage: rm [-r] <path>"))
        } else {
            Work::Remove { recursive: has_char(&f, 'r'), items: name_all(cwd, &rest) }
        }
    } else if is_str(cmd, "rmdir") {
        Work::RemoveDirs(name_all(cwd, args))
    } else if is_str(cmd, "mv") || is_str(cmd, "cp") {
        if rest.len() != 2 {
            let mut m: Vec<char> = to_chars("usage: ");
            push_all(&mut m, cmd);
            push_str(&mut m, " <from> <to>");
            let mut out: Vec<char> = Vec::new();
            push_err(&mut out, &m);
            proof {
                assert(out@ =~= err_line("usage: "@ + cmd@ + " <from> <to>"@));
            }
            Work::Print(out)
        } else {
            proof {
                assert(views(rest@)[0] == rest@[0]@);
                assert(views(rest@)[1] == rest@[1]@);
            }
            let from: Vec<char> = normalize_chars(cwd, &rest[0]);
            let to: Vec<char> = normalize_chars(cwd, &rest[1]);
            if is_str(cmd, "mv") {
                Work::Move { from, to }
            } else {
                Work::Copy { recursive: has_char(&f, 'r'), shown: copy(&rest[0]), from, to }
            }
        }
    } else if is_str(cmd, "tree") {
        Work::Tree(path_first(cwd, args, "."))
    } else if is_str(cmd, "stat") {
        Work::Stat(name_all(cwd, args))
    } else if is_str(cmd, "wc") {
        Work::Count(name_all(cwd, args))
    } else if is_str(cmd, "hexdump") || is_str(cmd, "xxd") {
        if args.len() == 0 {
            Work::Print(error("usage: hexdump <file>"))
        } else {
            Work::Hexdump(normalize_chars(cwd, &args[0]))
        }
    } else if is_str(cmd, "df") {
        Work::DiskUsage
    } else {
        return None;
    };
    Some(w)
}

fn plan_system(cmd: &[char], args: &[Vec<char>]) -> (r: Option<Work>)
    ensures
        work_of(r) == system_work(cmd@, views(args@)),
{
    let w: Work = if is_str(cmd, "help") {
        Work::Print(help())
    } else if is_str(cmd, "free") || is_str(cmd, "mem") {
        Work::Memory
    } else if is_str(cmd, "ps") {
        Work::Threads
    } else if is_str(cmd, "kill") {
        let pid: Option<u64> = if args.len() > 0 { parse_uint(&args[0], u64::MAX) } else { None };
        match pid {
            Some(p) => Work::Kill(p),
            None => Work::Print(error("usage: kill <pid>")),
        }
    } else if is_str(cmd, "uptime") {
        Work::Uptime
    } else if is_str(cmd, "date") {
        Work::Date
    } else if is_str(cmd, "lspci") {
        Work::Devices
    } else if is_str(cmd, "dmesg") {
        Work::KernelLog
    } else if is_str(cmd, "uname") {
        Work::Version
    } else if is_str(cmd, "history") {
        Work::History
    } else if is_str(cmd, "clear") || is_str(cmd, "cls") {
        Work::Clear
    } else if is_str(cmd, "shutdown") || is_str(cmd, "poweroff") {
        Work::Shutdown
    } else if is_str(cmd, "reboot") || is_str(cmd, "restart") {
        Work::Reboot
    } else if is_str(cmd, "exit") {
        Work::Exit
    } else {
        return None;
    };
    Some(w)
}

fn plan_devices(cmd: &[char], args: &[Vec<char>], cwd: &[char]) -> (r: Option<Work>)
    ensures
        work_of(r) == device_work(cmd@, views(args@), cwd@),
{
    let n: usize = args.len();
    proof {
        if n > 0 {
            assert(views(args@)[0] == args@[0]@);
        }
    }
    let w: Work = if is_str(cmd, "explorer") || is_str(cmd, "files") {
        Work::Explore(path_first(cwd, args, "."))
    } else if is_str(cmd, "edit") || is_str(cmd, "notepad") {
        Work::Edit(if n > 0 { Some(normalize_chars(cwd, &args[0])) } else { None })
    } else if is_str(cmd, "open") {
        if n > 0 { Work::Open(name_one(cwd, &args[0])) } else { Work::Print(error("usage: open <path>")) }
    } else if is_str(cmd, "ifconfig") || is_str(cmd, "ip") {
        Work::Interface
    } else if is_str(cmd, "dhcp") {
        Work::Dhcp
    } else if is_str(cmd, "ping") {
        if n > 0 {
            Work::Ping(join_with(args, ' '))
        } else {
            Work::Print(error("usage: ping <host> [count]  (or ping -c <count> <host>)"))
        }
    } else if is_str(cmd, "nslookup") || is_str(cmd, "host") {
        if n > 0 { Work::Lookup(copy(&args[0])) } else { Work::Print(error("usage: nslookup <name>")) }
    } else if is_str(cmd, "play") {
        if n > 0 { Work::Play(name_one(cwd, &args[0])) } else { Work::Print(error("usage: play <file.wav>")) }
    } else if is_str(cmd, "beep") {
        Work::Beep
    } else if is_str(cmd, "volume") {
        let v: Option<u64> = if n > 0 { parse_uint(&args[0], 255) } else { None };
        match v {
            Some(v) => Work::SetVolume(if v > 100 { 100 } else { v as u8 }),
            None => Work::ShowVolume,
        }
    } else if is_str(cmd, "settings") {
        Work::Settings
    } else if is_str(cmd, "resolution") || is_str(cmd, "res") {
        let m: Option<(u32, u32)> = if n > 0 { parse_mode(&args[0]) } else { None };
        match m {
            Some((w, h)) => Work::SetResolution(w, h),
            None => Work::ShowResolutions,
        }
    } else {
        return None;
    };
    Some(w)
}

/// What a built-in command has to do; `None` if there is no such command.
pub fn builtin(cmd: &[char], args: &[Vec<char>], cwd: &[char]) -> (r: Option<Work>)
    ensures
        work_of(r) == planned(cmd@, views(args@), cwd@),
{
    match plan_files(cmd, args, cwd) {
        Some(w) => return Some(w),
        None => {},
    }
    match plan_system(cmd, args) {
        Some(w) => return Some(w),
        None => {},
    }
    plan_devices(cmd, args, cwd)
}

} // verus!
