//! The colours of the shell's output, and its list of commands.

use crate::text::{pad_right, push_all, push_left_aligned, push_str, to_chars};
use vstd::prelude::*;

verus! {

pub open spec fn c_dir() -> Seq<char> {
    "\x1b[94m"@
}

pub open spec fn c_exe() -> Seq<char> {
    "\x1b[92m"@
}

pub open spec fn c_dim() -> Seq<char> {
    "\x1b[90m"@
}

pub open spec fn c_err() -> Seq<char> {
    "\x1b[91m"@
}

pub open spec fn c_head() -> Seq<char> {
    "\x1b[96m"@
}

pub open spec fn c_off() -> Seq<char> {
    "\x1b[0m"@
}

/// A message in the colour of errors, on a line of its own.
pub open spec fn err_line(msg: Seq<char>) -> Seq<char> {
    c_err() + msg + c_off() + "\n"@
}

pub fn push_err(out: &mut Vec<char>, msg: &[char])
    ensures
        final(out)@ == old(out)@ + err_line(msg@),
{
    push_str(out, "\x1b[91m");
    push_all(out, msg);
    push_str(out, "\x1b[0m");
    push_str(out, "\n");
    proof {
        assert(out@ =~= old(out)@ + err_line(msg@));
    }
}

pub fn error(msg: &str) -> (r: Vec<char>)
    ensures
        r@ == err_line(msg@),
{
    let mut out: Vec<char> = Vec::new();
    push_err(&mut out, &to_chars(msg));
    proof {
        assert(out@ =~= err_line(msg@));
    }
    out
}

/// A heading on a line of its own.
pub open spec fn head_line(msg: Seq<char>) -> Seq<char> {
    c_head() + msg + c_off() + "\n"@
}

pub fn push_head(out: &mut Vec<char>, msg: &str)
    ensures
        final(out)@ == old(out)@ + head_line(msg@),
{
    push_str(out, "\x1b[96m");
    push_str(out, msg);
    push_str(out, "\x1b[0m");
    push_str(out, "\n");
    proof {
        assert(out@ =~= old(out)@ + head_line(msg@));
    }
}

/// One line of the list: a command and what it does.
pub open spec fn row(c: Seq<char>, d: Seq<char>) -> Seq<char> {
    "  "@ + pad_right(c, 22, ' ') + c_dim() + d + c_off() + "\n"@
}

fn push_row(out: &mut Vec<char>, c: &str, d: &str)
    ensures
        final(out)@ == old(out)@ + row(c@, d@),
{
    push_str(out, "  ");
    push_left_aligned(out, &to_chars(c), 22, ' ');
    push_str(out, "\x1b[90m");
    push_str(out, d);
    push_str(out, "\x1b[0m");
    push_str(out, "\n");
    proof {
        assert(out@ =~= old(out)@ + row(c@, d@));
    }
}

// The list is long; it is put together from parts.

pub open spec fn files_part() -> Seq<char> {
    row("help"@, "show this list"@) + row("ls [-l] [-a] [path]"@, "list a directory"@) + row("cd [path]"@, "change directory"@) + row("pwd"@, "print the current directory"@) + row("cat <file>..."@, "print files"@) + row("echo <text>"@, "print text (supports > and >> redirection)"@) + row("touch <file>"@, "create an empty file"@) + row("mkdir [-p] <dir>"@, "create a directory"@) + row("rm [-r] <path>"@, "remove a file (or a directory with -r)"@) + row("rmdir <dir>"@, "remove an empty directory"@)
}

pub open spec fn contents_part() -> Seq<char> {
    row("mv <from> <to>"@, "move or rename"@) + row("cp [-r] <from> <to>"@, "copy files or directories"@) + row("tree [path]"@, "show a directory tree"@) + row("stat <path>"@, "show file details"@) + row("wc <file>"@, "count lines, words and bytes"@) + row("hexdump <file>"@, "show file bytes in hex"@) + row("df"@, "disk usage"@) + row("free"@, "memory usage"@) + row("ps"@, "list threads and processes"@) + row("kill <pid>"@, "stop a process"@)
}

pub open spec fn system_part() -> Seq<char> {
    row("uptime / date"@, "time since boot / current date"@) + row("lspci"@, "list PCI devices"@) + row("ifconfig"@, "network adapter and address"@) + row("ping <host> [count]"@, "send ICMP echo requests"@) + row("nslookup <name>"@, "resolve a host name with DNS"@) + row("dhcp"@, "request a new IP address"@) + row("play <file.wav>"@, "play a WAV file"@) + row("beep / volume [0-100]"@, "test sound / get or set the volume"@) + row("settings"@, "open the Settings app"@) + row("resolution [WxH]"@, "list or change the screen resolution"@)
}

pub open spec fn programs_part() -> Seq<char> {
    row("dmesg"@, "kernel log"@) + row("uname"@, "system name"@) + row("history"@, "previous commands"@) + row("clear"@, "clear the screen"@) + row("explorer [path]"@, "open the file explorer"@) + row("edit <file>"@, "open the text editor"@) + row("open <path>"@, "open with the default app"@) + row("<program> [args]"@, "run a program from /bin (or a path)"@) + row("shutdown / reboot"@, "power off or restart"@) + row("exit"@, "close this terminal"@)
}

/// The list of commands.
pub open spec fn help_text() -> Seq<char> {
    head_line("Built-in commands:"@) + files_part() + contents_part() + system_part() + programs_part() + "\n"@
        + "Programs in /bin can be run by name. Tab completes file names.\n"@
}

fn push_files(out: &mut Vec<char>)
    ensures
        final(out)@ == old(out)@ + files_part(),
{
    let mut o: Vec<char> = Vec::new();
    push_row(&mut o, "help", "show this list");
    push_row(&mut o, "ls [-l] [-a] [path]", "list a directory");
    push_row(&mut o, "cd [path]", "change directory");
    push_row(&mut o, "pwd", "print the current directory");
    push_row(&mut o, "cat <file>...", "print files");
    push_row(&mut o, "echo <text>", "print text (supports > and >> redirection)");
    push_row(&mut o, "touch <file>", "create an empty file");
    push_row(&mut o, "mkdir [-p] <dir>", "create a directory");
    push_row(&mut o, "rm [-r] <path>", "remove a file (or a directory with -r)");
    push_row(&mut o, "rmdir <dir>", "remove an empty directory");
    proof {
        assert(o@ =~= files_part());
    }
    push_all(out, &o);
}

fn push_contents(out: &mut Vec<char>)
    ensures
        final(out)@ == old(out)@ + contents_part(),
{
    let mut o: Vec<char> = Vec::new();
    push_row(&mut o, "mv <from> <to>", "move or rename");
    push_row(&mut o, "cp [-r] <from> <to>", "copy files or directories");
    push_row(&mut o, "tree [path]", "show a directory tree");
    push_row(&mut o, "stat <path>", "show file details");
    push_row(&mut o, "wc <file>", "count lines, words and bytes");
    push_row(&mut o, "hexdump <file>", "show file bytes in hex");
    push_row(&mut o, "df", "disk usage");
    push_row(&mut o, "free", "memory usage");
    push_row(&mut o, "ps", "list threads and processes");
    push_row(&mut o, "kill <pid>", "stop a process");
    proof {
        assert(o@ =~= contents_part());
    }
    push_all(out, &o);
}

fn push_system(out: &mut Vec<char>)
    ensures
        final(out)@ == old(out)@ + system_part(),
{
    let mut o: Vec<char> = Vec::new();
    push_row(&mut o, "uptime / date", "time since boot / current date");
    push_row(&mut o, "lspci", "list PCI devices");
    push_row(&mut o, "ifconfig", "network adapter and address");
    push_row(&mut o, "ping <host> [count]", "send ICMP echo requests");
    push_row(&mut o, "nslookup <name>", "resolve a host name with DNS");
    push_row(&mut o, "dhcp", "request a new IP address");
    push_row(&mut o, "play <file.wav>", "play a WAV file");
    push_row(&mut o, "beep / volume [0-100]", "test sound / get or set the volume");
    push_row(&mut o, "settings", "open the Settings app");
    push_row(&mut o, "resolution [WxH]", "list or change the screen resolution");
    proof {
        assert(o@ =~= system_part());
    }
    push_all(out, &o);
}

fn push_programs(out: &mut Vec<char>)
    ensures
        final(out)@ == old(out)@ + programs_part(),
{
    let mut o: Vec<char> = Vec::new();
    push_row(&mut o, "dmesg", "kernel log");
    push_row(&mut o, "uname", "system name");
    push_row(&mut o, "history", "previous commands");
    push_row(&mut o, "clear", "clear the screen");
    push_row(&mut o, "explorer [path]", "open the file explorer");
    push_row(&mut o, "edit <file>", "open the text editor");
    push_row(&mut o, "open <path>", "open with the default app");
    push_row(&mut o, "<program> [args]", "run a program from /bin (or a path)");
    push_row(&mut o, "shutdown / reboot", "power off or restart");
    push_row(&mut o, "exit", "close this terminal");
    proof {
        assert(o@ =~= programs_part());
    }
    push_all(out, &o);
}

pub fn help() -> (r: Vec<char>)
    ensures
        r@ == help_text(),
{
    let mut out: Vec<char> = Vec::new();
    push_head(&mut out, "Built-in commands:");
    push_files(&mut out);
    push_contents(&mut out);
    push_system(&mut out);
    push_programs(&mut out);
    push_str(&mut out, "\n");
    push_str(&mut out, "Programs in /bin can be run by name. Tab completes file names.\n");
    proof {
        assert(out@ =~= help_text());
    }
    out
}

} // verus!
