//! What the commands print.

use super::decide::{failure, push_failure};
use super::help::{c_dim, c_dir, c_exe, c_head, c_off, err_line, head_line, push_err, push_head};
use crate::arch::rtc::DateTime;
use crate::arith::min;
use crate::fs::entry::{DirEntry, EntryState};
use crate::fs::info::FsStats;
use crate::fs::path::{format_time, size_chars, size_text, time_text};
use crate::text::{
    dec, has_char, hex, is_str, is_white, is_white_char, join, pad_left, pad_right, push_all, push_dec, push_dec_zeros,
    push_hex_zeros, push_left_aligned, push_padded, push_str, read_text, text_of_bytes, texts, to_chars, trim_end,
    trimmed_end,
};
use vstd::prelude::*;

verus! {

// ---------------------------------------------------------------------
// ls
// ---------------------------------------------------------------------

/// A path to list, and what is known of it.
pub struct Listed {
    pub path: Vec<char>,
    pub found: Result<DirEntry, String>,
    pub listing: Result<Vec<DirEntry>, String>,
}

/// A line of `ls -l`.
pub open spec fn long_line(e: EntryState) -> Seq<char> {
    let size = if e.is_dir { "-"@ } else { size_text(e.size as int) };
    (if e.is_dir { "d"@ } else { "-"@ }) + " "@ + pad_left(size, 9, ' ') + "  "@ + time_text(e.modified) + "  "@ + (
    if e.is_dir { c_dir() } else { c_off() }) + e.name + (if e.is_dir { "/"@ } else { ""@ }) + c_off() + "\n"@
}

/// A name in a short listing.
pub open spec fn short_item(e: EntryState, in_bin: bool) -> Seq<char> {
    let color = if e.is_dir { c_dir() } else if in_bin { c_exe() } else { c_off() };
    let name = if e.name.contains(' ') { "'"@ + e.name + "'"@ } else { e.name };
    color + name + c_off() + "  "@
}

/// The entries that are shown, one after the other.
pub open spec fn listing_text(l: Seq<DirEntry>, long: bool, all: bool, in_bin: bool) -> Seq<char>
    decreases l.len(),
{
    if l.len() == 0 {
        Seq::empty()
    } else {
        let rest = listing_text(l.drop_last(), long, all, in_bin);
        let e = l.last()@;
        if e.hidden && !all {
            rest
        } else {
            rest + if long { long_line(e) } else { short_item(e, in_bin) }
        }
    }
}

pub open spec fn folder_text(path: Seq<char>, l: Seq<DirEntry>, long: bool, all: bool) -> Seq<char> {
    let t = listing_text(l, long, all, path == "/bin"@);
    if long || t.len() == 0 { t } else { trim_end(t) + "\n"@ }
}

/// What `ls` prints of path number `i` out of `n`.
pub open spec fn listed_text(x: Listed, i: int, n: int, long: bool, all: bool) -> Seq<char> {
    match x.found {
        Err(e) => failure("ls"@, x.path@, e@),
        Ok(e) => if !e.is_dir {
            e.name@ + "\n"@
        } else {
            (if n > 1 { c_head() + x.path@ + ":"@ + c_off() + "\n"@ } else { Seq::empty() }) + match x.listing {
                Ok(l) => folder_text(x.path@, l@, long, all),
                Err(e) => failure("ls"@, x.path@, e@),
            } + if i + 1 < n { "\n"@ } else { Seq::empty() }
        },
    }
}

pub open spec fn ls_text(v: Seq<Listed>, k: int, long: bool, all: bool) -> Seq<char>
    decreases k,
{
    if k <= 0 {
        Seq::empty()
    } else {
        ls_text(v, k - 1, long, all) + listed_text(v[k - 1], k - 1, v.len() as int, long, all)
    }
}

fn push_long(out: &mut Vec<char>, e: &DirEntry)
    ensures
        final(out)@ == old(out)@ + long_line(e@),
{
    push_str(out, if e.is_dir { "d" } else { "-" });
    push_str(out, " ");
    let size: Vec<char> = if e.is_dir { to_chars("-") } else { size_chars(e.size as u64) };
    push_padded(out, &size, 9, ' ');
    push_str(out, "  ");
    push_str(out, format_time(&e.modified).as_str());
    push_str(out, "  ");
    push_str(out, if e.is_dir { "\x1b[94m" } else { "\x1b[0m" });
    push_str(out, e.name.as_str());
    push_str(out, if e.is_dir { "/" } else { "" });
    push_str(out, "\x1b[0m");
    push_str(out, "\n");
    proof {
        assert(out@ =~= old(out)@ + long_line(e@));
    }
}

fn push_short(out: &mut Vec<char>, e: &DirEntry, in_bin: bool)
    ensures
        final(out)@ == old(out)@ + short_item(e@, in_bin),
{
    push_str(out, if e.is_dir { "\x1b[94m" } else if in_bin { "\x1b[92m" } else { "\x1b[0m" });
    let name: Vec<char> = to_chars(e.name.as_str());
    if has_char(&name, ' ') {
        push_str(out, "'");
        push_all(out, &name);
        push_str(out, "'");
    } else {
        push_all(out, &name);
    }
    push_str(out, "\x1b[0m");
    push_str(out, "  ");
    proof {
        assert(out@ =~= old(out)@ + short_item(e@, in_bin));
    }
}

fn push_folder(out: &mut Vec<char>, path: &[char], l: &[DirEntry], long: bool, all: bool)
    ensures
        final(out)@ == old(out)@ + folder_text(path@, l@, long, all),
{
    let in_bin: bool = is_str(path, "/bin");
    let mut t: Vec<char> = Vec::new();
    let mut i: usize = 0;
    while i < l.len()
        invariant
            i <= l@.len(),
            t@ == listing_text(l@.take(i as int), long, all, in_bin),
        decreases l@.len() - i,
    {
        proof {
            assert(l@.take(i + 1).drop_last() =~= l@.take(i as int));
        }
        if all || !l[i].is_hidden() {
            if long {
                push_long(&mut t, &l[i]);
            } else {
                push_short(&mut t, &l[i], in_bin);
            }
        }
        i += 1;
    }
    proof {
        assert(l@.take(l@.len() as int) =~= l@);
    }
    if long || t.len() == 0 {
        push_all(out, &t);
    } else {
        push_all(out, &trimmed_end(&t));
        push_str(out, "\n");
    }
    proof {
        assert(out@ =~= old(out)@ + folder_text(path@, l@, long, all));
    }
}

fn push_listed(out: &mut Vec<char>, x: &Listed, i: usize, n: usize, long: bool, all: bool)
    requires
        i < n,
    ensures
        final(out)@ == old(out)@ + listed_text(*x, i as int, n as int, long, all),
{
    match &x.found {
        Err(e) => push_failure(out, "ls", &x.path, e.as_str()),
        Ok(e) => {
            if !e.is_dir {
                push_str(out, e.name.as_str());
                push_str(out, "\n");
                proof {
                    assert(out@ =~= old(out)@ + (e.name@ + "\n"@));
                }
                return;
            }
            if n > 1 {
                push_str(out, "\x1b[96m");
                push_all(out, &x.path);
                push_str(out, ":");
                push_str(out, "\x1b[0m");
                push_str(out, "\n");
            }
            match &x.listing {
                Ok(l) => push_folder(out, &x.path, l, long, all),
                Err(e) => push_failure(out, "ls", &x.path, e.as_str()),
            }
            if i + 1 < n {
                push_str(out, "\n");
            }
            proof {
                assert(out@ =~= old(out)@ + listed_text(*x, i as int, n as int, long, all));
            }
        },
    }
}

pub fn ls(v: &[Listed], long: bool, all: bool) -> (r: Vec<char>)
    ensures
        r@ == ls_text(v@, v@.len() as int, long, all),
{
    let mut out: Vec<char> = Vec::new();
    let n: usize = v.len();
    let mut i: usize = 0;
    while i < n
        invariant
            i <= n == v@.len(),
            out@ == ls_text(v@, i as int, long, all),
        decreases n - i,
    {
        push_listed(&mut out, &v[i], i, n, long, all);
        i += 1;
    }
    out
}

// ---------------------------------------------------------------------
// cat, stat, wc
// ---------------------------------------------------------------------

pub fn cat(arg: &[char], data: &Result<Vec<u8>, String>, out: &mut Vec<char>)
    ensures
        final(out)@ == old(out)@ + match *data {
            Ok(d) => read_text(d@),
            Err(e) => failure("cat"@, arg@, e@),
        },
{
    match data {
        Ok(d) => push_str(out, text_of_bytes(d).as_str()),
        Err(e) => push_failure(out, "cat", arg, e.as_str()),
    }
}

pub open spec fn stat_text(path: Seq<char>, e: EntryState) -> Seq<char> {
    "  File: "@ + path + "\n  Type: "@ + (if e.is_dir { "directory"@ } else { "file"@ }) + "\n  Size: "@ + dec(
        e.size as nat,
    ) + " bytes\nCluster: "@ + dec(e.first_cluster as nat) + "\nCreated: "@ + time_text(e.created) + "\nModified: "@
        + time_text(e.modified) + "\n"@
}

pub fn stat(arg: &[char], path: &[char], found: &Result<DirEntry, String>, out: &mut Vec<char>)
    ensures
        final(out)@ == old(out)@ + match *found {
            Ok(e) => stat_text(path@, e@),
            Err(e) => failure("stat"@, arg@, e@),
        },
{
    match found {
        Ok(e) => {
            push_str(out, "  File: ");
            push_all(out, path);
            push_str(out, "\n  Type: ");
            push_str(out, if e.is_dir { "directory" } else { "file" });
            push_str(out, "\n  Size: ");
            push_dec(out, e.size as u64);
            push_str(out, " bytes\nCluster: ");
            push_dec(out, e.first_cluster as u64);
            push_str(out, "\nCreated: ");
            push_str(out, format_time(&e.created).as_str());
            push_str(out, "\nModified: ");
            push_str(out, format_time(&e.modified).as_str());
            push_str(out, "\n");
            proof {
                assert(out@ =~= old(out)@ + stat_text(path@, e@));
            }
        },
        Err(e) => push_failure(out, "stat", arg, e.as_str()),
    }
}

/// How many times `c` occurs.
pub open spec fn occurrences(s: Seq<char>, c: char) -> int
    decreases s.len(),
{
    if s.len() == 0 { 0 } else { occurrences(s.drop_last(), c) + if s.last() == c { 1int } else { 0 } }
}

/// The number of lines; the last one need not end.
pub open spec fn line_count(s: Seq<char>) -> int {
    occurrences(s, '\n') + if s.len() > 0 && s.last() != '\n' { 1int } else { 0 }
}

/// The number of runs of characters that are not white space.
pub open spec fn word_count(s: Seq<char>) -> int
    decreases s.len(),
{
    if s.len() == 0 {
        0
    } else {
        let starts = !is_white(s.last()) && (s.len() == 1 || is_white(s[s.len() - 2]));
        word_count(s.drop_last()) + if starts { 1int } else { 0 }
    }
}

pub open spec fn count_text(arg: Seq<char>, data: Seq<u8>) -> Seq<char> {
    let s = read_text(data);
    pad_left(dec(line_count(s) as nat), 7, ' ') + " "@ + pad_left(dec(word_count(s) as nat), 7, ' ') + " "@ + pad_left(
        dec(data.len()),
        7,
        ' ',
    ) + " "@ + arg + "\n"@
}

fn counts(s: &[char]) -> (r: (usize, usize))
    ensures
        r.0 == line_count(s@),
        r.1 == word_count(s@),
{
    let n: usize = s.len();
    let mut lines: usize = 0;
    let mut words: usize = 0;
    let mut i: usize = 0;
    while i < n
        invariant
            i <= n == s@.len(),
            lines == occurrences(s@.take(i as int), '\n'),
            words == word_count(s@.take(i as int)),
            lines <= i,
            words <= i,
        decreases n - i,
    {
        proof {
            assert(s@.take(i + 1).drop_last() =~= s@.take(i as int));
        }
        if s[i] == '\n' {
            lines += 1;
        }
        if !is_white_char(s[i]) && (i == 0 || is_white_char(s[i - 1])) {
            words += 1;
        }
        i += 1;
    }
    proof {
        assert(s@.take(n as int) =~= s@);
        if n > 0 && s@.last() != '\n' {
            lemma_occurrences_bound(s@.drop_last(), '\n');
        }
    }
    if n > 0 && s[n - 1] != '\n' {
        lines += 1;
    }
    (lines, words)
}

proof fn lemma_occurrences_bound(s: Seq<char>, c: char)
    ensures
        0 <= occurrences(s, c) <= s.len(),
    decreases s.len(),
{
    if s.len() > 0 {
        lemma_occurrences_bound(s.drop_last(), c);
    }
}

fn push_right(out: &mut Vec<char>, n: u64, width: usize)
    ensures
        final(out)@ == old(out)@ + pad_left(dec(n as nat), width as nat, ' '),
{
    let mut d: Vec<char> = Vec::new();
    push_dec(&mut d, n);
    proof {
        assert(d@ =~= dec(n as nat));
    }
    push_padded(out, &d, width, ' ');
}

pub fn wc(arg: &[char], data: &Result<Vec<u8>, String>, out: &mut Vec<char>)
    ensures
        final(out)@ == old(out)@ + match *data {
            Ok(d) => count_text(arg@, d@),
            Err(e) => failure("wc"@, arg@, e@),
        },
{
    match data {
        Ok(d) => {
            let (lines, words) = counts(&to_chars(text_of_bytes(d).as_str()));
            push_right(out, lines as u64, 7);
            push_str(out, " ");
            push_right(out, words as u64, 7);
            push_str(out, " ");
            push_right(out, d.len() as u64, 7);
            push_str(out, " ");
            push_all(out, arg);
            push_str(out, "\n");
            proof {
                assert(out@ =~= old(out)@ + count_text(arg@, d@));
            }
        },
        Err(e) => push_failure(out, "wc", arg, e.as_str()),
    }
}

// ---------------------------------------------------------------------
// hexdump
// ---------------------------------------------------------------------

/// The bytes of a row in hexadecimal, filled up to sixteen.
pub open spec fn hex_cells(row: Seq<u8>, k: int) -> Seq<char>
    decreases k,
{
    if k <= 0 {
        Seq::empty()
    } else {
        hex_cells(row, k - 1) + if k - 1 < row.len() {
            pad_left(hex(row[k - 1] as nat), 2, '0') + " "@
        } else {
            "   "@
        }
    }
}

pub open spec fn shown_byte(b: u8) -> char {
    if 0x20 <= b < 0x7f { b as char } else { '.' }
}

pub open spec fn dump_row(row: Seq<u8>, i: int) -> Seq<char> {
    c_dim() + pad_left(hex((i * 16) as nat), 8, '0') + c_off() + "  "@ + hex_cells(row, 16) + " "@ + Seq::new(
        row.len(),
        |k: int| shown_byte(row[k]),
    ) + "\n"@
}

/// The first `n` rows.
pub open spec fn dump_rows(d: Seq<u8>, n: int) -> Seq<char>
    decreases n,
{
    if n <= 0 {
        Seq::empty()
    } else {
        dump_rows(d, n - 1) + dump_row(d.subrange((n - 1) * 16, min(n * 16, d.len() as int)), n - 1)
    }
}

/// How many rows are shown of `len` bytes.
pub open spec fn rows_shown(len: int) -> int {
    min((len + 15) / 16, 256)
}

pub open spec fn dump_text(d: Seq<u8>) -> Seq<char> {
    dump_rows(d, rows_shown(d.len() as int)) + if d.len() > 4096 {
        c_dim() + "... ("@ + dec(d.len()) + " bytes total)"@ + c_off() + "\n"@
    } else {
        Seq::empty()
    }
}

fn push_dump_row(out: &mut Vec<char>, row: &[u8], i: usize)
    requires
        row@.len() <= 16,
        i < 256,
    ensures
        final(out)@ == old(out)@ + dump_row(row@, i as int),
{
    push_str(out, "\x1b[90m");
    push_hex_zeros(out, i as u64 * 16, 8);
    push_str(out, "\x1b[0m");
    push_str(out, "  ");
    let mut cells: Vec<char> = Vec::new();
    let mut k: usize = 0;
    while k < 16
        invariant
            k <= 16,
            cells@ == hex_cells(row@, k as int),
        decreases 16 - k,
    {
        let ghost c0 = cells@;
        if k < row.len() {
            push_hex_zeros(&mut cells, row[k] as u64, 2);
            push_str(&mut cells, " ");
        } else {
            push_str(&mut cells, "   ");
        }
        k += 1;
        proof {
            assert(cells@ =~= hex_cells(row@, k as int));
        }
    }
    push_all(out, &cells);
    push_str(out, " ");
    let mut shown: Vec<char> = Vec::new();
    let mut k: usize = 0;
    while k < row.len()
        invariant
            k <= row@.len(),
            shown@ == Seq::new(k as nat, |k: int| shown_byte(row@[k])),
        decreases row@.len() - k,
    {
        let b: u8 = row[k];
        shown.push(if 0x20 <= b && b < 0x7f { b as char } else { '.' });
        k += 1;
        proof {
            assert(shown@ =~= Seq::new(k as nat, |k: int| shown_byte(row@[k])));
        }
    }
    push_all(out, &shown);
    push_str(out, "\n");
    proof {
        assert(out@ =~= old(out)@ + dump_row(row@, i as int));
    }
}

pub fn hexdump(d: &[u8]) -> (r: Vec<char>)
    ensures
        r@ == dump_text(d@),
{
    let mut out: Vec<char> = Vec::new();
    let len: usize = d.len();
    let all: usize = len / 16 + if len % 16 > 0 { 1 } else { 0 };
    let n: usize = if all < 256 { all } else { 256 };
    proof {
        assert(n == rows_shown(len as int));
    }
    let mut i: usize = 0;
    while i < n
        invariant
            i <= n <= 256,
            len == d@.len(),
            n == rows_shown(len as int),
            out@ == dump_rows(d@, i as int),
        decreases n - i,
    {
        let from: usize = i * 16;
        let to: usize = if len - from < 16 { len } else { from + 16 };
        let row: &[u8] = vstd::slice::slice_subrange(d, from, to);
        push_dump_row(&mut out, row, i);
        i += 1;
    }
    if len > 4096 {
        push_str(&mut out, "\x1b[90m");
        push_str(&mut out, "... (");
        push_dec(&mut out, len as u64);
        push_str(&mut out, " bytes total)");
        push_str(&mut out, "\x1b[0m");
        push_str(&mut out, "\n");
    }
    proof {
        assert(out@ =~= dump_text(d@));
    }
    out
}

// ---------------------------------------------------------------------
// System
// ---------------------------------------------------------------------

pub open spec fn used_percent(s: FsStats) -> int {
    if s.total_bytes > 0 { (s.total_bytes - s.free_bytes) * 100 / (s.total_bytes as int) } else { 0 }
}

pub open spec fn df_text(s: FsStats, backend: Seq<char>) -> Seq<char> {
    let used = s.total_bytes - s.free_bytes;
    head_line("Filesystem   Size      Used      Free      Use%  Mounted on"@) + "disk         "@ + pad_right(
        size_text(s.total_bytes as int),
        9,
        ' ',
    ) + " "@ + pad_right(size_text(used), 9, ' ') + " "@ + pad_right(size_text(s.free_bytes as int), 9, ' ') + " "@
        + pad_left(dec(used_percent(s) as nat), 3, ' ') + "%  /  (FAT32, "@ + dec(s.cluster_size as nat)
        + " B clusters, "@ + backend + ")\n"@
}

pub fn df(s: &FsStats, backend: &str) -> (r: Vec<char>)
    requires
        s.free_bytes <= s.total_bytes,
    ensures
        r@ == df_text(*s, backend@),
{
    let used: u64 = s.total_bytes - s.free_bytes;
    let pct: u64 = if s.total_bytes > 0 { (used as u128 * 100 / s.total_bytes as u128) as u64 } else { 0 };
    proof {
        if s.total_bytes > 0 {
            let t = s.total_bytes as int;
            assert(used * 100 / t <= 100) by (nonlinear_arith)
                requires
                    0 <= used <= t,
                    t > 0,
            ;
        }
        assert(pct == used_percent(*s));
    }
    let mut out: Vec<char> = Vec::new();
    push_head(&mut out, "Filesystem   Size      Used      Free      Use%  Mounted on");
    push_str(&mut out, "disk         ");
    push_left_aligned(&mut out, &size_chars(s.total_bytes), 9, ' ');
    push_str(&mut out, " ");
    push_left_aligned(&mut out, &size_chars(used), 9, ' ');
    push_str(&mut out, " ");
    push_left_aligned(&mut out, &size_chars(s.free_bytes), 9, ' ');
    push_str(&mut out, " ");
    push_right(&mut out, pct, 3);
    push_str(&mut out, "%  /  (FAT32, ");
    push_dec(&mut out, s.cluster_size as u64);
    push_str(&mut out, " B clusters, ");
    push_str(&mut out, backend);
    push_str(&mut out, ")\n");
    proof {
        assert(out@ =~= df_text(*s, backend@));
    }
    out
}

pub open spec fn memory_row(name: Seq<char>, total: int, used: int, free: int) -> Seq<char> {
    name + pad_left(dec(total as nat), 8, ' ') + " KB "@ + pad_left(dec(used as nat), 8, ' ') + " KB "@ + pad_left(
        dec(free as nat),
        8,
        ' ',
    ) + " KB\n"@
}

fn push_memory_row(out: &mut Vec<char>, name: &str, total: u64, used: u64, free: u64)
    ensures
        final(out)@ == old(out)@ + memory_row(name@, total as int, used as int, free as int),
{
    push_str(out, name);
    push_right(out, total, 8);
    push_str(out, " KB ");
    push_right(out, used, 8);
    push_str(out, " KB ");
    push_right(out, free, 8);
    push_str(out, " KB\n");
    proof {
        assert(out@ =~= old(out)@ + memory_row(name@, total as int, used as int, free as int));
    }
}

/// Memory in pages of four kilobytes, and the heap in bytes.
pub fn free(pages_free: u64, pages: u64, heap_used: u64, heap: u64) -> (r: Vec<char>)
    requires
        pages_free <= pages,
        pages * 4 <= u64::MAX,
        heap_used <= heap,
    ensures
        r@ == head_line("            total       used       free"@) + memory_row(
            "Physical  "@,
            pages * 4,
            (pages - pages_free) * 4,
            pages_free * 4,
        ) + memory_row("Heap      "@, heap as int / 1024, heap_used as int / 1024, (heap - heap_used) / 1024),
{
    let mut out: Vec<char> = Vec::new();
    push_head(&mut out, "            total       used       free");
    push_memory_row(&mut out, "Physical  ", pages * 4, (pages - pages_free) * 4, pages_free * 4);
    push_memory_row(&mut out, "Heap      ", heap / 1024, heap_used / 1024, (heap - heap_used) / 1024);
    proof {
        assert(out@ =~= head_line("            total       used       free"@) + memory_row(
            "Physical  "@,
            pages * 4,
            (pages - pages_free) * 4,
            pages_free * 4,
        ) + memory_row("Heap      "@, heap as int / 1024, heap_used as int / 1024, (heap - heap_used) / 1024));
    }
    out
}

#[derive(Clone, Copy, Debug, PartialEq, Eq, Structural)]
pub enum ThreadStatus {
    Ready,
    Running,
    Sleeping,
    Dead,
}

pub struct ThreadInfo {
    pub id: u64,
    pub pid: Option<u64>,
    pub state: ThreadStatus,
    pub cpu_ms: u64,
    pub name: String,
}

pub open spec fn status_text(s: ThreadStatus) -> Seq<char> {
    match s {
        ThreadStatus::Ready => "ready"@,
        ThreadStatus::Running => "running"@,
        ThreadStatus::Sleeping => "sleeping"@,
        ThreadStatus::Dead => "dead"@,
    }
}

pub open spec fn thread_line(t: ThreadInfo) -> Seq<char> {
    let pid = match t.pid {
        Some(p) => dec(p as nat),
        None => "-"@,
    };
    pad_left(dec(t.id as nat), 5, ' ') + " "@ + pad_left(pid, 5, ' ') + "  "@ + pad_right(status_text(t.state), 9, ' ')
        + " "@ + pad_left(dec(t.cpu_ms as nat), 8, ' ') + "  "@ + t.name@ + "\n"@
}

pub open spec fn thread_lines(v: Seq<ThreadInfo>) -> Seq<char>
    decreases v.len(),
{
    if v.len() == 0 { Seq::empty() } else { thread_lines(v.drop_last()) + thread_line(v.last()) }
}

fn push_thread(out: &mut Vec<char>, t: &ThreadInfo)
    ensures
        final(out)@ == old(out)@ + thread_line(*t),
{
    let mut line: Vec<char> = Vec::new();
    push_right(&mut line, t.id, 5);
    proof {
        assert(line@ =~= pad_left(dec(t.id as nat), 5, ' '));
    }
    push_str(&mut line, " ");
    let mut pid: Vec<char> = Vec::new();
    match t.pid {
        Some(p) => push_dec(&mut pid, p),
        None => push_str(&mut pid, "-"),
    }
    proof {
        assert(pid@ =~= match t.pid {
            Some(p) => dec(p as nat),
            None => "-"@,
        });
    }
    push_padded(&mut line, &pid, 5, ' ');
    push_str(&mut line, "  ");
    let state: &str = match t.state {
        ThreadStatus::Ready => "ready",
        ThreadStatus::Running => "running",
        ThreadStatus::Sleeping => "sleeping",
        ThreadStatus::Dead => "dead",
    };
    push_left_aligned(&mut line, &to_chars(state), 9, ' ');
    push_str(&mut line, " ");
    push_right(&mut line, t.cpu_ms, 8);
    push_str(&mut line, "  ");
    push_str(&mut line, t.name.as_str());
    push_str(&mut line, "\n");
    push_all(out, &line);
}

pub fn ps(v: &[ThreadInfo]) -> (r: Vec<char>)
    ensures
        r@ == head_line("  TID   PID  STATE      CPU(ms)  NAME"@) + thread_lines(v@),
{
    let mut out: Vec<char> = Vec::new();
    push_head(&mut out, "  TID   PID  STATE      CPU(ms)  NAME");
    let ghost h = head_line("  TID   PID  STATE      CPU(ms)  NAME"@);
    let mut i: usize = 0;
    proof {
        assert(out@ =~= h + thread_lines(v@.take(0)));
    }
    while i < v.len()
        invariant
            i <= v@.len(),
            out@ == h + thread_lines(v@.take(i as int)),
        decreases v@.len() - i,
    {
        proof {
            assert(v@.take(i + 1).drop_last() =~= v@.take(i as int));
        }
        let ghost o0 = out@;
        push_thread(&mut out, &v[i]);
        i += 1;
        proof {
            assert(out@ =~= h + thread_lines(v@.take(i as int)));
        }
    }
    proof {
        assert(v@.take(v@.len() as int) =~= v@);
    }
    out
}

/// There is no process to stop.
pub fn kill_unknown(pid: u64) -> (r: Vec<char>)
    ensures
        r@ == err_line("kill: no process "@ + dec(pid as nat)),
{
    let mut m: Vec<char> = to_chars("kill: no process ");
    push_dec(&mut m, pid);
    let mut out: Vec<char> = Vec::new();
    push_err(&mut out, &m);
    proof {
        assert(out@ =~= err_line("kill: no process "@ + dec(pid as nat)));
    }
    out
}

pub open spec fn two(n: int) -> Seq<char> {
    pad_left(dec(n as nat), 2, '0')
}

pub fn uptime(ms: u64) -> (r: Vec<char>)
    ensures
        ({
            let s = ms as int / 1000;
            r@ == "up "@ + dec((s / 3600) as nat) + "h "@ + two((s / 60) % 60) + "m "@ + two(s % 60) + "s\n"@
        }),
{
    let s: u64 = ms / 1000;
    let mut out: Vec<char> = to_chars("up ");
    push_dec(&mut out, s / 3600);
    push_str(&mut out, "h ");
    push_dec_zeros(&mut out, (s / 60) % 60, 2);
    push_str(&mut out, "m ");
    push_dec_zeros(&mut out, s % 60, 2);
    push_str(&mut out, "s\n");
    out
}

pub open spec fn date_text(t: DateTime) -> Seq<char> {
    pad_left(dec(t.year as nat), 4, '0') + "-"@ + two(t.month as int) + "-"@ + two(t.day as int) + " "@ + two(
        t.hour as int,
    ) + ":"@ + two(t.minute as int) + ":"@ + two(t.second as int) + " (RTC)\n"@
}

pub fn date(t: &DateTime) -> (r: Vec<char>)
    ensures
        r@ == date_text(*t),
{
    let mut out: Vec<char> = Vec::new();
    push_dec_zeros(&mut out, t.year as u64, 4);
    push_str(&mut out, "-");
    push_dec_zeros(&mut out, t.month as u64, 2);
    push_str(&mut out, "-");
    push_dec_zeros(&mut out, t.day as u64, 2);
    push_str(&mut out, " ");
    push_dec_zeros(&mut out, t.hour as u64, 2);
    push_str(&mut out, ":");
    push_dec_zeros(&mut out, t.minute as u64, 2);
    push_str(&mut out, ":");
    push_dec_zeros(&mut out, t.second as u64, 2);
    push_str(&mut out, " (RTC)\n");
    proof {
        assert(out@ =~= date_text(*t));
    }
    out
}

pub open spec fn hex_zeros(n: int, width: nat) -> Seq<char> {
    pad_left(hex(n as nat), width, '0')
}

/// A line of `lspci`.
pub fn lspci_line(bus: u8, slot: u8, func: u8, vendor: u16, device: u16, class_name: &str) -> (r: Vec<char>)
    ensures
        r@ == hex_zeros(bus as int, 2) + ":"@ + hex_zeros(slot as int, 2) + "."@ + dec(func as nat) + "  "@ + hex_zeros(
            vendor as int,
            4,
        ) + ":"@ + hex_zeros(device as int, 4) + "  "@ + class_name@ + "\n"@,
{
    let mut out: Vec<char> = Vec::new();
    push_hex_zeros(&mut out, bus as u64, 2);
    push_str(&mut out, ":");
    push_hex_zeros(&mut out, slot as u64, 2);
    push_str(&mut out, ".");
    push_dec(&mut out, func as u64);
    push_str(&mut out, "  ");
    push_hex_zeros(&mut out, vendor as u64, 4);
    push_str(&mut out, ":");
    push_hex_zeros(&mut out, device as u64, 4);
    push_str(&mut out, "  ");
    push_str(&mut out, class_name);
    push_str(&mut out, "\n");
    proof {
        assert(out@ =~= hex_zeros(bus as int, 2) + ":"@ + hex_zeros(slot as int, 2) + "."@ + dec(func as nat) + "  "@
            + hex_zeros(vendor as int, 4) + ":"@ + hex_zeros(device as int, 4) + "  "@ + class_name@ + "\n"@);
    }
    out
}

pub fn uname(version: &str) -> (r: Vec<char>)
    ensures
        r@ == "MayOS "@ + version@ + " x86_64\n"@,
{
    let mut out: Vec<char> = to_chars("MayOS ");
    push_str(&mut out, version);
    push_str(&mut out, " x86_64\n");
    out
}

/// The lines of the history, numbered from one.
pub open spec fn history_text(h: Seq<Seq<char>>) -> Seq<char>
    decreases h.len(),
{
    if h.len() == 0 {
        Seq::empty()
    } else {
        history_text(h.drop_last()) + (pad_left(dec(h.len()), 4, ' ') + "  "@ + h.last() + "\n"@)
    }
}

pub fn history(h: &[String]) -> (r: Vec<char>)
    ensures
        r@ == history_text(texts(h@)),
{
    let mut out: Vec<char> = Vec::new();
    let ghost all = texts(h@);
    let n: usize = h.len();
    let mut i: usize = 0;
    proof {
        assert(all.take(0) =~= Seq::<Seq<char>>::empty());
    }
    while i < n
        invariant
            i <= n == h@.len(),
            all == texts(h@),
            out@ == history_text(all.take(i as int)),
        decreases n - i,
    {
        proof {
            assert(all.take(i + 1).drop_last() =~= all.take(i as int));
            assert(all.take(i + 1).last() == h@[i as int]@);
        }
        push_right(&mut out, i as u64 + 1, 4);
        push_str(&mut out, "  ");
        push_str(&mut out, h[i].as_str());
        push_str(&mut out, "\n");
        i += 1;
        proof {
            assert(out@ =~= history_text(all.take(i as int)));
        }
    }
    proof {
        assert(all.take(n as int) =~= all);
    }
    out
}

// ---------------------------------------------------------------------
// Network, sound, screen
// ---------------------------------------------------------------------

/// The state of the network adapter, with its addresses written out.
pub struct NetStatus {
    pub adapter: String,
    pub link_up: bool,
    pub speed_mbps: u32,
    pub mac: String,
    pub ip: String,
    pub prefix_len: u32,
    pub gateway: String,
    pub dns: Vec<String>,
    pub config: String,
    pub rx_packets: u64,
    pub rx_bytes: u64,
    pub tx_packets: u64,
    pub tx_bytes: u64,
}

/// Texts with commas in between.
pub open spec fn comma_list(v: Seq<Seq<char>>) -> Seq<char>
    decreases v.len(),
{
    if v.len() == 0 {
        Seq::empty()
    } else if v.len() == 1 {
        v[0]
    } else {
        comma_list(v.drop_last()) + ", "@ + v.last()
    }
}

pub open spec fn interface_text(s: NetStatus) -> Seq<char> {
    c_head() + "eth0"@ + c_off() + "  "@ + s.adapter@ + "\n      link "@ + (if s.link_up { "up"@ } else { "down"@ })
        + "  "@ + dec(s.speed_mbps as nat) + " Mb/s  mac "@ + s.mac@ + "\n      inet "@ + s.ip@ + "/"@ + dec(
        s.prefix_len as nat,
    ) + "  gateway "@ + s.gateway@ + "\n      dns "@ + (if s.dns@.len() == 0 { "-"@ } else { comma_list(texts(s.dns@)) })
        + "  config "@ + s.config@ + "\n      rx "@ + dec(s.rx_packets as nat) + " packets ("@ + dec(s.rx_bytes as nat)
        + " bytes)  tx "@ + dec(s.tx_packets as nat) + " packets ("@ + dec(s.tx_bytes as nat) + " bytes)\n"@
}

fn list_with_commas(v: &[String]) -> (r: Vec<char>)
    ensures
        r@ == comma_list(texts(v@)),
{
    let mut out: Vec<char> = Vec::new();
    let ghost all = texts(v@);
    let mut i: usize = 0;
    proof {
        assert(all.take(0) =~= Seq::<Seq<char>>::empty());
    }
    while i < v.len()
        invariant
            i <= v@.len(),
            all == texts(v@),
            out@ == comma_list(all.take(i as int)),
        decreases v@.len() - i,
    {
        proof {
            assert(all.take(i + 1).drop_last() =~= all.take(i as int));
            assert(all.take(i + 1).last() == v@[i as int]@);
        }
        let ghost o0 = out@;
        if i > 0 {
            push_str(&mut out, ", ");
        }
        push_str(&mut out, v[i].as_str());
        i += 1;
        proof {
            if i > 1 {
                assert(out@ =~= o0 + ", "@ + v@[i - 1]@);
            } else {
                assert(out@ =~= v@[0]@);
            }
        }
    }
    proof {
        assert(all.take(all.len() as int) =~= all);
    }
    out
}

pub fn ifconfig(s: &Option<NetStatus>) -> (r: Vec<char>)
    ensures
        r@ == match *s {
            Some(x) => interface_text(x),
            None => err_line("no network adapter (MayOS supports Intel e1000 NICs)"@),
        },
{
    let mut out: Vec<char> = Vec::new();
    match s {
        Some(x) => {
            push_str(&mut out, "\x1b[96m");
            push_str(&mut out, "eth0");
            push_str(&mut out, "\x1b[0m");
            push_str(&mut out, "  ");
            push_str(&mut out, x.adapter.as_str());
            push_str(&mut out, "\n      link ");
            push_str(&mut out, if x.link_up { "up" } else { "down" });
            push_str(&mut out, "  ");
            push_dec(&mut out, x.speed_mbps as u64);
            push_str(&mut out, " Mb/s  mac ");
            push_str(&mut out, x.mac.as_str());
            push_str(&mut out, "\n      inet ");
            push_str(&mut out, x.ip.as_str());
            push_str(&mut out, "/");
            push_dec(&mut out, x.prefix_len as u64);
            push_str(&mut out, "  gateway ");
            push_str(&mut out, x.gateway.as_str());
            push_str(&mut out, "\n      dns ");
            if x.dns.len() == 0 {
                push_str(&mut out, "-");
            } else {
                push_all(&mut out, &list_with_commas(&x.dns));
            }
            push_str(&mut out, "  config ");
            push_str(&mut out, x.config.as_str());
            push_str(&mut out, "\n      rx ");
            push_dec(&mut out, x.rx_packets);
            push_str(&mut out, " packets (");
            push_dec(&mut out, x.rx_bytes);
            push_str(&mut out, " bytes)  tx ");
            push_dec(&mut out, x.tx_packets);
            push_str(&mut out, " packets (");
            push_dec(&mut out, x.tx_bytes);
            push_str(&mut out, " bytes)\n");
            proof {
                assert(out@ =~= interface_text(*x));
            }
        },
        None => {
            push_err(&mut out, &to_chars("no network adapter (MayOS supports Intel e1000 NICs)"));
            proof {
                assert(out@ =~= err_line("no network adapter (MayOS supports Intel e1000 NICs)"@));
            }
        },
    }
    out
}

pub fn dhcp(present: bool) -> (r: Vec<char>)
    ensures
        r@ == if present {
            "requesting a new address; check with ifconfig\n"@
        } else {
            err_line("no network adapter"@)
        },
{
    if present {
        to_chars("requesting a new address; check with ifconfig\n")
    } else {
        super::help::error("no network adapter")
    }
}

/// "playing a.wav (44100 Hz, 16-bit, 2 ch, 1:05)"
pub open spec fn play_line(name: Seq<char>, rate: u32, bits: u16, channels: u16, frames: int) -> Seq<char> {
    let secs = frames / 48000;
    "playing "@ + name + " ("@ + dec(rate as nat) + " Hz, "@ + dec(bits as nat) + "-bit, "@ + dec(channels as nat)
        + " ch, "@ + dec((secs / 60) as nat) + ":"@ + two(secs % 60) + ")\n"@
}

/// What `play` says of a sound of `frames` frames at 48 kHz.
pub fn play(name: &[char], rate: u32, bits: u16, channels: u16, frames: u64) -> (r: Vec<char>)
    ensures
        r@ == play_line(name@, rate, bits, channels, frames as int),
{
    let secs: u64 = frames / 48000;
    let mut out: Vec<char> = to_chars("playing ");
    push_all(&mut out, name);
    push_str(&mut out, " (");
    push_dec(&mut out, rate as u64);
    push_str(&mut out, " Hz, ");
    push_dec(&mut out, bits as u64);
    push_str(&mut out, "-bit, ");
    push_dec(&mut out, channels as u64);
    push_str(&mut out, " ch, ");
    push_dec(&mut out, secs / 60);
    push_str(&mut out, ":");
    push_dec_zeros(&mut out, secs % 60, 2);
    push_str(&mut out, ")\n");
    out
}

pub fn volume_set(v: u8) -> (r: Vec<char>)
    ensures
        r@ == "volume "@ + dec(v as nat) + "%\n"@,
{
    let mut out: Vec<char> = to_chars("volume ");
    push_dec(&mut out, v as u64);
    push_str(&mut out, "%\n");
    out
}

pub fn volume(v: u8, muted: bool, device: &str) -> (r: Vec<char>)
    ensures
        r@ == "volume "@ + dec(v as nat) + "%"@ + (if muted { " (muted)"@ } else { ""@ }) + "  ("@ + device@ + ")\n"@,
{
    let mut out: Vec<char> = to_chars("volume ");
    push_dec(&mut out, v as u64);
    push_str(&mut out, "%");
    push_str(&mut out, if muted { " (muted)" } else { "" });
    push_str(&mut out, "  (");
    push_str(&mut out, device);
    push_str(&mut out, ")\n");
    out
}

pub open spec fn mode_text(w: u32, h: u32) -> Seq<char> {
    dec(w as nat) + "x"@ + dec(h as nat)
}

fn push_mode(out: &mut Vec<char>, w: u32, h: u32)
    ensures
        final(out)@ == old(out)@ + mode_text(w, h),
{
    push_dec(out, w as u64);
    push_str(out, "x");
    push_dec(out, h as u64);
    proof {
        assert(out@ =~= old(out)@ + mode_text(w, h));
    }
}

pub open spec fn mode_lines(modes: Seq<(u32, u32)>, current: (u32, u32)) -> Seq<char>
    decreases modes.len(),
{
    if modes.len() == 0 {
        Seq::empty()
    } else {
        let m = modes.last();
        mode_lines(modes.drop_last(), current) + (" "@ + (if m == current { "*"@ } else { " "@ }) + " "@ + mode_text(
            m.0,
            m.1,
        ) + "\n"@)
    }
}

/// `resolution WxH`: whether to switch, and what to print.
pub fn set_resolution(w: u32, h: u32, modes: &[(u32, u32)], out: &mut Vec<char>) -> (r: bool)
    ensures
        r == modes@.contains((w, h)),
        final(out)@ == old(out)@ + if r {
            "switching to "@ + mode_text(w, h) + "\n"@
        } else {
            err_line(mode_text(w, h) + " is not available; run 'resolution' for the list"@)
        },
{
    let mut i: usize = 0;
    let mut found: bool = false;
    while i < modes.len()
        invariant
            i <= modes@.len(),
            found == exists|k: int| 0 <= k < i && modes@[k] == (w, h),
        decreases modes@.len() - i,
    {
        if modes[i].0 == w && modes[i].1 == h {
            found = true;
        }
        i += 1;
        proof {
            assert(modes@[i - 1] == (modes@[i - 1].0, modes@[i - 1].1));
        }
    }
    if found {
        push_str(out, "switching to ");
        push_mode(out, w, h);
        push_str(out, "\n");
        proof {
            assert(out@ =~= old(out)@ + ("switching to "@ + mode_text(w, h) + "\n"@));
        }
    } else {
        let mut m: Vec<char> = Vec::new();
        push_mode(&mut m, w, h);
        push_str(&mut m, " is not available; run 'resolution' for the list");
        proof {
            assert(m@ =~= mode_text(w, h) + " is not available; run 'resolution' for the list"@);
        }
        push_err(out, &m);
    }
    found
}

pub fn resolutions(description: &str, current: (u32, u32), modes: &[(u32, u32)]) -> (r: Vec<char>)
    ensures
        r@ == description@ + " (current "@ + mode_text(current.0, current.1) + ")\n"@ + mode_lines(modes@, current),
{
    let mut out: Vec<char> = to_chars(description);
    push_str(&mut out, " (current ");
    push_mode(&mut out, current.0, current.1);
    push_str(&mut out, ")\n");
    let ghost h = description@ + " (current "@ + mode_text(current.0, current.1) + ")\n"@;
    let mut i: usize = 0;
    proof {
        assert(out@ =~= h + mode_lines(modes@.take(0), current));
    }
    while i < modes.len()
        invariant
            i <= modes@.len(),
            out@ == h + mode_lines(modes@.take(i as int), current),
        decreases modes@.len() - i,
    {
        proof {
            assert(modes@.take(i + 1).drop_last() =~= modes@.take(i as int));
        }
        let ghost o0 = out@;
        let (w, hh) = modes[i];
        push_str(&mut out, " ");
        push_str(&mut out, if w == current.0 && hh == current.1 { "*" } else { " " });
        push_str(&mut out, " ");
        push_mode(&mut out, w, hh);
        push_str(&mut out, "\n");
        i += 1;
        proof {
            assert(modes@[i - 1] == (w, hh));
            assert(out@ =~= h + mode_lines(modes@.take(i as int), current));
        }
    }
    proof {
        assert(modes@.take(modes@.len() as int) =~= modes@);
    }
    out
}

/// No program of this name.
pub fn not_found(cmd: &[char]) -> (r: Vec<char>)
    ensures
        r@ == err_line(cmd@ + ": command not found (try 'help')"@),
{
    let mut m: Vec<char> = crate::text::copy(cmd);
    push_str(&mut m, ": command not found (try 'help')");
    let mut out: Vec<char> = Vec::new();
    push_err(&mut out, &m);
    proof {
        assert(out@ =~= err_line(cmd@ + ": command not found (try 'help')"@));
    }
    out
}

// ---------------------------------------------------------------------
// Laws
// ---------------------------------------------------------------------

/// Hidden entries are left out unless all are asked for: without them in the
/// folder the listing is the same.
pub proof fn lemma_hidden_left_out(l: Seq<DirEntry>, long: bool, in_bin: bool)
    ensures
        listing_text(l, long, false, in_bin) == listing_text(
            l.filter(|e: DirEntry| !e@.hidden),
            long,
            true,
            in_bin,
        ),
    decreases l.len(),
{
    reveal(Seq::filter);
    let f = |e: DirEntry| !e@.hidden;
    if l.len() > 0 {
        lemma_hidden_left_out(l.drop_last(), long, in_bin);
        if !l.last()@.hidden {
            let d = l.drop_last().filter(f);
            assert(d.push(l.last()).drop_last() =~= d);
        }
    }
}

/// A folder is listed entry by entry, in order.
#[verifier::rlimit(40)]
pub proof fn lemma_listed_in_order(a: Seq<DirEntry>, b: Seq<DirEntry>, long: bool, all: bool, in_bin: bool)
    ensures
        listing_text(a + b, long, all, in_bin) == listing_text(a, long, all, in_bin) + listing_text(
            b,
            long,
            all,
            in_bin,
        ),
    decreases b.len(),
{
    if b.len() == 0 {
        assert(a + b =~= a);
        let x = listing_text(a, long, all, in_bin);
        assert(listing_text(b, long, all, in_bin) == Seq::<char>::empty());
        assert(x + Seq::<char>::empty() =~= x);
    } else {
        let d = b.drop_last();
        lemma_listed_in_order(a, d, long, all, in_bin);
        assert((a + b).drop_last() =~= a + d);
        assert((a + b).last() == b.last());
        let x = listing_text(a, long, all, in_bin);
        let y = listing_text(d, long, all, in_bin);
        let e = b.last()@;
        let item = if long { long_line(e) } else { short_item(e, in_bin) };
        lemma_one_after_another(x, y, item);
    }
}

proof fn lemma_one_after_another(x: Seq<char>, y: Seq<char>, z: Seq<char>)
    ensures
        (x + y) + z == x + (y + z),
{
    assert((x + y) + z =~= x + (y + z));
}

pub(super) proof fn lemma_occurrences_added(a: Seq<char>, b: Seq<char>, c: char)
    ensures
        occurrences(a + b, c) == occurrences(a, c) + occurrences(b, c),
    decreases b.len(),
{
    if b.len() == 0 {
        assert(a + b =~= a);
    } else {
        assert((a + b).drop_last() =~= a + b.drop_last());
        lemma_occurrences_added(a, b.drop_last(), c);
    }
}

pub(super) proof fn lemma_no_occurrence(s: Seq<char>, c: char)
    requires
        !s.contains(c),
    ensures
        occurrences(s, c) == 0,
    decreases s.len(),
{
    if s.len() > 0 {
        assert(s.contains(s.last()));
        assert forall|i: int| 0 <= i < s.drop_last().len() implies s.drop_last()[i] != c by {
            assert(s.contains(s[i]));
        }
        lemma_no_occurrence(s.drop_last(), c);
    }
}

/// A text of lines that all end has as many lines as there are; so it has
/// where the last one does not end, if it is not empty.
pub proof fn lemma_lines_counted(lines: Seq<Seq<char>>)
    requires
        lines.len() > 0,
        forall|i: int| 0 <= i < lines.len() ==> !(#[trigger] lines[i]).contains('\n'),
    ensures
        occurrences(join(lines, '\n'), '\n') == lines.len() - 1,
        line_count(join(lines, '\n').push('\n')) == lines.len(),
        lines.last().len() > 0 ==> line_count(join(lines, '\n')) == lines.len(),
    decreases lines.len(),
{
    let s = join(lines, '\n');
    let l = lines.last();
    assert(!lines[lines.len() - 1].contains('\n'));
    lemma_no_occurrence(l, '\n');
    if lines.len() > 1 {
        let d = lines.drop_last();
        assert forall|i: int| 0 <= i < d.len() implies !(#[trigger] d[i]).contains('\n') by {
            assert(d[i] == lines[i]);
        }
        lemma_lines_counted(d);
        let a = join(d, '\n').push('\n');
        assert(a.drop_last() =~= join(d, '\n'));
        lemma_occurrences_added(a, l, '\n');
    }
    assert(s.push('\n').drop_last() =~= s);
    if l.len() > 0 {
        assert(s.last() == l.last());
        assert(l.contains(l.last()));
    }
}

proof fn lemma_word_added(s: Seq<char>, w: Seq<char>, n: nat)
    requires
        s.len() == 0 || is_white(s.last()),
        0 < n <= w.len(),
        forall|i: int| 0 <= i < w.len() ==> !is_white(#[trigger] w[i]),
    ensures
        word_count(s + w.take(n as int)) == word_count(s) + 1,
    decreases n,
{
    let t = s + w.take(n as int);
    assert(t.drop_last() =~= s + w.take(n - 1));
    assert(t.last() == w[n - 1]);
    if n == 1 {
        assert(s + w.take(0) =~= s);
        if s.len() > 0 {
            assert(t[t.len() - 2] == s.last());
        }
    } else {
        lemma_word_added(s, w, (n - 1) as nat);
        assert(t[t.len() - 2] == w[n - 2]);
    }
}

/// Words with a space between each two are counted one by one.
pub proof fn lemma_words_counted(words: Seq<Seq<char>>)
    requires
        forall|i: int| 0 <= i < words.len() ==> (#[trigger] words[i]).len() > 0,
        forall|i: int, k: int|
            0 <= i < words.len() && 0 <= k < words[i].len() ==> !is_white(#[trigger] words[i][k]),
    ensures
        word_count(join(words, ' ')) == words.len(),
    decreases words.len(),
{
    if words.len() > 0 {
        let n = words.len() as int;
        let w = words[n - 1];
        assert(w.take(w.len() as int) =~= w);
        assert(w.len() > 0);
        assert forall|k: int| 0 <= k < w.len() implies !is_white(#[trigger] w[k]) by {
            assert(!is_white(words[n - 1][k]));
        }
        if words.len() == 1 {
            let none = Seq::<char>::empty();
            lemma_word_added(none, w, w.len());
            assert(none + w =~= w);
        } else {
            let d = words.drop_last();
            assert forall|i: int| 0 <= i < d.len() implies (#[trigger] d[i]).len() > 0 by {
                assert(d[i] == words[i]);
            }
            assert forall|i: int, k: int| 0 <= i < d.len() && 0 <= k < d[i].len() implies !is_white(
                #[trigger] d[i][k],
            ) by {
                assert(!is_white(words[i][k]));
            }
            lemma_words_counted(d);
            let a = join(d, ' ').push(' ');
            assert(a.drop_last() =~= join(d, ' '));
            lemma_word_added(a, w, w.len());
        }
    }
}

/// A disk is used to between 0 and 100 percent: 0 where all is free, 100
/// where nothing is.
pub proof fn lemma_used_percent(s: FsStats)
    requires
        s.free_bytes <= s.total_bytes,
    ensures
        0 <= used_percent(s) <= 100,
        s.free_bytes == s.total_bytes ==> used_percent(s) == 0,
        s.free_bytes == 0 && s.total_bytes > 0 ==> used_percent(s) == 100,
{
    if s.total_bytes > 0 {
        let t = s.total_bytes as int;
        let u = s.total_bytes - s.free_bytes;
        assert(0 <= u * 100 / t <= 100) by (nonlinear_arith)
            requires
                0 <= u <= t,
                t > 0,
        ;
        assert(t * 100 / t == 100) by (nonlinear_arith)
            requires
                t > 0,
        ;
    }
}

} // verus!
