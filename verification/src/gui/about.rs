//! "About MayOS": system information.

use crate::bytes::push_le32;
use crate::fs::path::{format_size, size_text};
use crate::text::{
    copy_range, dec, pad_left, push_dec, push_dec_zeros, push_str, read_text, text_of_bytes, to_chars, to_text,
};
use vstd::prelude::*;

verus! {

pub struct About {
    pub last_update: u64,
}

impl About {
    pub fn new() -> (r: About)
        ensures
            r.last_update == 0,
    {
        About { last_update: 0 }
    }

    /// Whether the figures are to be drawn again: once a second.
    pub fn tick(&mut self, now: u64) -> (redraw: bool)
        requires
            old(self).last_update <= now,
        ensures
            redraw == (now - old(self).last_update >= 1000),
            final(self).last_update == if redraw { now } else { old(self).last_update },
    {
        if now - self.last_update >= 1000 {
            self.last_update = now;
            true
        } else {
            false
        }
    }
}

/// The processor's name in its registers, as bytes.
pub open spec fn register_bytes(regs: Seq<u32>) -> Seq<u8>
    decreases regs.len(),
{
    if regs.len() == 0 {
        Seq::empty()
    } else {
        register_bytes(regs.drop_last()) + crate::bytes::le32_bytes(regs.last() as int)
    }
}

/// Padding around the name.
pub open spec fn padding(c: char) -> bool {
    c == '\0' || c == ' '
}

pub open spec fn strip_front(s: Seq<char>) -> Seq<char>
    decreases s.len(),
{
    if s.len() > 0 && padding(s[0]) { strip_front(s.skip(1)) } else { s }
}

pub open spec fn strip_back(s: Seq<char>) -> Seq<char>
    decreases s.len(),
{
    if s.len() > 0 && padding(s.last()) { strip_back(s.drop_last()) } else { s }
}

/// The processor's name, without the padding around it.
pub fn cpu_brand(regs: &[u32]) -> (r: String)
    ensures
        r@ == strip_back(strip_front(read_text(register_bytes(regs@)))),
{
    let mut b: Vec<u8> = Vec::new();
    let mut i: usize = 0;
    while i < regs.len()
        invariant
            i <= regs@.len(),
            b@ == register_bytes(regs@.take(i as int)),
        decreases regs@.len() - i,
    {
        proof {
            assert(regs@.take(i + 1).drop_last() =~= regs@.take(i as int));
        }
        push_le32(&mut b, regs[i]);
        i += 1;
    }
    proof {
        assert(regs@.take(regs@.len() as int) =~= regs@);
    }
    let s: Vec<char> = to_chars(text_of_bytes(&b).as_str());
    let n: usize = s.len();
    let mut from: usize = 0;
    proof {
        assert(s@.skip(0) =~= s@);
    }
    while from < n && (s[from] == '\0' || s[from] == ' ')
        invariant
            from <= n,
            n == s@.len(),
            strip_front(s@) == strip_front(s@.skip(from as int)),
        decreases n - from,
    {
        proof {
            assert(s@.skip(from as int).skip(1) =~= s@.skip(from + 1));
        }
        from += 1;
    }
    let ghost t = s@.skip(from as int);
    let mut to: usize = n;
    proof {
        assert(strip_front(s@) == t);
        assert(s@.subrange(from as int, n as int) =~= t);
    }
    while to > from && (s[to - 1] == '\0' || s[to - 1] == ' ')
        invariant
            from <= to <= n,
            n == s@.len(),
            strip_back(t) == strip_back(s@.subrange(from as int, to as int)),
        decreases to,
    {
        proof {
            assert(s@.subrange(from as int, to as int).drop_last() =~= s@.subrange(from as int, to - 1));
        }
        to -= 1;
    }
    to_text(&copy_range(&s, from, to))
}

/// What the system says of itself.
pub struct Figures {
    pub version: String,
    pub processor: String,
    /// Free and total memory, in pages of 4 KB.
    pub pages: (u64, u64),
    /// Used and total heap, in bytes.
    pub heap: (u64, u64),
    pub display: String,
    /// Free and total bytes of the disk, and what it is, if there is one.
    pub disk: Option<(u64, u64, String)>,
    pub uptime_ms: u64,
    pub processes: u64,
}

pub open spec fn memory_text(free: int, total: int) -> Seq<char> {
    dec(((total - free) * 4 / 1024) as nat) + " MB used of "@ + dec((total * 4 / 1024) as nat) + " MB"@
}

pub open spec fn heap_text(used: int, total: int) -> Seq<char> {
    dec((used / 1024) as nat) + " KB used of "@ + dec((total / 1024) as nat) + " KB"@
}

pub open spec fn disk_text(disk: Option<(u64, u64, String)>) -> Seq<char> {
    match disk {
        Some((free, total, backend)) => size_text(free as int) + " free of "@ + size_text(total as int)
            + " \u{00b7} "@ + backend@,
        None => "no disk mounted"@,
    }
}

pub open spec fn uptime_text(ms: int) -> Seq<char> {
    let up = ms / 1000;
    dec((up / 3600) as nat) + "h "@ + pad_left(dec((up / 60 % 60) as nat), 2, '0') + "m "@ + pad_left(
        dec((up % 60) as nat),
        2,
        '0',
    ) + "s"@
}

/// The lines of the window, each with its label.
pub open spec fn rows(f: Figures) -> Seq<(Seq<char>, Seq<char>)> {
    seq![
        ("Version"@, f.version@),
        ("Processor"@, f.processor@),
        ("Memory"@, memory_text(f.pages.0 as int, f.pages.1 as int)),
        ("Kernel heap"@, heap_text(f.heap.0 as int, f.heap.1 as int)),
        ("Display"@, f.display@),
        ("Disk"@, disk_text(f.disk)),
        ("Uptime"@, uptime_text(f.uptime_ms as int)),
        ("Processes"@, dec(f.processes as nat)),
    ]
}

pub open spec fn rows_of(v: Seq<(Vec<char>, Vec<char>)>) -> Seq<(Seq<char>, Seq<char>)> {
    Seq::new(v.len(), |i: int| (v[i].0@, v[i].1@))
}

fn memory_line(free: u64, total: u64) -> (r: Vec<char>)
    requires
        free <= total <= u64::MAX as int / 4,
    ensures
        r@ == memory_text(free as int, total as int),
{
    let mut out: Vec<char> = Vec::new();
    push_dec(&mut out, (total - free) * 4 / 1024);
    push_str(&mut out, " MB used of ");
    push_dec(&mut out, total * 4 / 1024);
    push_str(&mut out, " MB");
    proof {
        assert(out@ =~= memory_text(free as int, total as int));
    }
    out
}

fn heap_line(used: u64, total: u64) -> (r: Vec<char>)
    ensures
        r@ == heap_text(used as int, total as int),
{
    let mut out: Vec<char> = Vec::new();
    push_dec(&mut out, used / 1024);
    push_str(&mut out, " KB used of ");
    push_dec(&mut out, total / 1024);
    push_str(&mut out, " KB");
    proof {
        assert(out@ =~= heap_text(used as int, total as int));
    }
    out
}

fn disk_line(disk: &Option<(u64, u64, String)>) -> (r: Vec<char>)
    ensures
        r@ == disk_text(*disk),
{
    match disk {
        Some(d) => {
            let mut out: Vec<char> = to_chars(format_size(d.0).as_str());
            push_str(&mut out, " free of ");
            push_str(&mut out, format_size(d.1).as_str());
            push_str(&mut out, " \u{00b7} ");
            push_str(&mut out, d.2.as_str());
            out
        },
        None => to_chars("no disk mounted"),
    }
}

fn uptime_line(ms: u64) -> (r: Vec<char>)
    ensures
        r@ == uptime_text(ms as int),
{
    let up: u64 = ms / 1000;
    let mut out: Vec<char> = Vec::new();
    push_dec(&mut out, up / 3600);
    push_str(&mut out, "h ");
    push_dec_zeros(&mut out, (up / 60) % 60, 2);
    push_str(&mut out, "m ");
    push_dec_zeros(&mut out, up % 60, 2);
    push_str(&mut out, "s");
    proof {
        assert(out@ =~= uptime_text(ms as int));
    }
    out
}

/// The lines of the window, each with its label.
pub fn system_info(f: &Figures) -> (r: Vec<(Vec<char>, Vec<char>)>)
    requires
        f.pages.0 <= f.pages.1 <= u64::MAX as int / 4,
    ensures
        rows_of(r@) == rows(*f),
{
    let mut v: Vec<(Vec<char>, Vec<char>)> = Vec::new();
    v.push((to_chars("Version"), to_chars(f.version.as_str())));
    v.push((to_chars("Processor"), to_chars(f.processor.as_str())));
    v.push((to_chars("Memory"), memory_line(f.pages.0, f.pages.1)));
    v.push((to_chars("Kernel heap"), heap_line(f.heap.0, f.heap.1)));
    v.push((to_chars("Display"), to_chars(f.display.as_str())));
    v.push((to_chars("Disk"), disk_line(&f.disk)));
    v.push((to_chars("Uptime"), uptime_line(f.uptime_ms)));
    let mut n: Vec<char> = Vec::new();
    push_dec(&mut n, f.processes);
    proof {
        assert(n@ =~= dec(f.processes as nat));
    }
    v.push((to_chars("Processes"), n));
    proof {
        assert(rows_of(v@) =~= rows(*f));
    }
    v
}

} // verus!
