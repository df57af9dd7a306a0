//! The texts of the explorer: kinds of files, breadcrumbs, the status line.

use crate::fs::entry::{entries_of, DirEntry, EntryState};
use crate::fs::path::{
    canonical, ext_of, extension_chars, join_chars, joined_path, lemma_join_parent_name, lemma_split_path, path_of, proper,
    size_chars, size_text, stem_and_ext,
};
use crate::gui::shell::decide::{lemma_solid, solid};
use crate::text::{
    copy, copy_range, dec, is_str, push_all, push_dec, push_str, rfind_char, split, split_on, to_chars, views,
};
use vstd::prelude::*;

verus! {

#[derive(Clone, Copy, PartialEq, Eq, Debug, Structural)]
pub enum FileIcon {
    Folder,
    TextFile,
    Image,
    Program,
    File,
}

pub open spec fn text_ext(e: Seq<char>) -> bool {
    e == "txt"@ || e == "md"@ || e == "log"@ || e == "cfg"@ || e == "ini"@ || e == "conf"@ || e == "rs"@ || e == "c"@
        || e == "h"@ || e == "json"@ || e == "toml"@ || e == "sh"@ || e == "html"@ || e == "css"@ || e == "js"@
}

pub open spec fn image_ext(e: Seq<char>) -> bool {
    e == "png"@ || e == "jpg"@ || e == "jpeg"@ || e == "bmp"@ || e == "gif"@ || e == "webp"@
}

/// ASCII upper case.
pub open spec fn upper(c: char) -> char {
    if 'a' <= c && c <= 'z' { (c as u32 - 32) as char } else { c }
}

pub open spec fn upper_all(s: Seq<char>) -> Seq<char> {
    Seq::new(s.len(), |i: int| upper(s[i]))
}

/// What kind of file an entry is.
pub open spec fn kind(e: EntryState, dir: Seq<char>) -> (FileIcon, Seq<char>) {
    let ext = ext_of(e.name);
    if e.is_dir {
        (FileIcon::Folder, "Folder"@)
    } else if ext matches Some(x) && text_ext(x) {
        (FileIcon::TextFile, "Text Document"@)
    } else if ext matches Some(x) && image_ext(x) {
        (FileIcon::Image, "Image"@)
    } else if ext matches Some(x) && x == "elf"@ {
        (FileIcon::Program, "Program"@)
    } else if dir == "/bin"@ {
        (FileIcon::Program, "Program"@)
    } else {
        match ext {
            Some(x) => (FileIcon::File, upper_all(x) + " File"@),
            None => (FileIcon::File, "File"@),
        }
    }
}

fn is_text_ext(e: &[char]) -> (r: bool)
    ensures
        r == text_ext(e@),
{
    is_str(e, "txt") || is_str(e, "md") || is_str(e, "log") || is_str(e, "cfg") || is_str(e, "ini") || is_str(e, "conf")
        || is_str(e, "rs") || is_str(e, "c") || is_str(e, "h") || is_str(e, "json") || is_str(e, "toml") || is_str(
        e,
        "sh",
    ) || is_str(e, "html") || is_str(e, "css") || is_str(e, "js")
}

fn is_image_ext(e: &[char]) -> (r: bool)
    ensures
        r == image_ext(e@),
{
    is_str(e, "png") || is_str(e, "jpg") || is_str(e, "jpeg") || is_str(e, "bmp") || is_str(e, "gif") || is_str(
        e,
        "webp",
    )
}

fn uppered(s: &[char]) -> (r: Vec<char>)
    ensures
        r@ == upper_all(s@),
{
    let mut out: Vec<char> = Vec::new();
    let mut i: usize = 0;
    while i < s.len()
        invariant
            i <= s@.len(),
            out@ == Seq::new(i as nat, |i: int| upper(s@[i])),
        decreases s@.len() - i,
    {
        let c: char = s[i];
        let u: char = if 'a' <= c && c <= 'z' { ((c as u32 - 32) as u8) as char } else { c };
        out.push(u);
        i += 1;
        proof {
            assert(out@ =~= Seq::new(i as nat, |i: int| upper(s@[i])));
        }
    }
    out
}

pub fn kind_of(e: &DirEntry, dir: &[char]) -> (r: (FileIcon, Vec<char>))
    ensures
        (r.0, r.1@) == kind(e@, dir@),
{
    if e.is_dir {
        return (FileIcon::Folder, to_chars("Folder"));
    }
    let ext: Option<Vec<char>> = extension_chars(&to_chars(e.name.as_str()));
    if let Some(x) = &ext {
        if is_text_ext(x) {
            return (FileIcon::TextFile, to_chars("Text Document"));
        }
        if is_image_ext(x) {
            return (FileIcon::Image, to_chars("Image"));
        }
        if is_str(x, "elf") {
            return (FileIcon::Program, to_chars("Program"));
        }
    }
    if is_str(dir, "/bin") {
        return (FileIcon::Program, to_chars("Program"));
    }
    match ext {
        Some(x) => {
            let mut out: Vec<char> = uppered(&x);
            push_str(&mut out, " File");
            (FileIcon::File, out)
        },
        None => (FileIcon::File, to_chars("File")),
    }
}

// ---------------------------------------------------------------------
// Breadcrumbs
// ---------------------------------------------------------------------

/// The path of the first `k` parts.
pub open spec fn crumb_path(parts: Seq<Seq<char>>, k: int) -> Seq<char>
    decreases k,
{
    if k <= 0 { "/"@ } else { joined_path(crumb_path(parts, k - 1), parts[k - 1]) }
}

/// The folders on the way to a path: what each is called, and its path.
pub open spec fn crumbs_of(path: Seq<char>) -> Seq<(Seq<char>, Seq<char>)> {
    let p = solid(split(path, '/'));
    Seq::new(
        p.len() + 1,
        |i: int| (if i == 0 { "MayOS Disk"@ } else { p[i - 1] }, crumb_path(p, i)),
    )
}

pub struct Crumb {
    pub name: Vec<char>,
    pub path: Vec<char>,
}

pub open spec fn crumb_views(v: Seq<Crumb>) -> Seq<(Seq<char>, Seq<char>)> {
    Seq::new(v.len(), |i: int| (v[i].name@, v[i].path@))
}

/// The first crumb leads to the root.
pub proof fn lemma_crumbs(path: Seq<char>)
    ensures
        crumbs_of(path).len() > 0,
        crumbs_of(path)[0] == ("MayOS Disk"@, "/"@),
{
}

/// The crumbs lead to the folders on the way to a path, each under its own
/// name, and the last one to the path itself.
pub proof fn lemma_crumbs_lead(parts: Seq<Seq<char>>, i: int)
    requires
        canonical(parts),
        0 < i <= parts.len(),
    ensures
        crumbs_of(path_of(parts)).len() == parts.len() + 1,
        crumbs_of(path_of(parts))[i] == (parts[i - 1], path_of(parts.take(i))),
        crumbs_of(path_of(parts)).last().1 == path_of(parts),
{
    lemma_split_path(parts);
    lemma_solid(parts);
    lemma_crumb_path(parts, i);
    lemma_crumb_path(parts, parts.len() as int);
    assert(parts.take(parts.len() as int) =~= parts);
}

proof fn lemma_crumb_path(parts: Seq<Seq<char>>, k: int)
    requires
        canonical(parts),
        0 <= k <= parts.len(),
    ensures
        crumb_path(parts, k) == path_of(parts.take(k)),
    decreases k,
{
    reveal_strlit("/");
    if k == 0 {
        assert(path_of(parts.take(0)) =~= "/"@);
    } else {
        lemma_crumb_path(parts, k - 1);
        let a = parts.take(k - 1);
        assert(canonical(a)) by {
            assert forall|i: int| 0 <= i < a.len() implies proper(#[trigger] a[i]) by {
                assert(a[i] == parts[i]);
            }
        }
        assert(proper(parts[k - 1]));
        lemma_join_parent_name(a, parts[k - 1]);
        assert(a.push(parts[k - 1]) =~= parts.take(k));
    }
}

fn solid_parts(path: &[char]) -> (r: Vec<Vec<char>>)
    ensures
        views(r@) == solid(split(path@, '/')),
{
    let parts: Vec<Vec<char>> = split_on(path, '/');
    let ghost all = views(parts@);
    let mut out: Vec<Vec<char>> = Vec::new();
    let mut i: usize = 0;
    proof {
        assert(all.take(0) =~= Seq::<Seq<char>>::empty());
        assert(views(out@) =~= Seq::<Seq<char>>::empty());
    }
    while i < parts.len()
        invariant
            i <= parts@.len(),
            all == views(parts@),
            views(out@) == solid(all.take(i as int)),
        decreases parts@.len() - i,
    {
        proof {
            assert(all.take(i + 1).drop_last() =~= all.take(i as int));
            assert(all.take(i + 1).last() == parts@[i as int]@);
        }
        if parts[i].len() > 0 {
            let ghost o0 = views(out@);
            out.push(copy(&parts[i]));
            proof {
                assert(views(out@) =~= o0.push(parts@[i as int]@));
            }
        }
        i += 1;
    }
    proof {
        assert(all.take(all.len() as int) =~= all);
    }
    out
}

pub fn crumbs(path: &[char]) -> (r: Vec<Crumb>)
    ensures
        crumb_views(r@) == crumbs_of(path@),
{
    let parts: Vec<Vec<char>> = solid_parts(path);
    let ghost p = views(parts@);
    let mut out: Vec<Crumb> = Vec::new();
    let mut acc: Vec<char> = to_chars("/");
    out.push(Crumb { name: to_chars("MayOS Disk"), path: to_chars("/") });
    let ghost want = crumbs_of(path@);
    proof {
        assert(crumb_views(out@) =~= want.take(1));
    }
    let mut i: usize = 0;
    while i < parts.len()
        invariant
            i <= parts@.len(),
            p == views(parts@),
            p == solid(split(path@, '/')),
            want == crumbs_of(path@),
            acc@ == crumb_path(p, i as int),
            crumb_views(out@) == want.take(i + 1),
        decreases parts@.len() - i,
    {
        let ghost o0 = crumb_views(out@);
        acc = join_chars(&acc, &parts[i]);
        out.push(Crumb { name: copy(&parts[i]), path: copy(&acc) });
        i += 1;
        proof {
            assert(p[i - 1] == parts@[i - 1]@);
            assert(crumb_views(out@) =~= o0.push((p[i - 1], acc@)));
            assert(want.take(i + 1) =~= o0.push(want[i as int]));
        }
    }
    proof {
        assert(want.take(want.len() as int) =~= want);
    }
    out
}

/// How many crumbs are left out at the front so that the others fit: the
/// last one is always shown.
pub open spec fn crumbs_skipped(widths: Seq<i32>, sep: int, room: int, k: int) -> int
    decreases widths.len() - k,
{
    if k < 0 || k + 1 >= widths.len() || crumb_span(widths, sep, k) <= room {
        k
    } else {
        crumbs_skipped(widths, sep, room, k + 1)
    }
}

/// The width of the crumbs from `k` on, with their separators.
pub open spec fn crumb_span(widths: Seq<i32>, sep: int, k: int) -> int
    decreases widths.len() - k,
{
    if k < 0 || k >= widths.len() { 0 } else { widths[k] + 12 + sep + crumb_span(widths, sep, k + 1) }
}

fn span_of(widths: &[i32], sep: i32, from: usize) -> (r: i64)
    requires
        widths@.len() <= 0x1000_0000,
        from <= widths@.len(),
    ensures
        r == crumb_span(widths@, sep as int, from as int),
{
    let n: usize = widths.len();
    let mut total: i64 = 0;
    let mut i: usize = n;
    while i > from
        invariant
            from <= i <= n == widths@.len(),
            n <= 0x1000_0000,
            total == crumb_span(widths@, sep as int, i as int),
            -0x2_0000_0000 * (n - i) <= total <= 0x2_0000_0000 * (n - i),
        decreases i,
    {
        i -= 1;
        proof {
            assert(0x2_0000_0000 * (n - i) <= 0x2_0000_0000 * 0x1000_0000) by (nonlinear_arith)
                requires
                    0 <= n - i <= 0x1000_0000,
            ;
            assert(0x2_0000_0000 * (n - i) == 0x2_0000_0000 * (n - i - 1) + 0x2_0000_0000) by (nonlinear_arith);
        }
        total = total + widths[i] as i64 + 12 + sep as i64;
    }
    total
}

/// How many crumbs to leave out, given the widths of their names.
pub fn skip_crumbs(widths: &[i32], sep: i32, room: i32) -> (r: usize)
    requires
        widths@.len() <= 0x1000_0000,
    ensures
        r == crumbs_skipped(widths@, sep as int, room as int, 0),
{
    let n: usize = widths.len();
    let mut k: usize = 0;
    while n - k > 1 && span_of(widths, sep, k) > room as i64
        invariant
            k <= n == widths@.len(),
            n <= 0x1000_0000,
            crumbs_skipped(widths@, sep as int, room as int, 0) == crumbs_skipped(
                widths@,
                sep as int,
                room as int,
                k as int,
            ),
        decreases n - k,
    {
        k += 1;
    }
    k
}

// ---------------------------------------------------------------------
// Places, names, status
// ---------------------------------------------------------------------

/// The folders offered at the side besides the disk itself.
pub open spec fn shortcut(i: int) -> (Seq<char>, Seq<char>) {
    if i == 0 {
        ("Documents"@, "/docs"@)
    } else if i == 1 {
        ("Programs"@, "/bin"@)
    } else if i == 2 {
        ("Pictures"@, "/pictures"@)
    } else {
        ("Home"@, "/home"@)
    }
}

pub open spec fn shortcuts(present: Seq<bool>, k: int) -> Seq<(Seq<char>, Seq<char>)>
    decreases k,
{
    if k <= 0 {
        seq![("MayOS Disk"@, "/"@)]
    } else {
        let rest = shortcuts(present, k - 1);
        if present[k - 1] { rest.push(shortcut(k - 1)) } else { rest }
    }
}

/// The places at the side; `present` says which of the four folders there
/// are.
pub fn places(present: &[bool]) -> (r: Vec<Crumb>)
    requires
        present@.len() == 4,
    ensures
        crumb_views(r@) == shortcuts(present@, 4),
{
    let mut out: Vec<Crumb> = Vec::new();
    out.push(Crumb { name: to_chars("MayOS Disk"), path: to_chars("/") });
    proof {
        assert(crumb_views(out@) =~= shortcuts(present@, 0));
    }
    let mut i: usize = 0;
    while i < 4
        invariant
            i <= 4,
            present@.len() == 4,
            crumb_views(out@) == shortcuts(present@, i as int),
        decreases 4 - i,
    {
        let ghost o0 = crumb_views(out@);
        if present[i] {
            let (name, path) = if i == 0 {
                ("Documents", "/docs")
            } else if i == 1 {
                ("Programs", "/bin")
            } else if i == 2 {
                ("Pictures", "/pictures")
            } else {
                ("Home", "/home")
            };
            out.push(Crumb { name: to_chars(name), path: to_chars(path) });
            proof {
                assert(crumb_views(out@) =~= o0.push(shortcut(i as int)));
            }
        }
        i += 1;
    }
    out
}

/// The name tried first for a copy: "name copy.ext".
pub open spec fn copy_name(name: Seq<char>, is_dir: bool) -> Seq<char> {
    let (stem, ext) = if is_dir { (name, Seq::empty()) } else { stem_and_ext(name) };
    stem + " copy"@ + ext
}

pub fn duplicate_name(name: &[char], is_dir: bool) -> (r: Vec<char>)
    ensures
        r@ == copy_name(name@, is_dir),
{
    proof {
        crate::text::lemma_rfind(name@, '.');
        reveal_strlit("");
    }
    let at: usize = if is_dir {
        name.len()
    } else {
        match rfind_char(name, '.') {
            Some(i) => if i > 0 { i } else { name.len() },
            None => name.len(),
        }
    };
    let mut out: Vec<char> = copy_range(name, 0, at);
    push_str(&mut out, " copy");
    let ext: Vec<char> = copy_range(name, at, name.len());
    push_all(&mut out, &ext);
    proof {
        assert(out@ =~= copy_name(name@, is_dir));
    }
    out
}

pub open spec fn folder_count(s: Seq<EntryState>) -> int
    decreases s.len(),
{
    if s.len() == 0 { 0 } else { folder_count(s.drop_last()) + if s.last().is_dir { 1int } else { 0 } }
}

pub open spec fn plural(n: int, word: Seq<char>) -> Seq<char> {
    dec(n as nat) + word + if n == 1 { ""@ } else { "s"@ }
}

/// The status line: the selected entry, or how many there are.
pub open spec fn status(s: Seq<EntryState>, selected: Option<usize>) -> Seq<char> {
    match selected {
        Some(i) if i < s.len() => {
            let e = s[i as int];
            "\u{201c}"@ + e.name + "\u{201d} selected"@ + if e.is_dir {
                Seq::empty()
            } else {
                " \u{2014} "@ + size_text(e.size as int)
            }
        },
        _ => plural(folder_count(s), " folder"@) + ", "@ + plural(s.len() - folder_count(s), " file"@),
    }
}

fn push_plural(out: &mut Vec<char>, n: u64, word: &str)
    ensures
        final(out)@ == old(out)@ + plural(n as int, word@),
{
    push_dec(out, n);
    push_str(out, word);
    push_str(out, if n == 1 { "" } else { "s" });
    proof {
        assert(out@ =~= old(out)@ + plural(n as int, word@));
    }
}

pub fn status_text(entries: &[DirEntry], selected: Option<usize>) -> (r: Vec<char>)
    ensures
        r@ == status(entries_of(entries@), selected),
{
    let ghost all = entries_of(entries@);
    let n: usize = entries.len();
    let mut out: Vec<char> = Vec::new();
    if let Some(i) = selected {
        if i < n {
            let e: &DirEntry = &entries[i];
            push_str(&mut out, "\u{201c}");
            push_str(&mut out, e.name.as_str());
            push_str(&mut out, "\u{201d} selected");
            if !e.is_dir {
                push_str(&mut out, " \u{2014} ");
                push_all(&mut out, &size_chars(e.size as u64));
            }
            proof {
                assert(all[i as int] == e@);
                assert(out@ =~= status(all, selected));
            }
            return out;
        }
    }
    let mut dirs: usize = 0;
    let mut i: usize = 0;
    proof {
        assert(all.take(0) =~= Seq::empty());
    }
    while i < n
        invariant
            i <= n == entries@.len(),
            all == entries_of(entries@),
            dirs == folder_count(all.take(i as int)),
            dirs <= i,
        decreases n - i,
    {
        proof {
            assert(all.take(i + 1).drop_last() =~= all.take(i as int));
            assert(all.take(i + 1).last() == entries@[i as int]@);
        }
        if entries[i].is_dir {
            dirs += 1;
        }
        i += 1;
    }
    proof {
        assert(all.take(n as int) =~= all);
    }
    push_plural(&mut out, dirs as u64, " folder");
    push_str(&mut out, ", ");
    push_plural(&mut out, (n - dirs) as u64, " file");
    proof {
        assert(out@ =~= status(all, selected));
    }
    out
}

} // verus!
