//! Texts of the Settings app.

use super::prefs::{Settings, Slider};
use crate::arch::rtc::DateTime;
use crate::arith::min;
use crate::fs::entry::{entries_of, DirEntry, EntryState};
use crate::gui::imageview::{pictures, siblings};
use crate::text::{
    copy, copy_range, dec, join, lemma_join_split, lemma_split_nonempty, pad_left, push_all, push_dec, push_dec_zeros, push_str, split, split_on, to_chars, views,
};
use vstd::prelude::*;

verus! {

/// "UTC+05:30"
pub open spec fn tz_text(off: int) -> Seq<char> {
    let a = if off < 0 { -off } else { off };
    "UTC"@ + (if off < 0 { "-"@ } else { "+"@ }) + pad_left(dec((a / 60) as nat), 2, '0') + ":"@ + pad_left(
        dec((a % 60) as nat),
        2,
        '0',
    )
}

pub fn tz_label(off: i32) -> (r: Vec<char>)
    ensures
        r@ == tz_text(off as int),
{
    let a: u64 = if off < 0 { (-(off as i64)) as u64 } else { off as u64 };
    let mut out: Vec<char> = to_chars("UTC");
    push_str(&mut out, if off < 0 { "-" } else { "+" });
    push_dec_zeros(&mut out, a / 60, 2);
    push_str(&mut out, ":");
    push_dec_zeros(&mut out, a % 60, 2);
    out
}

/// The shape of a screen mode, where it has a name.
pub open spec fn aspect(w: u32, h: u32) -> Option<Seq<char>> {
    if (w == 1920 && h == 1080) || (w == 1280 && h == 720) || (w == 1366 && h == 768) || (w == 1600 && h == 900) {
        Some("16:9"@)
    } else if (w == 1280 && h == 800) || (w == 1440 && h == 900) || (w == 1680 && h == 1050) {
        Some("16:10"@)
    } else if w == 1024 && h == 768 {
        Some("4:3"@)
    } else {
        None
    }
}

pub fn aspect_label(w: u32, h: u32) -> (r: Option<&'static str>)
    ensures
        match r {
            Some(s) => aspect(w, h) == Some(s@),
            None => aspect(w, h) is None,
        },
{
    if (w == 1920 && h == 1080) || (w == 1280 && h == 720) || (w == 1366 && h == 768) || (w == 1600 && h == 900) {
        Some("16:9")
    } else if (w == 1280 && h == 800) || (w == 1440 && h == 900) || (w == 1680 && h == 1050) {
        Some("16:10")
    } else if w == 1024 && h == 768 {
        Some("4:3")
    } else {
        None
    }
}

/// How fast keys repeat.
pub open spec fn repeat_text(k: u8) -> Seq<char> {
    if k <= 1 {
        "Slow"@
    } else if k == 2 {
        "Relaxed"@
    } else if k == 3 {
        "Normal"@
    } else if k == 4 {
        "Quick"@
    } else {
        "Fast"@
    }
}

pub fn repeat_label(k: u8) -> (r: &'static str)
    ensures
        r@ == repeat_text(k),
{
    if k <= 1 {
        "Slow"
    } else if k == 2 {
        "Relaxed"
    } else if k == 3 {
        "Normal"
    } else if k == 4 {
        "Quick"
    } else {
        "Fast"
    }
}

/// "1024 × 768"
pub open spec fn mode_text(w: u32, h: u32) -> Seq<char> {
    dec(w as nat) + " \u{00d7} "@ + dec(h as nat)
}

pub fn mode_label(w: u32, h: u32) -> (r: Vec<char>)
    ensures
        r@ == mode_text(w, h),
{
    let mut out: Vec<char> = Vec::new();
    push_dec(&mut out, w as u64);
    push_str(&mut out, " \u{00d7} ");
    push_dec(&mut out, h as u64);
    proof {
        assert(out@ =~= mode_text(w, h));
    }
    out
}

/// What stands beside a slider.
pub open spec fn slider_text(s: Settings, sl: Slider) -> Seq<char> {
    match sl {
        Slider::Volume => dec(s.volume as nat) + "%"@,
        Slider::PointerSpeed => dec(s.pointer_speed as nat),
        Slider::DoubleClick => dec(s.double_click_ms as nat) + " ms"@,
        Slider::KeyRepeat => repeat_text(s.key_repeat),
    }
}

pub fn slider_label(s: &Settings, sl: Slider) -> (r: Vec<char>)
    ensures
        r@ == slider_text(*s, sl),
{
    let mut out: Vec<char> = Vec::new();
    match sl {
        Slider::Volume => {
            push_dec(&mut out, s.volume as u64);
            push_str(&mut out, "%");
        },
        Slider::PointerSpeed => push_dec(&mut out, s.pointer_speed as u64),
        Slider::DoubleClick => {
            push_dec(&mut out, s.double_click_ms as u64);
            push_str(&mut out, " ms");
        },
        Slider::KeyRepeat => push_str(&mut out, repeat_label(s.key_repeat)),
    }
    proof {
        assert(out@ =~= slider_text(*s, sl));
    }
    out
}

/// "2024-12-09"
pub open spec fn date_text(t: DateTime) -> Seq<char> {
    pad_left(dec(t.year as nat), 4, '0') + "-"@ + pad_left(dec(t.month as nat), 2, '0') + "-"@ + pad_left(
        dec(t.day as nat),
        2,
        '0',
    )
}

pub fn date_label(t: &DateTime) -> (r: Vec<char>)
    ensures
        r@ == date_text(*t),
{
    let mut out: Vec<char> = Vec::new();
    push_dec_zeros(&mut out, t.year as u64, 4);
    push_str(&mut out, "-");
    push_dec_zeros(&mut out, t.month as u64, 2);
    push_str(&mut out, "-");
    push_dec_zeros(&mut out, t.day as u64, 2);
    proof {
        assert(out@ =~= date_text(*t));
    }
    out
}

pub open spec fn sum(v: Seq<u64>) -> int
    decreases v.len(),
{
    if v.len() == 0 { 0 } else { sum(v.drop_last()) + v.last() }
}

/// The result of three pings: how many replies came, and their average in
/// milliseconds.
pub open spec fn ping_result(target: Seq<char>, replies: Seq<u64>, error: Seq<char>) -> (Seq<char>, bool) {
    if replies.len() == 0 {
        ("Ping "@ + target + ": "@ + error, false)
    } else {
        let avg = sum(replies) / (replies.len() as int);
        (
            "Ping "@ + target + ": "@ + dec(replies.len()) + "/3 replies, average "@ + dec((avg / 1000) as nat) + "."@
                + dec(((avg % 1000) / 100) as nat) + " ms"@,
            true,
        )
    }
}

pub fn ping_summary(target: &str, replies: &[u64], error: &str) -> (r: (Vec<char>, bool))
    requires
        sum(replies@) <= u64::MAX,
    ensures
        (r.0@, r.1) == ping_result(target@, replies@, error@),
{
    let mut out: Vec<char> = to_chars("Ping ");
    push_str(&mut out, target);
    push_str(&mut out, ": ");
    if replies.len() == 0 {
        push_str(&mut out, error);
        return (out, false);
    }
    let mut total: u64 = 0;
    let mut i: usize = 0;
    while i < replies.len()
        invariant
            i <= replies@.len(),
            total == sum(replies@.take(i as int)),
            sum(replies@) <= u64::MAX,
        decreases replies@.len() - i,
    {
        proof {
            assert(replies@.take(i + 1).drop_last() =~= replies@.take(i as int));
            lemma_sum_grows(replies@, i + 1);
        }
        total = total + replies[i];
        i += 1;
    }
    proof {
        assert(replies@.take(replies@.len() as int) =~= replies@);
    }
    let avg: u64 = total / replies.len() as u64;
    push_dec(&mut out, replies.len() as u64);
    push_str(&mut out, "/3 replies, average ");
    push_dec(&mut out, avg / 1000);
    push_str(&mut out, ".");
    push_dec(&mut out, (avg % 1000) / 100);
    push_str(&mut out, " ms");
    (out, true)
}

proof fn lemma_sum_grows(v: Seq<u64>, k: int)
    requires
        0 <= k <= v.len(),
    ensures
        0 <= sum(v.take(k)) <= sum(v),
    decreases v.len(),
{
    if k == v.len() {
        assert(v.take(k) =~= v);
        if k > 0 {
            lemma_sum_grows(v.drop_last(), k - 1);
        }
    } else {
        lemma_sum_grows(v.drop_last(), k);
        assert(v.drop_last().take(k) =~= v.take(k));
    }
}

// ---------------------------------------------------------------------
// Word wrap
// ---------------------------------------------------------------------

/// Lines of words, each as long as `wide` lets it be; `wide` says whether a
/// text is too wide for a line. A word that is too wide alone has a line of
/// its own.
pub open spec fn wrap(words: Seq<Seq<char>>, wide: spec_fn(Seq<char>) -> bool) -> (Seq<Seq<char>>, Seq<char>)
    decreases words.len(),
{
    if words.len() == 0 {
        (Seq::empty(), Seq::empty())
    } else {
        let (lines, line) = wrap(words.drop_last(), wide);
        let w = words.last();
        let candidate = if line.len() == 0 { w } else { line.push(' ') + w };
        if wide(candidate) && line.len() > 0 { (lines.push(line), w) } else { (lines, candidate) }
    }
}

/// The lines that a note takes.
pub open spec fn note_lines(text: Seq<char>, wide: spec_fn(Seq<char>) -> bool) -> Seq<Seq<char>> {
    let (lines, line) = wrap(split(text, ' '), wide);
    if line.len() > 0 { lines.push(line) } else { lines }
}

/// Whether `f` can be asked about every text, and gives one answer for each.
pub open spec fn measures<F: Fn(&[char]) -> bool>(f: F) -> bool {
    &&& forall|s: &[char]| call_requires(f, (s,))
    &&& forall|s: &[char], t: &[char], a: bool, b: bool|
        #![trigger call_ensures(f, (s,), a), call_ensures(f, (t,), b)]
        s@ == t@ && call_ensures(f, (s,), a) && call_ensures(f, (t,), b) ==> a == b
}

/// The texts that `f` calls too wide.
pub open spec fn wide_for<F: Fn(&[char]) -> bool>(f: F) -> spec_fn(Seq<char>) -> bool {
    |s: Seq<char>| exists|t: &[char]| #[trigger] t@ == s && call_ensures(f, (t,), true)
}

/// Break a note into lines. `is_wide` says whether a text is too wide.
pub fn note<F: Fn(&[char]) -> bool>(text: &[char], is_wide: F) -> (r: Vec<Vec<char>>)
    requires
        measures(is_wide),
    ensures
        views(r@) == note_lines(text@, wide_for(is_wide)),
{
    let ghost wide = wide_for(is_wide);
    let words: Vec<Vec<char>> = split_on(text, ' ');
    let ghost all = views(words@);
    let mut lines: Vec<Vec<char>> = Vec::new();
    let mut line: Vec<char> = Vec::new();
    let mut i: usize = 0;
    proof {
        assert(all.take(0) =~= Seq::<Seq<char>>::empty());
        assert(views(lines@) =~= Seq::<Seq<char>>::empty());
    }
    while i < words.len()
        invariant
            i <= words@.len(),
            all == views(words@),
            measures(is_wide),
            wide == wide_for(is_wide),
            wrap(all.take(i as int), wide) == (views(lines@), line@),
        decreases words@.len() - i,
    {
        proof {
            assert(all.take(i + 1).drop_last() =~= all.take(i as int));
            assert(all.take(i + 1).last() == words@[i as int]@);
        }
        let mut candidate: Vec<char> = copy(&line);
        if candidate.len() > 0 {
            candidate.push(' ');
        }
        push_all(&mut candidate, &words[i]);
        proof {
            if line@.len() == 0 {
                assert(candidate@ =~= words@[i as int]@);
            } else {
                assert(candidate@ =~= line@.push(' ') + words@[i as int]@);
            }
        }
        let shown: &[char] = &candidate;
        let wide_now: bool = is_wide(shown);
        proof {
            assert(shown@ == candidate@ && call_ensures(is_wide, (shown,), wide_now));
            assert(wide_now == wide(candidate@)) by {
                if wide(candidate@) {
                    let t = choose|t: &[char]| #[trigger] t@ == candidate@ && call_ensures(is_wide, (t,), true);
                    assert(t@ == shown@ && call_ensures(is_wide, (t,), true));
                }
            }
        }
        if wide_now && line.len() > 0 {
            let ghost l0 = views(lines@);
            let ghost w0 = line@;
            let mut done: Vec<char> = copy(&words[i]);
            std::mem::swap(&mut done, &mut line);
            lines.push(done);
            proof {
                assert(views(lines@) =~= l0.push(w0));
            }
        } else {
            line = candidate;
        }
        i += 1;
    }
    proof {
        assert(all.take(all.len() as int) =~= all);
    }
    if line.len() > 0 {
        let ghost l0 = views(lines@);
        let ghost w0 = line@;
        lines.push(line);
        proof {
            assert(views(lines@) =~= l0.push(w0));
        }
    }
    lines
}

// ---------------------------------------------------------------------
// Pictures
// ---------------------------------------------------------------------

/// How many pictures are shown at most.
pub const MAX_PICTURES: usize = 30;

/// The folders that are looked through for pictures: two of the main disk
/// and three of each other one.
pub open spec fn picture_folders(points: Seq<Seq<char>>) -> Seq<Seq<char>>
    decreases points.len(),
{
    if points.len() == 0 {
        seq!["/pictures"@, "/home"@]
    } else {
        let p = points.last();
        let rest = picture_folders(points.drop_last());
        if p == "/"@ { rest } else { rest.push(p).push(p + "/pictures"@).push(p + "/Pictures"@) }
    }
}

pub fn picture_dirs(points: &[Vec<char>]) -> (r: Vec<Vec<char>>)
    ensures
        views(r@) == picture_folders(views(points@)),
{
    let mut out: Vec<Vec<char>> = Vec::new();
    out.push(to_chars("/pictures"));
    out.push(to_chars("/home"));
    let ghost all = views(points@);
    let mut i: usize = 0;
    proof {
        assert(all.take(0) =~= Seq::<Seq<char>>::empty());
        assert(views(out@) =~= picture_folders(all.take(0)));
    }
    while i < points.len()
        invariant
            i <= points@.len(),
            all == views(points@),
            views(out@) == picture_folders(all.take(i as int)),
        decreases points@.len() - i,
    {
        let p: &Vec<char> = &points[i];
        proof {
            assert(all.take(i + 1).drop_last() =~= all.take(i as int));
            assert(all.take(i + 1).last() == p@);
        }
        if !crate::text::is_str(p, "/") {
            let ghost o0 = views(out@);
            let mut a: Vec<char> = copy(p);
            push_str(&mut a, "/pictures");
            let mut b: Vec<char> = copy(p);
            push_str(&mut b, "/Pictures");
            out.push(copy(p));
            out.push(a);
            out.push(b);
            proof {
                assert(views(out@) =~= o0.push(p@).push(p@ + "/pictures"@).push(p@ + "/Pictures"@));
            }
        }
        i += 1;
    }
    proof {
        assert(all.take(all.len() as int) =~= all);
    }
    out
}

/// The pictures found so far and those of one more folder, as many as are
/// shown.
pub open spec fn with_pictures(found: Seq<Seq<char>>, dir: Seq<char>, entries: Seq<EntryState>) -> Seq<Seq<char>> {
    let all = found + pictures(dir, entries);
    all.take(min(all.len() as int, MAX_PICTURES as int))
}

/// Add the pictures of a folder to those that were found.
pub fn add_pictures(found: &mut Vec<Vec<char>>, dir: &[char], entries: &[DirEntry])
    requires
        old(found)@.len() <= MAX_PICTURES,
    ensures
        views(final(found)@) == with_pictures(views(old(found)@), dir@, entries_of(entries@)),
        final(found)@.len() <= MAX_PICTURES,
{
    let more: Vec<Vec<char>> = siblings(dir, entries);
    let ghost f = views(found@);
    let ghost all = f + views(more@);
    let mut i: usize = 0;
    proof {
        assert(f =~= all.take(f.len() as int));
    }
    while i < more.len() && found.len() < MAX_PICTURES
        invariant
            i <= more@.len(),
            found@.len() == f.len() + i <= MAX_PICTURES,
            all == f + views(more@),
            views(found@) == all.take(f.len() + i),
        decreases more@.len() - i,
    {
        let ghost f0 = views(found@);
        found.push(copy(&more[i]));
        proof {
            assert(views(found@) =~= f0.push(more@[i as int]@));
            assert(all.take(f.len() + i + 1) =~= f0.push(more@[i as int]@));
        }
        i += 1;
    }
}

/// What was found first stays, however many folders are looked through.
pub proof fn lemma_pictures_stay(found: Seq<Seq<char>>, dir: Seq<char>, entries: Seq<EntryState>)
    requires
        found.len() <= MAX_PICTURES,
    ensures
        with_pictures(found, dir, entries).len() <= MAX_PICTURES,
        found.is_prefix_of(with_pictures(found, dir, entries)),
{
}

/// A name cut to fit under a picture.
pub open spec fn short_name(name: Seq<char>) -> Seq<char> {
    if name.len() > 22 { name.take(21) + "\u{2026}"@ } else { name }
}

pub fn picture_label(name: &[char]) -> (r: Vec<char>)
    ensures
        r@ == short_name(name@),
{
    if name.len() > 22 {
        let mut out: Vec<char> = copy_range(name, 0, 21);
        push_str(&mut out, "\u{2026}");
        proof {
            assert(out@ =~= short_name(name@));
        }
        out
    } else {
        copy(name)
    }
}

/// An offset of so many hours and minutes is shown by these numbers, with
/// its sign.
pub proof fn lemma_tz_shown(h: int, m: int)
    requires
        0 <= h,
        0 <= m < 60,
    ensures
        tz_text(h * 60 + m) == "UTC"@ + "+"@ + pad_left(dec(h as nat), 2, '0') + ":"@ + pad_left(dec(m as nat), 2, '0'),
        h > 0 || m > 0 ==> tz_text(-(h * 60 + m)) == "UTC"@ + "-"@ + pad_left(dec(h as nat), 2, '0') + ":"@ + pad_left(
            dec(m as nat),
            2,
            '0',
        ),
{
    let a = h * 60 + m;
    assert(a / 60 == h && a % 60 == m);
}

proof fn lemma_wrapped(words: Seq<Seq<char>>, wide: spec_fn(Seq<char>) -> bool)
    requires
        words.len() > 0,
        forall|i: int| 0 <= i < words.len() ==> (#[trigger] words[i]).len() > 0,
    ensures
        ({
            let (lines, line) = wrap(words, wide);
            &&& line.len() > 0
            &&& join(lines.push(line), ' ') == join(words, ' ')
            &&& forall|k: int|
                0 <= k < lines.push(line).len() ==> !wide(#[trigger] lines.push(line)[k]) || words.contains(
                    lines.push(line)[k],
                )
        }),
    decreases words.len(),
{
    let d = words.drop_last();
    let w = words.last();
    let (lines, line) = wrap(d, wide);
    let (lines2, line2) = wrap(words, wide);
    assert(words[words.len() - 1] == w);
    assert(words.contains(w));
    if d.len() == 0 {
        assert(lines2.push(line2) =~= seq![w]);
        assert(words =~= seq![w]);
    } else {
        assert forall|i: int| 0 <= i < d.len() implies (#[trigger] d[i]).len() > 0 by {
            assert(words[i].len() > 0);
        }
        lemma_wrapped(d, wide);
        let all = lines.push(line);
        let all2 = lines2.push(line2);
        let candidate = line.push(' ') + w;
        if wide(candidate) {
            assert(all2.drop_last() =~= all);
        } else {
            assert(all.drop_last() =~= lines);
            assert(all2.drop_last() =~= lines);
            if lines.len() == 0 {
                assert(join(all, ' ') == line);
                assert(join(all2, ' ') == candidate);
            } else {
                let j = join(lines, ' ').push(' ');
                assert(j + candidate =~= (j + line).push(' ') + w);
            }
        }
        assert forall|k: int| 0 <= k < all2.len() implies !wide(#[trigger] all2[k]) || words.contains(all2[k]) by {
            if k < lines2.len() {
                assert(all2[k] == all[k]);
                if wide(all[k]) {
                    assert(d.contains(all[k]));
                    let i = choose|i: int| 0 <= i < d.len() && d[i] == all[k];
                    assert(words[i] == all[k]);
                }
            }
        }
    }
}

/// The lines of a note, one after the other, are the note, with each line
/// break in place of a blank; and no line is too wide, unless it is one
/// word.
pub proof fn lemma_note_kept(text: Seq<char>, wide: spec_fn(Seq<char>) -> bool)
    requires
        forall|i: int| 0 <= i < split(text, ' ').len() ==> (#[trigger] split(text, ' ')[i]).len() > 0,
    ensures
        join(note_lines(text, wide), ' ') == text,
        forall|k: int|
            0 <= k < note_lines(text, wide).len() ==> !wide(#[trigger] note_lines(text, wide)[k]) || split(
                text,
                ' ',
            ).contains(note_lines(text, wide)[k]),
{
    let words = split(text, ' ');
    lemma_split_nonempty(text, ' ');
    lemma_join_split(text, ' ');
    lemma_wrapped(words, wide);
}

} // verus!
