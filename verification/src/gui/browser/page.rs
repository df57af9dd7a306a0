//! What is made of what a server sends.

use super::typed::{contains_text, has_text};
use crate::fs::entry::{entries_of, DirEntry, EntryState};
use crate::text::{
    ends, ends_with, is_str, lower_all, lowered, push_all, push_dec, push_str, same, starts, starts_with_str,
    to_chars, to_text, views, dec,
};
use vstd::prelude::*;

verus! {

pub const MAX_IMAGES: usize = 60;

/// A character as it is written in a page.
pub open spec fn escaped_char(c: char) -> Seq<char> {
    if c == '&' {
        "&amp;"@
    } else if c == '<' {
        "&lt;"@
    } else if c == '>' {
        "&gt;"@
    } else if c == '"' {
        "&quot;"@
    } else {
        seq![c]
    }
}

pub open spec fn escaped(s: Seq<char>) -> Seq<char>
    decreases s.len(),
{
    if s.len() == 0 { Seq::empty() } else { escaped(s.drop_last()) + escaped_char(s.last()) }
}

/// Nothing in an escaped text can open a tag or end a quoted attribute.
pub proof fn lemma_escaped_is_harmless(s: Seq<char>)
    ensures
        !escaped(s).contains('<'),
        !escaped(s).contains('>'),
        !escaped(s).contains('"'),
    decreases s.len(),
{
    if s.len() > 0 {
        let d = s.drop_last();
        lemma_escaped_is_harmless(d);
        reveal_strlit("&amp;");
        reveal_strlit("&lt;");
        reveal_strlit("&gt;");
        reveal_strlit("&quot;");
        let e = escaped(s);
        let t = escaped_char(s.last());
        assert forall|i: int| 0 <= i < e.len() implies e[i] != '<' && e[i] != '>' && e[i] != '"' by {
            if i < escaped(d).len() {
                assert(escaped(d).contains(escaped(d)[i]));
            } else {
                assert(e[i] == t[i - escaped(d).len()]);
            }
        }
    }
}

pub fn push_escaped(out: &mut Vec<char>, s: &[char])
    ensures
        final(out)@ == old(out)@ + escaped(s@),
{
    let mut i: usize = 0;
    proof {
        assert(out@ =~= old(out)@ + escaped(s@.take(0)));
    }
    while i < s.len()
        invariant
            i <= s@.len(),
            out@ == old(out)@ + escaped(s@.take(i as int)),
        decreases s@.len() - i,
    {
        proof {
            assert(s@.take(i + 1).drop_last() =~= s@.take(i as int));
        }
        let ghost o0 = out@;
        let c: char = s[i];
        if c == '&' {
            push_str(out, "&amp;");
        } else if c == '<' {
            push_str(out, "&lt;");
        } else if c == '>' {
            push_str(out, "&gt;");
        } else if c == '"' {
            push_str(out, "&quot;");
        } else {
            out.push(c);
        }
        i += 1;
        proof {
            assert(out@ =~= o0 + escaped_char(c));
            assert(out@ =~= old(out)@ + escaped(s@.take(i as int)));
        }
    }
    proof {
        assert(s@.take(s@.len() as int) =~= s@);
    }
}

pub fn escape(s: &str) -> (r: String)
    ensures
        r@ == escaped(s@),
{
    let mut out: Vec<char> = Vec::new();
    push_escaped(&mut out, &to_chars(s));
    proof {
        assert(out@ =~= escaped(s@));
    }
    to_text(&out)
}

// ---------------------------------------------------------------------
// Pages that the browser makes
// ---------------------------------------------------------------------

/// One entry of a folder's page.
pub open spec fn entry_item(e: EntryState) -> Seq<char> {
    let n = escaped(e.name) + if e.is_dir { "/"@ } else { ""@ };
    "<li><a href=\""@ + n + "\">"@ + n + "</a></li>"@
}

pub open spec fn entry_items(s: Seq<EntryState>) -> Seq<char>
    decreases s.len(),
{
    if s.len() == 0 { Seq::empty() } else { entry_items(s.drop_last()) + entry_item(s.last()) }
}

/// The page of a folder on disk.
pub open spec fn folder_page(path: Seq<char>, s: Seq<EntryState>) -> Seq<char> {
    "<html><head><title>"@ + escaped(path) + "</title></head><body><h1>"@ + escaped(path) + "</h1><ul>"@ + (if path
        == "/"@ {
        Seq::empty()
    } else {
        "<li><a href=\"../\">..</a></li>"@
    }) + entry_items(s) + "</ul></body></html>"@
}

fn push_item(out: &mut Vec<char>, e: &DirEntry)
    ensures
        final(out)@ == old(out)@ + entry_item(e@),
{
    let mut n: Vec<char> = Vec::new();
    push_escaped(&mut n, &to_chars(e.name.as_str()));
    push_str(&mut n, if e.is_dir { "/" } else { "" });
    proof {
        assert(n@ =~= escaped(e@.name) + if e.is_dir { "/"@ } else { ""@ });
    }
    push_str(out, "<li><a href=\"");
    push_all(out, &n);
    push_str(out, "\">");
    push_all(out, &n);
    push_str(out, "</a></li>");
    proof {
        assert(out@ =~= old(out)@ + entry_item(e@));
    }
}

pub fn folder_html(path: &[char], entries: &[DirEntry]) -> (r: Vec<char>)
    ensures
        r@ == folder_page(path@, entries_of(entries@)),
{
    let mut out: Vec<char> = to_chars("<html><head><title>");
    push_escaped(&mut out, path);
    push_str(&mut out, "</title></head><body><h1>");
    push_escaped(&mut out, path);
    push_str(&mut out, "</h1><ul>");
    if !is_str(path, "/") {
        push_str(&mut out, "<li><a href=\"../\">..</a></li>");
    }
    let ghost all = entries_of(entries@);
    let mut items: Vec<char> = Vec::new();
    let mut i: usize = 0;
    proof {
        assert(all.take(0) =~= Seq::<EntryState>::empty());
    }
    while i < entries.len()
        invariant
            i <= entries@.len(),
            all == entries_of(entries@),
            items@ == entry_items(all.take(i as int)),
        decreases entries@.len() - i,
    {
        proof {
            assert(all.take(i + 1).drop_last() =~= all.take(i as int));
            assert(all.take(i + 1).last() == entries@[i as int]@);
        }
        push_item(&mut items, &entries[i]);
        i += 1;
    }
    proof {
        assert(all.take(all.len() as int) =~= all);
    }
    push_all(&mut out, &items);
    push_str(&mut out, "</ul></body></html>");
    proof {
        assert(out@ =~= folder_page(path@, all));
    }
    out
}

/// The page of a picture.
pub open spec fn picture_page(url: Seq<char>, path: Seq<char>) -> Seq<char> {
    "<html><head><title>"@ + escaped(url)
        + "</title></head><body style=\"background:#222222; text-align:center\"><img src=\""@ + escaped(path)
        + "\"></body></html>"@
}

pub fn image_html(url: &[char], path: &[char]) -> (r: Vec<char>)
    ensures
        r@ == picture_page(url@, path@),
{
    let mut out: Vec<char> = to_chars("<html><head><title>");
    push_escaped(&mut out, url);
    push_str(&mut out, "</title></head><body style=\"background:#222222; text-align:center\"><img src=\"");
    push_escaped(&mut out, path);
    push_str(&mut out, "\"></body></html>");
    out
}

/// The page of a plain text.
pub open spec fn text_page(text: Seq<char>) -> Seq<char> {
    "<html><body><pre>"@ + escaped(text) + "</pre></body></html>"@
}

pub fn text_html(text: &[char]) -> (r: Vec<char>)
    ensures
        r@ == text_page(text@),
{
    let mut out: Vec<char> = to_chars("<html><body><pre>");
    push_escaped(&mut out, text);
    push_str(&mut out, "</pre></body></html>");
    out
}

// ---------------------------------------------------------------------
// Kinds of content
// ---------------------------------------------------------------------

/// White space in front of a body of bytes.
pub open spec fn ascii_white(b: u8) -> bool {
    b == 32 || b == 9 || b == 10 || b == 12 || b == 13
}

/// The first byte that is no white space.
pub open spec fn first_solid(b: Seq<u8>) -> Option<u8>
    decreases b.len(),
{
    if b.len() == 0 {
        None
    } else if ascii_white(b[0]) {
        first_solid(b.skip(1))
    } else {
        Some(b[0])
    }
}

/// Whether a body is a page, by its content type, or by its path and first
/// character where it has none.
pub open spec fn html(content_type: Seq<char>, path: Seq<char>, body: Seq<u8>) -> bool {
    let ct = lower_all(content_type);
    let p = lower_all(path);
    ||| has_text(ct, "html"@)
    ||| ct.len() == 0 && (ends(p, ".html"@) || ends(p, ".htm"@) || ends(p, "/"@) || first_solid(body) == Some(60u8))
}

fn solid_byte(b: &[u8]) -> (r: Option<u8>)
    ensures
        r == first_solid(b@),
{
    let mut i: usize = 0;
    proof {
        assert(b@.skip(0) =~= b@);
    }
    while i < b.len()
        invariant
            i <= b@.len(),
            first_solid(b@) == first_solid(b@.skip(i as int)),
        decreases b@.len() - i,
    {
        let c: u8 = b[i];
        if !(c == 32 || c == 9 || c == 10 || c == 12 || c == 13) {
            return Some(c);
        }
        proof {
            assert(b@.skip(i as int).skip(1) =~= b@.skip(i + 1));
        }
        i += 1;
    }
    None
}

pub fn is_html(content_type: &[char], path: &[char], body: &[u8]) -> (r: bool)
    ensures
        r == html(content_type@, path@, body@),
{
    let ct: Vec<char> = lowered(content_type);
    if contains_text(&ct, &to_chars("html")) {
        return true;
    }
    if ct.len() > 0 {
        return false;
    }
    let p: Vec<char> = lowered(path);
    if ends_with(&p, &to_chars(".html")) || ends_with(&p, &to_chars(".htm")) || ends_with(&p, &to_chars("/")) {
        return true;
    }
    match solid_byte(body) {
        Some(c) => c == 60,
        None => false,
    }
}

/// What is to be made of an answer.
#[derive(Clone, Copy, Debug, PartialEq, Eq, Structural)]
pub enum Content {
    /// The server refused, and said nothing.
    Refused,
    Picture,
    Text,
    Page,
}

pub open spec fn content(status: u32, content_type: Seq<char>, path: Seq<char>, body: Seq<u8>, image: bool) -> Content {
    if status >= 400 && body.len() == 0 {
        Content::Refused
    } else if starts(lower_all(content_type), "image/"@) || image {
        Content::Picture
    } else if html(content_type, path, body) {
        Content::Page
    } else {
        Content::Text
    }
}

/// What is to be made of an answer; `looks_like_image` goes by the body.
pub fn classify(status: u32, content_type: &[char], path: &[char], body: &[u8], looks_like_image: bool) -> (r: Content)
    ensures
        r == content(status, content_type@, path@, body@, looks_like_image),
{
    if status >= 400 && body.len() == 0 {
        return Content::Refused;
    }
    if starts_with_str(&lowered(content_type), "image/") || looks_like_image {
        return Content::Picture;
    }
    if is_html(content_type, path, body) { Content::Page } else { Content::Text }
}

pub open spec fn refused(status: int) -> Seq<char> {
    "The server answered "@ + dec(status as nat) + "."@
}

pub fn refusal(status: u32) -> (r: Vec<char>)
    ensures
        r@ == refused(status as int),
{
    let mut out: Vec<char> = to_chars("The server answered ");
    push_dec(&mut out, status as u64);
    push_str(&mut out, ".");
    out
}

/// The pictures of a page that are to be loaded: each one once, and none
/// that the page holds itself.
pub open spec fn wanted_images(srcs: Seq<Seq<char>>) -> Seq<Seq<char>>
    decreases srcs.len(),
{
    if srcs.len() == 0 {
        Seq::empty()
    } else {
        let rest = wanted_images(srcs.drop_last());
        let s = srcs.last();
        if starts(s, "data:"@) || rest.contains(s) { rest } else { rest.push(s) }
    }
}

/// No picture is loaded twice.
pub proof fn lemma_wanted_once(srcs: Seq<Seq<char>>)
    ensures
        wanted_images(srcs).no_duplicates(),
    decreases srcs.len(),
{
    if srcs.len() > 0 {
        lemma_wanted_once(srcs.drop_last());
        let rest = wanted_images(srcs.drop_last());
        let w = wanted_images(srcs);
        assert forall|i: int, j: int| 0 <= i < w.len() && 0 <= j < w.len() && i != j implies w[i] != w[j] by {
            if i < rest.len() && j < rest.len() {
                assert(rest[i] != rest[j]);
            } else if i < rest.len() {
                assert(rest.contains(rest[i]));
            } else {
                assert(rest.contains(rest[j]));
            }
        }
    }
}

fn holds(v: &[Vec<char>], s: &[char]) -> (r: bool)
    ensures
        r == views(v@).contains(s@),
{
    let mut i: usize = 0;
    while i < v.len()
        invariant
            i <= v@.len(),
            forall|k: int| 0 <= k < i ==> (#[trigger] views(v@)[k]) != s@,
        decreases v@.len() - i,
    {
        if same(&v[i], s) {
            proof {
                assert(views(v@)[i as int] == s@);
            }
            return true;
        }
        i += 1;
    }
    false
}

pub fn image_list(srcs: &[Vec<char>]) -> (r: Vec<Vec<char>>)
    ensures
        views(r@) == wanted_images(views(srcs@)),
{
    let mut out: Vec<Vec<char>> = Vec::new();
    let ghost all = views(srcs@);
    let mut i: usize = 0;
    proof {
        assert(all.take(0) =~= Seq::<Seq<char>>::empty());
        assert(views(out@) =~= Seq::<Seq<char>>::empty());
    }
    while i < srcs.len()
        invariant
            i <= srcs@.len(),
            all == views(srcs@),
            views(out@) == wanted_images(all.take(i as int)),
        decreases srcs@.len() - i,
    {
        let s: &Vec<char> = &srcs[i];
        proof {
            assert(all.take(i + 1).drop_last() =~= all.take(i as int));
            assert(all.take(i + 1).last() == s@);
        }
        if !starts_with_str(s, "data:") && !holds(&out, s) {
            let ghost o0 = views(out@);
            out.push(crate::text::copy(s));
            proof {
                assert(views(out@) =~= o0.push(s@));
            }
        }
        i += 1;
    }
    proof {
        assert(all.take(all.len() as int) =~= all);
    }
    out
}

/// The size that a picture is kept at: no wider than 1600.
pub open spec fn size_kept(w: u32, h: u32) -> (u32, u32) {
    if w > 1600 {
        let k = h as int * 1600 / (w as int);
        (1600u32, (if k > 1 { k } else { 1 }) as u32)
    } else {
        (w, h)
    }
}

pub fn kept_size(w: u32, h: u32) -> (r: (u32, u32))
    ensures
        r == size_kept(w, h),
{
    if w > 1600 {
        let k: u64 = h as u64 * 1600 / w as u64;
        proof {
            assert(h as int * 1600 / (w as int) <= h) by (nonlinear_arith)
                requires
                    w > 1600,
                    h >= 0,
            ;
        }
        (1600, if k > 1 { k as u32 } else { 1 })
    } else {
        (w, h)
    }
}

pub open spec fn progress(what: Seq<char>, i: int, n: int) -> Seq<char> {
    "Loading "@ + what + " ("@ + dec(i as nat) + "/"@ + dec(n as nat) + ")\u{2026}"@
}

/// "Loading pictures (3/12)..."
pub fn progress_text(what: &str, i: u64, n: u64) -> (r: Vec<char>)
    ensures
        r@ == progress(what@, i as int, n as int),
{
    let mut out: Vec<char> = to_chars("Loading ");
    push_str(&mut out, what);
    push_str(&mut out, " (");
    push_dec(&mut out, i);
    push_str(&mut out, "/");
    push_dec(&mut out, n);
    push_str(&mut out, ")\u{2026}");
    out
}

// ---------------------------------------------------------------------
// Laws
// ---------------------------------------------------------------------

/// What a page shows of a piece of its text: a name between an ampersand and
/// a semicolon stands for a character.
pub open spec fn shown(s: Seq<char>) -> Seq<char>
    decreases s.len(),
{
    if s.len() == 0 {
        Seq::empty()
    } else if starts(s, seq!['&', 'a', 'm', 'p', ';']) {
        seq!['&'] + shown(s.skip(5))
    } else if starts(s, seq!['&', 'l', 't', ';']) {
        seq!['<'] + shown(s.skip(4))
    } else if starts(s, seq!['&', 'g', 't', ';']) {
        seq!['>'] + shown(s.skip(4))
    } else if starts(s, seq!['&', 'q', 'u', 'o', 't', ';']) {
        seq!['"'] + shown(s.skip(6))
    } else {
        seq![s[0]] + shown(s.skip(1))
    }
}

proof fn lemma_char_shown(c: char, rest: Seq<char>)
    ensures
        shown(escaped_char(c) + rest) == seq![c] + shown(rest),
{
    reveal_strlit("&amp;");
    reveal_strlit("&lt;");
    reveal_strlit("&gt;");
    reveal_strlit("&quot;");
    let amp = seq!['&', 'a', 'm', 'p', ';'];
    let lt = seq!['&', 'l', 't', ';'];
    let gt = seq!['&', 'g', 't', ';'];
    let quot = seq!['&', 'q', 'u', 'o', 't', ';'];
    assert("&amp;"@ =~= amp);
    assert("&lt;"@ =~= lt);
    assert("&gt;"@ =~= gt);
    assert("&quot;"@ =~= quot);
    crate::text::lemma_char_range(c);
    let e = escaped_char(c);
    let s = e + rest;
    let n = e.len() as int;
    assert(s.take(n) =~= e);
    assert(s.skip(n) =~= rest);
    assert(s[0] == e[0]);
    if c == '&' {
        assert(s.take(5) =~= amp);
    } else {
        assert(!starts(s, amp)) by {
            if starts(s, amp) {
                assert(s.take(5)[0] == amp[0] && s.take(5)[1] == amp[1]);
                assert(s[0] == amp[0]);
                assert(s[1] == amp[1]);
                assert(e[1] == s[1]);
            }
        }
        if c == '<' {
            assert(s.take(4) =~= lt);
        } else {
            assert(!starts(s, lt)) by {
                if starts(s, lt) {
                    assert(s.take(4)[0] == lt[0] && s.take(4)[1] == lt[1]);
                    assert(s[0] == lt[0]);
                    assert(s[1] == lt[1]);
                    assert(e[1] == s[1]);
                }
            }
            if c == '>' {
                assert(s.take(4) =~= gt);
            } else {
                assert(!starts(s, gt)) by {
                    if starts(s, gt) {
                        assert(s.take(4)[0] == gt[0] && s.take(4)[1] == gt[1]);
                        assert(s[0] == gt[0]);
                        assert(s[1] == gt[1]);
                        assert(e[1] == s[1]);
                    }
                }
                if c == '"' {
                    assert(s.take(6) =~= quot);
                } else {
                    assert(!starts(s, quot)) by {
                        if starts(s, quot) {
                            assert(s.take(6)[0] == quot[0]);
                            assert(s[0] == quot[0]);
                        }
                    }
                }
            }
        }
    }
}

proof fn lemma_shown_on(s: Seq<char>, rest: Seq<char>)
    ensures
        shown(escaped(s) + rest) == s + shown(rest),
    decreases s.len(),
{
    if s.len() == 0 {
        assert(escaped(s) + rest =~= rest);
        assert(s + shown(rest) =~= shown(rest));
    } else {
        let d = s.drop_last();
        let c = s.last();
        assert(escaped(s) + rest =~= escaped(d) + (escaped_char(c) + rest));
        lemma_shown_on(d, escaped_char(c) + rest);
        lemma_char_shown(c, rest);
        assert(d + (seq![c] + shown(rest)) =~= s + shown(rest));
    }
}

/// A text that was escaped is shown as it was.
pub proof fn lemma_escaped_is_shown(s: Seq<char>)
    ensures
        shown(escaped(s)) == s,
{
    let none = Seq::<char>::empty();
    lemma_shown_on(s, none);
    assert(escaped(s) + none =~= escaped(s));
    assert(shown(none) =~= none);
    assert(s + none =~= s);
}

/// Every picture that a page shows and does not hold itself is loaded, and no
/// other.
pub proof fn lemma_all_wanted(srcs: Seq<Seq<char>>, s: Seq<char>)
    ensures
        wanted_images(srcs).contains(s) <==> srcs.contains(s) && !starts(s, "data:"@),
    decreases srcs.len(),
{
    if srcs.len() > 0 {
        let d = srcs.drop_last();
        let l = srcs.last();
        lemma_all_wanted(d, s);
        let rest = wanted_images(d);
        let w = wanted_images(srcs);
        if srcs.contains(s) {
            let k = choose|k: int| 0 <= k < srcs.len() && srcs[k] == s;
            if k < d.len() {
                assert(d[k] == s);
            }
        }
        if d.contains(s) {
            let k = choose|k: int| 0 <= k < d.len() && d[k] == s;
            assert(srcs[k] == s);
        }
        assert(srcs[srcs.len() - 1] == l);
        if w == rest.push(l) {
            assert(w[rest.len() as int] == l);
            if rest.contains(s) {
                let k = choose|k: int| 0 <= k < rest.len() && rest[k] == s;
                assert(w[k] == s);
            }
            if w.contains(s) {
                let k = choose|k: int| 0 <= k < w.len() && w[k] == s;
                if k < rest.len() {
                    assert(rest[k] == s);
                }
            }
        }
    }
}

/// A picture is kept no wider than the limit; one that is not wider is kept
/// as it is, and a wider one keeps its shape to less than a dot.
pub proof fn lemma_shape_kept(w: u32, h: u32)
    requires
        h > 0,
    ensures
        ({
            let (a, b) = size_kept(w, h);
            &&& a <= 1600
            &&& w <= 1600 ==> (a, b) == (w, h)
            &&& w > 1600 ==> a == 1600 && b >= 1 && b <= h && (b > 1 ==> b * w <= h * 1600 < (b + 1) * w)
        }),
{
    if w > 1600 {
        let k = h as int * 1600 / (w as int);
        assert(k * w <= h * 1600 < (k + 1) * w && k <= h) by (nonlinear_arith)
            requires
                w > 1600,
                h > 0,
                k == h as int * 1600 / (w as int),
        ;
    }
}

} // verus!
