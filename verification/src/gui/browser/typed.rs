//! What the user types into the address bar.

use crate::text::{
    all_white, copy, has_char, is_str, lemma_trim_takes_margins, no_margin, occurs, occurs_at, push_all, push_str, starts,
    starts_with_str, to_chars, trim, trimmed,
};
use vstd::prelude::*;
use vstd::utf8::encode_utf8;

verus! {

/// What is typed: the home page, an address, or something to search for.
pub enum Typed {
    Home,
    /// An address to open; if it is none, search for the text.
    Address { url: Vec<char>, text: Vec<char> },
    Search(Vec<char>),
}

pub enum TypedState {
    Home,
    Address { url: Seq<char>, text: Seq<char> },
    Search(Seq<char>),
}

impl View for Typed {
    type V = TypedState;

    open spec fn view(&self) -> TypedState {
        match *self {
            Typed::Home => TypedState::Home,
            Typed::Address { url, text } => TypedState::Address { url: url@, text: text@ },
            Typed::Search(t) => TypedState::Search(t@),
        }
    }
}

/// Whether `p` stands somewhere in `s`.
pub open spec fn has_text(s: Seq<char>, p: Seq<char>) -> bool {
    exists|i: int| occurs_at(s, p, i)
}

/// A URL, a path or a search.
pub open spec fn meant(input: Seq<char>) -> TypedState {
    let t = trim(input);
    if t.len() == 0 || t == "about:home"@ {
        TypedState::Home
    } else if t[0] == '/' {
        TypedState::Address { url: "file://"@ + t, text: t }
    } else if has_text(t, "://"@) || (t.contains('.') && !t.contains(' ')) || starts(t, "localhost"@) {
        TypedState::Address { url: t, text: t }
    } else {
        TypedState::Search(t)
    }
}

/// A text with "://" in it that is no path is an address, opened as it
/// stands and never searched for, whatever white space is around it. So an
/// address that is shown can be typed in again.
pub proof fn lemma_url_opens_itself(a: Seq<char>, url: Seq<char>, b: Seq<char>, i: int)
    requires
        all_white(a),
        all_white(b),
        no_margin(url),
        0 <= i < url.len() - 2,
        url[i] == ':',
        url[i + 1] == '/',
        url[i + 2] == '/',
        url[0] != '/',
    ensures
        meant(a + url + b) == (TypedState::Address { url, text: url }),
{
    reveal_strlit("about:home");
    reveal_strlit("://");
    lemma_trim_takes_margins(a, url, b);
    assert(url.subrange(i, i + 3) =~= "://"@);
    assert(occurs_at(url, "://"@, i));
}

/// A path is opened as the file of that path, and the address that is shown
/// for it opens the same file again.
pub proof fn lemma_path_opens_file(a: Seq<char>, path: Seq<char>, b: Seq<char>)
    requires
        all_white(a),
        all_white(b),
        no_margin(path),
        path.len() > 0,
        path[0] == '/',
    ensures
        meant(a + path + b) == (TypedState::Address { url: "file://"@ + path, text: path }),
        meant("file://"@ + path) matches TypedState::Address { url, .. } && url == "file://"@ + path,
{
    reveal_strlit("about:home");
    reveal_strlit("file://");
    lemma_trim_takes_margins(a, path, b);
    let url = "file://"@ + path;
    let none = Seq::<char>::empty();
    lemma_url_opens_itself(none, url, none, 4);
    assert(none + url + none =~= url);
}

/// The name of a host, one word with a dot in it, is opened and not searched
/// for.
pub proof fn lemma_host_opens(a: Seq<char>, host: Seq<char>, b: Seq<char>, i: int)
    requires
        all_white(a),
        all_white(b),
        no_margin(host),
        0 <= i < host.len(),
        host[i] == '.',
        host[0] != '/',
        !host.contains(' '),
    ensures
        meant(a + host + b) == (TypedState::Address { url: host, text: host }),
{
    reveal_strlit("about:home");
    lemma_trim_takes_margins(a, host, b);
    assert(host.contains('.'));
}

/// Everything else is searched for, as it was typed but for the white space
/// around it: words without a colon or a slash, if there is no dot in them or
/// more than one of them.
pub proof fn lemma_words_are_searched(a: Seq<char>, words: Seq<char>, b: Seq<char>)
    requires
        all_white(a),
        all_white(b),
        no_margin(words),
        words.len() > 0,
        !words.contains(':'),
        !words.contains('/'),
        !starts(words, "localhost"@),
        !words.contains('.') || words.contains(' '),
    ensures
        meant(a + words + b) == TypedState::Search(words),
{
    reveal_strlit("about:home");
    reveal_strlit("://");
    lemma_trim_takes_margins(a, words, b);
    assert(words.contains(words[0]));
    if words == "about:home"@ {
        assert(words.contains(words[5]));
    }
    assert forall|i: int| !occurs_at(words, "://"@, i) by {
        if occurs_at(words, "://"@, i) {
            assert(words.subrange(i, i + 3)[0] == ':');
            assert(words.contains(words[i]));
        }
    }
}

/// Nothing but white space leads home.
pub proof fn lemma_blank_is_home(a: Seq<char>)
    requires
        all_white(a),
    ensures
        meant(a) is Home,
{
    let none = Seq::<char>::empty();
    lemma_trim_takes_margins(a, none, none);
    assert(a + none + none =~= a);
}

/// Whether `p` stands somewhere in `s`.
pub fn contains_text(s: &[char], p: &[char]) -> (r: bool)
    ensures
        r == has_text(s@, p@),
{
    let n: usize = s.len();
    let mut i: usize = 0;
    while i <= n
        invariant
            i <= n + 1,
            n == s@.len(),
            forall|k: int| 0 <= k < i ==> !occurs_at(s@, p@, k),
        decreases n + 1 - i,
    {
        if occurs(s, p, i) {
            proof {
                assert(occurs_at(s@, p@, i as int));
            }
            return true;
        }
        if i == n {
            proof {
                assert forall|k: int| !occurs_at(s@, p@, k) by {
                    if k > n {
                        assert(k + p@.len() > s@.len());
                    }
                }
            }
            return false;
        }
        i += 1;
    }
    false
}

/// What the user means by a text.
pub fn read_input(input: &[char]) -> (r: Typed)
    ensures
        r@ == meant(input@),
{
    let t: Vec<char> = trimmed(input);
    if t.len() == 0 || is_str(&t, "about:home") {
        return Typed::Home;
    }
    if t[0] == '/' {
        let mut url: Vec<char> = to_chars("file://");
        push_all(&mut url, &t);
        return Typed::Address { url, text: t };
    }
    if contains_text(&t, &to_chars("://")) || (has_char(&t, '.') && !has_char(&t, ' ')) || starts_with_str(
        &t,
        "localhost",
    ) {
        return Typed::Address { url: copy(&t), text: t };
    }
    Typed::Search(t)
}

// ---------------------------------------------------------------------
// Percent encoding
// ---------------------------------------------------------------------

/// Bytes that stand for themselves in a query.
pub open spec fn is_plain(b: u8) -> bool {
    ||| 48 <= b <= 57
    ||| 65 <= b <= 90
    ||| 97 <= b <= 122
    ||| b == 45 || b == 95 || b == 46 || b == 126
}

pub open spec fn upper_hex(d: int) -> char {
    if d < 10 { (48 + d) as char } else { (55 + d) as char }
}

pub open spec fn encoded_byte(b: u8) -> Seq<char> {
    if is_plain(b) {
        seq![b as char]
    } else if b == 32 {
        seq!['+']
    } else {
        seq!['%', upper_hex(b as int / 16), upper_hex(b as int % 16)]
    }
}

/// Bytes written as part of a query.
pub open spec fn encoded(s: Seq<u8>) -> Seq<char>
    decreases s.len(),
{
    if s.len() == 0 { Seq::empty() } else { encoded(s.drop_last()) + encoded_byte(s.last()) }
}

fn hex_char(d: u8) -> (r: char)
    requires
        d < 16,
    ensures
        r == upper_hex(d as int),
{
    if d < 10 { (48 + d) as char } else { (55 + d) as char }
}

pub fn encode_bytes(s: &[u8]) -> (r: Vec<char>)
    ensures
        r@ == encoded(s@),
{
    let mut out: Vec<char> = Vec::new();
    let mut i: usize = 0;
    while i < s.len()
        invariant
            i <= s@.len(),
            out@ == encoded(s@.take(i as int)),
        decreases s@.len() - i,
    {
        proof {
            assert(s@.take(i + 1).drop_last() =~= s@.take(i as int));
        }
        let b: u8 = s[i];
        let ghost o0 = out@;
        if (48 <= b && b <= 57) || (65 <= b && b <= 90) || (97 <= b && b <= 122) || b == 45 || b == 95 || b == 46 || b
            == 126 {
            out.push(b as char);
        } else if b == 32 {
            out.push('+');
        } else {
            out.push('%');
            out.push(hex_char(b / 16));
            out.push(hex_char(b % 16));
        }
        i += 1;
        proof {
            assert(out@ =~= o0 + encoded_byte(b));
        }
    }
    proof {
        assert(s@.take(s@.len() as int) =~= s@);
    }
    out
}

/// A text as part of a query.
pub fn url_encode(s: &str) -> (r: String)
    ensures
        r@ == encoded(encode_utf8(s@)),
{
    crate::text::to_text(&encode_bytes(s.as_bytes()))
}

/// The address of a search.
pub fn search_url(t: &[char]) -> (r: Vec<char>)
    ensures
        r@ == "https://html.duckduckgo.com/html/?q="@ + encoded(encode_utf8(t@)),
{
    let mut out: Vec<char> = to_chars("https://html.duckduckgo.com/html/?q=");
    let s: String = crate::text::to_text(t);
    push_str(&mut out, url_encode(s.as_str()).as_str());
    out
}

/// The value of an upper-case hexadecimal digit.
pub open spec fn hex_value(c: char) -> int {
    if '0' <= c && c <= '9' { c as int - 48 } else { c as int - 55 }
}

/// The bytes that a query stands for.
pub open spec fn decoded(s: Seq<char>) -> Seq<u8>
    decreases s.len(),
{
    if s.len() == 0 {
        Seq::empty()
    } else if s.last() == '+' {
        decoded(s.drop_last()).push(32u8)
    } else if s.len() >= 3 && s[s.len() - 3] == '%' {
        decoded(s.take(s.len() - 3)).push(
            (hex_value(s[s.len() - 2]) * 16 + hex_value(s[s.len() - 1])) as u8,
        )
    } else {
        decoded(s.drop_last()).push(s.last() as u8)
    }
}

/// A percent sign stands only before two digits.
proof fn lemma_encoded_tail(s: Seq<u8>)
    ensures
        encoded(s).len() >= 1 ==> encoded(s).last() != '%',
        encoded(s).len() >= 2 && !(s.len() > 0 && !is_plain(s.last()) && s.last() != 32) ==> encoded(s)[encoded(s).len()
            - 2] != '%',
    decreases s.len(),
{
    if s.len() > 0 {
        let d = s.drop_last();
        lemma_encoded_tail(d);
        let b = s.last();
        assert(encoded(s) == encoded(d) + encoded_byte(b));
        if is_plain(b) {
            assert(b as char != '%');
            if encoded(s).len() >= 2 {
                assert(encoded(s)[encoded(s).len() - 2] == encoded(d).last());
            }
        } else if b == 32 {
            if encoded(s).len() >= 2 {
                assert(encoded(s)[encoded(s).len() - 2] == encoded(d).last());
            }
        }
    }
}

/// What was encoded can be decoded again.
pub proof fn lemma_decode_encoded(s: Seq<u8>)
    ensures
        decoded(encoded(s)) == s,
    decreases s.len(),
{
    if s.len() > 0 {
        let d = s.drop_last();
        let b = s.last();
        lemma_decode_encoded(d);
        lemma_encoded_tail(d);
        lemma_encoded_tail(s);
        let e = encoded(s);
        assert(e == encoded(d) + encoded_byte(b));
        assert(d.push(b) =~= s);
        if is_plain(b) || b == 32 {
            assert(e.drop_last() =~= encoded(d));
            if b != 32 {
                assert(b as char != '+');
                if e.len() >= 3 {
                    // The third character from the end is the second of what
                    // comes before, and no percent sign with one digit is.
                    lemma_third(d);
                    assert(e[e.len() - 3] == encoded(d)[encoded(d).len() - 2]);
                }
            }
        } else {
            assert(e.take(e.len() - 3) =~= encoded(d));
            assert(e[e.len() - 3] == '%');
            assert(e.last() == upper_hex(b as int % 16));
            assert(e[e.len() - 2] == upper_hex(b as int / 16));
            assert(upper_hex(b as int % 16) != '+');
        }
    } else {
        assert(decoded(encoded(s)) =~= s);
    }
}

/// Before the last character of an encoded text there is no percent sign.
proof fn lemma_third(s: Seq<u8>)
    ensures
        encoded(s).len() >= 2 ==> encoded(s)[encoded(s).len() - 2] != '%',
{
    lemma_encoded_tail(s);
    if s.len() > 0 && !is_plain(s.last()) && s.last() != 32 {
        let e = encoded(s);
        assert(e == encoded(s.drop_last()) + encoded_byte(s.last()));
        assert(e[e.len() - 2] == upper_hex(s.last() as int / 16));
    }
}

} // verus!
