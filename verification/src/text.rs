//! Text as sequences of characters: conversion, searching, splitting,
//! trimming and the number formats that the rest of the system prints.

use vstd::prelude::*;
use vstd::utf8::{decode_utf8, encode_utf8, encode_utf8_decode_utf8, encode_utf8_valid_utf8, valid_utf8};

verus! {

/// `String::push` of the standard library: appends one character.
pub assume_specification[ String::push ](s: &mut String, c: char)
    ensures
        final(s)@ == old(s)@.push(c),
;

/// What `char::is_alphanumeric` says of a character: whether Unicode counts
/// it as a letter or a number.
pub uninterp spec fn alphanumeric(c: char) -> bool;

/// `char::is_alphanumeric` of the standard library depends on the character
/// alone.
pub assume_specification[ char::is_alphanumeric ](c: char) -> (r: bool)
    ensures
        r == alphanumeric(c),
;

/// What `String::from_utf8_lossy` makes of bytes that are not valid UTF-8.
pub uninterp spec fn utf8_lossy(b: Seq<u8>) -> Seq<char>;

/// `String::from_utf8_lossy` of the standard library: valid UTF-8 is read
/// as it is; of other bytes the text depends on the bytes alone.
#[verifier::external_body]
fn from_utf8_lossy(b: &[u8]) -> (r: String)
    ensures
        valid_utf8(b@) ==> r@ == decode_utf8(b@),
        !valid_utf8(b@) ==> r@ == utf8_lossy(b@),
{
    String::from_utf8_lossy(b).into_owned()
}

/// The text that a file of these bytes holds.
pub open spec fn read_text(b: Seq<u8>) -> Seq<char> {
    if valid_utf8(b) { decode_utf8(b) } else { utf8_lossy(b) }
}

pub fn text_of_bytes(b: &[u8]) -> (r: String)
    ensures
        r@ == read_text(b@),
{
    from_utf8_lossy(b)
}

/// `std::str::from_utf8` of the standard library: reads bytes as text; it
/// fails exactly where they are not valid UTF-8.
#[verifier::external_body]
pub(crate) fn utf8_text(b: &[u8]) -> (r: Option<String>)
    ensures
        r is Some == valid_utf8(b@),
        r matches Some(s) ==> s@ == decode_utf8(b@),
{
    std::str::from_utf8(b).ok().map(String::from)
}

/// A text that was written as UTF-8 is read back as it was.
pub proof fn lemma_read_back(s: Seq<char>)
    ensures
        read_text(encode_utf8(s)) == s,
{
    encode_utf8_valid_utf8(s);
    encode_utf8_decode_utf8(s);
}

// ---------------------------------------------------------------------
// Models
// ---------------------------------------------------------------------

/// The texts held by a list of character vectors.
pub open spec fn views(v: Seq<Vec<char>>) -> Seq<Seq<char>> {
    Seq::new(v.len(), |i: int| v[i]@)
}

/// The decimal digit character of `d`.
pub open spec fn digit(d: int) -> char {
    (48 + d) as char
}

/// Decimal notation of `n`.
pub open spec fn dec(n: nat) -> Seq<char>
    decreases n,
{
    if n < 10 {
        seq![digit(n as int)]
    } else {
        dec(n / 10).push(digit((n % 10) as int))
    }
}

/// The lower-case hexadecimal digit of `d`.
pub open spec fn hex_digit(d: int) -> char {
    if d < 10 {
        (48 + d) as char
    } else {
        (87 + d) as char
    }
}

/// Hexadecimal notation of `n`, without leading zeros.
pub open spec fn hex(n: nat) -> Seq<char>
    decreases n,
{
    if n < 16 {
        seq![hex_digit(n as int)]
    } else {
        hex(n / 16).push(hex_digit((n % 16) as int))
    }
}

/// `s` preceded by as many `fill` characters as it takes to reach `width`.
pub open spec fn pad_left(s: Seq<char>, width: nat, fill: char) -> Seq<char> {
    if s.len() >= width {
        s
    } else {
        Seq::new((width - s.len()) as nat, |i: int| fill) + s
    }
}

/// `s` followed by as many `fill` characters as it takes to reach `width`.
pub open spec fn pad_right(s: Seq<char>, width: nat, fill: char) -> Seq<char> {
    if s.len() >= width {
        s
    } else {
        s + Seq::new((width - s.len()) as nat, |i: int| fill)
    }
}

/// The pieces of `s` between the occurrences of `sep`; there is always at
/// least one.
pub open spec fn split(s: Seq<char>, sep: char) -> Seq<Seq<char>>
    decreases s.len(),
{
    if s.len() == 0 {
        seq![Seq::<char>::empty()]
    } else {
        let p = split(s.drop_last(), sep);
        if s.last() == sep {
            p.push(Seq::<char>::empty())
        } else {
            p.update(p.len() - 1, p.last().push(s.last()))
        }
    }
}

/// The pieces with `sep` between each two neighbours.
pub open spec fn join(parts: Seq<Seq<char>>, sep: char) -> Seq<char>
    decreases parts.len(),
{
    if parts.len() == 0 {
        Seq::empty()
    } else if parts.len() == 1 {
        parts[0]
    } else {
        join(parts.drop_last(), sep).push(sep) + parts.last()
    }
}

/// ASCII lower case of one character.
pub open spec fn lower(c: char) -> char {
    if 'A' <= c && c <= 'Z' {
        (c as u32 + 32) as char
    } else {
        c
    }
}

pub open spec fn lower_all(s: Seq<char>) -> Seq<char> {
    Seq::new(s.len(), |i: int| lower(s[i]))
}

/// The Unicode `White_Space` property.
pub open spec fn is_white(c: char) -> bool {
    let n = c as u32;
    ||| 9 <= n <= 13
    ||| n == 32
    ||| n == 0x85
    ||| n == 0xa0
    ||| n == 0x1680
    ||| 0x2000 <= n <= 0x200a
    ||| n == 0x2028
    ||| n == 0x2029
    ||| n == 0x202f
    ||| n == 0x205f
    ||| n == 0x3000
}

/// `s` without the white space it starts with.
pub open spec fn trim_start(s: Seq<char>) -> Seq<char>
    decreases s.len(),
{
    if s.len() > 0 && is_white(s[0]) {
        trim_start(s.skip(1))
    } else {
        s
    }
}

/// `s` without the white space it ends with.
pub open spec fn trim_end(s: Seq<char>) -> Seq<char>
    decreases s.len(),
{
    if s.len() > 0 && is_white(s.last()) {
        trim_end(s.drop_last())
    } else {
        s
    }
}

pub open spec fn trim(s: Seq<char>) -> Seq<char> {
    trim_end(trim_start(s))
}

/// Whether a text is white space and nothing else.
pub open spec fn all_white(s: Seq<char>) -> bool {
    forall|i: int| 0 <= i < s.len() ==> is_white(#[trigger] s[i])
}

/// Whether a text neither begins nor ends with white space.
pub open spec fn no_margin(s: Seq<char>) -> bool {
    s.len() > 0 ==> !is_white(s[0]) && !is_white(s.last())
}

proof fn lemma_trim_start(a: Seq<char>, t: Seq<char>)
    requires
        all_white(a),
        t.len() > 0 ==> !is_white(t[0]),
    ensures
        trim_start(a + t) == t,
    decreases a.len(),
{
    if a.len() == 0 {
        assert(a + t =~= t);
    } else {
        assert((a + t)[0] == a[0]);
        assert((a + t).skip(1) =~= a.skip(1) + t);
        lemma_trim_start(a.skip(1), t);
    }
}

proof fn lemma_trim_end(t: Seq<char>, b: Seq<char>)
    requires
        all_white(b),
        t.len() > 0 ==> !is_white(t.last()),
    ensures
        trim_end(t + b) == t,
    decreases b.len(),
{
    if b.len() == 0 {
        assert(t + b =~= t);
    } else {
        assert((t + b).last() == b[b.len() - 1]);
        assert((t + b).drop_last() =~= t + b.drop_last());
        lemma_trim_end(t, b.drop_last());
    }
}

/// Trimming takes the white space off both ends and leaves the rest: what
/// stands between margins comes out as it is.
pub proof fn lemma_trim_takes_margins(a: Seq<char>, t: Seq<char>, b: Seq<char>)
    requires
        all_white(a),
        no_margin(t),
        all_white(b),
    ensures
        trim(a + t + b) == t,
{
    if t.len() == 0 {
        assert(a + t + b =~= (a + b) + t);
        lemma_trim_start(a + b, t);
    } else {
        assert(a + t + b =~= a + (t + b));
        assert((t + b)[0] == t[0]);
        lemma_trim_start(a, t + b);
        lemma_trim_end(t, b);
    }
}

/// Every text is what is left of it by trimming, between two margins; so
/// trimming again changes nothing.
pub proof fn lemma_trim_splits(s: Seq<char>) -> (r: (Seq<char>, Seq<char>))
    ensures
        all_white(r.0),
        all_white(r.1),
        s == r.0 + trim(s) + r.1,
        no_margin(trim(s)),
        trim(trim(s)) == trim(s),
    decreases s.len(),
{
    let none = Seq::<char>::empty();
    if s.len() > 0 && is_white(s[0]) {
        let (a, b) = lemma_trim_splits(s.skip(1));
        assert(s =~= seq![s[0]] + s.skip(1));
        assert(s =~= (seq![s[0]] + a) + trim(s) + b);
        (seq![s[0]] + a, b)
    } else if s.len() > 0 && is_white(s.last()) {
        let d = s.drop_last();
        assert(d[0] == s[0]);
        let (a, b) = lemma_trim_splits(d);
        assert(s =~= d.push(s.last()));
        assert(s =~= a + trim(s) + b.push(s.last()));
        (a, b.push(s.last()))
    } else {
        assert(s =~= none + s + none);
        lemma_trim_takes_margins(none, s, none);
        (none, none)
    }
}

/// `s` without the copies of `c` it ends with.
pub open spec fn trim_end_char(s: Seq<char>, c: char) -> Seq<char>
    decreases s.len(),
{
    if s.len() > 0 && s.last() == c {
        trim_end_char(s.drop_last(), c)
    } else {
        s
    }
}

/// Whether `s` begins with `p`.
pub open spec fn starts(s: Seq<char>, p: Seq<char>) -> bool {
    s.len() >= p.len() && s.take(p.len() as int) == p
}

/// Whether `s` ends with `p`.
pub open spec fn ends(s: Seq<char>, p: Seq<char>) -> bool {
    s.len() >= p.len() && s.skip(s.len() - p.len()) == p
}

/// Whether `p` stands in `s` at `i`.
pub open spec fn occurs_at(s: Seq<char>, p: Seq<char>, i: int) -> bool {
    0 <= i && i + p.len() <= s.len() && s.subrange(i, i + p.len()) == p
}

/// Position of the last `c` in `s`.
pub open spec fn rfind(s: Seq<char>, c: char) -> Option<int>
    decreases s.len(),
{
    if s.len() == 0 {
        None
    } else if s.last() == c {
        Some(s.len() - 1)
    } else {
        rfind(s.drop_last(), c)
    }
}

/// How many characters at the start of `s` equal `c`.
pub open spec fn run_of(s: Seq<char>, c: char) -> nat
    decreases s.len(),
{
    if s.len() > 0 && s[0] == c {
        1 + run_of(s.skip(1), c)
    } else {
        0
    }
}

// ---------------------------------------------------------------------
// Laws of the models
// ---------------------------------------------------------------------

pub proof fn lemma_split_nonempty(s: Seq<char>, sep: char)
    ensures
        split(s, sep).len() >= 1,
    decreases s.len(),
{
    if s.len() > 0 {
        lemma_split_nonempty(s.drop_last(), sep);
    }
}

/// Joining the pieces of a split gives the text back.
pub proof fn lemma_join_split(s: Seq<char>, sep: char)
    ensures
        join(split(s, sep), sep) == s,
    decreases s.len(),
{
    if s.len() == 0 {
        assert(split(s, sep) =~= seq![Seq::<char>::empty()]);
        assert(join(split(s, sep), sep) =~= s);
    } else {
        let t = s.drop_last();
        let p = split(t, sep);
        lemma_split_nonempty(t, sep);
        lemma_join_split(t, sep);
        let q = split(s, sep);
        if s.last() == sep {
            assert(q.drop_last() =~= p);
            assert(join(q, sep) =~= s);
        } else {
            assert(q.drop_last() =~= p.drop_last());
            if p.len() > 1 {
                assert(join(q, sep) =~= join(p, sep).push(s.last()));
            }
            assert(join(q, sep) =~= s);
        }
    }
}

/// No piece of a split holds the separator.
pub proof fn lemma_split_pieces(s: Seq<char>, sep: char)
    ensures
        forall|i: int| 0 <= i < split(s, sep).len() ==> !(#[trigger] split(s, sep)[i]).contains(sep),
    decreases s.len(),
{
    if s.len() > 0 {
        let t = s.drop_last();
        let p = split(t, sep);
        lemma_split_nonempty(t, sep);
        lemma_split_pieces(t, sep);
        let q = split(s, sep);
        assert forall|i: int| 0 <= i < q.len() implies !(#[trigger] q[i]).contains(sep) by {
            if s.last() == sep {
                if i < p.len() {
                    assert(q[i] == p[i]);
                }
            } else if i == p.len() - 1 {
                assert(q[i] == p[i].push(s.last()));
                assert(!p[i].contains(sep));
                if q[i].contains(sep) {
                    let k = choose|k: int| 0 <= k < q[i].len() && q[i][k] == sep;
                    assert(k < p[i].len());
                    assert(p[i][k] == sep);
                }
            } else {
                assert(q[i] == p[i]);
            }
        }
    }
}

/// Splitting what was joined gives the pieces back, if none holds the
/// separator.
pub proof fn lemma_split_join(parts: Seq<Seq<char>>, sep: char)
    requires
        parts.len() >= 1,
        forall|i: int| 0 <= i < parts.len() ==> !(#[trigger] parts[i]).contains(sep),
    ensures
        split(join(parts, sep), sep) == parts,
    decreases parts.len(), parts.last().len(),
{
    let s = join(parts, sep);
    let l = parts.last();
    if l.len() == 0 {
        if parts.len() == 1 {
            assert(s =~= Seq::<char>::empty());
            assert(split(s, sep) =~= parts);
        } else {
            let rest = parts.drop_last();
            assert forall|i: int| 0 <= i < rest.len() implies !(#[trigger] rest[i]).contains(sep) by {
                assert(rest[i] == parts[i]);
            }
            lemma_split_join(rest, sep);
            assert(s.drop_last() =~= join(rest, sep));
            assert(s.last() == sep);
            assert(l =~= Seq::<char>::empty());
            assert(split(s, sep) =~= parts);
        }
    } else {
        let shorter = parts.update(parts.len() - 1, l.drop_last());
        assert forall|i: int| 0 <= i < shorter.len() implies !(#[trigger] shorter[i]).contains(sep) by {
            assert(!parts[i].contains(sep));
            if shorter[i].contains(sep) {
                let k = choose|k: int| 0 <= k < shorter[i].len() && shorter[i][k] == sep;
                assert(parts[i][k] == sep);
            }
        }
        lemma_split_join(shorter, sep);
        assert(shorter.drop_last() =~= parts.drop_last());
        assert(s.drop_last() =~= join(shorter, sep));
        assert(s.last() == l.last());
        assert(l.last() != sep) by {
            assert(!parts[parts.len() - 1].contains(sep));
            assert(l[l.len() - 1] == l.last());
        }
        assert(shorter.last().push(l.last()) =~= l);
        assert(split(s, sep) =~= parts);
    }
}

/// Joining across a piece that is cut in two.
pub proof fn lemma_join_cut(a: Seq<Seq<char>>, x: Seq<char>, y: Seq<char>, b: Seq<Seq<char>>, sep: char)
    ensures
        join(a.push(x + y) + b, sep) == join(a.push(x), sep) + join(seq![y] + b, sep),
    decreases b.len(),
{
    let whole = a.push(x + y) + b;
    let right = seq![y] + b;
    if b.len() == 0 {
        assert(whole =~= a.push(x + y));
        assert(right =~= seq![y]);
        assert(whole.drop_last() =~= a);
        assert(a.push(x).drop_last() =~= a);
        assert(join(right, sep) =~= y);
        if a.len() == 0 {
            assert(join(whole, sep) =~= x + y);
            assert(join(a.push(x), sep) =~= x);
        }
        assert(join(whole, sep) =~= join(a.push(x), sep) + y);
    } else {
        lemma_join_cut(a, x, y, b.drop_last(), sep);
        assert(whole.drop_last() =~= a.push(x + y) + b.drop_last());
        assert(right.drop_last() =~= seq![y] + b.drop_last());
        assert(join(whole, sep) =~= join(a.push(x), sep) + join(right, sep));
    }
}

/// Joining two runs of pieces.
pub proof fn lemma_join_append(a: Seq<Seq<char>>, b: Seq<Seq<char>>, sep: char)
    requires
        a.len() > 0,
        b.len() > 0,
    ensures
        join(a + b, sep) == join(a, sep).push(sep) + join(b, sep),
    decreases b.len(),
{
    if b.len() == 1 {
        assert((a + b).drop_last() =~= a);
        assert(join(a + b, sep) =~= join(a, sep).push(sep) + join(b, sep));
    } else {
        lemma_join_append(a, b.drop_last(), sep);
        assert((a + b).drop_last() =~= a + b.drop_last());
        assert(join(a + b, sep) =~= join(a, sep).push(sep) + join(b, sep));
    }
}

/// `rfind` finds the last occurrence.
pub proof fn lemma_rfind(s: Seq<char>, c: char)
    ensures
        match rfind(s, c) {
            Some(i) => 0 <= i < s.len() && s[i] == c && forall|j: int| i < j < s.len() ==> s[j] != c,
            None => !s.contains(c),
        },
    decreases s.len(),
{
    if s.len() > 0 && s.last() != c {
        lemma_rfind(s.drop_last(), c);
        match rfind(s, c) {
            Some(i) => {
                assert forall|j: int| i < j < s.len() implies s[j] != c by {
                    if j < s.len() - 1 {
                        assert(s.drop_last()[j] == s[j]);
                    }
                }
            },
            None => {
                assert forall|j: int| 0 <= j < s.len() implies s[j] != c by {
                    if j < s.len() - 1 {
                        assert(s.drop_last()[j] == s[j]);
                    }
                }
            },
        }
    }
}

pub proof fn lemma_run_of(s: Seq<char>, c: char)
    ensures
        run_of(s, c) <= s.len(),
        forall|i: int| 0 <= i < run_of(s, c) ==> s[i] == c,
        run_of(s, c) < s.len() ==> s[run_of(s, c) as int] != c,
    decreases s.len(),
{
    if s.len() > 0 && s[0] == c {
        let t = s.skip(1);
        lemma_run_of(t, c);
        assert forall|i: int| 0 <= i < run_of(s, c) implies s[i] == c by {
            if i > 0 {
                assert(t[i - 1] == s[i]);
            }
        }
        if run_of(s, c) < s.len() {
            assert(t[run_of(t, c) as int] == s[run_of(s, c) as int]);
        }
    }
}

/// `run_of` is the only number with these two properties.
pub proof fn lemma_run_of_unique(s: Seq<char>, c: char, n: nat)
    requires
        n <= s.len(),
        forall|i: int| 0 <= i < n ==> s[i] == c,
        n < s.len() ==> s[n as int] != c,
    ensures
        run_of(s, c) == n,
{
    lemma_run_of(s, c);
    let r = run_of(s, c);
    if r < n {
        assert(s[r as int] == c);
    }
    if n < r {
        assert(s[n as int] == c);
    }
}

pub proof fn lemma_dec_nonempty(n: nat)
    ensures
        dec(n).len() >= 1,
    decreases n,
{
    if n >= 10 {
        lemma_dec_nonempty(n / 10);
    }
}

/// A decimal numeral consists of digits only.
pub proof fn lemma_dec_digits(n: nat)
    ensures
        forall|i: int| 0 <= i < dec(n).len() ==> '0' <= #[trigger] dec(n)[i] && dec(n)[i] <= '9',
    decreases n,
{
    if n >= 10 {
        lemma_dec_digits(n / 10);
        assert forall|i: int| 0 <= i < dec(n).len() implies '0' <= #[trigger] dec(n)[i] && dec(n)[i] <= '9' by {
            if i < dec(n).len() - 1 {
                assert(dec(n)[i] == dec(n / 10)[i]);
            }
        }
    }
}

pub proof fn lemma_trim_end_char(s: Seq<char>, c: char)
    ensures
        trim_end_char(s, c).len() <= s.len(),
        trim_end_char(s, c) == s.take(trim_end_char(s, c).len() as int),
        trim_end_char(s, c).len() > 0 ==> trim_end_char(s, c).last() != c,
    decreases s.len(),
{
    if s.len() > 0 && s.last() == c {
        lemma_trim_end_char(s.drop_last(), c);
        let t = trim_end_char(s, c);
        assert(s.take(t.len() as int) =~= s.drop_last().take(t.len() as int));
    } else {
        assert(s.take(s.len() as int) =~= s);
    }
}

// ---------------------------------------------------------------------
// Conversion
// ---------------------------------------------------------------------

/// The characters of a string.
pub fn to_chars(s: &str) -> (r: Vec<char>)
    ensures
        r@ == s@,
{
    let mut out: Vec<char> = Vec::new();
    for c in it: s.chars()
        invariant
            out@ == it.seq().take(it.index()),
            it.seq() == s@,
    {
        out.push(c);
    }
    proof {
        assert(s@.take(s@.len() as int) =~= s@);
    }
    out
}

/// The string that holds these characters.
pub fn to_text(v: &[char]) -> (r: String)
    ensures
        r@ == v@,
{
    let mut out: String = String::new();
    let mut i: usize = 0;
    while i < v.len()
        invariant
            i <= v@.len(),
            out@ == v@.take(i as int),
        decreases v@.len() - i,
    {
        out.push(v[i]);
        proof {
            assert(v@.take(i + 1) =~= v@.take(i as int).push(v@[i as int]));
        }
        i += 1;
    }
    proof {
        assert(v@.take(v@.len() as int) =~= v@);
    }
    out
}

/// Append a run of characters.
pub fn push_all(out: &mut Vec<char>, v: &[char])
    ensures
        final(out)@ == old(out)@ + v@,
{
    let mut i: usize = 0;
    while i < v.len()
        invariant
            i <= v@.len(),
            out@ == old(out)@ + v@.take(i as int),
        decreases v@.len() - i,
    {
        out.push(v[i]);
        proof {
            assert(v@.take(i + 1) =~= v@.take(i as int).push(v@[i as int]));
        }
        i += 1;
    }
    proof {
        assert(v@.take(v@.len() as int) =~= v@);
    }
}

/// Append the characters of a string.
pub fn push_str(out: &mut Vec<char>, s: &str)
    ensures
        final(out)@ == old(out)@ + s@,
{
    let v: Vec<char> = to_chars(s);
    push_all(out, &v);
}

/// A copy of part of a text.
pub fn copy_range(v: &[char], from: usize, to: usize) -> (r: Vec<char>)
    requires
        from <= to <= v@.len(),
    ensures
        r@ == v@.subrange(from as int, to as int),
{
    let mut out: Vec<char> = Vec::new();
    let mut i: usize = from;
    while i < to
        invariant
            from <= i <= to <= v@.len(),
            out@ == v@.subrange(from as int, i as int),
        decreases to - i,
    {
        out.push(v[i]);
        proof {
            assert(v@.subrange(from as int, i + 1) =~= v@.subrange(from as int, i as int).push(v@[i as int]));
        }
        i += 1;
    }
    out
}

/// A copy of a text.
pub fn copy(v: &[char]) -> (r: Vec<char>)
    ensures
        r@ == v@,
{
    let r: Vec<char> = copy_range(v, 0, v.len());
    proof {
        assert(v@.subrange(0, v@.len() as int) =~= v@);
    }
    r
}

// ---------------------------------------------------------------------
// Comparison and searching
// ---------------------------------------------------------------------

/// Whether two texts are equal.
pub fn same(a: &[char], b: &[char]) -> (r: bool)
    ensures
        r == (a@ == b@),
{
    if a.len() != b.len() {
        return false;
    }
    let mut i: usize = 0;
    while i < a.len()
        invariant
            i <= a@.len(),
            a@.len() == b@.len(),
            forall|j: int| 0 <= j < i ==> a@[j] == b@[j],
        decreases a@.len() - i,
    {
        if a[i] != b[i] {
            return false;
        }
        i += 1;
    }
    proof {
        assert(a@ =~= b@);
    }
    true
}

/// Whether a text is exactly this string.
pub fn is_str(a: &[char], s: &str) -> (r: bool)
    ensures
        r == (a@ == s@),
{
    let b: Vec<char> = to_chars(s);
    same(a, &b)
}

/// Whether two strings are equal.
pub fn same_str(a: &str, b: &str) -> (r: bool)
    ensures
        r == (a@ == b@),
{
    let x: Vec<char> = to_chars(a);
    is_str(&x, b)
}

/// Whether `p` stands in `s` at `i`.
pub fn occurs(s: &[char], p: &[char], i: usize) -> (r: bool)
    ensures
        r == occurs_at(s@, p@, i as int),
{
    if i > s.len() || p.len() > s.len() - i {
        return false;
    }
    let n: usize = s.len();
    let mut j: usize = 0;
    while j < p.len()
        invariant
            i + p@.len() <= n == s@.len(),
            j <= p@.len(),
            forall|k: int| 0 <= k < j ==> s@[i + k] == p@[k],
        decreases p@.len() - j,
    {
        if s[i + j] != p[j] {
            proof {
                assert(s@.subrange(i as int, i + p@.len())[j as int] == s@[i + j]);
            }
            return false;
        }
        j += 1;
    }
    proof {
        assert(s@.subrange(i as int, i + p@.len()) =~= p@);
    }
    true
}

pub fn starts_with(s: &[char], p: &[char]) -> (r: bool)
    ensures
        r == starts(s@, p@),
{
    let r: bool = occurs(s, p, 0);
    proof {
        if s@.len() >= p@.len() {
            assert(s@.subrange(0, p@.len() as int) =~= s@.take(p@.len() as int));
        }
    }
    r
}

pub fn starts_with_str(s: &[char], p: &str) -> (r: bool)
    ensures
        r == starts(s@, p@),
{
    let v: Vec<char> = to_chars(p);
    starts_with(s, &v)
}

pub fn ends_with(s: &[char], p: &[char]) -> (r: bool)
    ensures
        r == ends(s@, p@),
{
    if p.len() > s.len() {
        return false;
    }
    let r: bool = occurs(s, p, s.len() - p.len());
    proof {
        assert(s@.subrange(s@.len() - p@.len(), s@.len() as int) =~= s@.skip(s@.len() - p@.len()));
    }
    r
}

/// Whether `c` occurs in `s`.
pub fn has_char(s: &[char], c: char) -> (r: bool)
    ensures
        r == s@.contains(c),
{
    let mut i: usize = 0;
    while i < s.len()
        invariant
            i <= s@.len(),
            forall|j: int| 0 <= j < i ==> s@[j] != c,
        decreases s@.len() - i,
    {
        if s[i] == c {
            return true;
        }
        i += 1;
    }
    false
}

/// First position of `c` in `s`.
pub fn find_char(s: &[char], c: char) -> (r: Option<usize>)
    ensures
        match r {
            Some(i) => i < s@.len() && s@[i as int] == c && forall|j: int| 0 <= j < i ==> s@[j] != c,
            None => !s@.contains(c),
        },
{
    let mut i: usize = 0;
    while i < s.len()
        invariant
            i <= s@.len(),
            forall|j: int| 0 <= j < i ==> s@[j] != c,
        decreases s@.len() - i,
    {
        if s[i] == c {
            return Some(i);
        }
        i += 1;
    }
    None
}

/// Last position of `c` in `s`.
pub fn rfind_char(s: &[char], c: char) -> (r: Option<usize>)
    ensures
        match r {
            Some(i) => rfind(s@, c) == Some(i as int),
            None => rfind(s@, c) is None,
        },
{
    let mut n: usize = s.len();
    proof {
        assert(s@.take(n as int) =~= s@);
    }
    while n > 0
        invariant
            n <= s@.len(),
            rfind(s@, c) == rfind(s@.take(n as int), c),
        decreases n,
    {
        proof {
            assert(s@.take(n as int).drop_last() =~= s@.take(n - 1));
            assert(s@.take(n as int).last() == s@[n - 1]);
        }
        if s[n - 1] == c {
            return Some(n - 1);
        }
        n -= 1;
    }
    None
}

/// How many characters at the start of `s` equal `c`.
pub fn count_run(s: &[char], c: char) -> (r: usize)
    ensures
        r == run_of(s@, c),
{
    let mut i: usize = 0;
    while i < s.len() && s[i] == c
        invariant
            i <= s@.len(),
            forall|j: int| 0 <= j < i ==> s@[j] == c,
        decreases s@.len() - i,
    {
        i += 1;
    }
    proof {
        lemma_run_of_unique(s@, c, i as nat);
    }
    i
}

// ---------------------------------------------------------------------
// Splitting, joining, trimming, case
// ---------------------------------------------------------------------

pub fn split_on(s: &[char], sep: char) -> (r: Vec<Vec<char>>)
    ensures
        views(r@) == split(s@, sep),
{
    let mut out: Vec<Vec<char>> = Vec::new();
    let mut cur: Vec<char> = Vec::new();
    let mut i: usize = 0;
    proof {
        assert(views(out@).push(cur@) =~= split(s@.take(0), sep));
    }
    while i < s.len()
        invariant
            i <= s@.len(),
            views(out@).push(cur@) == split(s@.take(i as int), sep),
        decreases s@.len() - i,
    {
        let ghost before = split(s@.take(i as int), sep);
        let c: char = s[i];
        proof {
            assert(s@.take(i + 1).drop_last() =~= s@.take(i as int));
            assert(s@.take(i + 1).last() == c);
        }
        if c == sep {
            let ghost o = out@;
            let ghost q = cur@;
            out.push(cur);
            cur = Vec::new();
            proof {
                assert(views(out@) =~= views(o).push(q));
                assert(views(out@).push(cur@) =~= before.push(Seq::<char>::empty()));
            }
        } else {
            let ghost q = cur@;
            cur.push(c);
            proof {
                assert(views(out@).push(cur@) =~= before.update(before.len() - 1, before.last().push(c)));
            }
        }
        i += 1;
    }
    let ghost o = out@;
    let ghost q = cur@;
    out.push(cur);
    proof {
        assert(s@.take(s@.len() as int) =~= s@);
        assert(views(out@) =~= views(o).push(q));
    }
    out
}

pub fn join_with(parts: &[Vec<char>], sep: char) -> (r: Vec<char>)
    ensures
        r@ == join(views(parts@), sep),
{
    let mut out: Vec<char> = Vec::new();
    let mut i: usize = 0;
    while i < parts.len()
        invariant
            i <= parts@.len(),
            out@ == join(views(parts@).take(i as int), sep),
        decreases parts@.len() - i,
    {
        if i > 0 {
            out.push(sep);
        }
        push_all(&mut out, &parts[i]);
        proof {
            let p = views(parts@).take(i + 1);
            assert(p.drop_last() =~= views(parts@).take(i as int));
            assert(p.last() == parts@[i as int]@);
            assert(out@ =~= join(p, sep));
        }
        i += 1;
    }
    proof {
        assert(views(parts@).take(parts@.len() as int) =~= views(parts@));
    }
    out
}

pub fn is_white_char(c: char) -> (r: bool)
    ensures
        r == is_white(c),
{
    let n: u32 = c as u32;
    (9 <= n && n <= 13) || n == 32 || n == 0x85 || n == 0xa0 || n == 0x1680 || (0x2000 <= n && n <= 0x200a) || n == 0x2028
        || n == 0x2029 || n == 0x202f || n == 0x205f || n == 0x3000
}

/// The text without white space at either end.
pub fn trimmed(s: &[char]) -> (r: Vec<char>)
    ensures
        r@ == trim(s@),
{
    let mut a: usize = 0;
    proof {
        assert(s@.skip(0) =~= s@);
    }
    while a < s.len() && is_white_char(s[a])
        invariant
            a <= s@.len(),
            trim_start(s@) == trim_start(s@.skip(a as int)),
        decreases s@.len() - a,
    {
        proof {
            assert(s@.skip(a as int).skip(1) =~= s@.skip(a + 1));
        }
        a += 1;
    }
    let mut b: usize = s.len();
    proof {
        assert(trim_start(s@) == s@.skip(a as int));
        assert(s@.subrange(a as int, b as int) =~= s@.skip(a as int));
    }
    while b > a && is_white_char(s[b - 1])
        invariant
            a <= b <= s@.len(),
            trim_end(trim_start(s@)) == trim_end(s@.subrange(a as int, b as int)),
        decreases b,
    {
        proof {
            assert(s@.subrange(a as int, b as int).drop_last() =~= s@.subrange(a as int, b - 1));
        }
        b -= 1;
    }
    copy_range(s, a, b)
}

/// The text without the copies of `c` at its end.
pub fn trimmed_end(s: &[char]) -> (r: Vec<char>)
    ensures
        r@ == trim_end(s@),
{
    let mut n: usize = s.len();
    proof {
        assert(s@.take(n as int) =~= s@);
    }
    while n > 0 && is_white_char(s[n - 1])
        invariant
            n <= s@.len(),
            trim_end(s@) == trim_end(s@.take(n as int)),
        decreases n,
    {
        n -= 1;
        proof {
            assert(s@.take(n + 1).drop_last() =~= s@.take(n as int));
        }
    }
    let r: Vec<char> = copy_range(s, 0, n);
    proof {
        assert(r@ =~= s@.take(n as int));
    }
    r
}

pub fn trimmed_end_char(s: &[char], c: char) -> (r: Vec<char>)
    ensures
        r@ == trim_end_char(s@, c),
{
    let mut b: usize = s.len();
    proof {
        assert(s@.subrange(0, b as int) =~= s@);
    }
    while b > 0 && s[b - 1] == c
        invariant
            b <= s@.len(),
            trim_end_char(s@, c) == trim_end_char(s@.subrange(0, b as int), c),
        decreases b,
    {
        proof {
            assert(s@.subrange(0, b as int).drop_last() =~= s@.subrange(0, b - 1));
        }
        b -= 1;
    }
    copy_range(s, 0, b)
}

pub fn lower_char(c: char) -> (r: char)
    ensures
        r == lower(c),
{
    if 'A' <= c && c <= 'Z' {
        (c as u8 + 32u8) as char
    } else {
        c
    }
}

/// ASCII lower case of a text.
pub fn lowered(s: &[char]) -> (r: Vec<char>)
    ensures
        r@ == lower_all(s@),
{
    let mut out: Vec<char> = Vec::new();
    let mut i: usize = 0;
    while i < s.len()
        invariant
            i <= s@.len(),
            out@ == lower_all(s@).take(i as int),
        decreases s@.len() - i,
    {
        out.push(lower_char(s[i]));
        proof {
            assert(lower_all(s@).take(i + 1) =~= lower_all(s@).take(i as int).push(lower(s@[i as int])));
        }
        i += 1;
    }
    proof {
        assert(lower_all(s@).take(s@.len() as int) =~= lower_all(s@));
    }
    out
}

// ---------------------------------------------------------------------
// Numbers
// ---------------------------------------------------------------------

pub fn push_dec(out: &mut Vec<char>, n: u64)
    ensures
        final(out)@ == old(out)@ + dec(n as nat),
    decreases n,
{
    if n < 10 {
        out.push((48u8 + n as u8) as char);
    } else {
        push_dec(out, n / 10);
        out.push((48u8 + (n % 10) as u8) as char);
    }
}

pub fn push_hex(out: &mut Vec<char>, n: u64)
    ensures
        final(out)@ == old(out)@ + hex(n as nat),
    decreases n,
{
    if n >= 16 {
        push_hex(out, n / 16);
    }
    let d: u8 = (n % 16) as u8;
    if d < 10 {
        out.push((48u8 + d) as char);
    } else {
        out.push((87u8 + d) as char);
    }
}

/// Append `v`, preceded by `fill` up to `width` characters.
pub fn push_padded(out: &mut Vec<char>, v: &[char], width: usize, fill: char)
    ensures
        final(out)@ == old(out)@ + pad_left(v@, width as nat, fill),
{
    if v.len() < width {
        let n: usize = width - v.len();
        let mut i: usize = 0;
        while i < n
            invariant
                i <= n,
                out@ == old(out)@ + Seq::new(i as nat, |j: int| fill),
            decreases n - i,
        {
            out.push(fill);
            i += 1;
            proof {
                assert(out@ =~= old(out)@ + Seq::new(i as nat, |j: int| fill));
            }
        }
    }
    push_all(out, v);
    proof {
        assert(out@ =~= old(out)@ + pad_left(v@, width as nat, fill));
    }
}

/// Append `v`, followed by `fill` up to `width` characters.
pub fn push_left_aligned(out: &mut Vec<char>, v: &[char], width: usize, fill: char)
    ensures
        final(out)@ == old(out)@ + pad_right(v@, width as nat, fill),
{
    push_all(out, v);
    if v.len() < width {
        let n: usize = width - v.len();
        let mut i: usize = 0;
        while i < n
            invariant
                i <= n,
                out@ == old(out)@ + v@ + Seq::new(i as nat, |j: int| fill),
            decreases n - i,
        {
            out.push(fill);
            i += 1;
            proof {
                assert(out@ =~= old(out)@ + v@ + Seq::new(i as nat, |j: int| fill));
            }
        }
        proof {
            assert(out@ =~= old(out)@ + pad_right(v@, width as nat, fill));
        }
    }
}

/// Append `n` in decimal with leading zeros up to `width` digits.
pub fn push_dec_zeros(out: &mut Vec<char>, n: u64, width: usize)
    ensures
        final(out)@ == old(out)@ + pad_left(dec(n as nat), width as nat, '0'),
{
    let mut t: Vec<char> = Vec::new();
    push_dec(&mut t, n);
    proof {
        assert(t@ =~= dec(n as nat));
    }
    push_padded(out, &t, width, '0');
}

/// Append `n` in hexadecimal with leading zeros up to `width` digits.
pub fn push_hex_zeros(out: &mut Vec<char>, n: u64, width: usize)
    ensures
        final(out)@ == old(out)@ + pad_left(hex(n as nat), width as nat, '0'),
{
    let mut t: Vec<char> = Vec::new();
    push_hex(&mut t, n);
    proof {
        assert(t@ =~= hex(n as nat));
    }
    push_padded(out, &t, width, '0');
}

// ---------------------------------------------------------------------
// Reading numbers
// ---------------------------------------------------------------------

pub open spec fn is_digit(c: char) -> bool {
    '0' <= c && c <= '9'
}

pub open spec fn all_digits(s: Seq<char>) -> bool {
    forall|i: int| 0 <= i < s.len() ==> is_digit(#[trigger] s[i])
}

/// The number that a run of digits stands for.
pub open spec fn value(s: Seq<char>) -> nat
    decreases s.len(),
{
    if s.len() == 0 {
        0
    } else {
        value(s.drop_last()) * 10 + (s.last() as u32 - 48) as nat
    }
}

/// `s` without a leading plus sign.
pub open spec fn unsigned_part(s: Seq<char>) -> Seq<char> {
    if s.len() > 0 && s[0] == '+' { s.skip(1) } else { s }
}

/// The number that a text stands for, if it is one of at most `max`:
/// decimal digits with an optional plus sign in front.
pub open spec fn parsed(s: Seq<char>, max: int) -> Option<int> {
    let d = unsigned_part(s);
    if d.len() == 0 || !all_digits(d) || value(d) > max { None } else { Some(value(d) as int) }
}

proof fn lemma_value_grows(s: Seq<char>, n: int)
    requires
        0 <= n <= s.len(),
        all_digits(s),
    ensures
        value(s.take(n)) <= value(s),
    decreases s.len() - n,
{
    if n < s.len() {
        let t = s.take(n + 1);
        assert(t.drop_last() =~= s.take(n));
        assert(t.last() == s[n]);
        assert(is_digit(s[n]));
        lemma_value_grows(s, n + 1);
    } else {
        assert(s.take(n) =~= s);
    }
}

/// A number that was written in decimal is read back.
pub proof fn lemma_parse_dec(n: nat, max: int)
    requires
        n <= max,
    ensures
        parsed(dec(n), max) == Some(n as int),
{
    lemma_dec_nonempty(n);
    lemma_dec_digits(n);
    assert(is_digit(dec(n)[0]));
    assert(unsigned_part(dec(n)) == dec(n));
    lemma_value_dec(n);
}

proof fn lemma_value_dec(n: nat)
    ensures
        value(dec(n)) == n,
    decreases n,
{
    if n < 10 {
        let s = dec(n);
        assert(s.drop_last() =~= Seq::<char>::empty());
        assert(s.last() == digit(n as int));
        assert(value(Seq::<char>::empty()) == 0);
    } else {
        lemma_value_dec(n / 10);
        let s = dec(n);
        assert(s.drop_last() =~= dec(n / 10));
        assert(s.last() == digit((n % 10) as int));
    }
}

pub fn parse_uint(s: &[char], max: u64) -> (r: Option<u64>)
    ensures
        match r {
            Some(n) => parsed(s@, max as int) == Some(n as int),
            None => parsed(s@, max as int) is None,
        },
{
    let start: usize = if s.len() > 0 && s[0] == '+' { 1 } else { 0 };
    let ghost d = unsigned_part(s@);
    proof {
        assert(d =~= s@.skip(start as int));
    }
    if start == s.len() {
        return None;
    }
    let mut n: u64 = 0;
    let mut i: usize = start;
    proof {
        assert(d.take(0) =~= Seq::<char>::empty());
    }
    while i < s.len()
        invariant
            start <= i <= s@.len(),
            d == s@.skip(start as int),
            d == unsigned_part(s@),
            n == value(d.take(i - start)),
            n <= max,
            forall|k: int| 0 <= k < i - start ==> is_digit(#[trigger] d[k]),
        decreases s@.len() - i,
    {
        let c: char = s[i];
        proof {
            assert(c == d[i - start]);
            let t = d.take(i - start + 1);
            assert(t.drop_last() =~= d.take(i - start));
            assert(t.last() == c);
        }
        if c < '0' || c > '9' {
            proof {
                assert(!is_digit(d[i - start]));
            }
            return None;
        }
        let v: u64 = (c as u32 - 48) as u64;
        if n > (max - if v <= max { v } else { max }) / 10 || v > max {
            proof {
                if all_digits(d) {
                    lemma_value_grows(d, i - start + 1);
                    assert(n * 10 + v > max);
                }
            }
            return None;
        }
        n = n * 10 + v;
        i += 1;
    }
    proof {
        assert(d.take(d.len() as int) =~= d);
        assert(all_digits(d));
    }
    Some(n)
}

/// A character is a Unicode scalar value.
pub proof fn lemma_char_range(c: char)
    ensures
        c as int <= 0xd7ff || 0xe000 <= c as int <= 0x10ffff,
        0 <= c as int,
{
}

/// A number with its sign if it is negative.
pub open spec fn int_text(n: int) -> Seq<char> {
    if n < 0 { seq!['-'] + dec((-n) as nat) } else { dec(n as nat) }
}

pub fn push_int(out: &mut Vec<char>, n: i64)
    ensures
        final(out)@ == old(out)@ + int_text(n as int),
{
    if n < 0 {
        out.push('-');
        let m: u64 = if n == i64::MIN { 0x8000_0000_0000_0000 } else { (-n) as u64 };
        push_dec(out, m);
    } else {
        push_dec(out, n as u64);
    }
    proof {
        assert(out@ =~= old(out)@ + int_text(n as int));
    }
}

/// The texts that strings hold.
pub open spec fn texts(v: Seq<String>) -> Seq<Seq<char>> {
    Seq::new(v.len(), |i: int| v[i]@)
}

/// What `str::to_lowercase` makes of a text.
pub uninterp spec fn unicode_lower(s: Seq<char>) -> Seq<char>;

/// `str::to_lowercase` of the standard library: the Unicode lower case of
/// a text depends on the text alone.
#[verifier::external_body]
pub(crate) fn to_lowercase(s: &str) -> (r: String)
    ensures
        r@ == unicode_lower(s@),
{
    s.to_lowercase()
}

} // verus!
