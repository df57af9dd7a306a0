//! Kernel log: an in-memory ring buffer that the `dmesg` shell command can
//! show.

use crate::text::{read_text, split, split_on, text_of_bytes, to_chars, utf8_text, views};
use vstd::prelude::*;
use vstd::utf8::{
    decode_utf8, encode_utf8, encode_utf8_decode_utf8, encode_utf8_valid_utf8, is_ascii_chars, is_ascii_chars_encode_utf8,
    valid_utf8,
};

verus! {

/// How many bytes the log keeps.
pub const CAP: usize = 65536;

/// How many bytes `tail` gives at most.
pub const TAIL: usize = 1024;

pub struct Ring {
    pub buf: Vec<u8>,
    pub len: usize,
    pub start: usize,
}

impl View for Ring {
    type V = Seq<u8>;

    /// The bytes that are kept, oldest first.
    open spec fn view(&self) -> Seq<u8> {
        Seq::new(self.len as nat, |i: int| self.buf@[(self.start + i) % (CAP as int)])
    }
}

/// The last bytes of `s` that the log can keep.
pub open spec fn kept(s: Seq<u8>) -> Seq<u8> {
    if s.len() > CAP { s.skip(s.len() - CAP) } else { s }
}

impl Ring {
    pub open spec fn wf(self) -> bool {
        &&& self.buf@.len() == CAP
        &&& self.len <= CAP
        &&& self.start < CAP
    }

    /// An empty log.
    pub fn new() -> (r: Ring)
        ensures
            r.wf(),
            r@ == Seq::<u8>::empty(),
    {
        let mut buf: Vec<u8> = Vec::new();
        let mut i: usize = 0;
        while i < CAP
            invariant
                i <= CAP,
                buf@.len() == i,
            decreases CAP - i,
        {
            buf.push(0);
            i += 1;
        }
        let r: Ring = Ring { buf, len: 0, start: 0 };
        proof {
            assert(r@ =~= Seq::<u8>::empty());
        }
        r
    }

    fn push(&mut self, b: u8)
        requires
            old(self).wf(),
        ensures
            final(self).wf(),
            final(self)@ == kept(old(self)@.push(b)),
    {
        let ghost v0 = self@;
        let idx: usize = (self.start + self.len) % CAP;
        let ghost b0 = self.buf@;
        self.buf.set(idx, b);
        if self.len < CAP {
            self.len += 1;
            proof {
                assert forall|i: int| 0 <= i < self.len implies self@[i] == v0.push(b)[i] by {
                    if i < self.len - 1 {
                        lemma_slots(self.start as int, i, self.len - 1);
                    }
                }
                assert(self@ =~= v0.push(b));
            }
        } else {
            let ghost s0 = self.start as int;
            self.start = (self.start + 1) % CAP;
            proof {
                assert forall|i: int| 0 <= i < CAP implies self@[i] == v0.push(b).skip(1)[i] by {
                    lemma_shifted(s0, i);
                    if i < CAP - 1 {
                        lemma_slots(s0, i + 1, CAP as int);
                    }
                }
                assert(self@ =~= v0.push(b).skip(1));
            }
        }
    }

    /// Write bytes to the log; the oldest make room for them.
    pub fn write(&mut self, s: &[u8])
        requires
            old(self).wf(),
        ensures
            final(self).wf(),
            final(self)@ == kept(old(self)@ + s@),
    {
        let mut i: usize = 0;
        proof {
            assert(self@ =~= kept(old(self)@ + s@.take(0)));
        }
        while i < s.len()
            invariant
                i <= s@.len(),
                self.wf(),
                self@ == kept(old(self)@ + s@.take(i as int)),
            decreases s@.len() - i,
        {
            self.push(s[i]);
            i += 1;
            proof {
                let a = old(self)@ + s@.take(i - 1);
                let b = old(self)@ + s@.take(i as int);
                assert(b =~= a.push(s@[i - 1]));
                lemma_kept(a, s@[i - 1]);
            }
        }
        proof {
            assert(s@.take(s@.len() as int) =~= s@);
        }
    }

    /// Everything in the log, as text.
    pub fn contents(&self) -> (r: String)
        requires
            self.wf(),
        ensures
            r@ == read_text(self@),
    {
        let mut out: Vec<u8> = Vec::new();
        let mut i: usize = 0;
        while i < self.len
            invariant
                self.wf(),
                i <= self.len,
                out@ == self@.take(i as int),
            decreases self.len - i,
        {
            out.push(self.buf[(self.start + i) % CAP]);
            i += 1;
            proof {
                assert(out@ =~= self@.take(i as int));
            }
        }
        proof {
            assert(self@.take(self.len as int) =~= self@);
        }
        text_of_bytes(&out)
    }

    /// The last `n` lines of the log; where they are too long, the end of
    /// them.
    pub fn tail(&self, n: usize) -> (r: TailBuf)
        requires
            self.wf(),
        ensures
            r@ == tail_of(self@, n as int),
    {
        let mut lines: usize = 0;
        let mut start: usize = self.len;
        let mut found: bool = n == 0;
        while start > 0 && !found
            invariant
                self.wf(),
                start <= self.len,
                n == 0 ==> found && start == self.len,
                !found ==> lines <= self.len - start,
                n > 0 && found ==> tail_start(self@, n as int, self.len as int, 0) == start,
                !found ==> tail_start(self@, n as int, self.len as int, 0) == tail_start(
                    self@,
                    n as int,
                    start as int,
                    lines as int,
                ),
            decreases start, (if found { 0int } else { 1 }),
        {
            let b: u8 = self.buf[(self.start + start - 1) % CAP];
            proof {
                assert(self@[start - 1] == b);
            }
            if b == 10 && start != self.len {
                lines += 1;
                if lines == n {
                    found = true;
                }
            }
            if !found {
                start -= 1;
            }
        }
        let ghost rest = self@.skip(start as int);
        if self.len - start > TAIL {
            start = self.len - TAIL;
        }
        let mut out: Vec<u8> = Vec::new();
        let mut i: usize = start;
        proof {
            assert(out@ =~= self@.subrange(start as int, start as int));
        }
        while i < self.len
            invariant
                self.wf(),
                start <= i <= self.len,
                out@ == self@.subrange(start as int, i as int),
            decreases self.len - i,
        {
            out.push(self.buf[(self.start + i) % CAP]);
            i += 1;
            proof {
                assert(out@ =~= self@.subrange(start as int, i as int));
            }
        }
        proof {
            assert(rest == self@.skip(lines_start(self@, n as int)));
            assert(out@ =~= if rest.len() > TAIL { rest.skip(rest.len() - TAIL) } else { rest });
        }
        TailBuf { buf: out }
    }
}

/// Two places of the log use different slots.
proof fn lemma_slots(start: int, i: int, j: int)
    requires
        0 <= start < CAP,
        0 <= i < j <= CAP,
        j - i < CAP,
    ensures
        (start + i) % (CAP as int) != (start + j) % (CAP as int),
{
}

proof fn lemma_shifted(start: int, i: int)
    requires
        0 <= start < CAP,
        0 <= i < CAP,
    ensures
        ((start + 1) % (CAP as int) + i) % (CAP as int) == (start + i + 1) % (CAP as int),
{
}

proof fn lemma_kept(s: Seq<u8>, b: u8)
    ensures
        kept(kept(s).push(b)) == kept(s.push(b)),
{
    assert(kept(kept(s).push(b)) =~= kept(s.push(b)));
}

/// What was written last is still there, as long as it fits.
pub proof fn lemma_last_kept(before: Seq<u8>, s: Seq<u8>)
    requires
        s.len() <= CAP,
    ensures
        kept(before + s).len() >= s.len(),
        kept(before + s).skip(kept(before + s).len() - s.len()) == s,
{
    let k = kept(before + s);
    assert(k.skip(k.len() - s.len()) =~= s);
}

/// Text written in two parts is kept like text written at once.
pub proof fn lemma_written_in_parts(before: Seq<u8>, a: Seq<u8>, b: Seq<u8>)
    ensures
        kept(kept(before + a) + b) == kept(before + (a + b)),
{
    assert(kept(kept(before + a) + b) =~= kept(before + (a + b)));
}

/// Where the last `n` lines begin, looking back from `at` with `seen` line
/// ends seen. A line end that ends the log does not count.
pub open spec fn tail_start(v: Seq<u8>, n: int, at: int, seen: int) -> int
    decreases at,
{
    if at <= 0 {
        0
    } else if v[at - 1] == 10 && at != v.len() {
        if seen + 1 == n { at } else { tail_start(v, n, at - 1, seen + 1) }
    } else {
        tail_start(v, n, at - 1, seen)
    }
}

/// Where the last `n` lines begin; with none wanted, at the end.
pub open spec fn lines_start(v: Seq<u8>, n: int) -> int {
    if n <= 0 { v.len() as int } else { tail_start(v, n, v.len() as int, 0) }
}

/// The last `n` lines, or as much of their end as there is room for.
pub open spec fn tail_of(v: Seq<u8>, n: int) -> Seq<u8> {
    let rest = v.skip(lines_start(v, n));
    if rest.len() > TAIL { rest.skip(rest.len() - TAIL) } else { rest }
}

/// The end of the log.
pub struct TailBuf {
    pub buf: Vec<u8>,
}

impl View for TailBuf {
    type V = Seq<u8>;

    open spec fn view(&self) -> Seq<u8> {
        self.buf@
    }
}

/// A piece of text without the carriage return at its end.
pub open spec fn uncarried(s: Seq<char>) -> Seq<char> {
    if s.len() > 0 && s.last() == '\r' { s.drop_last() } else { s }
}

/// The lines of a text: each ends with a line feed, which may follow a
/// carriage return; the last need not.
pub open spec fn text_lines(s: Seq<char>) -> Seq<Seq<char>> {
    let parts = split(s, '\n');
    let n = parts.len() - 1;
    let ended = Seq::new(n as nat, |i: int| uncarried(parts[i]));
    if parts.len() > 0 && parts.last().len() > 0 { ended.push(parts.last()) } else { ended }
}

impl TailBuf {
    /// The lines; none if the bytes are not text.
    pub fn lines(&self) -> (r: Vec<Vec<char>>)
        ensures
            views(r@) == if valid_utf8(self@) { text_lines(decode_utf8(self@)) } else { Seq::empty() },
    {
        let mut out: Vec<Vec<char>> = Vec::new();
        let text: String = match utf8_text(&self.buf) {
            Some(t) => t,
            None => {
                proof {
                    assert(views(out@) =~= Seq::<Seq<char>>::empty());
                }
                return out;
            },
        };
        let chars: Vec<char> = to_chars(text.as_str());
        let parts: Vec<Vec<char>> = split_on(&chars, '\n');
        let ghost all = views(parts@);
        let n: usize = parts.len();
        proof {
            crate::text::lemma_split_nonempty(chars@, '\n');
        }
        let mut i: usize = 0;
        proof {
            assert(views(out@) =~= Seq::new(0, |k: int| uncarried(all[k])));
        }
        while i < n - 1
            invariant
                i <= n - 1,
                n == parts@.len(),
                n >= 1,
                all == views(parts@),
                views(out@) == Seq::new(i as nat, |k: int| uncarried(all[k])),
            decreases n - i,
        {
            let p: &Vec<char> = &parts[i];
            let m: usize = p.len();
            let line: Vec<char> = if m > 0 && p[m - 1] == '\r' {
                crate::text::copy_range(p, 0, m - 1)
            } else {
                crate::text::copy(p)
            };
            proof {
                assert(line@ =~= uncarried(all[i as int]));
            }
            let ghost o0 = views(out@);
            let ghost l0 = line@;
            out.push(line);
            i += 1;
            proof {
                assert(views(out@) =~= o0.push(l0));
                assert(views(out@) =~= Seq::new(i as nat, |k: int| uncarried(all[k])));
            }
        }
        if parts[n - 1].len() > 0 {
            let ghost o0 = views(out@);
            let last: Vec<char> = crate::text::copy(&parts[n - 1]);
            let ghost l0 = last@;
            out.push(last);
            proof {
                assert(views(out@) =~= o0.push(l0));
            }
        }
        out
    }
}

/// The last `n` elements, or all if there are fewer.
pub open spec fn last_of<T>(v: Seq<T>, n: int) -> Seq<T> {
    if v.len() > n { v.skip(v.len() - n) } else { v }
}

/// How many line ends there are in a text.
spec fn breaks(s: Seq<char>) -> int
    decreases s.len(),
{
    if s.len() == 0 {
        0
    } else {
        breaks(s.drop_last()) + if s.last() == '\n' { 1int } else { 0 }
    }
}

proof fn lemma_breaks(s: Seq<char>)
    ensures
        split(s, '\n').len() == breaks(s) + 1,
        s.len() > 0 && s.last() == '\n' ==> split(s, '\n').last().len() == 0,
        s.len() > 0 && s.last() != '\n' ==> split(s, '\n').last().len() > 0,
        s.len() == 0 ==> split(s, '\n').last().len() == 0,
        breaks(s) >= 0,
    decreases s.len(),
{
    if s.len() > 0 {
        lemma_breaks(s.drop_last());
    }
}

/// The pieces before a line end and those behind it are split apart.
proof fn lemma_split_at(s: Seq<char>, k: int)
    requires
        0 < k <= s.len(),
        s[k - 1] == '\n',
    ensures
        split(s, '\n') == split(s.take(k), '\n').drop_last() + split(s.skip(k), '\n'),
    decreases s.len(),
{
    let a = split(s.take(k), '\n');
    lemma_breaks(s.take(k));
    if k == s.len() {
        assert(s.take(k) =~= s);
        assert(s.skip(k) =~= Seq::<char>::empty());
        assert(a.last() =~= Seq::<char>::empty());
        assert(split(s, '\n') =~= a.drop_last() + split(s.skip(k), '\n'));
    } else {
        let t = s.drop_last();
        lemma_split_at(t, k);
        assert(t.take(k) =~= s.take(k));
        assert(s.skip(k).drop_last() =~= t.skip(k));
        lemma_breaks(t.skip(k));
        lemma_breaks(t);
        assert(split(s, '\n') =~= a.drop_last() + split(s.skip(k), '\n'));
    }
}

/// The lines of a text are those before a line end and those behind it.
proof fn lemma_lines_at(s: Seq<char>, k: int)
    requires
        0 < k < s.len(),
        s[k - 1] == '\n',
    ensures
        text_lines(s).len() >= text_lines(s.skip(k)).len(),
        text_lines(s.skip(k)) == text_lines(s).skip(text_lines(s).len() - text_lines(s.skip(k)).len()),
{
    lemma_split_at(s, k);
    lemma_breaks(s.take(k));
    lemma_breaks(s.skip(k));
    lemma_breaks(s);
    let n = text_lines(s).len() - text_lines(s.skip(k)).len();
    let p = split(s, '\n');
    let q = split(s.skip(k), '\n');
    assert forall|i: int| 0 <= i < q.len() implies q[i] == p[i + n] by {}
    assert(text_lines(s.skip(k)) =~= text_lines(s).skip(n));
}

/// A text that is not empty has one line more than it has line ends before
/// its last character.
proof fn lemma_line_count(s: Seq<char>)
    requires
        s.len() > 0,
    ensures
        text_lines(s).len() == breaks(s.drop_last()) + 1,
{
    lemma_breaks(s);
}

/// The place where the last lines begin follows a line end, with as many
/// before the end as it should have, or is the beginning, with fewer.
proof fn lemma_tail_start(v: Seq<u8>, s: Seq<char>, n: int, at: int, seen: int)
    requires
        v.len() == s.len(),
        forall|i: int| 0 <= i < s.len() ==> (#[trigger] v[i] == 10 <==> s[i] == '\n'),
        0 < n,
        0 <= at <= s.len(),
        0 <= seen < n,
        s.len() > 0,
        seen == breaks(s.subrange(if at < s.len() { at } else { s.len() - 1 }, s.len() - 1)),
    ensures
        ({
            let k = tail_start(v, n, at, seen);
            &&& 0 <= k <= at
            &&& k < s.len()
            &&& k > 0 ==> s[k - 1] == '\n' && breaks(s.subrange(k, s.len() - 1)) == n - 1
            &&& k == 0 ==> breaks(s.subrange(0, s.len() - 1)) < n
        }),
    decreases at,
{
    let l = s.len() - 1;
    if at > 0 {
        if at == s.len() {
            lemma_tail_start(v, s, n, at - 1, seen);
        } else {
            let a = s.subrange(at - 1, l);
            let b = s.subrange(at, l);
            lemma_breaks_front(a);
            assert(a.skip(1) =~= b);
            if s[at - 1] == '\n' {
                if seen + 1 < n {
                    lemma_tail_start(v, s, n, at - 1, seen + 1);
                }
            } else {
                lemma_tail_start(v, s, n, at - 1, seen);
            }
        }
    }
}

proof fn lemma_breaks_front(s: Seq<char>)
    requires
        s.len() > 0,
    ensures
        breaks(s) == breaks(s.skip(1)) + if s[0] == '\n' { 1int } else { 0 },
    decreases s.len(),
{
    if s.len() == 1 {
        assert(s.drop_last() =~= Seq::<char>::empty());
        assert(s.skip(1) =~= Seq::<char>::empty());
    } else {
        lemma_breaks_front(s.drop_last());
        assert(s.drop_last().skip(1) =~= s.skip(1).drop_last());
    }
}

/// Of a log of ASCII text, `tail` gives exactly the last lines, all of them
/// if there are fewer and none if none is wanted, as long as they fit.
pub proof fn lemma_last_lines(s: Seq<char>, n: int)
    requires
        is_ascii_chars(s),
        n >= 0,
        encode_utf8(s).len() - lines_start(encode_utf8(s), n) <= TAIL,
    ensures
        valid_utf8(tail_of(encode_utf8(s), n)),
        text_lines(decode_utf8(tail_of(encode_utf8(s), n))) == last_of(text_lines(s), n),
{
    let v = encode_utf8(s);
    is_ascii_chars_encode_utf8(s);
    let k = lines_start(v, n);
    if s.len() > 0 && n > 0 {
        assert(breaks(s.subrange(s.len() - 1, s.len() - 1)) == 0);
        assert forall|i: int| 0 <= i < s.len() implies (#[trigger] v[i] == 10 <==> s[i] == '\n') by {}
        lemma_tail_start(v, s, n, s.len() as int, 0);
    }
    let t = s.skip(k);
    is_ascii_chars_encode_utf8(t);
    assert(encode_utf8(t) =~= v.skip(k));
    encode_utf8_valid_utf8(t);
    encode_utf8_decode_utf8(t);
    assert(tail_of(v, n) == encode_utf8(t));
    if t.len() == 0 {
        assert(t =~= Seq::<char>::empty());
        lemma_breaks(t);
        assert(text_lines(t) =~= Seq::<Seq<char>>::empty());
        assert(text_lines(t) =~= last_of(text_lines(s), n));
    } else {
        lemma_line_count(t);
        assert(t.drop_last() =~= s.subrange(k, s.len() - 1));
        if k > 0 {
            lemma_lines_at(s, k);
        } else {
            assert(t =~= s);
        }
        assert(text_lines(t) =~= last_of(text_lines(s), n));
    }
}

/// Write a text to the log.
pub fn log_text(ring: &mut Ring, s: &str)
    requires
        old(ring).wf(),
    ensures
        final(ring).wf(),
        final(ring)@ == kept(old(ring)@ + encode_utf8(s@)),
{
    ring.write(s.as_bytes());
}

/// A log that has never been full is read as it was written.
pub proof fn lemma_log_back(s: Seq<char>)
    requires
        encode_utf8(s).len() <= CAP,
    ensures
        read_text(kept(Seq::<u8>::empty() + encode_utf8(s))) == s,
{
    crate::text::lemma_read_back(s);
    assert(kept(Seq::<u8>::empty() + encode_utf8(s)) =~= encode_utf8(s));
}

} // verus!
