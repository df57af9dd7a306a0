//! `ping` and `nslookup`.

use super::help::{c_dim, c_off, err_line, push_err};
use crate::arith::{max, min};
use crate::text::{
    copy, dec, is_str, is_white, is_white_char, lemma_dec_digits, lemma_dec_nonempty, lemma_parse_dec, pad_left, parse_uint, parsed, push_all, push_dec, push_dec_zeros,
    push_str, to_chars, views,
};
use vstd::prelude::*;

verus! {

/// The words of a text, split at white space, and the one under way.
pub open spec fn fields_from(s: Seq<char>) -> (Seq<Seq<char>>, Seq<char>)
    decreases s.len(),
{
    if s.len() == 0 {
        (Seq::empty(), Seq::empty())
    } else {
        let (ws, cur) = fields_from(s.drop_last());
        if !is_white(s.last()) {
            (ws, cur.push(s.last()))
        } else if cur.len() > 0 {
            (ws.push(cur), Seq::empty())
        } else {
            (ws, cur)
        }
    }
}

pub open spec fn fields(s: Seq<char>) -> Seq<Seq<char>> {
    let (ws, cur) = fields_from(s);
    if cur.len() > 0 { ws.push(cur) } else { ws }
}

/// Split at white space.
pub fn split_whitespace(s: &[char]) -> (r: Vec<Vec<char>>)
    ensures
        views(r@) == fields(s@),
{
    let mut out: Vec<Vec<char>> = Vec::new();
    let mut cur: Vec<char> = Vec::new();
    let mut i: usize = 0;
    proof {
        assert(views(out@) =~= Seq::<Seq<char>>::empty());
    }
    while i < s.len()
        invariant
            i <= s@.len(),
            fields_from(s@.take(i as int)) == (views(out@), cur@),
        decreases s@.len() - i,
    {
        proof {
            assert(s@.take(i + 1).drop_last() =~= s@.take(i as int));
        }
        let ghost o0 = views(out@);
        let ghost c0 = cur@;
        if !is_white_char(s[i]) {
            cur.push(s[i]);
        } else if cur.len() > 0 {
            let mut w: Vec<char> = Vec::new();
            std::mem::swap(&mut w, &mut cur);
            out.push(w);
            proof {
                assert(views(out@) =~= o0.push(c0));
            }
        }
        i += 1;
    }
    proof {
        assert(s@.take(s@.len() as int) =~= s@);
    }
    if cur.len() > 0 {
        let ghost o0 = views(out@);
        let ghost c0 = cur@;
        out.push(cur);
        proof {
            assert(views(out@) =~= o0.push(c0));
        }
    }
    out
}

/// What the words of a `ping` ask for so far: the host and the count.
#[verifier::ext_equal]
pub struct PingArgs {
    pub host: Seq<char>,
    pub count: int,
}

pub open spec fn number_or(w: Seq<char>, default: int) -> int {
    match parsed(w, u16::MAX as int) {
        Some(n) => n,
        None => default,
    }
}

/// Accepts `ping host [count]`, `ping -c N host` (Unix) and `ping -n N host`
/// (Windows), from word `i` on.
pub open spec fn ping_args(ws: Seq<Seq<char>>, i: int, a: PingArgs) -> PingArgs
    decreases ws.len() - i,
{
    if i < 0 || i >= ws.len() {
        a
    } else if (ws[i] == "-c"@ || ws[i] == "-n"@) && i + 1 < ws.len() {
        ping_args(ws, i + 2, PingArgs { count: number_or(ws[i + 1], 4), ..a })
    } else if a.host.len() == 0 {
        ping_args(ws, i + 1, PingArgs { host: ws[i], ..a })
    } else {
        ping_args(ws, i + 1, PingArgs { count: number_or(ws[i], a.count), ..a })
    }
}

pub open spec fn asked_ping(s: Seq<char>) -> PingArgs {
    let a = ping_args(fields(s), 0, PingArgs { host: Seq::empty(), count: 4 });
    PingArgs { host: a.host, count: max(min(a.count, 1000), 1) }
}

/// The host to ping and how many times.
pub fn parse_ping(args: &[char]) -> (r: (Vec<char>, u16))
    ensures
        (PingArgs { host: r.0@, count: r.1 as int }) == asked_ping(args@),
        1 <= r.1 <= 1000,
{
    let words: Vec<Vec<char>> = split_whitespace(args);
    let ghost ws = views(words@);
    let n: usize = words.len();
    let mut host: Vec<char> = Vec::new();
    let mut count: u16 = 4;
    let mut i: usize = 0;
    let ghost want = ping_args(ws, 0, PingArgs { host: Seq::empty(), count: 4 });
    proof {
        assert(host@ =~= Seq::<char>::empty());
    }
    while i < n
        invariant
            i <= n == words@.len(),
            ws == views(words@),
            ping_args(ws, i as int, PingArgs { host: host@, count: count as int }) == want,
        decreases n - i,
    {
        let w: &Vec<char> = &words[i];
        proof {
            assert(ws[i as int] == w@);
        }
        if (is_str(w, "-c") || is_str(w, "-n")) && n - i > 1 {
            proof {
                assert(ws[i + 1] == words@[i + 1]@);
            }
            count = match parse_uint(&words[i + 1], 65535) {
                Some(v) => v as u16,
                None => 4,
            };
            i += 2;
        } else if host.len() == 0 {
            host = copy(w);
            i += 1;
        } else {
            count = match parse_uint(w, 65535) {
                Some(v) => v as u16,
                None => count,
            };
            i += 1;
        }
    }
    (host, if count > 1000 { 1000 } else if count < 1 { 1 } else { count })
}

/// What the replies so far amount to. Times are in microseconds.
#[derive(Clone, Copy, Debug, PartialEq, Eq, Structural)]
pub struct PingStats {
    pub sent: u32,
    pub ok: u32,
    pub min: u64,
    pub max: u64,
    pub sum: u64,
}

impl PingStats {
    pub open spec fn wf(self) -> bool {
        self.ok <= self.sent
    }

    pub open spec fn spec_start() -> PingStats {
        PingStats { sent: 0, ok: 0, min: u64::MAX, max: 0, sum: 0 }
    }

    /// After one more request, with the time of its reply if one came.
    pub open spec fn after(self, reply: Option<u64>) -> PingStats {
        let s = PingStats { sent: (self.sent + 1) as u32, ..self };
        match reply {
            Some(us) => PingStats {
                ok: (self.ok + 1) as u32,
                min: if us < self.min { us } else { self.min },
                max: if us > self.max { us } else { self.max },
                sum: (self.sum + us) as u64,
                ..s
            },
            None => s,
        }
    }

    pub fn start() -> (r: PingStats)
        ensures
            r == PingStats::spec_start(),
            r.wf(),
    {
        PingStats { sent: 0, ok: 0, min: u64::MAX, max: 0, sum: 0 }
    }

    pub fn record(&mut self, reply: Option<u64>)
        requires
            old(self).wf(),
            old(self).sent < u32::MAX,
            reply matches Some(us) ==> old(self).sum + us <= u64::MAX,
        ensures
            *final(self) == old(self).after(reply),
            final(self).wf(),
    {
        self.sent = self.sent + 1;
        if let Some(us) = reply {
            self.ok = self.ok + 1;
            if us < self.min {
                self.min = us;
            }
            if us > self.max {
                self.max = us;
            }
            self.sum = self.sum + us;
        }
    }

    pub open spec fn loss(self) -> int {
        if self.sent > 0 { (self.sent - self.ok) * 100 / (self.sent as int) } else { 0 }
    }
}

/// The replies to a series of requests.
pub open spec fn stats_of(replies: Seq<Option<u64>>) -> PingStats
    decreases replies.len(),
{
    if replies.len() == 0 { PingStats::spec_start() } else { stats_of(replies.drop_last()).after(replies.last()) }
}

pub open spec fn sum_of(replies: Seq<Option<u64>>) -> int
    decreases replies.len(),
{
    if replies.len() == 0 {
        0
    } else {
        sum_of(replies.drop_last()) + match replies.last() {
            Some(us) => us as int,
            None => 0,
        }
    }
}

/// The shortest and longest time are among the replies, and the average
/// lies between them.
pub proof fn lemma_stats(replies: Seq<Option<u64>>)
    requires
        replies.len() <= u32::MAX,
        sum_of(replies) <= u64::MAX,
    ensures
        ({
            let s = stats_of(replies);
            &&& s.sent == replies.len()
            &&& s.ok <= s.sent
            &&& s.sum == sum_of(replies)
            &&& s.ok == 0 ==> s.sum == 0
            &&& 0 <= s.loss() <= 100
            &&& s.ok > 0 ==> s.ok * s.min <= s.sum <= s.ok * s.max && s.min <= s.sum / (s.ok as u64) <= s.max
            &&& forall|i: int|
                0 <= i < replies.len() ==> (#[trigger] replies[i] matches Some(us) ==> s.min <= us <= s.max)
        }),
    decreases replies.len(),
{
    let s = stats_of(replies);
    if replies.len() > 0 {
        let d = replies.drop_last();
        lemma_sum_positive(d);
        lemma_stats(d);
        let p = stats_of(d);
        assert forall|i: int| 0 <= i < replies.len() implies (#[trigger] replies[i] matches Some(us) ==> s.min <= us
            <= s.max) by {
            if i < d.len() {
                assert(d[i] == replies[i]);
            }
        }
        if let Some(us) = replies.last() {
            assert(s.ok * s.min <= s.sum <= s.ok * s.max) by (nonlinear_arith)
                requires
                    s.ok == p.ok + 1,
                    s.sum == p.sum + us,
                    s.min <= us <= s.max,
                    p.ok > 0 ==> s.min <= p.min && p.max <= s.max && p.ok * p.min <= p.sum <= p.ok * p.max,
                    p.ok == 0 ==> p.sum == 0,
                    p.ok >= 0,
            ;
        }
    }
    if s.ok > 0 {
        assert(s.min <= s.sum as int / (s.ok as int) <= s.max) by (nonlinear_arith)
            requires
                s.ok > 0,
                s.ok * s.min <= s.sum <= s.ok * s.max,
        ;
    }
    if s.sent > 0 {
        assert(0 <= (s.sent - s.ok) * 100 / (s.sent as int) <= 100) by (nonlinear_arith)
            requires
                0 <= s.ok <= s.sent,
                s.sent > 0,
        ;
    }
}

proof fn lemma_sum_positive(replies: Seq<Option<u64>>)
    ensures
        sum_of(replies) >= 0,
    decreases replies.len(),
{
    if replies.len() > 0 {
        lemma_sum_positive(replies.drop_last());
    }
}

/// A time in microseconds, in milliseconds.
pub open spec fn ms_text(us: int) -> Seq<char> {
    dec((us / 1000) as nat) + "."@ + pad_left(dec((us % 1000) as nat), 3, '0')
}

fn push_ms(out: &mut Vec<char>, us: u64)
    ensures
        final(out)@ == old(out)@ + ms_text(us as int),
{
    push_dec(out, us / 1000);
    push_str(out, ".");
    push_dec_zeros(out, us % 1000, 3);
    proof {
        assert(out@ =~= old(out)@ + ms_text(us as int));
    }
}

pub fn ping_start(host: &[char], ip: &str) -> (r: Vec<char>)
    ensures
        r@ == "PING "@ + host@ + " ("@ + ip@ + "): 56 data bytes\n"@,
{
    let mut out: Vec<char> = to_chars("PING ");
    push_all(&mut out, host);
    push_str(&mut out, " (");
    push_str(&mut out, ip);
    push_str(&mut out, "): 56 data bytes\n");
    out
}

pub open spec fn reply_text(ip: Seq<char>, seq: int, reply: Result<u64, String>) -> Seq<char> {
    match reply {
        Ok(us) => "64 bytes from "@ + ip + ": icmp_seq="@ + dec(seq as nat) + " time="@ + ms_text(us as int)
            + " ms\n"@,
        Err(e) => c_dim() + "icmp_seq="@ + dec(seq as nat) + ": "@ + e@ + c_off() + "\n"@,
    }
}

pub fn ping_reply(ip: &str, seq: u16, reply: &Result<u64, String>) -> (r: Vec<char>)
    ensures
        r@ == reply_text(ip@, seq as int, *reply),
{
    let mut out: Vec<char> = Vec::new();
    match reply {
        Ok(us) => {
            push_str(&mut out, "64 bytes from ");
            push_str(&mut out, ip);
            push_str(&mut out, ": icmp_seq=");
            push_dec(&mut out, seq as u64);
            push_str(&mut out, " time=");
            push_ms(&mut out, *us);
            push_str(&mut out, " ms\n");
        },
        Err(e) => {
            push_str(&mut out, "\x1b[90m");
            push_str(&mut out, "icmp_seq=");
            push_dec(&mut out, seq as u64);
            push_str(&mut out, ": ");
            push_str(&mut out, e.as_str());
            push_str(&mut out, "\x1b[0m");
            push_str(&mut out, "\n");
        },
    }
    proof {
        assert(out@ =~= reply_text(ip@, seq as int, *reply));
    }
    out
}

pub open spec fn summary_text(host: Seq<char>, s: PingStats) -> Seq<char> {
    "--- "@ + host + " ping statistics ---\n"@ + dec(s.sent as nat) + " packets transmitted, "@ + dec(s.ok as nat)
        + " received, "@ + dec(s.loss() as nat) + "% packet loss\n"@ + if s.ok > 0 {
        "round-trip min/avg/max = "@ + ms_text(s.min as int) + "/"@ + ms_text((s.sum / (s.ok as u64)) as int) + "/"@
            + ms_text(s.max as int) + " ms\n"@
    } else {
        Seq::empty()
    }
}

/// The statistics at the end, and the exit code.
pub fn ping_summary(host: &[char], s: &PingStats) -> (r: (Vec<char>, i64))
    requires
        s.wf(),
    ensures
        r.0@ == summary_text(host@, *s),
        r.1 == if s.ok > 0 { 0int } else { 1 },
{
    let loss: u64 = if s.sent > 0 { (s.sent - s.ok) as u64 * 100 / s.sent as u64 } else { 0 };
    let mut out: Vec<char> = to_chars("--- ");
    push_all(&mut out, host);
    push_str(&mut out, " ping statistics ---\n");
    push_dec(&mut out, s.sent as u64);
    push_str(&mut out, " packets transmitted, ");
    push_dec(&mut out, s.ok as u64);
    push_str(&mut out, " received, ");
    push_dec(&mut out, loss);
    push_str(&mut out, "% packet loss\n");
    if s.ok > 0 {
        let avg: u64 = s.sum / s.ok as u64;
        push_str(&mut out, "round-trip min/avg/max = ");
        push_ms(&mut out, s.min);
        push_str(&mut out, "/");
        push_ms(&mut out, avg);
        push_str(&mut out, "/");
        push_ms(&mut out, s.max);
        push_str(&mut out, " ms\n");
    }
    proof {
        assert(out@ =~= summary_text(host@, *s));
    }
    (out, if s.ok > 0 { 0 } else { 1 })
}

/// Whether to wait on before the next request: there is one per second.
pub fn ping_waits(elapsed_ms: u64, seq: u16, count: u16, cancelled: bool) -> (r: bool)
    requires
        seq < count,
    ensures
        r == (elapsed_ms < 1000 && seq + 1 < count && !cancelled),
{
    elapsed_ms < 1000 && seq + 1 < count && !cancelled
}

pub open spec fn lookup_text(name: Seq<char>, server: Option<Seq<char>>, found: Result<String, String>) -> Seq<char> {
    (match server {
        Some(d) => "Server:  "@ + d + "\n"@,
        None => Seq::empty(),
    }) + match found {
        Ok(ip) => "Name:    "@ + name + "\nAddress: "@ + ip@ + "\n"@,
        Err(e) => err_line("nslookup: "@ + name + ": "@ + e@),
    }
}

/// What `nslookup` prints, and its exit code.
pub fn nslookup(name: &[char], server: &Option<String>, found: &Result<String, String>) -> (r: (Vec<char>, i64))
    ensures
        r.0@ == lookup_text(name@, super::super::app::opt_text(*server), *found),
        r.1 == if found is Ok { 0int } else { 1 },
{
    let mut out: Vec<char> = Vec::new();
    if let Some(d) = server {
        push_str(&mut out, "Server:  ");
        push_str(&mut out, d.as_str());
        push_str(&mut out, "\n");
    }
    let mut code: i64 = 0;
    match found {
        Ok(ip) => {
            push_str(&mut out, "Name:    ");
            push_all(&mut out, name);
            push_str(&mut out, "\nAddress: ");
            push_str(&mut out, ip.as_str());
            push_str(&mut out, "\n");
        },
        Err(e) => {
            let mut m: Vec<char> = to_chars("nslookup: ");
            push_all(&mut m, name);
            push_str(&mut m, ": ");
            push_str(&mut m, e.as_str());
            push_err(&mut out, &m);
            code = 1;
        },
    }
    proof {
        assert(out@ =~= lookup_text(name@, super::super::app::opt_text(*server), *found));
    }
    (out, code)
}

/// A word: something, and no white space in it.
pub open spec fn is_word(w: Seq<char>) -> bool {
    w.len() > 0 && forall|i: int| 0 <= i < w.len() ==> !is_white(#[trigger] w[i])
}

proof fn lemma_fields_word(s: Seq<char>, w: Seq<char>)
    requires
        fields_from(s).1.len() == 0,
        forall|i: int| 0 <= i < w.len() ==> !is_white(#[trigger] w[i]),
    ensures
        fields_from(s + w) == (fields_from(s).0, w),
    decreases w.len(),
{
    if w.len() == 0 {
        assert(s + w =~= s);
        assert(fields_from(s).1 =~= w);
    } else {
        let d = w.drop_last();
        assert forall|i: int| 0 <= i < d.len() implies !is_white(#[trigger] d[i]) by {
            assert(!is_white(w[i]));
        }
        lemma_fields_word(s, d);
        assert((s + w).drop_last() =~= s + d);
        assert((s + w).last() == w.last());
        assert(d.push(w.last()) =~= w);
    }
}

proof fn lemma_fields_space(s: Seq<char>, w: Seq<char>)
    requires
        fields_from(s).1.len() == 0,
        is_word(w),
    ensures
        fields_from(s + w + seq![' ']) == (fields_from(s).0.push(w), Seq::<char>::empty()),
{
    lemma_fields_word(s, w);
    assert((s + w + seq![' ']).drop_last() =~= s + w);
    assert((s + w + seq![' ']).last() == ' ');
    assert(is_white(' '));
}

proof fn lemma_three_fields(a: Seq<char>, b: Seq<char>, c: Seq<char>)
    requires
        is_word(a),
        is_word(b),
        is_word(c),
    ensures
        fields(a) == seq![a],
        fields(a + seq![' '] + b) == seq![a, b],
        fields(a + seq![' '] + b + seq![' '] + c) == seq![a, b, c],
{
    let e = Seq::<char>::empty();
    lemma_fields_word(e, a);
    assert(e + a =~= a);
    assert(fields(a) =~= seq![a]);
    lemma_fields_space(e, a);
    lemma_fields_word(a + seq![' '], b);
    assert(fields(a + seq![' '] + b) =~= seq![a, b]);
    lemma_fields_space(a + seq![' '], b);
    lemma_fields_word(a + seq![' '] + b + seq![' '], c);
    assert(fields(a + seq![' '] + b + seq![' '] + c) =~= seq![a, b, c]);
}

/// However the count is given, in front of the host or behind it, the same
/// host is asked so many times: four where no count is given, and between
/// once and a thousand times.
pub proof fn lemma_ways_to_ping(host: Seq<char>, n: nat)
    requires
        is_word(host),
        host != "-c"@,
        host != "-n"@,
        n <= u16::MAX,
    ensures
        asked_ping(host).host == host && asked_ping(host).count == 4,
        asked_ping(host + seq![' '] + dec(n)).host == host,
        asked_ping(host + seq![' '] + dec(n)) == asked_ping("-c"@ + seq![' '] + dec(n) + seq![' '] + host),
        asked_ping(host + seq![' '] + dec(n)) == asked_ping("-n"@ + seq![' '] + dec(n) + seq![' '] + host),
        1 <= n <= 1000 ==> asked_ping(host + seq![' '] + dec(n)).count == n,
        n > 1000 ==> asked_ping(host + seq![' '] + dec(n)).count == 1000,
        n == 0 ==> asked_ping(host + seq![' '] + dec(n)).count == 1,
{
    reveal_strlit("-c");
    reveal_strlit("-n");
    let d = dec(n);
    lemma_dec_nonempty(n);
    lemma_dec_digits(n);
    lemma_parse_dec(n, u16::MAX as int);
    assert(is_word(d));
    assert(d[0] != '-');
    assert(is_word("-c"@) && is_word("-n"@));
    lemma_three_fields(host, d, d);
    lemma_three_fields("-c"@, d, host);
    lemma_three_fields("-n"@, d, host);
    let a = PingArgs { host: Seq::empty(), count: 4 };
    let h = PingArgs { host, count: 4 };
    let hn = PingArgs { host, count: n as int };
    let w1 = seq![host];
    assert(ping_args(w1, 1, h) == h);
    assert(ping_args(w1, 0, a) == h);
    let w2 = seq![host, d];
    assert(ping_args(w2, 2, hn) == hn);
    assert(d != "-c"@ && d != "-n"@);
    assert(ping_args(w2, 1, h) == hn);
    assert(ping_args(w2, 0, a) == hn);
    let an = PingArgs { host: Seq::empty(), count: n as int };
    let w3 = seq!["-c"@, d, host];
    assert(ping_args(w3, 3, hn) == hn);
    assert(ping_args(w3, 2, an) == hn);
    assert(ping_args(w3, 0, a) == hn);
    let w4 = seq!["-n"@, d, host];
    assert(ping_args(w4, 3, hn) == hn);
    assert(ping_args(w4, 2, an) == hn);
    assert(ping_args(w4, 0, a) == hn);
}

} // verus!
