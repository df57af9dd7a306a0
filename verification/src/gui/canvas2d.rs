//! `<canvas>` 2D drawing commands sent by page scripts, as a JSON list of
//! `[op, args...]`.
//!
//! Numbers stay as they are written; whoever draws reads them as floating
//! point numbers.

use crate::bytes::{push_bytes, sub_bytes};
use crate::text::{
    copy, copy_range, is_str, is_white, is_white_char, lower_all, lowered, read_text, text_of_bytes, to_chars, trim,
    lemma_read_back, trimmed,
};
use vstd::prelude::*;
use vstd::utf8::encode_utf8;

verus! {

/// An argument of a command.
pub enum Arg {
    /// A number, as it is written.
    Num(Vec<u8>),
    Str(Vec<char>),
    Other,
}

pub enum ArgState {
    Num(Seq<u8>),
    Str(Seq<char>),
    Other,
}

impl View for Arg {
    type V = ArgState;

    open spec fn view(&self) -> ArgState {
        match *self {
            Arg::Num(n) => ArgState::Num(n@),
            Arg::Str(t) => ArgState::Str(t@),
            Arg::Other => ArgState::Other,
        }
    }
}

pub open spec fn args_of(v: Seq<Arg>) -> Seq<ArgState> {
    Seq::new(v.len(), |i: int| v[i]@)
}

pub open spec fn commands_of(v: Seq<Vec<Arg>>) -> Seq<Seq<ArgState>> {
    Seq::new(v.len(), |i: int| args_of(v[i]@))
}

// ---------------------------------------------------------------------
// Reading
// ---------------------------------------------------------------------

/// White space between values.
pub open spec fn blank(b: u8) -> bool {
    b == 32 || b == 9 || b == 10 || b == 12 || b == 13
}

/// Bytes of which a number consists.
pub open spec fn numeric(b: u8) -> bool {
    b == 45 || b == 43 || b == 46 || b == 101 || b == 69 || 48 <= b <= 57
}

pub open spec fn letter(b: u8) -> bool {
    65 <= b <= 90 || 97 <= b <= 122
}

/// The value of a hexadecimal digit.
pub open spec fn hex_digit(b: u8) -> Option<int> {
    if 48 <= b <= 57 {
        Some(b - 48)
    } else if 97 <= b <= 102 {
        Some(b - 87)
    } else if 65 <= b <= 70 {
        Some(b - 55)
    } else {
        None
    }
}

/// The number that four bytes stand for, as a hexadecimal number that may
/// begin with a plus sign.
pub open spec fn hex4(a: u8, b: u8, c: u8, d: u8) -> Option<int> {
    let first = if a == 43 { Some(0int) } else { hex_digit(a) };
    match (first, hex_digit(b), hex_digit(c), hex_digit(d)) {
        (Some(w), Some(x), Some(y), Some(z)) => Some(w * 4096 + x * 256 + y * 16 + z),
        _ => None,
    }
}

/// A character up to U+FFFF in UTF-8.
pub open spec fn utf8_of(n: int) -> Seq<u8> {
    if n < 0x80 {
        seq![n as u8]
    } else if n < 0x800 {
        seq![(0xc0 + n / 64) as u8, (0x80 + n % 64) as u8]
    } else {
        seq![(0xe0 + n / 4096) as u8, (0x80 + n / 64 % 64) as u8, (0x80 + n % 64) as u8]
    }
}

/// The character of an escape; a question mark where there is none.
pub open spec fn escape_bytes(a: u8, b: u8, c: u8, d: u8) -> Seq<u8> {
    match hex4(a, b, c, d) {
        Some(n) => if 0xd800 <= n <= 0xdfff { seq![63u8] } else { utf8_of(n) },
        None => seq![63u8],
    }
}

/// The bytes of a string literal from `i` on, and where it ends: after its
/// quote, or after the end of the text.
pub open spec fn literal(s: Seq<u8>, i: int) -> (Seq<u8>, int)
    decreases s.len() - i,
{
    if i < 0 || i >= s.len() || s[i] == 34 {
        (Seq::empty(), i + 1)
    } else if s[i] == 92 && i + 1 < s.len() {
        if s[i + 1] == 117 && i + 5 < s.len() {
            let (rest, end) = literal(s, i + 6);
            (escape_bytes(s[i + 2], s[i + 3], s[i + 4], s[i + 5]) + rest, end)
        } else {
            let (rest, end) = literal(s, i + 2);
            let b = if s[i + 1] == 110 { 10u8 } else if s[i + 1] == 116 { 9u8 } else { s[i + 1] };
            (seq![b] + rest, end)
        }
    } else {
        let (rest, end) = literal(s, i + 1);
        (seq![s[i]] + rest, end)
    }
}

pub open spec fn number_end(s: Seq<u8>, i: int) -> int
    decreases s.len() - i,
{
    if 0 <= i < s.len() && numeric(s[i]) { number_end(s, i + 1) } else { i }
}

pub open spec fn word_end(s: Seq<u8>, i: int) -> int
    decreases s.len() - i,
{
    if 0 <= i < s.len() && letter(s[i]) { word_end(s, i + 1) } else { i }
}

/// What has been read of the list: its commands so far, and how deep in
/// lists the reader is (1 between commands, 2 within one).
#[verifier::ext_equal]
pub struct Reading {
    pub commands: Seq<Seq<ArgState>>,
    pub depth: nat,
}

impl Reading {
    /// One more value; only those within a command count.
    pub open spec fn value(self, a: ArgState) -> Reading {
        if self.depth == 2 && self.commands.len() > 0 {
            let n = self.commands.len() - 1;
            Reading { commands: self.commands.update(n, self.commands[n].push(a)), ..self }
        } else {
            self
        }
    }

    pub open spec fn opened(self) -> Reading {
        if self.depth == 1 {
            Reading { commands: self.commands.push(Seq::empty()), depth: 2 }
        } else {
            Reading { depth: self.depth + 1, ..self.value(ArgState::Other) }
        }
    }

    pub open spec fn closed(self) -> Reading {
        Reading { depth: (self.depth - 1) as nat, ..self }
    }
}

/// The commands of a list, read from within it on. There are none if a
/// byte comes that begins no value: the list cannot go on from there.
pub open spec fn read_on(s: Seq<u8>, i: int, r: Reading) -> Option<Seq<Seq<ArgState>>>
    decreases s.len() + 1 - i,
{
    if i < 0 || i >= s.len() || r.depth == 0 {
        Some(r.commands)
    } else if blank(s[i]) || s[i] == 44 {
        read_on(s, i + 1, r)
    } else if s[i] == 93 {
        read_on(s, i + 1, r.closed())
    } else if s[i] == 91 {
        read_on(s, i + 1, r.opened())
    } else if s[i] == 34 {
        let (b, end) = literal(s, i + 1);
        if i < end <= s.len() + 1 { read_on(s, end, r.value(ArgState::Str(read_text(b)))) } else { None }
    } else if s[i] == 45 || 48 <= s[i] <= 57 {
        let end = number_end(s, i);
        if i < end <= s.len() + 1 { read_on(s, end, r.value(ArgState::Num(s.subrange(i, end)))) } else { None }
    } else if letter(s[i]) {
        let end = word_end(s, i);
        if i < end <= s.len() + 1 { read_on(s, end, r.value(ArgState::Other)) } else { None }
    } else {
        None
    }
}

/// Where the text begins after white space.
pub open spec fn after_blank(s: Seq<u8>, i: int) -> int
    decreases s.len() - i,
{
    if 0 <= i < s.len() && blank(s[i]) { after_blank(s, i + 1) } else { i }
}

/// The commands of a text; a text that is no list has none.
pub open spec fn commands(s: Seq<u8>) -> Option<Seq<Seq<ArgState>>> {
    let i = after_blank(s, 0);
    if 0 <= i < s.len() && s[i] == 91 {
        read_on(s, i + 1, Reading { commands: Seq::empty(), depth: 1 })
    } else {
        Some(Seq::empty())
    }
}

proof fn lemma_ends(s: Seq<u8>, i: int)
    requires
        0 <= i <= s.len(),
    ensures
        i <= number_end(s, i) <= s.len(),
        i <= word_end(s, i) <= s.len(),
        i <= after_blank(s, i) <= s.len(),
    decreases s.len() - i,
{
    if i < s.len() {
        lemma_ends(s, i + 1);
    }
}

proof fn lemma_literal_end(s: Seq<u8>, i: int)
    requires
        0 <= i,
    ensures
        literal(s, i).1 > i,
        i <= s.len() ==> literal(s, i).1 <= s.len() + 1,
    decreases s.len() - i,
{
    if i < s.len() && s[i] != 34 {
        if s[i] == 92 && i + 1 < s.len() {
            if s[i + 1] == 117 && i + 5 < s.len() {
                lemma_literal_end(s, i + 6);
            } else {
                lemma_literal_end(s, i + 2);
            }
        } else {
            lemma_literal_end(s, i + 1);
        }
    }
}

fn digit_value(b: u8) -> (r: Option<u32>)
    ensures
        match r {
            Some(v) => hex_digit(b) == Some(v as int) && v < 16,
            None => hex_digit(b) is None,
        },
{
    if 48 <= b && b <= 57 {
        Some((b - 48) as u32)
    } else if 97 <= b && b <= 102 {
        Some((b - 87) as u32)
    } else if 65 <= b && b <= 70 {
        Some((b - 55) as u32)
    } else {
        None
    }
}

fn push_escape(out: &mut Vec<u8>, a: u8, b: u8, c: u8, d: u8)
    ensures
        final(out)@ == old(out)@ + escape_bytes(a, b, c, d),
{
    let first: Option<u32> = if a == 43 { Some(0) } else { digit_value(a) };
    let ghost o0 = out@;
    match (first, digit_value(b), digit_value(c), digit_value(d)) {
        (Some(w), Some(x), Some(y), Some(z)) => {
            let n: u32 = w * 4096 + x * 256 + y * 16 + z;
            if 0xd800 <= n && n <= 0xdfff {
                out.push(63);
            } else if n < 0x80 {
                out.push(n as u8);
            } else if n < 0x800 {
                out.push((0xc0 + n / 64) as u8);
                out.push((0x80 + n % 64) as u8);
            } else {
                out.push((0xe0 + n / 4096) as u8);
                out.push((0x80 + n / 64 % 64) as u8);
                out.push((0x80 + n % 64) as u8);
            }
        },
        _ => {
            out.push(63);
        },
    }
    proof {
        assert(out@ =~= o0 + escape_bytes(a, b, c, d));
    }
}

fn read_literal(s: &[u8], from: usize) -> (r: (Vec<u8>, usize))
    requires
        from <= s@.len(),
        s@.len() < usize::MAX,
    ensures
        (r.0@, r.1 as int) == literal(s@, from as int),
{
    let n: usize = s.len();
    let mut out: Vec<u8> = Vec::new();
    let mut i: usize = from;
    proof {
        assert(out@ + literal(s@, i as int).0 =~= literal(s@, from as int).0);
    }
    while i < n && s[i] != 34
        invariant
            i <= n,
            n == s@.len(),
            n < usize::MAX,
            literal(s@, from as int) == (out@ + literal(s@, i as int).0, literal(s@, i as int).1),
        decreases n - i,
    {
        let ghost o0 = out@;
        let ghost here = literal(s@, i as int).0;
        if s[i] == 92 && n - i > 1 {
            if s[i + 1] == 117 && n - i > 5 {
                push_escape(&mut out, s[i + 2], s[i + 3], s[i + 4], s[i + 5]);
                proof {
                    assert(out@ + literal(s@, i + 6).0 =~= o0 + here);
                }
                i += 6;
            } else {
                let c: u8 = s[i + 1];
                out.push(if c == 110 { 10 } else if c == 116 { 9 } else { c });
                proof {
                    assert(out@ + literal(s@, i + 2).0 =~= o0 + here);
                }
                i += 2;
            }
        } else {
            out.push(s[i]);
            proof {
                assert(out@ + literal(s@, i + 1).0 =~= o0 + here);
            }
            i += 1;
        }
    }
    proof {
        assert(out@ + Seq::<u8>::empty() =~= out@);
    }
    (out, i + 1)
}

fn skip_number(s: &[u8], from: usize) -> (r: usize)
    requires
        from <= s@.len(),
    ensures
        r == number_end(s@, from as int),
        from <= r <= s@.len(),
{
    let mut i: usize = from;
    while i < s.len() && (s[i] == 45 || s[i] == 43 || s[i] == 46 || s[i] == 101 || s[i] == 69 || (48 <= s[i] && s[i]
        <= 57))
        invariant
            from <= i <= s@.len(),
            number_end(s@, from as int) == number_end(s@, i as int),
        decreases s@.len() - i,
    {
        i += 1;
    }
    i
}

fn skip_word(s: &[u8], from: usize) -> (r: usize)
    requires
        from <= s@.len(),
    ensures
        r == word_end(s@, from as int),
        from <= r <= s@.len(),
{
    let mut i: usize = from;
    while i < s.len() && ((65 <= s[i] && s[i] <= 90) || (97 <= s[i] && s[i] <= 122))
        invariant
            from <= i <= s@.len(),
            word_end(s@, from as int) == word_end(s@, i as int),
        decreases s@.len() - i,
    {
        i += 1;
    }
    i
}

fn add_value(cmds: &mut Vec<Vec<Arg>>, depth: usize, a: Arg)
    ensures
        commands_of(final(cmds)@) == (Reading { commands: commands_of(old(cmds)@), depth: depth as nat }).value(
            a@,
        ).commands,
{
    let n: usize = cmds.len();
    let ghost c0 = commands_of(cmds@);
    if depth == 2 && n > 0 {
        let mut last: Vec<Arg> = match cmds.pop() {
            Some(v) => v,
            None => Vec::new(),
        };
        let ghost l0 = args_of(last@);
        let ghost a0 = a@;
        last.push(a);
        proof {
            assert(args_of(last@) =~= l0.push(a0));
        }
        let ghost l1 = args_of(last@);
        cmds.push(last);
        proof {
            assert(commands_of(cmds@) =~= c0.update(n - 1, l1));
        }
    }
}

/// Read the commands of a text.
pub fn parse_json(s: &[u8]) -> (r: Option<Vec<Vec<Arg>>>)
    requires
        s@.len() < usize::MAX,
    ensures
        match r {
            Some(v) => commands(s@) == Some(commands_of(v@)),
            None => commands(s@) is None,
        },
{
    let n: usize = s.len();
    let mut i: usize = 0;
    while i < n && (s[i] == 32 || s[i] == 9 || s[i] == 10 || s[i] == 12 || s[i] == 13)
        invariant
            i <= n,
            n == s@.len(),
            after_blank(s@, 0) == after_blank(s@, i as int),
        decreases n - i,
    {
        i += 1;
    }
    let mut cmds: Vec<Vec<Arg>> = Vec::new();
    proof {
        assert(commands_of(cmds@) =~= Seq::<Seq<ArgState>>::empty());
    }
    if i >= n || s[i] != 91 {
        return Some(cmds);
    }
    i += 1;
    let mut depth: usize = 1;
    while i < n && depth > 0
        invariant
            i <= n + 1,
            n == s@.len(),
            n < usize::MAX,
            depth <= i,
            commands(s@) == read_on(
                s@,
                i as int,
                Reading { commands: commands_of(cmds@), depth: depth as nat },
            ),
        decreases n + 1 - i,
    {
        let b: u8 = s[i];
        let ghost at = Reading { commands: commands_of(cmds@), depth: depth as nat };
        if b == 32 || b == 9 || b == 10 || b == 12 || b == 13 || b == 44 {
            i += 1;
        } else if b == 93 {
            depth -= 1;
            i += 1;
        } else if b == 91 {
            if depth == 1 {
                let ghost c0 = commands_of(cmds@);
                let fresh: Vec<Arg> = Vec::new();
                proof {
                    assert(args_of(fresh@) =~= Seq::<ArgState>::empty());
                }
                cmds.push(fresh);
                proof {
                    assert(commands_of(cmds@) =~= c0.push(Seq::<ArgState>::empty()));
                }
            } else {
                add_value(&mut cmds, depth, Arg::Other);
            }
            depth += 1;
            i += 1;
            proof {
                assert(at.opened() =~= (Reading { commands: commands_of(cmds@), depth: depth as nat }));
            }
        } else if b == 34 {
            proof {
                lemma_literal_end(s@, i + 1);
            }
            let (raw, end) = read_literal(s, i + 1);
            let t: Vec<char> = to_chars(text_of_bytes(&raw).as_str());
            add_value(&mut cmds, depth, Arg::Str(t));
            i = end;
        } else if b == 45 || (48 <= b && b <= 57) {
            let end: usize = skip_number(s, i);
            proof {
                lemma_ends(s@, i + 1);
            }
            add_value(&mut cmds, depth, Arg::Num(sub_bytes(s, i, end)));
            i = end;
        } else if (65 <= b && b <= 90) || (97 <= b && b <= 122) {
            let end: usize = skip_word(s, i);
            proof {
                lemma_ends(s@, i + 1);
            }
            add_value(&mut cmds, depth, Arg::Other);
            i = end;
        } else {
            return None;
        }
    }
    Some(cmds)
}

// ---------------------------------------------------------------------
// Commands
// ---------------------------------------------------------------------

#[derive(Clone, Copy, PartialEq, Eq, Debug, Structural)]
pub enum Op {
    Save,
    Restore,
    Translate,
    Scale,
    ResetTransform,
    FillRect,
    ClearRect,
    StrokeRect,
    BeginPath,
    MoveTo,
    LineTo,
    ClosePath,
    Arc,
    Fill,
    Stroke,
    FillText,
    DrawImage,
    Unknown,
}

pub open spec fn op_named(t: Seq<char>) -> Op {
    if t == "save"@ {
        Op::Save
    } else if t == "restore"@ {
        Op::Restore
    } else if t == "tr"@ {
        Op::Translate
    } else if t == "sc"@ {
        Op::Scale
    } else if t == "rt"@ {
        Op::ResetTransform
    } else if t == "fr"@ {
        Op::FillRect
    } else if t == "cr"@ {
        Op::ClearRect
    } else if t == "sr"@ {
        Op::StrokeRect
    } else if t == "bp"@ {
        Op::BeginPath
    } else if t == "mt"@ {
        Op::MoveTo
    } else if t == "lt"@ {
        Op::LineTo
    } else if t == "cp"@ {
        Op::ClosePath
    } else if t == "arc"@ {
        Op::Arc
    } else if t == "fill"@ {
        Op::Fill
    } else if t == "stroke"@ {
        Op::Stroke
    } else if t == "ft"@ {
        Op::FillText
    } else if t == "di"@ {
        Op::DrawImage
    } else {
        Op::Unknown
    }
}

/// A text argument: `default` where there is no argument, nothing where it
/// is no text.
pub open spec fn text_arg(a: Seq<ArgState>, k: int, default: Seq<char>) -> Seq<char> {
    if 0 <= k < a.len() {
        match a[k] {
            ArgState::Str(t) => t,
            _ => ""@,
        }
    } else {
        default
    }
}

/// A number argument as it is written; nothing where it is no number.
pub open spec fn number_arg(a: Seq<ArgState>, k: int) -> Seq<u8> {
    if 0 <= k < a.len() {
        match a[k] {
            ArgState::Num(n) => n,
            _ => Seq::empty(),
        }
    } else {
        Seq::empty()
    }
}

/// What a command does; an empty one does nothing.
pub open spec fn op_of(a: Seq<ArgState>) -> Op {
    if a.len() == 0 { Op::Unknown } else { op_named(text_arg(a, 0, ""@)) }
}

pub fn text_at(a: &[Arg], k: usize, default: &str) -> (r: Vec<char>)
    ensures
        r@ == text_arg(args_of(a@), k as int, default@),
{
    if k < a.len() {
        match &a[k] {
            Arg::Str(t) => copy(t),
            _ => to_chars(""),
        }
    } else {
        to_chars(default)
    }
}

pub fn number_at(a: &[Arg], k: usize) -> (r: Vec<u8>)
    ensures
        r@ == number_arg(args_of(a@), k as int),
{
    let mut out: Vec<u8> = Vec::new();
    if k < a.len() {
        if let Arg::Num(n) = &a[k] {
            push_bytes(&mut out, n);
            proof {
                assert(out@ =~= n@);
            }
            return out;
        }
    }
    proof {
        assert(out@ =~= Seq::<u8>::empty());
    }
    out
}

pub fn read_op(a: &[Arg]) -> (r: Op)
    ensures
        r == op_of(args_of(a@)),
{
    if a.len() == 0 {
        return Op::Unknown;
    }
    let t: Vec<char> = text_at(a, 0, "");
    if is_str(&t, "save") {
        Op::Save
    } else if is_str(&t, "restore") {
        Op::Restore
    } else if is_str(&t, "tr") {
        Op::Translate
    } else if is_str(&t, "sc") {
        Op::Scale
    } else if is_str(&t, "rt") {
        Op::ResetTransform
    } else if is_str(&t, "fr") {
        Op::FillRect
    } else if is_str(&t, "cr") {
        Op::ClearRect
    } else if is_str(&t, "sr") {
        Op::StrokeRect
    } else if is_str(&t, "bp") {
        Op::BeginPath
    } else if is_str(&t, "mt") {
        Op::MoveTo
    } else if is_str(&t, "lt") {
        Op::LineTo
    } else if is_str(&t, "cp") {
        Op::ClosePath
    } else if is_str(&t, "arc") {
        Op::Arc
    } else if is_str(&t, "fill") {
        Op::Fill
    } else if is_str(&t, "stroke") {
        Op::Stroke
    } else if is_str(&t, "ft") {
        Op::FillText
    } else if is_str(&t, "di") {
        Op::DrawImage
    } else {
        Op::Unknown
    }
}

// ---------------------------------------------------------------------
// Text
// ---------------------------------------------------------------------

/// Whether `s` reads "px" at `i`.
pub open spec fn px_at(s: Seq<char>, i: int) -> bool {
    0 <= i && i + 1 < s.len() && s[i] == 'p' && s[i + 1] == 'x'
}

/// The first place from `i` on where a word ends in "px": where the word
/// begins (`from`) and where its number ends.
pub open spec fn px_word(s: Seq<char>, from: int, i: int) -> Option<(int, int)>
    decreases s.len() - i,
{
    if i < 0 || i >= s.len() {
        None
    } else if is_white(s[i]) {
        px_word(s, i + 1, i + 1)
    } else if i - 1 >= from && px_at(s, i - 1) && (i + 1 == s.len() || is_white(s[i + 1])) {
        Some((from, i - 1))
    } else {
        px_word(s, from, i + 1)
    }
}

/// The size that a font asks for, as it is written: the first word in "px".
pub open spec fn font_size(s: Seq<char>) -> Option<Seq<char>> {
    match px_word(s, 0, 0) {
        Some((a, b)) => Some(s.subrange(a, b)),
        None => None,
    }
}

/// The first "px" from `i` on.
pub open spec fn first_px(s: Seq<char>, i: int) -> Option<int>
    decreases s.len() - i,
{
    if i < 0 || i >= s.len() {
        None
    } else if px_at(s, i) {
        Some(i)
    } else {
        first_px(s, i + 1)
    }
}

/// The families that a font asks for: what comes after its size.
pub open spec fn font_family(s: Seq<char>) -> Seq<char> {
    match first_px(s, 0) {
        Some(i) => lower_all(trim(s.skip(i + 2))),
        None => "sans-serif"@,
    }
}

pub fn size_text(s: &[char]) -> (r: Option<Vec<char>>)
    ensures
        match r {
            Some(t) => font_size(s@) == Some(t@),
            None => font_size(s@) is None,
        },
{
    let n: usize = s.len();
    let mut from: usize = 0;
    let mut i: usize = 0;
    while i < n
        invariant
            from <= i <= n,
            n == s@.len(),
            px_word(s@, 0, 0) == px_word(s@, from as int, i as int),
        decreases n - i,
    {
        if is_white_char(s[i]) {
            from = i + 1;
        } else if i > from && s[i - 1] == 'p' && s[i] == 'x' && (n - i == 1 || is_white_char(s[i + 1])) {
            return Some(copy_range(s, from, i - 1));
        }
        i += 1;
    }
    None
}

pub fn family_text(s: &[char]) -> (r: Vec<char>)
    ensures
        r@ == font_family(s@),
{
    let n: usize = s.len();
    let mut i: usize = 0;
    while i < n
        invariant
            i <= n,
            n == s@.len(),
            first_px(s@, 0) == first_px(s@, i as int),
        decreases n - i,
    {
        if n - i > 1 && s[i] == 'p' && s[i + 1] == 'x' {
            let rest: Vec<char> = copy_range(s, i + 2, n);
            proof {
                assert(rest@ =~= s@.skip(i + 2));
            }
            return lowered(&trimmed(&rest));
        }
        i += 1;
    }
    to_chars("sans-serif")
}

/// Where a text of width `tw` begins that is aligned at `x`.
pub fn aligned(x: i32, tw: i32, align: &[char]) -> (r: i64)
    requires
        tw >= 0,
    ensures
        r == if align@ == "center"@ {
            x - tw as int / 2
        } else if align@ == "right"@ || align@ == "end"@ {
            x - tw
        } else {
            x as int
        },
{
    if is_str(align, "center") {
        x as i64 - tw as i64 / 2
    } else if is_str(align, "right") || is_str(align, "end") {
        x as i64 - tw as i64
    } else {
        x as i64
    }
}

/// The baseline of a text at `y`, by its font's ascent and line height.
pub fn baseline(y: i32, ascent: i32, line_height: i32, kind: &[char]) -> (r: i64)
    ensures
        r == if kind@ == "top"@ || kind@ == "hanging"@ {
            y + ascent
        } else if kind@ == "middle"@ {
            y + crate::arith::tdiv(2 * ascent - line_height, 2)
        } else if kind@ == "bottom"@ {
            y + ascent - line_height
        } else {
            y as int
        },
{
    let descent: i64 = ascent as i64 - line_height as i64;
    if is_str(kind, "top") || is_str(kind, "hanging") {
        y as i64 + ascent as i64
    } else if is_str(kind, "middle") {
        y as i64 + crate::arith::div(ascent as i64 + descent, 2)
    } else if is_str(kind, "bottom") {
        y as i64 + descent
    } else {
        y as i64
    }
}

// ---------------------------------------------------------------------
// What is written is read back
// ---------------------------------------------------------------------

/// The bytes of a string within quotes: a quote and a backslash are
/// written behind a backslash.
pub open spec fn quoted(b: Seq<u8>) -> Seq<u8>
    decreases b.len(),
{
    if b.len() == 0 {
        Seq::empty()
    } else {
        (if b[0] == 34 || b[0] == 92 { seq![92u8, b[0]] } else { seq![b[0]] }) + quoted(b.skip(1))
    }
}

/// An argument as it stands in a list.
pub open spec fn arg_text(a: ArgState) -> Seq<u8> {
    match a {
        ArgState::Num(n) => n,
        ArgState::Str(t) => seq![34u8] + quoted(encode_utf8(t)) + seq![34u8],
        ArgState::Other => seq![110u8, 117, 108, 108],
    }
}

/// Whether the bytes of a number are those of one.
pub open spec fn arg_ok(a: ArgState) -> bool {
    a matches ArgState::Num(n) ==> n.len() > 0 && (n[0] == 45 || 48 <= n[0] <= 57) && forall|i: int|
        0 <= i < n.len() ==> numeric(#[trigger] n[i])
}

pub open spec fn args_text(a: Seq<ArgState>) -> Seq<u8>
    decreases a.len(),
{
    if a.len() == 0 { Seq::empty() } else { arg_text(a[0]) + seq![44u8] + args_text(a.skip(1)) }
}

pub open spec fn commands_text(c: Seq<Seq<ArgState>>) -> Seq<u8>
    decreases c.len(),
{
    if c.len() == 0 {
        Seq::empty()
    } else {
        seq![91u8] + args_text(c[0]) + seq![93u8, 44u8] + commands_text(c.skip(1))
    }
}

/// Whether a text holds another one at a place.
spec fn holds(s: Seq<u8>, i: int, x: Seq<u8>) -> bool {
    0 <= i && i + x.len() <= s.len() && s.subrange(i, i + x.len()) == x
}

proof fn lemma_holds(s: Seq<u8>, i: int, a: Seq<u8>, b: Seq<u8>)
    requires
        holds(s, i, a + b),
    ensures
        holds(s, i, a),
        holds(s, i + a.len(), b),
{
    let x = a + b;
    assert forall|k: int| 0 <= k < x.len() implies s[i + k] == #[trigger] x[k] by {
        assert(s.subrange(i, i + x.len())[k] == x[k]);
    }
    assert(s.subrange(i, i + a.len()) =~= a) by {
        assert forall|k: int| 0 <= k < a.len() implies s[i + k] == a[k] by {
            assert(x[k] == a[k]);
        }
    }
    assert(s.subrange(i + a.len(), i + a.len() + b.len()) =~= b) by {
        assert forall|k: int| 0 <= k < b.len() implies s[i + a.len() + k] == b[k] by {
            assert(x[a.len() + k] == b[k]);
        }
    }
}

proof fn lemma_at(s: Seq<u8>, i: int, x: Seq<u8>, k: int)
    requires
        holds(s, i, x),
        0 <= k < x.len(),
    ensures
        s[i + k] == x[k],
{
    assert(s.subrange(i, i + x.len())[k] == x[k]);
}

proof fn lemma_literal_back(s: Seq<u8>, i: int, b: Seq<u8>)
    requires
        holds(s, i, quoted(b)),
        i + quoted(b).len() < s.len(),
        s[(i + quoted(b).len()) as int] == 34,
    ensures
        literal(s, i) == (b, i + quoted(b).len() + 1),
    decreases b.len(),
{
    if b.len() == 0 {
        assert(b =~= Seq::empty());
    } else {
        let first = if b[0] == 34 || b[0] == 92 { seq![92u8, b[0]] } else { seq![b[0]] };
        let rest = b.skip(1);
        lemma_holds(s, i, first, quoted(rest));
        lemma_at(s, i, first, 0);
        assert(quoted(b).len() == first.len() + quoted(rest).len());
        lemma_literal_back(s, i + first.len(), rest);
        assert(seq![b[0]] + rest =~= b);
        if b[0] == 34 || b[0] == 92 {
            lemma_at(s, i, first, 1);
        }
    }
}

proof fn lemma_number_back(s: Seq<u8>, i: int, n: Seq<u8>)
    requires
        holds(s, i, n),
        forall|k: int| 0 <= k < n.len() ==> numeric(#[trigger] n[k]),
        i + n.len() < s.len(),
        !numeric(s[(i + n.len()) as int]),
    ensures
        number_end(s, i) == i + n.len(),
    decreases n.len(),
{
    if n.len() > 0 {
        lemma_at(s, i, n, 0);
        assert(n =~= seq![n[0]] + n.skip(1));
        lemma_holds(s, i, seq![n[0]], n.skip(1));
        assert forall|k: int| 0 <= k < n.skip(1).len() implies numeric(#[trigger] n.skip(1)[k]) by {
            assert(numeric(n[k + 1]));
        }
        lemma_number_back(s, i + 1, n.skip(1));
    }
}

proof fn lemma_arg_back(s: Seq<u8>, i: int, a: ArgState, r: Reading)
    requires
        holds(s, i, arg_text(a) + seq![44u8]),
        arg_ok(a),
        r.depth > 0,
    ensures
        read_on(s, i, r) == read_on(s, i + arg_text(a).len() + 1, r.value(a)),
{
    let t = arg_text(a);
    let end = i + t.len();
    lemma_holds(s, i, t, seq![44u8]);
    lemma_at(s, end, seq![44u8], 0);
    assert(read_on(s, end, r.value(a)) == read_on(s, end + 1, r.value(a)));
    match a {
        ArgState::Num(n) => {
            lemma_at(s, i, n, 0);
            lemma_number_back(s, i, n);
            assert(s.subrange(i, end) == n);
        },
        ArgState::Str(x) => {
            let q = quoted(encode_utf8(x));
            lemma_holds(s, i, seq![34u8] + q, seq![34u8]);
            lemma_holds(s, i, seq![34u8], q);
            lemma_at(s, i, seq![34u8], 0);
            lemma_at(s, i + 1 + q.len(), seq![34u8], 0);
            lemma_literal_back(s, i + 1, encode_utf8(x));
            lemma_read_back(x);
        },
        ArgState::Other => {
            lemma_at(s, i, t, 0);
            lemma_at(s, i, t, 1);
            lemma_at(s, i, t, 2);
            lemma_at(s, i, t, 3);
            assert(word_end(s, i + 4) == i + 4);
            assert(word_end(s, i + 3) == i + 4);
            assert(word_end(s, i + 2) == i + 4);
            assert(word_end(s, i + 1) == i + 4);
            assert(word_end(s, i) == i + 4);
        },
    }
}

proof fn lemma_args_back(s: Seq<u8>, i: int, a: Seq<ArgState>, r: Reading)
    requires
        holds(s, i, args_text(a)),
        forall|k: int| 0 <= k < a.len() ==> arg_ok(#[trigger] a[k]),
        r.depth == 2,
        r.commands.len() > 0,
    ensures
        read_on(s, i, r) == read_on(
            s,
            i + args_text(a).len(),
            (Reading { commands: r.commands.update(r.commands.len() - 1, r.commands.last() + a), depth: 2 }),
        ),
    decreases a.len(),
{
    let n = r.commands.len() - 1;
    if a.len() == 0 {
        assert(r.commands.last() + a =~= r.commands.last());
        assert(r.commands.update(n, r.commands.last()) =~= r.commands);
    } else {
        let one = arg_text(a[0]) + seq![44u8];
        let rest = a.skip(1);
        lemma_holds(s, i, one, args_text(rest));
        assert(arg_ok(a[0]));
        lemma_arg_back(s, i, a[0], r);
        assert forall|k: int| 0 <= k < rest.len() implies arg_ok(#[trigger] rest[k]) by {
            assert(arg_ok(a[k + 1]));
        }
        let q = r.value(a[0]);
        lemma_args_back(s, i + one.len(), rest, q);
        assert(q.commands.last() + rest =~= r.commands.last() + a);
        assert(q.commands.update(n, q.commands.last() + rest) =~= r.commands.update(n, r.commands.last() + a));
        assert(args_text(a).len() == one.len() + args_text(rest).len());
    }
}

proof fn lemma_commands_back(s: Seq<u8>, i: int, c: Seq<Seq<ArgState>>, r: Reading)
    requires
        holds(s, i, commands_text(c)),
        forall|j: int, k: int| 0 <= j < c.len() && 0 <= k < c[j].len() ==> arg_ok(#[trigger] c[j][k]),
        r.depth == 1,
    ensures
        read_on(s, i, r) == read_on(s, i + commands_text(c).len(), (Reading { commands: r.commands + c, depth: 1 })),
    decreases c.len(),
{
    if c.len() == 0 {
        assert(r.commands + c =~= r.commands);
    } else {
        let head = seq![91u8] + args_text(c[0]);
        let tail = seq![93u8, 44u8];
        let rest = c.skip(1);
        lemma_holds(s, i, head + tail, commands_text(rest));
        lemma_holds(s, i, head, tail);
        lemma_holds(s, i, seq![91u8], args_text(c[0]));
        lemma_at(s, i, seq![91u8], 0);
        let at = i + head.len();
        lemma_at(s, at, tail, 0);
        lemma_at(s, at, tail, 1);
        let o = r.opened();
        assert forall|k: int| 0 <= k < c[0].len() implies arg_ok(#[trigger] c[0][k]) by {}
        lemma_args_back(s, i + 1, c[0], o);
        let q = Reading { commands: o.commands.update(o.commands.len() - 1, o.commands.last() + c[0]), depth: 2 };
        assert(o.commands.last() + c[0] =~= c[0]);
        assert(q.commands =~= r.commands.push(c[0]));
        let done = Reading { commands: r.commands.push(c[0]), depth: 1 };
        assert(q.closed() == done);
        assert(read_on(s, at, q) == read_on(s, at + 1, done));
        assert(read_on(s, at + 1, done) == read_on(s, at + 2, done));
        assert forall|j: int, k: int| 0 <= j < rest.len() && 0 <= k < rest[j].len() implies arg_ok(
            #[trigger] rest[j][k],
        ) by {
            assert(arg_ok(c[j + 1][k]));
        }
        lemma_commands_back(s, at + 2, rest, done);
        assert(done.commands + rest =~= r.commands + c);
        assert(commands_text(c).len() == head.len() + 2 + commands_text(rest).len());
    }
}

/// A list of commands that is written down is read back as it was: the
/// same commands in the same order, each with its arguments, whatever
/// characters its strings hold.
pub proof fn lemma_commands_read(c: Seq<Seq<ArgState>>)
    requires
        forall|j: int, k: int| 0 <= j < c.len() && 0 <= k < c[j].len() ==> arg_ok(#[trigger] c[j][k]),
    ensures
        commands(seq![91u8] + commands_text(c) + seq![93u8]) == Some(c),
{
    let s = seq![91u8] + commands_text(c) + seq![93u8];
    let r = Reading { commands: Seq::empty(), depth: 1 };
    let end = commands_text(c).len() as int + 1;
    assert(s.subrange(1, end) =~= commands_text(c));
    assert(s[0] == 91);
    assert(after_blank(s, 0) == 0);
    lemma_commands_back(s, 1, c, r);
    let q = Reading { commands: r.commands + c, depth: 1 };
    assert(q.commands =~= c);
    assert(s[end] == 93);
    assert(read_on(s, end, q) == read_on(s, end + 1, q.closed()));
    assert(read_on(s, end + 1, q.closed()) == Some(c));
}

proof fn lemma_px_before(before: Seq<char>, n: Seq<char>, after: Seq<char>, from: int, i: int)
    requires
        before.len() > 0 ==> is_white(before.last()),
        forall|k: int| !#[trigger] px_at(before, k),
        0 <= from <= i <= before.len(),
        i == before.len() ==> from == i,
    ensures
        ({
            let s = before + n + "px"@ + after;
            px_word(s, from, i) == px_word(s, before.len() as int, before.len() as int) && first_px(s, i) == first_px(
                s,
                before.len() as int,
            )
        }),
    decreases before.len() - i,
{
    reveal_strlit("px");
    let s = before + n + "px"@ + after;
    if i < before.len() {
        assert(s[i] == before[i]);
        assert(!px_at(before, i - 1));
        if i > 0 {
            assert(s[i - 1] == before[i - 1]);
        }
        assert(!px_at(before, i));
        if i + 1 < before.len() {
            assert(s[i + 1] == before[i + 1]);
        } else {
            assert(is_white(before[i]));
        }
        assert(!px_at(s, i));
        lemma_px_before(before, n, after, if is_white(s[i]) { i + 1 } else { from }, i + 1);
    }
}

proof fn lemma_px_number(before: Seq<char>, n: Seq<char>, after: Seq<char>, j: int)
    requires
        forall|k: int| 0 <= k < n.len() ==> #[trigger] n[k] != 'p' && !is_white(n[k]),
        0 <= j <= n.len(),
        after.len() > 0 ==> is_white(after[0]),
    ensures
        ({
            let s = before + n + "px"@ + after;
            let b = before.len() as int;
            px_word(s, b, b + j) == Some((b, b + n.len())) && first_px(s, b + j) == Some(b + n.len())
        }),
    decreases n.len() - j,
{
    reveal_strlit("px");
    let s = before + n + "px"@ + after;
    let b = before.len() as int;
    if j > 0 {
        assert(s[b + j - 1] == n[j - 1]);
    }
    if j < n.len() {
        assert(s[b + j] == n[j]);
        assert(!px_at(s, b + j));
        lemma_px_number(before, n, after, j + 1);
    } else {
        let e = b + n.len();
        assert(s[e as int] == 'p' && s[e + 1] == 'x');
        assert(px_at(s, e as int));
        assert(!is_white('p') && !is_white('x'));
        if after.len() > 0 {
            assert(s[e + 2] == after[0]);
        }
        assert(px_word(s, b, e + 1) == Some((b, e as int)));
    }
}

/// A font gives its size in front of a "px", and its family behind it,
/// whatever words (such as bold) come before.
pub proof fn lemma_font_read(before: Seq<char>, n: Seq<char>, after: Seq<char>)
    requires
        before.len() > 0 ==> is_white(before.last()),
        forall|k: int| !#[trigger] px_at(before, k),
        forall|k: int| 0 <= k < n.len() ==> #[trigger] n[k] != 'p' && !is_white(n[k]),
        after.len() > 0 ==> is_white(after[0]),
    ensures
        font_size(before + n + "px"@ + after) == Some(n),
        font_family(before + n + "px"@ + after) == lower_all(trim(after)),
{
    reveal_strlit("px");
    let s = before + n + "px"@ + after;
    lemma_px_before(before, n, after, 0, 0);
    lemma_px_number(before, n, after, 0);
    assert(s.subrange(before.len() as int, (before.len() + n.len()) as int) =~= n);
    assert(s.skip((before.len() + n.len() + 2) as int) =~= after);
}

} // verus!
