//! Command lines as words.

use crate::bytes::push_bytes;
use crate::fs::path::{join_chars, joined_path, normalize_chars, normalized};
use crate::text::{
    copy_range, has_char, is_str, is_white, is_white_char, join, push_all, push_str, texts, to_chars, to_text, views,
};
use vstd::prelude::*;
use vstd::utf8::encode_utf8;

verus! {

/// The splitting of a line under way.
#[verifier::ext_equal]
pub struct Lexer {
    pub words: Seq<Seq<char>>,
    pub cur: Seq<char>,
    pub quote: Option<char>,
    /// Whether the word under way has had a quote.
    pub has: bool,
}

impl Lexer {
    pub open spec fn start() -> Lexer {
        Lexer { words: Seq::empty(), cur: Seq::empty(), quote: None, has: false }
    }

    pub open spec fn ended(self) -> Lexer {
        if self.has || self.cur.len() > 0 {
            Lexer { words: self.words.push(self.cur), cur: Seq::empty(), has: false, ..self }
        } else {
            self
        }
    }

    pub open spec fn after(self, ch: char) -> Lexer {
        match self.quote {
            Some(q) => if ch == q {
                Lexer { quote: None, ..self }
            } else {
                Lexer { cur: self.cur.push(ch), ..self }
            },
            None => if ch == '"' || ch == '\'' {
                Lexer { quote: Some(ch), has: true, ..self }
            } else if is_white(ch) {
                self.ended()
            } else {
                Lexer { cur: self.cur.push(ch), ..self }
            },
        }
    }
}

pub open spec fn lexed(s: Seq<char>) -> Lexer
    decreases s.len(),
{
    if s.len() == 0 { Lexer::start() } else { lexed(s.drop_last()).after(s.last()) }
}

/// The words of a line.
pub open spec fn tokens(s: Seq<char>) -> Seq<Seq<char>> {
    lexed(s).ended().words
}

/// Whether a text is a word that needs no quotes.
pub open spec fn plain_word(w: Seq<char>) -> bool {
    w.len() > 0 && forall|i: int| 0 <= i < w.len() ==> !is_white(#[trigger] w[i]) && w[i] != '"' && w[i] != '\''
}

proof fn lemma_lex_word(s: Seq<char>, w: Seq<char>, n: nat)
    requires
        lexed(s).quote is None,
        n <= w.len(),
        forall|i: int| 0 <= i < w.len() ==> !is_white(#[trigger] w[i]) && w[i] != '"' && w[i] != '\'',
    ensures
        lexed(s + w.take(n as int)) == (Lexer { cur: lexed(s).cur + w.take(n as int), ..lexed(s) }),
    decreases n,
{
    let t = s + w.take(n as int);
    if n == 0 {
        assert(t =~= s);
        assert(lexed(s).cur + w.take(0) =~= lexed(s).cur);
    } else {
        lemma_lex_word(s, w, (n - 1) as nat);
        assert(t.drop_last() =~= s + w.take(n - 1));
        assert(t.last() == w[n - 1]);
        assert((lexed(s).cur + w.take(n - 1)).push(w[n - 1]) =~= lexed(s).cur + w.take(n as int));
    }
}

proof fn lemma_lex_quoted(s: Seq<char>, q: char, w: Seq<char>, n: nat)
    requires
        lexed(s).quote == Some(q),
        n <= w.len(),
        forall|i: int| 0 <= i < w.len() ==> #[trigger] w[i] != q,
    ensures
        lexed(s + w.take(n as int)) == (Lexer { cur: lexed(s).cur + w.take(n as int), ..lexed(s) }),
    decreases n,
{
    let t = s + w.take(n as int);
    if n == 0 {
        assert(t =~= s);
        assert(lexed(s).cur + w.take(0) =~= lexed(s).cur);
    } else {
        lemma_lex_quoted(s, q, w, (n - 1) as nat);
        assert(t.drop_last() =~= s + w.take(n - 1));
        assert(t.last() == w[n - 1]);
        assert((lexed(s).cur + w.take(n - 1)).push(w[n - 1]) =~= lexed(s).cur + w.take(n as int));
    }
}

/// A word as it stands on a line: bare, or in quotes.
pub open spec fn written(w: Seq<char>, quote: Option<char>) -> Seq<char> {
    match quote {
        Some(q) => seq![q] + w + seq![q],
        None => w,
    }
}

/// Whether a word can be written that way: bare where it needs no quotes, or
/// in quotes that it does not hold itself.
pub open spec fn can_write(w: Seq<char>, quote: Option<char>) -> bool {
    match quote {
        Some(q) => (q == '"' || q == '\'') && forall|i: int| 0 <= i < w.len() ==> #[trigger] w[i] != q,
        None => plain_word(w),
    }
}

/// The words as they stand on a line.
pub open spec fn all_written(ws: Seq<Seq<char>>, quotes: Seq<Option<char>>) -> Seq<Seq<char>> {
    Seq::new(ws.len(), |i: int| written(ws[i], quotes[i]))
}

proof fn lemma_lex_written(s: Seq<char>, w: Seq<char>, quote: Option<char>)
    requires
        lexed(s).quote is None,
        lexed(s).cur.len() == 0,
        !lexed(s).has,
        can_write(w, quote),
    ensures
        lexed(s + written(w, quote)) == (Lexer { cur: w, has: quote is Some, ..lexed(s) }),
{
    assert(w.take(w.len() as int) =~= w);
    assert(lexed(s).cur + w =~= w);
    match quote {
        Some(q) => {
            let a = s.push(q);
            assert(a.drop_last() =~= s);
            lemma_lex_quoted(a, q, w, w.len());
            let t = s + written(w, quote);
            assert(t.drop_last() =~= a + w);
            assert(t.last() == q);
        },
        None => {
            lemma_lex_word(s, w, w.len());
        },
    }
}

proof fn lemma_lex_line(ws: Seq<Seq<char>>, quotes: Seq<Option<char>>)
    requires
        ws.len() > 0,
        quotes.len() == ws.len(),
        forall|i: int| 0 <= i < ws.len() ==> can_write(#[trigger] ws[i], quotes[i]),
    ensures
        lexed(join(all_written(ws, quotes), ' ')) == (Lexer {
            words: ws.drop_last(),
            cur: ws.last(),
            quote: None,
            has: quotes.last() is Some,
        }),
    decreases ws.len(),
{
    let w = ws.last();
    let all = all_written(ws, quotes);
    assert(can_write(ws[ws.len() - 1], quotes[ws.len() - 1]));
    if ws.len() == 1 {
        lemma_lex_written(Seq::empty(), w, quotes.last());
        assert(Seq::empty() + all[0] =~= all[0]);
        assert(ws.drop_last() =~= Seq::empty());
    } else {
        let d = ws.drop_last();
        let e = quotes.drop_last();
        assert forall|i: int| 0 <= i < d.len() implies can_write(#[trigger] d[i], e[i]) by {
            assert(ws[i] == d[i]);
        }
        lemma_lex_line(d, e);
        assert(all.drop_last() =~= all_written(d, e));
        assert(can_write(d[d.len() - 1], e[d.len() - 1]));
        let s = join(all_written(d, e), ' ').push(' ');
        assert(s.drop_last() =~= join(all_written(d, e), ' '));
        assert(d.drop_last().push(d.last()) =~= d);
        assert(lexed(s) == (Lexer { words: d, cur: Seq::empty(), quote: None, has: false }));
        lemma_lex_written(s, w, quotes.last());
    }
}

/// Words put together with spaces, each bare or in quotes of its own, come
/// back as they were.
pub proof fn lemma_tokens_of_words(ws: Seq<Seq<char>>, quotes: Seq<Option<char>>)
    requires
        quotes.len() == ws.len(),
        forall|i: int| 0 <= i < ws.len() ==> can_write(#[trigger] ws[i], quotes[i]),
    ensures
        tokens(join(all_written(ws, quotes), ' ')) == ws,
{
    if ws.len() > 0 {
        lemma_lex_line(ws, quotes);
        assert(can_write(ws[ws.len() - 1], quotes[ws.len() - 1]));
        assert(ws.drop_last().push(ws.last()) =~= ws);
    } else {
        assert(tokens(join(all_written(ws, quotes), ' ')) =~= ws);
    }
}

/// Words that need no quotes, put together with spaces, come back as they
/// were.
pub proof fn lemma_tokens_of_plain_words(ws: Seq<Seq<char>>)
    requires
        forall|i: int| 0 <= i < ws.len() ==> plain_word(#[trigger] ws[i]),
    ensures
        tokens(join(ws, ' ')) == ws,
{
    let bare = Seq::new(ws.len(), |i: int| None::<char>);
    lemma_tokens_of_words(ws, bare);
    assert(all_written(ws, bare) =~= ws);
}

/// A text in quotes that it does not hold itself is one word.
pub proof fn lemma_tokens_of_quoted(w: Seq<char>, q: char)
    requires
        q == '"' || q == '\'',
        forall|i: int| 0 <= i < w.len() ==> #[trigger] w[i] != q,
    ensures
        tokens(seq![q] + w + seq![q]) == seq![w],
{
    let line = all_written(seq![w], seq![Some(q)]);
    lemma_tokens_of_words(seq![w], seq![Some(q)]);
    assert(join(line, ' ') =~= line[0]);
}

/// Split a command line into words, honouring single and double quotes.
pub fn tokenize_chars(line: &[char]) -> (r: Vec<Vec<char>>)
    ensures
        views(r@) == tokens(line@),
{
    let mut out: Vec<Vec<char>> = Vec::new();
    let mut cur: Vec<char> = Vec::new();
    let mut quote: Option<char> = None;
    let mut has: bool = false;
    let mut i: usize = 0;
    proof {
        assert(views(out@) =~= Seq::<Seq<char>>::empty());
    }
    while i < line.len()
        invariant
            i <= line@.len(),
            lexed(line@.take(i as int)) == (Lexer { words: views(out@), cur: cur@, quote, has }),
        decreases line@.len() - i,
    {
        let ch: char = line[i];
        proof {
            assert(line@.take(i + 1).drop_last() =~= line@.take(i as int));
        }
        let ghost o0 = views(out@);
        match quote {
            Some(q) => {
                if ch == q {
                    quote = None;
                } else {
                    cur.push(ch);
                }
            },
            None => {
                if ch == '"' || ch == '\'' {
                    quote = Some(ch);
                    has = true;
                } else if is_white_char(ch) {
                    if has || cur.len() > 0 {
                        let ghost c0 = cur@;
                        let mut w: Vec<char> = Vec::new();
                        std::mem::swap(&mut w, &mut cur);
                        out.push(w);
                        has = false;
                        proof {
                            assert(views(out@) =~= o0.push(c0));
                        }
                    }
                } else {
                    cur.push(ch);
                }
            },
        }
        i += 1;
    }
    proof {
        assert(line@.take(line@.len() as int) =~= line@);
    }
    if has || cur.len() > 0 {
        let ghost o0 = views(out@);
        let ghost c0 = cur@;
        out.push(cur);
        proof {
            assert(views(out@) =~= o0.push(c0));
        }
    }
    out
}

pub fn tokenize(line: &str) -> (r: Vec<String>)
    ensures
        texts(r@) == tokens(line@),
{
    to_texts(&tokenize_chars(&to_chars(line)))
}

pub fn to_texts(v: &[Vec<char>]) -> (r: Vec<String>)
    ensures
        texts(r@) == views(v@),
{
    let mut out: Vec<String> = Vec::new();
    let mut i: usize = 0;
    proof {
        assert(texts(out@) =~= views(v@).take(0));
    }
    while i < v.len()
        invariant
            i <= v@.len(),
            texts(out@) == views(v@).take(i as int),
        decreases v@.len() - i,
    {
        let ghost o0 = texts(out@);
        out.push(to_text(&v[i]));
        i += 1;
        proof {
            assert(texts(out@) =~= o0.push(v@[i - 1]@));
            assert(views(v@).take(i as int) =~= o0.push(v@[i - 1]@));
        }
    }
    proof {
        assert(views(v@).take(v@.len() as int) =~= views(v@));
    }
    out
}

// ---------------------------------------------------------------------
// Escape sequences
// ---------------------------------------------------------------------

pub open spec fn is_letter(c: char) -> bool {
    ('a' <= c && c <= 'z') || ('A' <= c && c <= 'Z')
}

/// Text without escape sequences, and whether one is under way.
pub open spec fn stripped_from(s: Seq<char>) -> (Seq<char>, bool)
    decreases s.len(),
{
    if s.len() == 0 {
        (Seq::empty(), false)
    } else {
        let (out, esc) = stripped_from(s.drop_last());
        let ch = s.last();
        if esc {
            (out, !is_letter(ch))
        } else if ch == '\x1b' {
            (out, true)
        } else {
            (out.push(ch), false)
        }
    }
}

pub open spec fn stripped(s: Seq<char>) -> Seq<char> {
    stripped_from(s).0
}

/// No escape character is left over; text without one stays as it is.
pub proof fn lemma_stripped(s: Seq<char>)
    ensures
        !stripped(s).contains('\x1b'),
        !s.contains('\x1b') ==> stripped(s) == s && !stripped_from(s).1,
    decreases s.len(),
{
    if s.len() > 0 {
        let d = s.drop_last();
        lemma_stripped(d);
        assert(s == d.push(s.last()));
        let r = stripped(s);
        assert forall|i: int| 0 <= i < r.len() implies r[i] != '\x1b' by {
            if i < stripped(d).len() {
                assert(stripped(d)[i] == r[i]);
                assert(stripped(d).contains(stripped(d)[i]));
            }
        }
        if !s.contains('\x1b') {
            assert forall|i: int| 0 <= i < d.len() implies d[i] != '\x1b' by {
                assert(s[i] == d[i]);
                assert(s.contains(s[i]));
            }
            assert(!d.contains('\x1b'));
            assert(s.contains(s[s.len() - 1]));
        }
    }
}

pub fn strip_ansi(s: &[char]) -> (r: Vec<char>)
    ensures
        r@ == stripped(s@),
{
    let mut out: Vec<char> = Vec::new();
    let mut esc: bool = false;
    let mut i: usize = 0;
    while i < s.len()
        invariant
            i <= s@.len(),
            stripped_from(s@.take(i as int)) == (out@, esc),
        decreases s@.len() - i,
    {
        let ch: char = s[i];
        proof {
            assert(s@.take(i + 1).drop_last() =~= s@.take(i as int));
        }
        if esc {
            if ('a' <= ch && ch <= 'z') || ('A' <= ch && ch <= 'Z') {
                esc = false;
            }
        } else if ch == '\x1b' {
            esc = true;
        } else {
            out.push(ch);
        }
        i += 1;
    }
    proof {
        assert(s@.take(s@.len() as int) =~= s@);
    }
    out
}

// ---------------------------------------------------------------------
// Flags
// ---------------------------------------------------------------------

pub open spec fn is_flag(a: Seq<char>) -> bool {
    a.len() > 1 && a[0] == '-'
}

/// The letters of all flags.
pub open spec fn flag_letters(args: Seq<Seq<char>>) -> Seq<char>
    decreases args.len(),
{
    if args.len() == 0 {
        Seq::empty()
    } else {
        let f = flag_letters(args.drop_last());
        if is_flag(args.last()) { f + args.last().skip(1) } else { f }
    }
}

/// The arguments that are not flags.
pub open spec fn operands(args: Seq<Seq<char>>) -> Seq<Seq<char>>
    decreases args.len(),
{
    if args.len() == 0 {
        Seq::empty()
    } else {
        let f = operands(args.drop_last());
        if is_flag(args.last()) { f } else { f.push(args.last()) }
    }
}

/// Whether some argument is a dash with `c` somewhere behind it.
pub open spec fn some_flag_has(args: Seq<Seq<char>>, c: char) -> bool {
    exists|i: int, k: int|
        0 <= i < args.len() && 1 <= k < args[i].len() && args[i][0] == '-' && #[trigger] args[i][k] == c
}

/// The operands are the arguments that are not a dash with letters behind it,
/// in their order; and a letter is set if some argument is a dash with the
/// letter behind it.
pub proof fn lemma_flags_apart(args: Seq<Seq<char>>)
    ensures
        operands(args) == args.filter(|a: Seq<char>| a.len() <= 1 || a[0] != '-'),
        forall|c: char|
            #[trigger] flag_letters(args).contains(c) <==> some_flag_has(args, c),
    decreases args.len(),
{
    reveal(Seq::filter);
    if args.len() > 0 {
        let d = args.drop_last();
        let a = args.last();
        let n = (args.len() - 1) as int;
        lemma_flags_apart(d);
        assert forall|c: char| #[trigger] flag_letters(args).contains(c) <==> some_flag_has(args, c) by {
            let f = flag_letters(d);
            if flag_letters(args).contains(c) {
                let j = choose|j: int| 0 <= j < flag_letters(args).len() && flag_letters(args)[j] == c;
                if j < f.len() {
                    assert(f[j] == c);
                    assert(f.contains(c));
                    let (i, k) = choose|i: int, k: int|
                        0 <= i < d.len() && 1 <= k < d[i].len() && d[i][0] == '-' && #[trigger] d[i][k] == c;
                    assert(args[i][k] == c);
                } else {
                    assert(args[n][j - f.len() + 1] == c);
                }
            }
            if some_flag_has(args, c) {
                let (i, k) = choose|i: int, k: int|
                    0 <= i < args.len() && 1 <= k < args[i].len() && args[i][0] == '-' && #[trigger] args[i][k] == c;
                if i < n {
                    assert(d[i][k] == c);
                    assert(f.contains(c));
                    let j = choose|j: int| 0 <= j < f.len() && f[j] == c;
                    assert(flag_letters(args)[j] == c);
                } else {
                    assert(flag_letters(args)[f.len() + k - 1] == c);
                }
            }
        }
    }
}

pub fn flags(args: &[Vec<char>]) -> (r: (Vec<char>, Vec<Vec<char>>))
    ensures
        r.0@ == flag_letters(views(args@)),
        views(r.1@) == operands(views(args@)),
{
    let mut f: Vec<char> = Vec::new();
    let mut rest: Vec<Vec<char>> = Vec::new();
    let ghost all = views(args@);
    let mut i: usize = 0;
    proof {
        assert(views(rest@) =~= Seq::<Seq<char>>::empty());
        assert(all.take(0) =~= Seq::<Seq<char>>::empty());
    }
    while i < args.len()
        invariant
            i <= args@.len(),
            all == views(args@),
            f@ == flag_letters(all.take(i as int)),
            views(rest@) == operands(all.take(i as int)),
        decreases args@.len() - i,
    {
        let a: &Vec<char> = &args[i];
        proof {
            assert(all.take(i + 1).drop_last() =~= all.take(i as int));
            assert(all.take(i + 1).last() == a@);
        }
        if a.len() > 1 && a[0] == '-' {
            let letters: Vec<char> = copy_range(a, 1, a.len());
            proof {
                assert(letters@ =~= a@.skip(1));
            }
            push_all(&mut f, &letters);
        } else {
            let ghost r0 = views(rest@);
            rest.push(crate::text::copy(a));
            proof {
                assert(views(rest@) =~= r0.push(a@));
            }
        }
        i += 1;
    }
    proof {
        assert(all.take(all.len() as int) =~= all);
    }
    (f, rest)
}

// ---------------------------------------------------------------------
// Command lines
// ---------------------------------------------------------------------

pub open spec fn is_redirect(w: Seq<char>) -> bool {
    w == ">"@ || w == ">>"@
}

/// Where the first redirection stands, or the number of words.
pub open spec fn redirect_at(ws: Seq<Seq<char>>) -> int
    decreases ws.len(),
{
    if ws.len() == 0 {
        0
    } else if is_redirect(ws[0]) {
        0
    } else {
        1 + redirect_at(ws.skip(1))
    }
}

proof fn lemma_redirect_at(ws: Seq<Seq<char>>)
    ensures
        0 <= redirect_at(ws) <= ws.len(),
    decreases ws.len(),
{
    if ws.len() > 0 {
        lemma_redirect_at(ws.skip(1));
    }
}

/// A command line taken apart.
pub enum CommandLine {
    /// There is nothing on it.
    Empty,
    /// The message to print.
    Invalid(Vec<char>),
    Command {
        name: Vec<char>,
        args: Vec<Vec<char>>,
        /// The file that gets the output, and whether it is appended.
        redirect: Option<(Vec<char>, bool)>,
    },
}

pub enum CommandLineState {
    Empty,
    Invalid(Seq<char>),
    Command { name: Seq<char>, args: Seq<Seq<char>>, redirect: Option<(Seq<char>, bool)> },
}

impl View for CommandLine {
    type V = CommandLineState;

    open spec fn view(&self) -> CommandLineState {
        match *self {
            CommandLine::Empty => CommandLineState::Empty,
            CommandLine::Invalid(m) => CommandLineState::Invalid(m@),
            CommandLine::Command { name, args, redirect } => CommandLineState::Command {
                name: name@,
                args: views(args@),
                redirect: match redirect {
                    Some((p, a)) => Some((p@, a)),
                    None => None,
                },
            },
        }
    }
}

pub open spec fn missing_file(w: Seq<char>) -> Seq<char> {
    "\x1b[91m"@ + "syntax error: missing file after "@ + w + "\x1b[0m"@ + "\n"@
}

/// Output redirection: `cmd ... > file` or `>> file`.
pub open spec fn parsed_line(cwd: Seq<char>, line: Seq<char>) -> CommandLineState {
    let ws = tokens(line);
    let at = redirect_at(ws);
    if ws.len() == 0 {
        CommandLineState::Empty
    } else if at == ws.len() {
        CommandLineState::Command { name: ws[0], args: ws.skip(1), redirect: None }
    } else if at + 1 == ws.len() {
        CommandLineState::Invalid(missing_file(ws[at]))
    } else {
        CommandLineState::Command {
            name: ws[0],
            args: ws.subrange(1, at),
            redirect: Some((normalized(cwd, ws[at + 1]), ws[at] == ">>"@)),
        }
    }
}

proof fn lemma_first_redirect(ws: Seq<Seq<char>>, n: int)
    requires
        0 <= n <= ws.len(),
        forall|i: int| 0 <= i < n ==> !is_redirect(#[trigger] ws[i]),
        n < ws.len() ==> is_redirect(ws[n]),
    ensures
        redirect_at(ws) == n,
    decreases ws.len(),
{
    if n > 0 {
        let r = ws.skip(1);
        assert(!is_redirect(ws[0]));
        assert forall|i: int| 0 <= i < n - 1 implies !is_redirect(#[trigger] r[i]) by {
            assert(r[i] == ws[i + 1]);
        }
        lemma_first_redirect(r, n - 1);
    }
}

/// A line of words is the command that its first word names, with the other
/// words for arguments. With `>` or `>>` and a file behind them it is the
/// same command, whose output goes to that file, for `>>` at its end.
pub proof fn lemma_redirected(cwd: Seq<char>, ws: Seq<Seq<char>>, file: Seq<char>)
    requires
        ws.len() > 0,
        forall|i: int| 0 <= i < ws.len() ==> plain_word(#[trigger] ws[i]) && !is_redirect(ws[i]),
        plain_word(file),
    ensures
        parsed_line(cwd, join(ws, ' ')) == (CommandLineState::Command { name: ws[0], args: ws.skip(1), redirect: None }),
        parsed_line(cwd, join(ws.push(">"@).push(file), ' ')) == (CommandLineState::Command {
            name: ws[0],
            args: ws.skip(1),
            redirect: Some((normalized(cwd, file), false)),
        }),
        parsed_line(cwd, join(ws.push(">>"@).push(file), ' ')) == (CommandLineState::Command {
            name: ws[0],
            args: ws.skip(1),
            redirect: Some((normalized(cwd, file), true)),
        }),
        parsed_line(cwd, join(ws.push(">"@), ' ')) is Invalid,
        parsed_line(cwd, join(ws.push(">>"@), ' ')) is Invalid,
{
    reveal_strlit(">");
    reveal_strlit(">>");
    let n = ws.len() as int;
    lemma_tokens_of_plain_words(ws);
    lemma_first_redirect(ws, n);
    lemma_behind(ws, ">"@, file);
    lemma_behind(ws, ">>"@, file);
    assert(">"@.len() != ">>"@.len());
    assert(ws.push(">"@).push(file).subrange(1, n) =~= ws.skip(1));
    assert(ws.push(">>"@).push(file).subrange(1, n) =~= ws.skip(1));
}

proof fn lemma_behind(ws: Seq<Seq<char>>, mark: Seq<char>, file: Seq<char>)
    requires
        ws.len() > 0,
        forall|i: int| 0 <= i < ws.len() ==> plain_word(#[trigger] ws[i]) && !is_redirect(ws[i]),
        plain_word(file),
        is_redirect(mark),
    ensures
        tokens(join(ws.push(mark).push(file), ' ')) == ws.push(mark).push(file),
        redirect_at(ws.push(mark).push(file)) == ws.len(),
        tokens(join(ws.push(mark), ' ')) == ws.push(mark),
        redirect_at(ws.push(mark)) == ws.len(),
{
    reveal_strlit(">");
    reveal_strlit(">>");
    let a = ws.push(mark);
    let b = a.push(file);
    assert(plain_word(mark));
    assert forall|i: int| 0 <= i < b.len() implies plain_word(#[trigger] b[i]) by {
        if i < ws.len() {
            assert(b[i] == ws[i]);
        }
    }
    assert forall|i: int| 0 <= i < a.len() implies plain_word(#[trigger] a[i]) by {
        if i < ws.len() {
            assert(a[i] == ws[i]);
        }
    }
    lemma_tokens_of_plain_words(a);
    lemma_tokens_of_plain_words(b);
    assert forall|i: int| 0 <= i < ws.len() implies !is_redirect(#[trigger] a[i]) && !is_redirect(b[i]) by {
        assert(a[i] == ws[i]);
        assert(b[i] == ws[i]);
    }
    lemma_first_redirect(a, ws.len() as int);
    lemma_first_redirect(b, ws.len() as int);
}

/// Whether a line has a redirection to a file but no command before it.
pub open spec fn lacks_command(line: Seq<char>) -> bool {
    tokens(line).len() > 1 && is_redirect(tokens(line)[0])
}

/// Whether a line has a redirection to a file but no command before it:
/// such a line cannot be run.
pub fn is_commandless(line: &str) -> (r: bool)
    ensures
        r == lacks_command(line@),
{
    let ws: Vec<Vec<char>> = tokenize_chars(&to_chars(line));
    proof {
        assert(ws@.len() == views(ws@).len());
        if ws@.len() > 0 {
            assert(views(ws@)[0] == ws@[0]@);
        }
    }
    ws.len() > 1 && (is_str(&ws[0], ">") || is_str(&ws[0], ">>"))
}

/// Take a command line apart.
pub fn run(cwd: &[char], line: &str) -> (r: CommandLine)
    requires
        !lacks_command(line@),
    ensures
        r@ == parsed_line(cwd@, line@),
{
    let ws: Vec<Vec<char>> = tokenize_chars(&to_chars(line));
    let ghost all = views(ws@);
    let n: usize = ws.len();
    if n == 0 {
        return CommandLine::Empty;
    }
    let mut at: usize = 0;
    proof {
        assert(all.skip(0) =~= all);
        lemma_redirect_at(all);
    }
    while at < n && !is_str(&ws[at], ">") && !is_str(&ws[at], ">>")
        invariant
            at <= n == ws@.len(),
            all == views(ws@),
            redirect_at(all) == at + redirect_at(all.skip(at as int)),
        decreases n - at,
    {
        proof {
            assert(all.skip(at as int)[0] == ws@[at as int]@);
            assert(all.skip(at as int).skip(1) =~= all.skip(at + 1));
        }
        at += 1;
    }
    proof {
        if at < n {
            assert(all.skip(at as int)[0] == ws@[at as int]@);
        }
        assert(redirect_at(all) == at);
    }
    let mut args: Vec<Vec<char>> = Vec::new();
    let mut i: usize = 1;
    proof {
        assert(views(args@) =~= all.subrange(1, 1));
    }
    while i < at
        invariant
            1 <= i,
            i <= at || at == 0,
            at <= n == ws@.len(),
            all == views(ws@),
            at > 0 ==> views(args@) == all.subrange(1, i as int),
        decreases at - i,
    {
        let ghost a0 = views(args@);
        args.push(crate::text::copy(&ws[i]));
        i += 1;
        proof {
            assert(views(args@) =~= a0.push(ws@[i - 1]@));
            assert(all.subrange(1, i as int) =~= a0.push(ws@[i - 1]@));
        }
    }
    if at == n {
        proof {
            assert(all.skip(1) =~= all.subrange(1, n as int));
        }
        return CommandLine::Command { name: crate::text::copy(&ws[0]), args, redirect: None };
    }
    if at + 1 == n {
        let mut m: Vec<char> = to_chars("\x1b[91m");
        push_str(&mut m, "syntax error: missing file after ");
        push_all(&mut m, &ws[at]);
        push_str(&mut m, "\x1b[0m");
        push_str(&mut m, "\n");
        proof {
            assert(all[at as int] == ws@[at as int]@);
        }
        return CommandLine::Invalid(m);
    }
    proof {
        assert(all[0] == ws@[0]@);
        assert(all[at as int] == ws@[at as int]@);
        assert(all[at + 1] == ws@[at + 1]@);
    }
    let path: Vec<char> = normalize_chars(cwd, &ws[at + 1]);
    let append: bool = is_str(&ws[at], ">>");
    CommandLine::Command { name: crate::text::copy(&ws[0]), args, redirect: Some((path, append)) }
}

/// What a command printed, ready for the terminal: on lines of its own.
pub open spec fn on_lines(out: Seq<char>) -> Seq<char> {
    if out.len() == 0 || out.last() == '\n' { out } else { out.push('\n') }
}

pub fn finish_output(out: Vec<char>) -> (r: Vec<char>)
    ensures
        r@ == on_lines(out@),
{
    let mut o: Vec<char> = out;
    let n: usize = o.len();
    if n > 0 && o[n - 1] != '\n' {
        o.push('\n');
    }
    o
}

/// What is written to the file that gets the output: it, without colours,
/// behind what the file held where it is appended. A file that cannot be read
/// held nothing.
pub open spec fn redirected(out: Seq<char>, append: bool, held: Option<Seq<u8>>) -> Seq<u8> {
    (match held {
        Some(b) if append => b,
        _ => Seq::empty(),
    }) + encode_utf8(stripped(out))
}

pub fn redirect_output(out: &[char], append: bool, held: Option<Vec<u8>>) -> (r: Vec<u8>)
    ensures
        r@ == redirected(
            out@,
            append,
            match held {
                Some(b) => Some(b@),
                None => None,
            },
        ),
{
    let text: String = to_text(&strip_ansi(out));
    let mut data: Vec<u8> = match held {
        Some(b) => if append { b } else { Vec::new() },
        None => Vec::new(),
    };
    push_bytes(&mut data, text.as_str().as_bytes());
    data
}

/// Appending twice is appending both outputs at once, where the first is not
/// cut in an escape sequence.
pub proof fn lemma_append_twice(a: Seq<char>, b: Seq<char>, held: Seq<u8>)
    requires
        !stripped_from(a).1,
    ensures
        redirected(b, true, Some(redirected(a, true, Some(held)))) == redirected(a + b, true, Some(held)),
{
    lemma_stripped_concat(a, b);
    lemma_encode_concat(stripped(a), stripped(b));
    assert(held + encode_utf8(stripped(a)) + encode_utf8(stripped(b)) =~= held + (encode_utf8(stripped(a)) + encode_utf8(
        stripped(b),
    )));
}

proof fn lemma_encode_concat(a: Seq<char>, b: Seq<char>)
    ensures
        encode_utf8(a + b) == encode_utf8(a) + encode_utf8(b),
    decreases a.len(),
{
    if a.len() == 0 {
        assert(a + b =~= b);
        assert(encode_utf8(a) + encode_utf8(b) =~= encode_utf8(b));
    } else {
        lemma_encode_concat(a.drop_first(), b);
        assert((a + b).drop_first() =~= a.drop_first() + b);
        assert((a + b)[0] == a[0]);
        assert(encode_utf8(a + b) =~= encode_utf8(a) + encode_utf8(b));
    }
}

proof fn lemma_stripped_concat(a: Seq<char>, b: Seq<char>)
    requires
        !stripped_from(a).1,
    ensures
        stripped_from(a + b) == (stripped(a) + stripped(b), stripped_from(b).1),
    decreases b.len(),
{
    if b.len() == 0 {
        assert(a + b =~= a);
        assert(stripped(a) + stripped(b) =~= stripped(a));
    } else {
        lemma_stripped_concat(a, b.drop_last());
        assert((a + b).drop_last() =~= a + b.drop_last());
        assert((a + b).last() == b.last());
        assert(stripped_from(a + b).0 =~= stripped(a) + stripped(b));
    }
}

// ---------------------------------------------------------------------
// Programs
// ---------------------------------------------------------------------

/// Where an executable may be: a path, or a name in /bin.
pub open spec fn program_candidates(cwd: Seq<char>, name: Seq<char>) -> Seq<Seq<char>> {
    if name.contains('/') {
        seq![normalized(cwd, name)]
    } else {
        seq![joined_path("/bin"@, name), normalized(cwd, name)]
    }
}

/// Where an executable may be, in the order in which the places are tried.
pub fn candidates(cwd: &[char], name: &[char]) -> (r: Vec<Vec<char>>)
    ensures
        views(r@) == program_candidates(cwd@, name@),
{
    let mut out: Vec<Vec<char>> = Vec::new();
    if !has_char(name, '/') {
        out.push(join_chars(&to_chars("/bin"), name));
    }
    out.push(normalize_chars(cwd, name));
    proof {
        assert(views(out@) =~= program_candidates(cwd@, name@));
    }
    out
}

/// Whether `present` answered `answer` when it was asked about `path`.
pub open spec fn told<F: Fn(&str) -> bool>(is_file: F, path: Seq<char>, answer: bool) -> bool {
    exists|s: &str| #[trigger] s@ == path && call_ensures(is_file, (s,), answer)
}

/// Locate an executable: a path, or a name in /bin. `is_file` says whether
/// there is a file at a path.
pub fn find_program<F: Fn(&str) -> bool>(is_file: F, cwd: &str, name: &str) -> (r: Option<String>)
    requires
        forall|s: &str| call_requires(is_file, (s,)),
    ensures
        ({
            let c = program_candidates(cwd@, name@);
            match r {
                Some(p) => exists|i: int|
                    0 <= i < c.len() && #[trigger] c[i] == p@ && told(is_file, c[i], true) && forall|j: int|
                        0 <= j < i ==> told(is_file, #[trigger] c[j], false),
                None => forall|j: int| 0 <= j < c.len() ==> told(is_file, #[trigger] c[j], false),
            }
        }),
{
    let c: Vec<Vec<char>> = candidates(&to_chars(cwd), &to_chars(name));
    let ghost cs = views(c@);
    let mut i: usize = 0;
    while i < c.len()
        invariant
            i <= c@.len(),
            cs == views(c@),
            cs == program_candidates(cwd@, name@),
            forall|s: &str| call_requires(is_file, (s,)),
            forall|j: int| 0 <= j < i ==> told(is_file, #[trigger] cs[j], false),
        decreases c@.len() - i,
    {
        let p: String = to_text(&c[i]);
        let s: &str = p.as_str();
        let yes: bool = is_file(s);
        proof {
            assert(s@ == cs[i as int] && call_ensures(is_file, (s,), yes));
            assert(told(is_file, cs[i as int], yes));
        }
        if yes {
            return Some(to_text(&c[i]));
        }
        i += 1;
    }
    None
}

} // verus!
