//! Storage and cookies of pages, by site.

use super::table::{del, get, in_order, lemma_del_get, lemma_place, lemma_put_get, place, put, Pair, Row, Table};
use crate::gui::browser::typed::{contains_text, has_text};
use crate::text::{
    copy, copy_range, find_char, is_str, join, join_with, lemma_join_append, lemma_join_split, lemma_split_join,
    lemma_split_nonempty, lemma_split_pieces, lemma_trim_takes_margins, lower_all, lowered, no_margin, push_all, push_str,
    same, split, split_on, to_chars, trim, trimmed, views,
};
use vstd::prelude::*;

verus! {

// ---------------------------------------------------------------------
// Text in files
// ---------------------------------------------------------------------

/// A character in a storage file.
pub open spec fn esc(c: char) -> Seq<char> {
    if c == '\\' {
        seq!['\\', '\\']
    } else if c == '\n' {
        seq!['\\', 'n']
    } else if c == '\t' {
        seq!['\\', 't']
    } else {
        seq![c]
    }
}

/// A text in a storage file: without line ends and tabs.
pub open spec fn escaped(s: Seq<char>) -> Seq<char>
    decreases s.len(),
{
    if s.len() == 0 { Seq::empty() } else { escaped(s.drop_last()) + esc(s.last()) }
}

/// The character that one after a backslash stands for.
pub open spec fn meant_by(c: char) -> char {
    if c == 'n' {
        '\n'
    } else if c == 't' {
        '\t'
    } else {
        c
    }
}

/// The text read so far, and whether a backslash waits for the next
/// character.
pub open spec fn unescaping(s: Seq<char>) -> (Seq<char>, bool)
    decreases s.len(),
{
    if s.len() == 0 {
        (Seq::empty(), false)
    } else {
        let (t, waits) = unescaping(s.drop_last());
        let c = s.last();
        if waits {
            (t.push(meant_by(c)), false)
        } else if c == '\\' {
            (t, true)
        } else {
            (t.push(c), false)
        }
    }
}

pub open spec fn unescaped(s: Seq<char>) -> Seq<char> {
    unescaping(s).0
}

pub fn escape(s: &[char]) -> (r: Vec<char>)
    ensures
        r@ == escaped(s@),
{
    let mut out: Vec<char> = Vec::new();
    let mut i: usize = 0;
    while i < s.len()
        invariant
            i <= s@.len(),
            out@ == escaped(s@.take(i as int)),
        decreases s@.len() - i,
    {
        let c: char = s[i];
        let ghost o = out@;
        if c == '\\' {
            out.push('\\');
            out.push('\\');
        } else if c == '\n' {
            out.push('\\');
            out.push('n');
        } else if c == '\t' {
            out.push('\\');
            out.push('t');
        } else {
            out.push(c);
        }
        i += 1;
        proof {
            assert(s@.take(i as int).drop_last() =~= s@.take(i - 1));
            assert(out@ =~= o + esc(c));
        }
    }
    proof {
        assert(s@.take(s@.len() as int) =~= s@);
    }
    out
}

pub fn unescape(s: &[char]) -> (r: Vec<char>)
    ensures
        r@ == unescaped(s@),
{
    let mut out: Vec<char> = Vec::new();
    let mut waits: bool = false;
    let mut i: usize = 0;
    while i < s.len()
        invariant
            i <= s@.len(),
            (out@, waits) == unescaping(s@.take(i as int)),
        decreases s@.len() - i,
    {
        let c: char = s[i];
        if waits {
            out.push(
                if c == 'n' {
                    '\n'
                } else if c == 't' {
                    '\t'
                } else {
                    c
                },
            );
            waits = false;
        } else if c == '\\' {
            waits = true;
        } else {
            out.push(c);
        }
        i += 1;
        proof {
            assert(s@.take(i as int).drop_last() =~= s@.take(i - 1));
        }
    }
    proof {
        assert(s@.take(s@.len() as int) =~= s@);
    }
    out
}

/// A text comes back from a file as it was.
pub proof fn lemma_unescape_back(s: Seq<char>)
    ensures
        unescaping(escaped(s)) == (s, false),
    decreases s.len(),
{
    if s.len() > 0 {
        let d = s.drop_last();
        lemma_unescape_back(d);
        let e = escaped(d);
        let c = s.last();
        let t = escaped(s);
        if esc(c).len() == 2 {
            assert(t.drop_last() =~= e.push('\\'));
            assert(e.push('\\').drop_last() =~= e);
            reveal_with_fuel(unescaping, 3);
        } else {
            assert(t.drop_last() =~= e);
        }
        assert(d.push(c) =~= s);
    }
}

/// No line end and no tab is in a text that was escaped, and it ends as the
/// text does if that is a carriage return.
pub proof fn lemma_escaped(s: Seq<char>)
    ensures
        !escaped(s).contains('\n'),
        !escaped(s).contains('\t'),
        s.len() > 0 ==> escaped(s).len() > 0,
        escaped(s).len() > 0 && escaped(s).last() == '\r' ==> s.len() > 0 && s.last() == '\r',
    decreases s.len(),
{
    if s.len() > 0 {
        lemma_escaped(s.drop_last());
        let e = escaped(s.drop_last());
        let t = escaped(s);
        let x = esc(s.last());
        assert forall|i: int| 0 <= i < t.len() implies t[i] != '\n' && t[i] != '\t' by {
            if i < e.len() {
                assert(t[i] == e[i]);
                assert(e.contains(e[i]));
            } else {
                assert(t[i] == x[i - e.len()]);
            }
        }
        assert(t.last() == x.last());
    }
}

// ---------------------------------------------------------------------
// Lines
// ---------------------------------------------------------------------

/// Where a character first stands in a text; the length if nowhere.
pub open spec fn first(s: Seq<char>, c: char) -> int
    decreases s.len(),
{
    if s.len() == 0 || s[0] == c { 0 } else { 1 + first(s.skip(1), c) }
}

/// The text before and after the first occurrence of a character.
pub open spec fn cut(s: Seq<char>, c: char) -> Option<(Seq<char>, Seq<char>)> {
    let i = first(s, c);
    if i < s.len() { Some((s.take(i), s.skip(i + 1))) } else { None }
}

proof fn lemma_first(s: Seq<char>, c: char, i: int)
    requires
        0 <= i <= s.len(),
        forall|j: int| 0 <= j < i ==> s[j] != c,
        i < s.len() ==> s[i] == c,
    ensures
        first(s, c) == i,
    decreases s.len(),
{
    if i > 0 {
        let t = s.skip(1);
        assert forall|j: int| 0 <= j < i - 1 implies t[j] != c by {
            assert(s[j + 1] != c);
        }
        lemma_first(t, c, i - 1);
    }
}

fn cut_at(s: &[char], c: char) -> (r: Option<(Vec<char>, Vec<char>)>)
    ensures
        match r {
            Some(p) => cut(s@, c) == Some((p.0@, p.1@)),
            None => cut(s@, c) is None,
        },
{
    match find_char(s, c) {
        Some(i) => {
            proof {
                lemma_first(s@, c, i as int);
            }
            let n: usize = s.len();
            let a: Vec<char> = copy_range(s, 0, i);
            let b: Vec<char> = copy_range(s, i + 1, n);
            proof {
                assert(a@ =~= s@.take(i as int));
                assert(b@ =~= s@.skip(i + 1));
            }
            Some((a, b))
        },
        None => {
            proof {
                assert forall|j: int| 0 <= j < s@.len() implies s@[j] != c by {
                    assert(s@.contains(s@[j]));
                }
                lemma_first(s@, c, s@.len() as int);
            }
            None
        },
    }
}

/// A line without a carriage return at its end.
pub open spec fn without_cr(s: Seq<char>) -> Seq<char> {
    if s.len() > 0 && s.last() == '\r' { s.drop_last() } else { s }
}

/// How many lines a text has: what follows the last line end counts unless
/// it is empty.
pub open spec fn line_count(s: Seq<char>) -> int {
    let p = split(s, '\n');
    if p.last().len() == 0 { p.len() - 1 } else { p.len() as int }
}

/// The `i`th line of a text.
pub open spec fn line(s: Seq<char>, i: int) -> Seq<char> {
    let p = split(s, '\n');
    if i < p.len() - 1 { without_cr(p[i]) } else { p[i] }
}

/// The table after a line of a storage file.
pub open spec fn with_line(t: Seq<Pair>, l: Seq<char>) -> Seq<Pair> {
    match cut(l, '\t') {
        Some((k, v)) => put(t, unescaped(k), unescaped(v)),
        None => t,
    }
}

/// The table after the first `n` lines.
pub open spec fn loaded_lines(s: Seq<char>, n: int) -> Seq<Pair>
    decreases n,
{
    if n <= 0 { Seq::empty() } else { with_line(loaded_lines(s, n - 1), line(s, n - 1)) }
}

/// What a storage file holds.
pub open spec fn loaded(s: Seq<char>) -> Seq<Pair> {
    loaded_lines(s, line_count(s))
}

/// A row in a storage file, without its line end.
pub open spec fn saved_row(p: Pair) -> Seq<char> {
    escaped(p.0) + seq!['\t'] + escaped(p.1)
}

/// A table as a storage file.
pub open spec fn saved(t: Seq<Pair>) -> Seq<char>
    decreases t.len(),
{
    if t.len() == 0 {
        Seq::empty()
    } else {
        saved(t.drop_last()) + saved_row(t.last()) + seq!['\n']
    }
}

/// Read a storage file.
pub fn load(s: &[char]) -> (r: Table)
    ensures
        r@ == loaded(s@),
{
    let parts: Vec<Vec<char>> = split_on(s, '\n');
    let mut t: Table = Table::new();
    let n: usize = parts.len();
    proof {
        crate::text::lemma_split_nonempty(s@, '\n');
        assert(views(parts@).len() == n);
        assert(views(parts@)[n - 1] == parts@[n - 1]@);
    }
    let count: usize = if parts[n - 1].len() == 0 { n - 1 } else { n };
    let mut i: usize = 0;
    while i < count
        invariant
            i <= count <= n,
            n == parts@.len(),
            views(parts@) == split(s@, '\n'),
            t@ == loaded_lines(s@, i as int),
        decreases count - i,
    {
        let full: &Vec<char> = &parts[i];
        proof {
            assert(views(parts@)[i as int] == full@);
        }
        let k: usize = full.len();
        let end: usize = if i < n - 1 && k > 0 && full[k - 1] == '\r' { k - 1 } else { k };
        let l: Vec<char> = copy_range(full, 0, end);
        proof {
            assert(l@ =~= line(s@, i as int));
        }
        match cut_at(&l, '\t') {
            Some((key, value)) => {
                t.put(unescape(&key), unescape(&value));
            },
            None => {},
        }
        i += 1;
    }
    t
}

/// Write a storage file.
pub fn save(t: &Table) -> (r: Vec<char>)
    ensures
        r@ == saved(t@),
{
    let mut out: Vec<char> = Vec::new();
    let n: usize = t.len();
    let mut i: usize = 0;
    while i < n
        invariant
            i <= n,
            n == t@.len(),
            out@ == saved(t@.take(i as int)),
        decreases n - i,
    {
        let ghost o = out@;
        let row: &Row = t.row(i);
        push_all(&mut out, &escape(&row.key));
        out.push('\t');
        push_all(&mut out, &escape(&row.value));
        out.push('\n');
        i += 1;
        proof {
            assert(t@.take(i as int).drop_last() =~= t@.take(i - 1));
            assert(out@ =~= o + saved_row(t@[i - 1]) + seq!['\n']);
        }
    }
    proof {
        assert(t@.take(n as int) =~= t@);
    }
    out
}

proof fn lemma_loaded_lines_in_order(s: Seq<char>, n: int)
    ensures
        in_order(loaded_lines(s, n)),
    decreases n,
{
    if n > 0 {
        lemma_loaded_lines_in_order(s, n - 1);
        match cut(line(s, n - 1), '\t') {
            Some((k, v)) => {
                lemma_put_get(loaded_lines(s, n - 1), unescaped(k), unescaped(v), k);
            },
            None => {},
        }
    }
}

/// Whatever a storage file holds, the table is in order.
pub proof fn lemma_loaded_in_order(s: Seq<char>)
    ensures
        in_order(loaded(s)),
{
    lemma_loaded_lines_in_order(s, line_count(s));
}

/// The rows of a table in its file.
pub open spec fn saved_rows(t: Seq<Pair>) -> Seq<Seq<char>> {
    Seq::new(t.len(), |i: int| saved_row(t[i]))
}

proof fn lemma_saved_join(t: Seq<Pair>)
    ensures
        saved(t) == join(saved_rows(t).push(Seq::<char>::empty()), '\n'),
    decreases t.len(),
{
    let rows = saved_rows(t);
    let all = rows.push(Seq::<char>::empty());
    assert(all.drop_last() =~= rows);
    if t.len() == 0 {
        assert(saved(t) =~= join(all, '\n'));
    } else {
        let d = t.drop_last();
        lemma_saved_join(d);
        let before = saved_rows(d);
        assert(rows.drop_last() =~= before);
        assert(before.push(Seq::<char>::empty()).drop_last() =~= before);
        if before.len() == 0 {
            assert(rows =~= seq![saved_row(t.last())]);
            assert(saved(d) =~= Seq::<char>::empty());
        } else {
            assert(saved(d) =~= join(before, '\n').push('\n'));
            assert(join(rows, '\n') =~= join(before, '\n').push('\n') + saved_row(t.last()));
        }
        assert(saved(t) =~= join(rows, '\n').push('\n'));
        assert(saved(t) =~= join(all, '\n'));
    }
}

proof fn lemma_append(t: Seq<Pair>, i: int)
    requires
        in_order(t),
        0 <= i < t.len(),
    ensures
        put(t.take(i), t[i].0, t[i].1) == t.take(i + 1),
{
    let s = t.take(i);
    let k = t[i].0;
    lemma_place(s, k);
    let p = place(s, k);
    if p < i {
        assert(s[p] == t[p]);
        assert(less_at(t, p, i));
    }
    assert(s.insert(i, t[i]) =~= t.take(i + 1));
}

/// Two rows of a table are in order.
spec fn less_at(t: Seq<Pair>, i: int, j: int) -> bool {
    super::table::less(t[i].0, t[j].0)
}

proof fn lemma_loaded_rows(t: Seq<Pair>, n: int)
    requires
        in_order(t),
        0 <= n <= t.len(),
        split(saved(t), '\n') == saved_rows(t).push(Seq::<char>::empty()),
        forall|i: int| 0 <= i < t.len() ==> (#[trigger] t[i]).1.len() == 0 || t[i].1.last() != '\r',
    ensures
        loaded_lines(saved(t), n) == t.take(n),
    decreases n,
{
    if n > 0 {
        lemma_loaded_rows(t, n - 1);
        let (k, v) = t[n - 1];
        let l = saved_row(t[n - 1]);
        let p = split(saved(t), '\n');
        assert(p[n - 1] == l);
        lemma_escaped(k);
        lemma_escaped(v);
        if escaped(v).len() > 0 {
            assert(l.last() == escaped(v).last());
        } else {
            assert(l.last() == '\t');
        }
        assert(line(saved(t), n - 1) == l);
        let m = escaped(k).len() as int;
        assert forall|j: int| 0 <= j < m implies l[j] != '\t' by {
            assert(l[j] == escaped(k)[j]);
            assert(escaped(k).contains(escaped(k)[j]));
        }
        lemma_first(l, '\t', m);
        assert(l.take(m) =~= escaped(k));
        assert(l.skip(m + 1) =~= escaped(v));
        lemma_unescape_back(k);
        lemma_unescape_back(v);
        lemma_append(t, n - 1);
    } else {
        assert(t.take(0) =~= Seq::<Pair>::empty());
    }
}

/// What was saved is loaded again, as it was. (A carriage return at the end
/// of a text is taken for part of the line end.)
pub proof fn lemma_load_saved(t: Seq<Pair>)
    requires
        in_order(t),
        forall|i: int| 0 <= i < t.len() ==> (#[trigger] t[i]).1.len() == 0 || t[i].1.last() != '\r',
    ensures
        loaded(saved(t)) == t,
{
    let rows = saved_rows(t);
    let all = rows.push(Seq::<char>::empty());
    lemma_saved_join(t);
    assert forall|i: int| 0 <= i < all.len() implies !(#[trigger] all[i]).contains('\n') by {
        if i < t.len() {
            let l = saved_row(t[i]);
            lemma_escaped(t[i].0);
            lemma_escaped(t[i].1);
            let a = escaped(t[i].0);
            let b = escaped(t[i].1);
            assert forall|j: int| 0 <= j < l.len() implies l[j] != '\n' by {
                if j < a.len() {
                    assert(l[j] == a[j] && a.contains(a[j]));
                } else if j > a.len() {
                    assert(l[j] == b[j - a.len() - 1] && b.contains(b[j - a.len() - 1]));
                }
            }
        }
    }
    lemma_split_join(all, '\n');
    lemma_loaded_rows(t, t.len() as int);
    assert(t.take(t.len() as int) =~= t);
}

// ---------------------------------------------------------------------
// Tables by name
// ---------------------------------------------------------------------

/// Tables by name.
pub struct Shelf {
    names: Vec<Vec<char>>,
    tables: Vec<Table>,
}

impl View for Shelf {
    type V = Map<Seq<char>, Seq<Pair>>;

    closed spec fn view(&self) -> Map<Seq<char>, Seq<Pair>> {
        Map::new(
            |k: Seq<char>| exists|i: int| 0 <= i < self.names@.len() && (#[trigger] self.names@[i])@ == k,
            |k: Seq<char>| self.tables@[self.at(k)]@,
        )
    }
}

impl Shelf {
    spec fn at(&self, k: Seq<char>) -> int {
        choose|i: int| 0 <= i < self.names@.len() && (#[trigger] self.names@[i])@ == k
    }

    /// Each name has one table, and every table is in order.
    pub closed spec fn wf(&self) -> bool {
        &&& self.names@.len() == self.tables@.len()
        &&& forall|i: int| 0 <= i < self.tables@.len() ==> in_order((#[trigger] self.tables@[i])@)
        &&& forall|i: int, j: int| 0 <= i < j < self.names@.len() ==> (#[trigger] self.names@[i])@ != (#[trigger] self.names@[j])@
    }

    /// Every table is in order.
    pub proof fn lemma_in_order(&self, k: Seq<char>)
        requires
            self.wf(),
            self@.contains_key(k),
        ensures
            in_order(self@[k]),
    {
        let i = self.at(k);
        assert(0 <= i < self.names@.len() && self.names@[i]@ == k);
        assert(in_order(self.tables@[i]@));
    }

    pub fn new() -> (r: Shelf)
        ensures
            r.wf(),
            r@ == Map::<Seq<char>, Seq<Pair>>::empty(),
    {
        let r: Shelf = Shelf { names: Vec::new(), tables: Vec::new() };
        proof {
            assert(r@ =~= Map::<Seq<char>, Seq<Pair>>::empty());
        }
        r
    }

    fn find(&self, k: &[char]) -> (r: Option<usize>)
        requires
            self.wf(),
        ensures
            match r {
                Some(i) => i < self.names@.len() && self.names@[i as int]@ == k@ && self.at(k@) == i
                    && self@.contains_key(k@) && self@[k@] == self.tables@[i as int]@,
                None => !self@.contains_key(k@) && forall|i: int|
                    0 <= i < self.names@.len() ==> (#[trigger] self.names@[i])@ != k@,
            },
    {
        let mut i: usize = 0;
        while i < self.names.len()
            invariant
                self.wf(),
                i <= self.names@.len(),
                forall|j: int| 0 <= j < i ==> (#[trigger] self.names@[j])@ != k@,
            decreases self.names@.len() - i,
        {
            if same(&self.names[i], k) {
                proof {
                    let j = self.at(k@);
                    assert(self.names@[i as int]@ == k@);
                    assert(0 <= j < self.names@.len() && self.names@[j]@ == k@);
                    assert(j == i);
                }
                return Some(i);
            }
            i += 1;
        }
        None
    }

    /// The table of a name.
    pub fn table(&self, k: &[char]) -> (r: Option<&Table>)
        requires
            self.wf(),
        ensures
            match r {
                Some(t) => self@.contains_key(k@) && self@[k@] == t@,
                None => !self@.contains_key(k@),
            },
    {
        match self.find(k) {
            Some(i) => Some(&self.tables[i]),
            None => None,
        }
    }

    /// Take the table of a name out; an empty one is left in its place.
    fn take(&mut self, k: &[char]) -> (r: Option<Table>)
        requires
            old(self).wf(),
        ensures
            final(self).wf(),
            match r {
                Some(t) => old(self)@.contains_key(k@) && t@ == old(self)@[k@] && final(self)@ == old(self)@.insert(
                    k@,
                    Seq::<Pair>::empty(),
                ),
                None => !old(self)@.contains_key(k@) && final(self)@ == old(self)@,
            },
    {
        match self.find(k) {
            Some(i) => {
                let ghost o = *self;
                let mut t: Table = Table::new();
                std::mem::swap(&mut t, &mut self.tables[i]);
                proof {
                    assert(self.names@ == o.names@);
                    assert(self@.dom() =~= o@.dom());
                    assert forall|q: Seq<char>| o@.contains_key(q) implies #[trigger] self@[q] == o@.insert(
                        k@,
                        Seq::<Pair>::empty(),
                    )[q] by {
                        assert(self.at(q) == o.at(q));
                        let j = o.at(q);
                        assert(0 <= j < o.names@.len() && o.names@[j]@ == q);
                    }
                    assert(self@ =~= o@.insert(k@, Seq::<Pair>::empty()));
                }
                Some(t)
            },
            None => None,
        }
    }

    /// Put a table under a name.
    pub fn set(&mut self, k: &[char], t: Table)
        requires
            old(self).wf(),
            in_order(t@),
        ensures
            final(self).wf(),
            final(self)@ == old(self)@.insert(k@, t@),
    {
        let ghost o = *self;
        let ghost tv = t@;
        match self.find(k) {
            Some(i) => {
                self.tables.set(i, t);
                proof {
                    assert(self.names@ == o.names@);
                    assert forall|q: Seq<char>| o@.contains_key(q) implies #[trigger] self@[q] == o@.insert(k@, tv)[q] by {
                        assert(self.at(q) == o.at(q));
                        let j = o.at(q);
                        assert(0 <= j < o.names@.len() && o.names@[j]@ == q);
                    }
                    assert(self@ =~= o@.insert(k@, tv));
                }
            },
            None => {
                self.names.push(copy(k));
                self.tables.push(t);
                proof {
                    let n = o.names@.len() as int;
                    assert(self.names@[n]@ == k@);
                    assert forall|i: int| 0 <= i < self.tables@.len() implies in_order((#[trigger] self.tables@[i])@) by {
                        if i < n {
                            assert(self.tables@[i] == o.tables@[i]);
                        }
                    }
                    assert forall|i: int, j: int| 0 <= i < j < self.names@.len() implies (#[trigger] self.names@[i])@ != (
                    #[trigger] self.names@[j])@ by {
                        if j < n {
                            assert(o.names@[i] == self.names@[i] && o.names@[j] == self.names@[j]);
                        } else {
                            assert(o.names@[i] == self.names@[i]);
                        }
                    }
                    assert forall|q: Seq<char>| self@.contains_key(q) == o@.insert(k@, tv).contains_key(q) by {
                        if o@.contains_key(q) {
                            let j = o.at(q);
                            assert(self.names@[j]@ == q);
                        }
                        if self@.contains_key(q) && q != k@ {
                            let j = self.at(q);
                            assert(o.names@[j]@ == q);
                        }
                    }
                    assert forall|q: Seq<char>| self@.contains_key(q) implies #[trigger] self@[q] == o@.insert(k@, tv)[q] by {
                        let j = self.at(q);
                        assert(0 <= j < self.names@.len() && self.names@[j]@ == q);
                        if q == k@ {
                            if j < n {
                                assert(o.names@[j]@ == k@);
                            }
                        } else {
                            assert(j < n);
                            assert(o.names@[j]@ == q);
                            let m = o.at(q);
                            assert(0 <= m < n && o.names@[m]@ == q);
                            assert(m == j);
                        }
                    }
                    assert(self@ =~= o@.insert(k@, tv));
                }
            },
        }
    }
}

// ---------------------------------------------------------------------
// Storage
// ---------------------------------------------------------------------

/// The file of a site's storage.
pub open spec fn file_name(host: Seq<char>) -> Seq<char> {
    "/config/web/"@ + Seq::new(
        host.len(),
        |i: int| if host[i] == '/' || host[i] == '\\' || host[i] == ':' { '_' } else { host[i] },
    ) + ".storage"@
}

pub fn storage_file(host: &[char]) -> (r: Vec<char>)
    ensures
        r@ == file_name(host@),
{
    let mut out: Vec<char> = to_chars("/config/web/");
    let ghost o = out@;
    let ghost want = Seq::new(
        host@.len(),
        |i: int| if host@[i] == '/' || host@[i] == '\\' || host@[i] == ':' { '_' } else { host@[i] },
    );
    let mut i: usize = 0;
    proof {
        assert(out@ =~= o + want.take(0));
    }
    while i < host.len()
        invariant
            i <= host@.len(),
            want == Seq::new(
                host@.len(),
                |i: int| if host@[i] == '/' || host@[i] == '\\' || host@[i] == ':' { '_' } else { host@[i] },
            ),
            out@ == o + want.take(i as int),
        decreases host@.len() - i,
    {
        let c: char = host[i];
        out.push(if c == '/' || c == '\\' || c == ':' { '_' } else { c });
        i += 1;
        proof {
            assert(out@ =~= o + want.take(i as int));
        }
    }
    proof {
        assert(want.take(want.len() as int) =~= want);
    }
    push_str(&mut out, ".storage");
    out
}

/// The kind of storage that a request names, and the rest of it: its first
/// character and what follows.
pub open spec fn kind_of(a: Seq<char>) -> Seq<char> {
    a.take(if a.len() > 0 { 1 } else { 0 })
}

pub open spec fn rest_of(a: Seq<char>) -> Seq<char> {
    a.skip(if a.len() > 0 { 1 } else { 0 })
}

/// The table that a page works with: the one it has, or what its file
/// holds, which only local storage has.
pub open spec fn store_of(
    all: Map<Seq<char>, Seq<Pair>>,
    kind: Seq<char>,
    host: Seq<char>,
    file: Option<Seq<char>>,
) -> Seq<Pair> {
    if all.contains_key(kind + host) {
        all[kind + host]
    } else if kind == "L"@ && file is Some {
        loaded(file->0)
    } else {
        Seq::empty()
    }
}

pub open spec fn chars_of(file: Option<&[char]>) -> Option<Seq<char>> {
    match file {
        Some(f) => Some(f@),
        None => None,
    }
}

/// A table after an operation: 4 sets a text, 5 removes one, another empties
/// the table.
pub open spec fn operated(t: Seq<Pair>, op: i32, key: Seq<char>, value: Seq<char>) -> Seq<Pair> {
    if op == 4 {
        put(t, key, value)
    } else if op == 5 {
        del(t, key)
    } else {
        Seq::empty()
    }
}

impl Shelf {
    /// The table that a page works with, taken out of its place; `file` is
    /// what its file holds, if it could be read.
    fn open(&mut self, kind: &[char], host: &[char], file: Option<&[char]>) -> (r: (Vec<char>, Table))
        requires
            old(self).wf(),
        ensures
            final(self).wf(),
            r.0@ == kind@ + host@,
            r.1@ == store_of(old(self)@, kind@, host@, chars_of(file)),
            in_order(r.1@),
            forall|v: Seq<Pair>| #[trigger] final(self)@.insert(r.0@, v) == old(self)@.insert(r.0@, v),
    {
        let mut name: Vec<char> = copy(kind);
        push_all(&mut name, host);
        let ghost o = self@;
        proof {
            if self@.contains_key(name@) {
                self.lemma_in_order(name@);
            }
            if file is Some {
                lemma_loaded_in_order(file->0@);
            }
        }
        match self.take(&name) {
            Some(t) => {
                proof {
                    assert forall|v: Seq<Pair>| #[trigger] self@.insert(name@, v) == o.insert(name@, v) by {
                        assert(self@.insert(name@, v) =~= o.insert(name@, v));
                    }
                }
                (name, t)
            },
            None => {
                match file {
                    Some(f) => {
                        if is_str(kind, "L") {
                            return (name, load(f));
                        }
                    },
                    None => {},
                }
                (name, Table::new())
            },
        }
    }

    /// Change a page's storage. What is to be written to its file, for local
    /// storage.
    pub fn storage_op(&mut self, op: i32, host: &[char], a: &[char], b: &[char], file: Option<&[char]>) -> (r: Option<Vec<char>>)
        requires
            old(self).wf(),
        ensures
            final(self).wf(),
            ({
                let kind = kind_of(a@);
                let t = operated(store_of(old(self)@, kind, host@, chars_of(file)), op, rest_of(a@), b@);
                &&& final(self)@ == old(self)@.insert(kind + host@, t)
                &&& match r {
                    Some(text) => kind == "L"@ && text@ == saved(t),
                    None => kind != "L"@,
                }
            }),
    {
        let n: usize = if a.len() > 0 { 1 } else { 0 };
        let kind: Vec<char> = copy_range(a, 0, n);
        let key: Vec<char> = copy_range(a, n, a.len());
        proof {
            assert(kind@ =~= kind_of(a@));
            assert(key@ =~= rest_of(a@));
        }
        let (name, mut t) = self.open(&kind, host, file);
        proof {
            lemma_put_get(t@, key@, b@, key@);
            lemma_del_get(t@, key@, key@);
        }
        if op == 4 {
            t.put(key, copy(b));
        } else if op == 5 {
            t.del(&key);
        } else {
            t.clear();
        }
        let r: Option<Vec<char>> = if is_str(&kind, "L") { Some(save(&t)) } else { None };
        self.set(&name, t);
        r
    }

    /// A text of a page's storage.
    pub fn storage_get(&mut self, host: &[char], a: &[char], file: Option<&[char]>) -> (r: Option<Vec<char>>)
        requires
            old(self).wf(),
        ensures
            final(self).wf(),
            ({
                let kind = kind_of(a@);
                let t = store_of(old(self)@, kind, host@, chars_of(file));
                &&& final(self)@ == old(self)@.insert(kind + host@, t)
                &&& match r {
                    Some(v) => get(t, rest_of(a@)) == Some(v@),
                    None => get(t, rest_of(a@)) is None,
                }
            }),
    {
        let n: usize = if a.len() > 0 { 1 } else { 0 };
        let kind: Vec<char> = copy_range(a, 0, n);
        let key: Vec<char> = copy_range(a, n, a.len());
        proof {
            assert(kind@ =~= kind_of(a@));
            assert(key@ =~= rest_of(a@));
        }
        let (name, t) = self.open(&kind, host, file);
        let r: Option<Vec<char>> = t.get(&key);
        self.set(&name, t);
        r
    }

    /// The names in a page's storage, one on each line.
    pub fn storage_keys(&mut self, host: &[char], kind: &[char], file: Option<&[char]>) -> (r: Vec<char>)
        requires
            old(self).wf(),
        ensures
            final(self).wf(),
            ({
                let t = store_of(old(self)@, kind@, host@, chars_of(file));
                &&& final(self)@ == old(self)@.insert(kind@ + host@, t)
                &&& r@ == join(names_of(t), '\n')
            }),
    {
        let (name, t) = self.open(kind, host, file);
        let mut keys: Vec<Vec<char>> = Vec::new();
        let mut i: usize = 0;
        let n: usize = t.len();
        proof {
            assert(views(keys@) =~= names_of(t@).take(0));
        }
        while i < n
            invariant
                i <= n,
                n == t@.len(),
                views(keys@) == names_of(t@).take(i as int),
            decreases n - i,
        {
            let ghost k0 = views(keys@);
            keys.push(copy(&t.row(i).key));
            i += 1;
            proof {
                assert(views(keys@) =~= k0.push(t@[i - 1].0));
                assert(views(keys@) =~= names_of(t@).take(i as int));
            }
        }
        proof {
            assert(names_of(t@).take(n as int) =~= names_of(t@));
        }
        let r: Vec<char> = join_with(&keys, '\n');
        self.set(&name, t);
        r
    }
}

/// The names of a table, in order.
pub open spec fn names_of(t: Seq<Pair>) -> Seq<Seq<char>> {
    Seq::new(t.len(), |i: int| t[i].0)
}

// ---------------------------------------------------------------------
// Cookies
// ---------------------------------------------------------------------

/// Cookies are shared by a site and its subdomains: the last two parts of
/// the name.
pub open spec fn site_of(host: Seq<char>) -> Seq<char> {
    let p = split(host, '.');
    if p.len() > 2 { join(p.skip(p.len() - 2), '.') } else { host }
}

pub fn site(host: &[char]) -> (r: Vec<char>)
    ensures
        r@ == site_of(host@),
{
    let parts: Vec<Vec<char>> = split_on(host, '.');
    let n: usize = parts.len();
    if n > 2 {
        let mut two: Vec<Vec<char>> = Vec::new();
        two.push(copy(&parts[n - 2]));
        two.push(copy(&parts[n - 1]));
        proof {
            assert(views(two@) =~= views(parts@).skip(n - 2));
        }
        join_with(&two, '.')
    } else {
        copy(host)
    }
}

/// Whether a cookie is set only to remove it.
pub open spec fn expired(s: Seq<char>) -> bool {
    has_text(lower_all(s), "max-age=0"@) || has_text(lower_all(s), "expires=thu, 01 jan 1970"@)
}

/// The name and the value in a cookie (`name=value; attributes`).
pub open spec fn cookie(s: Seq<char>) -> Option<(Seq<char>, Seq<char>)> {
    match cut(split(s, ';')[0], '=') {
        Some((k, v)) => Some((trim(k), trim(v))),
        None => None,
    }
}

pub open spec fn cookie_name(s: Seq<char>) -> Seq<char> {
    match cookie(s) {
        Some((k, _)) => k,
        None => Seq::empty(),
    }
}

pub open spec fn cookie_value(s: Seq<char>) -> Seq<char> {
    match cookie(s) {
        Some((_, v)) => v,
        None => Seq::empty(),
    }
}

/// A site's cookies.
pub open spec fn jar(all: Map<Seq<char>, Seq<Pair>>, host: Seq<char>) -> Seq<Pair> {
    if all.contains_key(site_of(host)) { all[site_of(host)] } else { Seq::empty() }
}

/// All cookies after one was set.
pub open spec fn with_cookie(all: Map<Seq<char>, Seq<Pair>>, host: Seq<char>, s: Seq<char>) -> Map<Seq<char>, Seq<Pair>> {
    match cookie(s) {
        None => all,
        Some((k, v)) => all.insert(
            site_of(host),
            if expired(s) { del(jar(all, host), k) } else { put(jar(all, host), k, v) },
        ),
    }
}

/// Cookies as a `Cookie:` header has them.
pub open spec fn header_of(t: Seq<Pair>) -> Seq<char>
    decreases t.len(),
{
    if t.len() == 0 {
        Seq::empty()
    } else {
        header_of(t.drop_last()) + (if t.len() > 1 { "; "@ } else { Seq::<char>::empty() }) + t.last().0 + seq!['='] + t.last().1
    }
}

impl Shelf {
    /// Remember a cookie (`name=value; attributes`) for the page's site.
    pub fn set_cookie(&mut self, host: &[char], s: &[char])
        requires
            old(self).wf(),
        ensures
            final(self).wf(),
            final(self)@ == with_cookie(old(self)@, host@, s@),
    {
        let parts: Vec<Vec<char>> = split_on(s, ';');
        proof {
            crate::text::lemma_split_nonempty(s@, ';');
            assert(views(parts@)[0] == parts@[0]@);
        }
        let (k, v) = match cut_at(&parts[0], '=') {
            Some(p) => p,
            None => {
                return;
            },
        };
        let low: Vec<char> = lowered(s);
        let gone: bool = contains_text(&low, &to_chars("max-age=0")) || contains_text(
            &low,
            &to_chars("expires=thu, 01 jan 1970"),
        );
        let name: Vec<char> = site(host);
        let ghost o = self@;
        proof {
            if self@.contains_key(name@) {
                self.lemma_in_order(name@);
            }
        }
        let mut t: Table = match self.take(&name) {
            Some(t) => t,
            None => Table::new(),
        };
        proof {
            lemma_put_get(t@, trim(k@), trim(v@), trim(k@));
            lemma_del_get(t@, trim(k@), trim(k@));
        }
        if gone {
            t.del(&trimmed(&k));
        } else {
            t.put(trimmed(&k), trimmed(&v));
        }
        let ghost tv = t@;
        self.set(&name, t);
        proof {
            assert(self@ =~= o.insert(name@, tv));
        }
    }

    /// The `Cookie:` header value for a request to this host.
    pub fn cookie_header(&self, host: &[char]) -> (r: Vec<char>)
        requires
            self.wf(),
        ensures
            r@ == header_of(jar(self@, host@)),
    {
        let name: Vec<char> = site(host);
        let mut out: Vec<char> = Vec::new();
        let t: &Table = match self.table(&name) {
            Some(t) => t,
            None => {
                return out;
            },
        };
        let n: usize = t.len();
        let mut i: usize = 0;
        while i < n
            invariant
                i <= n,
                n == t@.len(),
                out@ == header_of(t@.take(i as int)),
            decreases n - i,
        {
            let ghost o = out@;
            if i > 0 {
                push_str(&mut out, "; ");
            }
            let row: &Row = t.row(i);
            push_all(&mut out, &row.key);
            out.push('=');
            push_all(&mut out, &row.value);
            i += 1;
            proof {
                let s = t@.take(i as int);
                assert(s.drop_last() =~= t@.take(i - 1));
                assert(out@ =~= o + (if s.len() > 1 { "; "@ } else { Seq::<char>::empty() }) + s.last().0 + seq!['=']
                    + s.last().1);
            }
        }
        proof {
            assert(t@.take(n as int) =~= t@);
        }
        out
    }
}

/// A cookie that a page sets is there for every host of its site, and
/// leaves the others of the site as they are.
pub proof fn lemma_cookie_kept(
    all: Map<Seq<char>, Seq<Pair>>,
    host: Seq<char>,
    other: Seq<char>,
    s: Seq<char>,
    name: Seq<char>,
)
    requires
        site_of(other) == site_of(host),
        in_order(jar(all, host)),
        cookie(s) is Some,
        !expired(s),
    ensures
        get(jar(with_cookie(all, host, s), other), cookie_name(s)) == Some(cookie_value(s)),
        name != cookie_name(s) ==> get(jar(with_cookie(all, host, s), other), name) == get(jar(all, other), name),
        in_order(jar(with_cookie(all, host, s), other)),
{
    lemma_put_get(jar(all, host), cookie_name(s), cookie_value(s), name);
}

/// An expired cookie is removed.
pub proof fn lemma_cookie_removed(all: Map<Seq<char>, Seq<Pair>>, host: Seq<char>, s: Seq<char>)
    requires
        in_order(jar(all, host)),
        cookie(s) is Some,
        expired(s),
    ensures
        get(jar(with_cookie(all, host, s), host), cookie_name(s)) is None,
{
    lemma_del_get(jar(all, host), cookie_name(s), cookie_name(s));
}

/// What a page stores it reads back.
pub proof fn lemma_store_read_back(
    all: Map<Seq<char>, Seq<Pair>>,
    kind: Seq<char>,
    host: Seq<char>,
    file: Option<Seq<char>>,
    key: Seq<char>,
    value: Seq<char>,
)
    requires
        in_order(store_of(all, kind, host, file)),
    ensures
        ({
            let t = operated(store_of(all, kind, host, file), 4, key, value);
            &&& get(store_of(all.insert(kind + host, t), kind, host, file), key) == Some(value)
            &&& in_order(t)
        }),
{
    lemma_put_get(store_of(all, kind, host, file), key, value, key);
}

/// A cookie is what stands before the first semicolon: its name up to the
/// first equals sign, and its value behind that, without the white space
/// around them. What follows does not belong to it.
pub proof fn lemma_cookie_read(name: Seq<char>, value: Seq<char>, attributes: Seq<char>)
    requires
        no_margin(name),
        no_margin(value),
        !name.contains('='),
        !name.contains(';'),
        !value.contains(';'),
    ensures
        cookie(name + seq!['='] + value) == Some((name, value)),
        cookie(name + seq!['='] + value + seq![';'] + attributes) == Some((name, value)),
{
    let a = name + seq!['='] + value;
    let none = Seq::<char>::empty();
    assert(!a.contains(';')) by {
        if a.contains(';') {
            let k = choose|k: int| 0 <= k < a.len() && a[k] == ';';
            if k < name.len() {
                assert(name[k] == ';');
            } else if k > name.len() {
                assert(value[k - name.len() - 1] == ';');
            }
        }
    }
    let n = name.len() as int;
    assert forall|j: int| 0 <= j < n implies a[j] != '=' by {
        assert(a[j] == name[j]);
    }
    lemma_first(a, '=', n);
    assert(a.take(n) =~= name);
    assert(a.skip(n + 1) =~= value);
    lemma_trim_takes_margins(none, name, none);
    lemma_trim_takes_margins(none, value, none);
    assert(none + name + none =~= name);
    assert(none + value + none =~= value);
    let one = seq![a];
    lemma_split_join(one, ';');
    assert(join(one, ';') =~= a);
    let rest = split(attributes, ';');
    lemma_split_nonempty(attributes, ';');
    lemma_split_pieces(attributes, ';');
    lemma_join_split(attributes, ';');
    lemma_join_append(one, rest, ';');
    let all = one + rest;
    assert(join(all, ';') =~= a + seq![';'] + attributes);
    assert forall|k: int| 0 <= k < all.len() implies !(#[trigger] all[k]).contains(';') by {
        if k > 0 {
            assert(all[k] == rest[k - 1]);
        }
    }
    lemma_split_join(all, ';');
}

/// A host shares its cookies with the site that it is part of: the last two
/// names count, whatever stands before them.
pub proof fn lemma_site_shared(before: Seq<Seq<char>>, x: Seq<char>, y: Seq<char>)
    requires
        before.len() > 0,
        !x.contains('.'),
        !y.contains('.'),
        forall|i: int| 0 <= i < before.len() ==> !(#[trigger] before[i]).contains('.'),
    ensures
        site_of(join(before + seq![x, y], '.')) == join(seq![x, y], '.'),
        site_of(join(seq![x, y], '.')) == join(seq![x, y], '.'),
{
    let all = before + seq![x, y];
    assert forall|i: int| 0 <= i < all.len() implies !(#[trigger] all[i]).contains('.') by {
        if i < before.len() {
            assert(all[i] == before[i]);
        }
    }
    lemma_split_join(all, '.');
    lemma_split_join(seq![x, y], '.');
    assert(all.skip(all.len() - 2) =~= seq![x, y]);
}

/// What a page sets for its site no other site gets to see.
pub proof fn lemma_other_sites_kept(all: Map<Seq<char>, Seq<Pair>>, host: Seq<char>, other: Seq<char>, s: Seq<char>)
    requires
        site_of(other) != site_of(host),
    ensures
        jar(with_cookie(all, host, s), other) == jar(all, other),
{
}

} // verus!
