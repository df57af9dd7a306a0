//! A small table of texts by name, in the order of the names.

use crate::text::{copy, same};
use vstd::prelude::*;

verus! {

/// Whether a text comes before another, character by character.
pub open spec fn less(a: Seq<char>, b: Seq<char>) -> bool
    decreases a.len(),
{
    if b.len() == 0 {
        false
    } else if a.len() == 0 {
        true
    } else if a[0] != b[0] {
        a[0] < b[0]
    } else {
        less(a.skip(1), b.skip(1))
    }
}

pub proof fn lemma_less_irreflexive(a: Seq<char>)
    ensures
        !less(a, a),
    decreases a.len(),
{
    if a.len() > 0 {
        lemma_less_irreflexive(a.skip(1));
    }
}

pub proof fn lemma_less_transitive(a: Seq<char>, b: Seq<char>, c: Seq<char>)
    requires
        less(a, b),
        less(b, c),
    ensures
        less(a, c),
    decreases a.len(),
{
    if a.len() > 0 && a[0] == b[0] && b[0] == c[0] {
        lemma_less_transitive(a.skip(1), b.skip(1), c.skip(1));
    }
}

pub proof fn lemma_less_total(a: Seq<char>, b: Seq<char>)
    ensures
        a == b || less(a, b) || less(b, a),
    decreases a.len(),
{
    if a.len() == 0 || b.len() == 0 {
        if a.len() == b.len() {
            assert(a =~= b);
        }
    } else if a[0] == b[0] {
        lemma_less_total(a.skip(1), b.skip(1));
        if a.skip(1) == b.skip(1) {
            assert(a =~= seq![a[0]] + a.skip(1));
            assert(b =~= seq![b[0]] + b.skip(1));
        }
    }
}

/// Whether a text comes before another.
pub fn is_less(a: &[char], b: &[char]) -> (r: bool)
    ensures
        r == less(a@, b@),
{
    let mut i: usize = 0;
    proof {
        assert(a@.skip(0) =~= a@);
        assert(b@.skip(0) =~= b@);
    }
    while i < a.len() && i < b.len() && a[i] == b[i]
        invariant
            i <= a@.len(),
            i <= b@.len(),
            less(a@, b@) == less(a@.skip(i as int), b@.skip(i as int)),
        decreases a@.len() - i,
    {
        proof {
            assert(a@.skip(i as int).skip(1) =~= a@.skip(i + 1));
            assert(b@.skip(i as int).skip(1) =~= b@.skip(i + 1));
        }
        i += 1;
    }
    if i >= b.len() {
        false
    } else if i >= a.len() {
        true
    } else {
        a[i] < b[i]
    }
}

/// A name and its text.
pub type Pair = (Seq<char>, Seq<char>);

pub open spec fn in_order(s: Seq<Pair>) -> bool {
    forall|i: int, j: int| 0 <= i < j < s.len() ==> less(#[trigger] s[i].0, #[trigger] s[j].0)
}

/// How many names at the front come before one.
pub open spec fn place(s: Seq<Pair>, k: Seq<char>) -> int
    decreases s.len(),
{
    if s.len() == 0 || !less(s[0].0, k) { 0 } else { 1 + place(s.skip(1), k) }
}

/// Whether a name is there.
pub open spec fn named(s: Seq<Pair>, k: Seq<char>) -> bool {
    place(s, k) < s.len() && s[place(s, k)].0 == k
}

pub open spec fn get(s: Seq<Pair>, k: Seq<char>) -> Option<Seq<char>> {
    if named(s, k) { Some(s[place(s, k)].1) } else { None }
}

pub open spec fn put(s: Seq<Pair>, k: Seq<char>, v: Seq<char>) -> Seq<Pair> {
    if named(s, k) { s.update(place(s, k), (k, v)) } else { s.insert(place(s, k), (k, v)) }
}

pub open spec fn del(s: Seq<Pair>, k: Seq<char>) -> Seq<Pair> {
    if named(s, k) { s.remove(place(s, k)) } else { s }
}

pub proof fn lemma_place(s: Seq<Pair>, k: Seq<char>)
    ensures
        0 <= place(s, k) <= s.len(),
        forall|i: int| 0 <= i < place(s, k) ==> less(#[trigger] s[i].0, k),
        place(s, k) < s.len() ==> !less(s[place(s, k)].0, k),
    decreases s.len(),
{
    if s.len() > 0 && less(s[0].0, k) {
        let t = s.skip(1);
        lemma_place(t, k);
        assert forall|i: int| 0 <= i < place(s, k) implies less(#[trigger] s[i].0, k) by {
            if i > 0 {
                assert(s[i] == t[i - 1]);
            }
        }
        if place(s, k) < s.len() {
            assert(s[place(s, k)] == t[place(t, k)]);
        }
    }
}

/// In an ordered table a name is found wherever it is.
pub proof fn lemma_found(s: Seq<Pair>, i: int)
    requires
        in_order(s),
        0 <= i < s.len(),
    ensures
        place(s, s[i].0) == i,
        get(s, s[i].0) == Some(s[i].1),
{
    let k = s[i].0;
    let p = place(s, k);
    lemma_place(s, k);
    lemma_less_irreflexive(k);
    if p < i {
        assert(less(s[p].0, s[i].0));
    } else if p > i {
        assert(less(s[i].0, k));
    }
}

proof fn lemma_put_order(s: Seq<Pair>, k: Seq<char>, v: Seq<char>)
    requires
        in_order(s),
    ensures
        in_order(put(s, k, v)),
{
    let p = place(s, k);
    let t = put(s, k, v);
    lemma_place(s, k);
    if named(s, k) {
        assert forall|i: int, j: int| 0 <= i < j < t.len() implies less(#[trigger] t[i].0, #[trigger] t[j].0) by {
            assert(less(s[i].0, s[j].0));
            assert(t[i].0 == s[i].0);
            assert(t[j].0 == s[j].0);
        }
    } else {
        if p < s.len() {
            lemma_less_total(s[p].0, k);
        }
        assert forall|i: int, j: int| 0 <= i < j < t.len() implies less(#[trigger] t[i].0, #[trigger] t[j].0) by {
            if j < p {
                assert(t[i] == s[i] && t[j] == s[j]);
                assert(less(s[i].0, s[j].0));
            } else if j == p {
                assert(t[i] == s[i]);
            } else if i < p {
                assert(t[i] == s[i] && t[j] == s[j - 1]);
                assert(less(s[i].0, s[j - 1].0));
            } else if i == p {
                assert(t[j] == s[j - 1]);
                if j - 1 > p {
                    assert(less(s[p].0, s[j - 1].0));
                    lemma_less_transitive(k, s[p].0, s[j - 1].0);
                }
            } else {
                assert(t[i] == s[i - 1] && t[j] == s[j - 1]);
                assert(less(s[i - 1].0, s[j - 1].0));
            }
        }
    }
}

proof fn lemma_del_order(s: Seq<Pair>, k: Seq<char>)
    requires
        in_order(s),
    ensures
        in_order(del(s, k)),
{
    let p = place(s, k);
    let t = del(s, k);
    lemma_place(s, k);
    if named(s, k) {
        assert forall|i: int, j: int| 0 <= i < j < t.len() implies less(#[trigger] t[i].0, #[trigger] t[j].0) by {
            let a = if i < p { i } else { i + 1 };
            let b = if j < p { j } else { j + 1 };
            assert(t[i] == s[a] && t[j] == s[b]);
            assert(less(s[a].0, s[b].0));
        }
    }
}

/// What was put is got, and everything else is as before.
pub proof fn lemma_put_get(s: Seq<Pair>, k: Seq<char>, v: Seq<char>, other: Seq<char>)
    requires
        in_order(s),
    ensures
        in_order(put(s, k, v)),
        get(put(s, k, v), k) == Some(v),
        other != k ==> get(put(s, k, v), other) == get(s, other),
{
    let p = place(s, k);
    let t = put(s, k, v);
    lemma_place(s, k);
    lemma_put_order(s, k, v);
    assert(t[p] == (k, v));
    lemma_found(t, p);
    if other != k {
        let q = place(s, other);
        lemma_place(s, other);
        let r = place(t, other);
        lemma_place(t, other);
        if named(s, other) {
            let at = if named(s, k) || q < p { q } else { q + 1 };
            assert(t[at] == s[q]);
            lemma_found(t, at);
        }
        if named(t, other) {
            assert(r != p);
            let at = if named(s, k) || r < p { r } else { r - 1 };
            assert(s[at] == t[r]);
            lemma_found(s, at);
        }
    }
}

/// What was deleted is gone, and everything else is as before.
pub proof fn lemma_del_get(s: Seq<Pair>, k: Seq<char>, other: Seq<char>)
    requires
        in_order(s),
    ensures
        in_order(del(s, k)),
        get(del(s, k), k) is None,
        other != k ==> get(del(s, k), other) == get(s, other),
{
    let p = place(s, k);
    let t = del(s, k);
    lemma_place(s, k);
    lemma_del_order(s, k);
    lemma_place(t, k);
    if named(s, k) {
        if named(t, k) {
            let r = place(t, k);
            let at = if r < p { r } else { r + 1 };
            assert(s[at] == t[r]);
            lemma_found(s, at);
            lemma_found(s, p);
        }
        if other != k {
            let q = place(s, other);
            lemma_place(s, other);
            let r = place(t, other);
            lemma_place(t, other);
            if named(s, other) {
                assert(q != p);
                let at = if q < p { q } else { q - 1 };
                assert(t[at] == s[q]);
                lemma_found(t, at);
            }
            if named(t, other) {
                let at = if r < p { r } else { r + 1 };
                assert(s[at] == t[r]);
                lemma_found(s, at);
            }
        }
    }
}

pub struct Row {
    pub key: Vec<char>,
    pub value: Vec<char>,
}

pub struct Table {
    rows: Vec<Row>,
}

impl View for Table {
    type V = Seq<Pair>;

    closed spec fn view(&self) -> Seq<Pair> {
        Seq::new(self.rows@.len(), |i: int| (self.rows@[i].key@, self.rows@[i].value@))
    }
}

impl Table {
    pub fn new() -> (r: Table)
        ensures
            r@ == Seq::<Pair>::empty(),
    {
        let r: Table = Table { rows: Vec::new() };
        proof {
            assert(r@ =~= Seq::<Pair>::empty());
        }
        r
    }

    pub fn len(&self) -> (r: usize)
        ensures
            r == self@.len(),
    {
        self.rows.len()
    }

    /// The name and the text of a row.
    pub fn row(&self, i: usize) -> (r: &Row)
        requires
            i < self@.len(),
        ensures
            (r.key@, r.value@) == self@[i as int],
    {
        &self.rows[i]
    }

    /// The place of a name, and whether it is there.
    fn find(&self, k: &[char]) -> (r: (usize, bool))
        ensures
            r.0 == place(self@, k@),
            r.1 == named(self@, k@),
            r.0 <= self@.len(),
            r.1 ==> r.0 < self@.len(),
    {
        let mut i: usize = 0;
        proof {
            assert(self@.skip(0) =~= self@);
        }
        while i < self.rows.len() && is_less(&self.rows[i].key, k)
            invariant
                i <= self@.len(),
                self@.len() == self.rows@.len(),
                place(self@, k@) == i + place(self@.skip(i as int), k@),
            decreases self.rows@.len() - i,
        {
            proof {
                assert(self@.skip(i as int)[0].0 == self.rows@[i as int].key@);
                assert(self@.skip(i as int).skip(1) =~= self@.skip(i + 1));
            }
            i += 1;
        }
        proof {
            if i < self@.len() {
                assert(self@.skip(i as int)[0].0 == self.rows@[i as int].key@);
            }
        }
        let there: bool = i < self.rows.len() && same(&self.rows[i].key, k);
        (i, there)
    }

    pub fn get(&self, k: &[char]) -> (r: Option<Vec<char>>)
        ensures
            match r {
                Some(v) => get(self@, k@) == Some(v@),
                None => get(self@, k@) is None,
            },
    {
        let (i, there) = self.find(k);
        if there { Some(copy(&self.rows[i].value)) } else { None }
    }

    pub fn has(&self, k: &[char]) -> (r: bool)
        ensures
            r == named(self@, k@),
    {
        self.find(k).1
    }

    pub fn put(&mut self, k: Vec<char>, v: Vec<char>)
        ensures
            final(self)@ == put(old(self)@, k@, v@),
    {
        let (i, there) = self.find(&k);
        let ghost s0 = self@;
        let ghost row = (k@, v@);
        if there {
            self.rows.set(i, Row { key: k, value: v });
            proof {
                assert(self@ =~= s0.update(i as int, row));
            }
        } else {
            self.rows.insert(i, Row { key: k, value: v });
            proof {
                assert(self@ =~= s0.insert(i as int, row));
            }
        }
    }

    pub fn del(&mut self, k: &[char])
        ensures
            final(self)@ == del(old(self)@, k@),
    {
        let (i, there) = self.find(k);
        let ghost s0 = self@;
        if there {
            self.rows.remove(i);
            proof {
                assert(self@ =~= s0.remove(i as int));
            }
        }
    }

    pub fn clear(&mut self)
        ensures
            final(self)@ == Seq::<Pair>::empty(),
    {
        self.rows = Vec::new();
        proof {
            assert(self@ =~= Seq::<Pair>::empty());
        }
    }
}

} // verus!
