//! What scripts look for in a page, and what else they want to know.

use super::calls::viewport_text;
use super::dom::holder;
use super::host::{meant, Host, HostState, DOCUMENT_ID};
use crate::arith::min;
use crate::text::{copy, copy_range, int_text, push_int};
use vstd::prelude::*;

verus! {

// ---------------------------------------------------------------------
// Selectors
// ---------------------------------------------------------------------

/// The tree that a selector looks through.
#[derive(Clone, Copy, Debug, PartialEq, Eq, Structural)]
pub enum Grove {
    Page,
    /// A tree that is not in the page.
    Loose(usize),
}

/// Where a selector looks, and below which node.
#[derive(Clone, Copy, Debug, PartialEq, Eq, Structural)]
pub struct Query {
    pub root: u32,
    pub grove: Grove,
    /// Whether that node is the root of the tree, which can match too.
    pub whole: bool,
}

pub open spec fn query_of(h: HostState, id: u32) -> Option<Query> {
    let root = meant(h, id);
    let i = holder(h.limbo, root);
    if h.in_doc(root) {
        Some(Query { root, grove: Grove::Page, whole: root == h.doc.id })
    } else if 0 <= i < h.limbo.len() {
        Some(Query { root, grove: Grove::Loose(i as usize), whole: root == h.limbo[i].id })
    } else {
        None
    }
}

/// The nodes that are found: the root first where it matches itself, then
/// those below it, as many as there is room for.
pub open spec fn found_nodes(below: Seq<u32>, own: Seq<u32>, q: Query, max: int) -> Seq<u32> {
    let all = (if q.whole { own.filter(|i: u32| i == q.root) } else { Seq::empty() }) + below;
    all.take(if max < 0 { all.len() as int } else { min(all.len() as int, max) })
}

impl Host {
    /// Where a selector of a script looks; nowhere for a node that is gone.
    pub fn rs_query(&self, id: u32) -> (r: Option<Query>)
        ensures
            r == query_of(self@, id),
    {
        let root: u32 = if id == DOCUMENT_ID { self.doc.id } else { id };
        if self.in_doc(root) {
            return Some(Query { root, grove: Grove::Page, whole: root == self.doc.id });
        }
        match self.limbo_with(root) {
            Some(i) => {
                proof {
                    assert(self@.limbo[i as int] == self.limbo@[i as int]@);
                }
                Some(Query { root, grove: Grove::Loose(i), whole: root == self.limbo[i].id })
            },
            None => None,
        }
    }
}

/// What a selector gives a script: `below` are the nodes that match below the
/// root, and `own` those that match in a tree with the root itself.
pub fn query_result(below: &[u32], own: &[u32], q: Query, max: i32) -> (r: Vec<u32>)
    ensures
        r@ == found_nodes(below@, own@, q, max as int),
{
    let ghost mine = |i: u32| i == q.root;
    let mut all: Vec<u32> = Vec::new();
    if q.whole {
        let mut i: usize = 0;
        proof {
            assert(own@.take(0).filter(mine) =~= Seq::<u32>::empty()) by {
                reveal(Seq::filter);
            }
        }
        while i < own.len()
            invariant
                i <= own@.len(),
                mine == (|i: u32| i == q.root),
                all@ == own@.take(i as int).filter(mine),
            decreases own@.len() - i,
        {
            proof {
                reveal(Seq::filter);
                assert(own@.take(i + 1).drop_last() =~= own@.take(i as int));
            }
            if own[i] == q.root {
                all.push(own[i]);
            }
            i += 1;
        }
        proof {
            assert(own@.take(own@.len() as int) =~= own@);
        }
    }
    let ghost first = all@;
    let mut i: usize = 0;
    proof {
        assert(first + below@.take(0) =~= first);
    }
    while i < below.len()
        invariant
            i <= below@.len(),
            all@ == first + below@.take(i as int),
        decreases below@.len() - i,
    {
        all.push(below[i]);
        i += 1;
        proof {
            assert(all@ =~= first + below@.take(i as int));
        }
    }
    proof {
        assert(below@.take(below@.len() as int) =~= below@);
    }
    let n: usize = all.len();
    if max >= 0 && (max as usize) < n {
        all.truncate(max as usize);
    }
    proof {
        let whole = first + below@;
        assert(whole.take(whole.len() as int) =~= whole);
    }
    all
}

/// The root is found at most before all others, and only where it is the root
/// of its tree.
pub proof fn lemma_root_first(below: Seq<u32>, own: Seq<u32>, q: Query, i: int)
    requires
        0 <= i < found_nodes(below, own, q, -1).len() - below.len(),
    ensures
        q.whole,
        found_nodes(below, own, q, -1)[i] == q.root,
{
    let mine = |i: u32| i == q.root;
    broadcast use vstd::seq_lib::group_filter_ensures;

    if q.whole {
        assert(found_nodes(below, own, q, -1)[i] == own.filter(mine)[i]);
        assert(mine(own.filter(mine)[i]));
    }
}

// ---------------------------------------------------------------------
// Questions
// ---------------------------------------------------------------------

/// What a script wants to know.
pub enum Wanted {
    /// A text that is known.
    Text(Vec<char>),
    /// The address of the page.
    Address,
    /// What is stored under a key.
    Stored(Vec<char>),
    /// The keys of a store.
    Keys(Vec<char>),
    Cookies,
    /// The name of the browser.
    Agent,
    /// An address, seen from the page.
    Resolved(Vec<char>),
    /// An address, seen from another.
    Joined(Vec<char>, Vec<char>),
    /// There is no such question.
    Unknown,
}

pub enum WantedState {
    Text(Seq<char>),
    Address,
    Stored(Seq<char>),
    Keys(Seq<char>),
    Cookies,
    Agent,
    Resolved(Seq<char>),
    Joined(Seq<char>, Seq<char>),
    Unknown,
}

impl View for Wanted {
    type V = WantedState;

    open spec fn view(&self) -> WantedState {
        match *self {
            Wanted::Text(t) => WantedState::Text(t@),
            Wanted::Address => WantedState::Address,
            Wanted::Stored(k) => WantedState::Stored(k@),
            Wanted::Keys(k) => WantedState::Keys(k@),
            Wanted::Cookies => WantedState::Cookies,
            Wanted::Agent => WantedState::Agent,
            Wanted::Resolved(a) => WantedState::Resolved(a@),
            Wanted::Joined(a, b) => WantedState::Joined(a@, b@),
            Wanted::Unknown => WantedState::Unknown,
        }
    }
}

/// Two texts with a zero between them; without one, the second is empty.
pub open spec fn halves(a: Seq<char>) -> (Seq<char>, Seq<char>) {
    let i = a.index_of_first('\0');
    match i {
        Some(i) => (a.take(i), a.skip(i + 1)),
        None => (a, Seq::empty()),
    }
}

pub open spec fn wanted(title: Seq<char>, op: i32, a: Seq<char>, size: (i32, i32), scroll_y: i32) -> WantedState {
    match op {
        0 => WantedState::Address,
        1 => WantedState::Stored(a),
        2 => WantedState::Keys(a),
        3 => WantedState::Cookies,
        4 => WantedState::Agent,
        5 => WantedState::Text(int_text(size.0 as int).push(',') + int_text(size.1 as int)),
        6 => WantedState::Text(int_text(scroll_y as int)),
        7 => WantedState::Resolved(a),
        8 => WantedState::Text(title),
        9 => WantedState::Joined(halves(a).0, halves(a).1),
        _ => WantedState::Unknown,
    }
}

fn at_zero(a: &[char]) -> (r: (Vec<char>, Vec<char>))
    ensures
        (r.0@, r.1@) == halves(a@),
{
    proof {
        a@.index_of_first_ensures('\0');
    }
    let mut i: usize = 0;
    while i < a.len()
        invariant
            i <= a@.len(),
            forall|k: int| 0 <= k < i ==> a@[k] != '\0',
            match a@.index_of_first('\0') {
                Some(k) => 0 <= k < a@.len() && a@[k] == '\0' && forall|j: int| 0 <= j < k ==> a@[j] != '\0',
                None => forall|j: int| 0 <= j < a@.len() ==> a@[j] != '\0',
            },
        decreases a@.len() - i,
    {
        if a[i] == '\0' {
            let l: Vec<char> = copy_range(a, 0, i);
            let r: Vec<char> = copy_range(a, i + 1, a.len());
            proof {
                assert(a@.index_of_first('\0') == Some(i as int));
                assert(l@ =~= a@.take(i as int));
                assert(r@ =~= a@.skip(i + 1));
            }
            return (l, r);
        }
        i += 1;
    }
    (copy(a), Vec::new())
}

impl Host {
    /// A question of a script. `size` is that of the window, and `scroll_y`
    /// how far the page is scrolled.
    pub fn rs_ask(&self, op: i32, a: &[char], size: (i32, i32), scroll_y: i32) -> (r: Wanted)
        ensures
            r@ == wanted(self@.title, op, a@, size, scroll_y),
    {
        match op {
            0 => Wanted::Address,
            1 => Wanted::Stored(copy(a)),
            2 => Wanted::Keys(copy(a)),
            3 => Wanted::Cookies,
            4 => Wanted::Agent,
            5 => Wanted::Text(viewport_text(size.0, size.1)),
            6 => {
                let mut t: Vec<char> = Vec::new();
                push_int(&mut t, scroll_y as i64);
                proof {
                    assert(t@ =~= int_text(scroll_y as int));
                }
                Wanted::Text(t)
            },
            7 => Wanted::Resolved(copy(a)),
            8 => Wanted::Text(copy(&self.title)),
            9 => {
                let (base, rel) = at_zero(a);
                Wanted::Joined(base, rel)
            },
            _ => Wanted::Unknown,
        }
    }
}

/// Two texts that are sent with a zero between them arrive apart, as they
/// were; a text on its own has nothing behind it.
pub proof fn lemma_halves_apart(a: Seq<char>, b: Seq<char>)
    requires
        !a.contains('\0'),
    ensures
        halves(a.push('\0') + b) == (a, b),
        halves(a) == (a, Seq::<char>::empty()),
{
    let s = a.push('\0') + b;
    s.index_of_first_ensures('\0');
    a.index_of_first_ensures('\0');
    assert(s[a.len() as int] == '\0');
    assert(s.contains('\0'));
    let i = s.index_of_first('\0')->0;
    if i < a.len() {
        assert(a[i] == s[i]);
        assert(a.contains(a[i]));
    }
    assert(i == a.len());
    assert(s.take(i) =~= a);
    assert(s.skip(i + 1) =~= b);
}

/// No more nodes are handed over than there is room for, and the first of
/// them; without a limit, all.
pub proof fn lemma_first_found(below: Seq<u32>, own: Seq<u32>, q: Query, max: int)
    requires
        max >= 0,
    ensures
        found_nodes(below, own, q, max).len() <= max,
        found_nodes(below, own, q, max).is_prefix_of(found_nodes(below, own, q, -1)),
        found_nodes(below, own, q, max).len() < max ==> found_nodes(below, own, q, max) == found_nodes(below, own, q, -1),
        !q.whole ==> found_nodes(below, own, q, -1) == below,
{
    let all = (if q.whole { own.filter(|i: u32| i == q.root) } else { Seq::empty() }) + below;
    assert(all.take(all.len() as int) =~= all);
    let n = min(all.len() as int, max);
    assert(all.take(n) =~= all.take(all.len() as int).subrange(0, n));
    if !q.whole {
        assert(all =~= below);
    }
}

} // verus!
