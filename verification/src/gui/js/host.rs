//! What the scripts of a page can see and change while they run.

use super::dom::{
    count, count_all, holder, ids, lemma_count_remove, lemma_count_replace, lemma_count_update, lemma_detach_count,
    lemma_find, lemma_find_replaced, lemma_holder, lemma_holder_is, lemma_trees, lemma_trees_insert, lemma_trees_remove,
    lemma_trees_update, trees, Kind, KindState, Node, Tree,
};
use super::table::{Pair, Row, Table};
use crate::text::{lower_all, lowered};
use vstd::prelude::*;

verus! {

/// The id the scripts use for `document` itself.
pub const DOCUMENT_ID: u32 = 0xffff_fffe;

/// Messages of scripts that are kept.
pub const CONSOLE_LIMIT: usize = 500;

/// Things scripts asked the browser to do.
pub enum Request {
    Navigate(Vec<char>),
    Alert(Vec<char>),
    Scroll(i32),
    Canvas(u32, Vec<char>),
    Back,
}

#[verifier::ext_equal]
pub ghost enum RequestState {
    Navigate(Seq<char>),
    Alert(Seq<char>),
    Scroll(i32),
    Canvas(u32, Seq<char>),
    Back,
}

impl View for Request {
    type V = RequestState;

    open spec fn view(&self) -> RequestState {
        match self {
            Request::Navigate(u) => RequestState::Navigate(u@),
            Request::Alert(t) => RequestState::Alert(t@),
            Request::Scroll(y) => RequestState::Scroll(*y),
            Request::Canvas(id, t) => RequestState::Canvas(*id, t@),
            Request::Back => RequestState::Back,
        }
    }
}

pub open spec fn request_views(v: Seq<Request>) -> Seq<RequestState> {
    Seq::new(v.len(), |i: int| v[i]@)
}

pub open spec fn row_views(v: Seq<Row>) -> Seq<Pair> {
    Seq::new(v.len(), |i: int| (v[i].key@, v[i].value@))
}

pub struct Host {
    pub doc: Node,
    /// Nodes created by scripts or removed from the page (still usable).
    pub limbo: Vec<Node>,
    pub title: Vec<char>,
    pub dirty: bool,
    pub requests: Vec<Request>,
    /// What scripts printed: the kind of message, and its text.
    pub console: Vec<Row>,
}

#[verifier::ext_equal]
pub ghost struct HostState {
    pub doc: Tree,
    pub limbo: Seq<Tree>,
    pub title: Seq<char>,
    pub dirty: bool,
    pub requests: Seq<RequestState>,
    pub console: Seq<Pair>,
}

impl View for Host {
    type V = HostState;

    open spec fn view(&self) -> HostState {
        HostState {
            doc: self.doc@,
            limbo: trees(self.limbo@),
            title: self.title@,
            dirty: self.dirty,
            requests: request_views(self.requests@),
            console: row_views(self.console@),
        }
    }
}

/// The first of these trees whose root is a node; their number if none is.
pub open spec fn rooted(s: Seq<Tree>, id: u32) -> int
    decreases s.len(),
{
    if s.len() == 0 || s[0].id == id { 0 } else { 1 + rooted(s.drop_first(), id) }
}

/// The first of these trees that has a node below its root; their number if
/// none has.
pub open spec fn holding(s: Seq<Tree>, id: u32) -> int
    decreases s.len(),
{
    if s.len() == 0 || s[0].below(id) { 0 } else { 1 + holding(s.drop_first(), id) }
}

proof fn lemma_rooted(s: Seq<Tree>, id: u32, n: int)
    requires
        0 <= n <= s.len(),
        forall|i: int| 0 <= i < n ==> (#[trigger] s[i]).id != id,
        n < s.len() ==> s[n].id == id,
    ensures
        rooted(s, id) == n,
    decreases s.len(),
{
    if n > 0 {
        let t = s.drop_first();
        assert(s[0].id != id);
        assert forall|i: int| 0 <= i < n - 1 implies (#[trigger] t[i]).id != id by {
            assert(t[i] == s[i + 1]);
        }
        lemma_rooted(t, id, n - 1);
    }
}

proof fn lemma_holding(s: Seq<Tree>, id: u32, n: int)
    requires
        0 <= n <= s.len(),
        forall|i: int| 0 <= i < n ==> !(#[trigger] s[i]).below(id),
        n < s.len() ==> s[n].below(id),
    ensures
        holding(s, id) == n,
    decreases s.len(),
{
    if n > 0 {
        let t = s.drop_first();
        assert(!s[0].below(id));
        assert forall|i: int| 0 <= i < n - 1 implies !(#[trigger] t[i]).below(id) by {
            assert(t[i] == s[i + 1]);
        }
        lemma_holding(t, id, n - 1);
    }
}

impl HostState {
    pub open spec fn in_doc(self, id: u32) -> bool {
        self.doc.has(id)
    }

    /// A node, in the page or out of it.
    pub open spec fn node(self, id: u32) -> Option<Tree> {
        let i = holder(self.limbo, id);
        if self.doc.has(id) {
            self.doc.find(id)
        } else if 0 <= i < self.limbo.len() {
            self.limbo[i].find(id)
        } else {
            None
        }
    }

    /// The host with another node in the place of one.
    pub open spec fn with_node(self, id: u32, m: Tree) -> HostState {
        let i = holder(self.limbo, id);
        if self.doc.has(id) {
            HostState { doc: self.doc.replace(id, m), ..self }
        } else if 0 <= i < self.limbo.len() {
            HostState { limbo: self.limbo.update(i, self.limbo[i].replace(id, m)), ..self }
        } else {
            self
        }
    }

    /// Take a node out of wherever it is.
    pub open spec fn taken(self, id: u32) -> (HostState, Option<Tree>) {
        let r = rooted(self.limbo, id);
        let h = holding(self.limbo, id);
        if self.doc.below(id) {
            (
                HostState { doc: self.doc.without(id), dirty: true, ..self },
                self.doc.children[self.doc.branch(id)].find(id),
            )
        } else if r < self.limbo.len() {
            (HostState { limbo: self.limbo.remove(r), ..self }, Some(self.limbo[r]))
        } else if h < self.limbo.len() {
            (
                HostState { limbo: self.limbo.update(h, self.limbo[h].without(id)), ..self },
                self.limbo[h].children[self.limbo[h].branch(id)].find(id),
            )
        } else {
            (self, None)
        }
    }

    /// The host with one more node that is not in the page.
    pub open spec fn loose(self, n: Tree) -> HostState {
        HostState { limbo: self.limbo.push(n), ..self }
    }

    /// The host after its page changed, if that did.
    pub open spec fn touched(self, in_doc: bool) -> HostState {
        HostState { dirty: self.dirty || in_doc, ..self }
    }
}

/// The id that a script means: `document` stands for the root.
pub open spec fn meant(h: HostState, id: u32) -> u32 {
    if id == DOCUMENT_ID { h.doc.id } else { id }
}

impl Host {
    /// A page without scripts' doings.
    pub fn new(doc: Node, title: Vec<char>) -> (r: Host)
        ensures
            r@ == (HostState {
                doc: doc@,
                limbo: Seq::empty(),
                title: title@,
                dirty: false,
                requests: Seq::empty(),
                console: Seq::empty(),
            }),
    {
        let r: Host = Host { doc, limbo: Vec::new(), title, dirty: false, requests: Vec::new(), console: Vec::new() };
        proof {
            assert(r@.requests =~= Seq::<RequestState>::empty());
            assert(r@.console =~= Seq::<Pair>::empty());
        }
        r
    }

    pub fn in_doc(&self, id: u32) -> (r: bool)
        ensures
            r == self@.in_doc(id),
    {
        self.doc.has(id)
    }

    /// The first of the loose trees that has a node.
    pub(super) fn limbo_with(&self, id: u32) -> (r: Option<usize>)
        ensures
            match r {
                Some(i) => i < self.limbo@.len() && i == holder(self@.limbo, id),
                None => holder(self@.limbo, id) == self@.limbo.len(),
            },
            self@.limbo.len() == self.limbo@.len(),
            forall|k: int| 0 <= k < self.limbo@.len() ==> #[trigger] self@.limbo[k] == self.limbo@[k]@,
    {
        let n: usize = self.limbo.len();
        let mut i: usize = 0;
        proof {
            lemma_trees(self.limbo@);
            lemma_holder(self@.limbo, id);
        }
        while i < n
            invariant
                n == self.limbo@.len(),
                i <= n,
                self@.limbo.len() == n,
                forall|k: int| 0 <= k < n ==> #[trigger] self@.limbo[k] == self.limbo@[k]@,
                forall|k: int| 0 <= k < i ==> !(#[trigger] self@.limbo[k]).has(id),
                0 <= holder(self@.limbo, id) <= n,
                forall|k: int| 0 <= k < holder(self@.limbo, id) ==> !(#[trigger] self@.limbo[k]).has(id),
                holder(self@.limbo, id) < n ==> self@.limbo[holder(self@.limbo, id)].has(id),
            decreases n - i,
        {
            if self.limbo[i].has(id) {
                proof {
                    assert(self@.limbo[i as int].has(id));
                }
                return Some(i);
            }
            i += 1;
        }
        None
    }

    /// A node, in the page or out of it.
    pub fn node(&self, id: u32) -> (r: Option<&Node>)
        ensures
            match r {
                Some(n) => self@.node(id) == Some(n@),
                None => self@.node(id) is None,
            },
    {
        if self.doc.has(id) {
            return self.doc.find_id(id);
        }
        match self.limbo_with(id) {
            Some(i) => self.limbo[i].find_id(id),
            None => None,
        }
    }

    /// A node, to be changed.
    pub fn node_mut(&mut self, id: u32) -> (r: Option<&mut Node>)
        ensures
            match r {
                Some(n) => {
                    &&& old(self)@.node(id) == Some(n@)
                    &&& final(self)@ == old(self)@.with_node(id, final(n)@)
                },
                None => old(self)@.node(id) is None && final(self)@ == old(self)@,
            },
    {
        proof {
            lemma_find(self.doc@, id);
        }
        if self.doc.has(id) {
            return self.doc.find_id_mut(id);
        }
        match self.limbo_with(id) {
            Some(i) => {
                let ghost l0 = self.limbo@;
                proof {
                    lemma_holder(self@.limbo, id);
                    lemma_find(l0[i as int]@, id);
                    assert forall|n: Node| trees(#[trigger] l0.update(i as int, n)) == trees(l0).update(i as int, n@) by {
                        lemma_trees_update(l0, i as int, n);
                    }
                }
                self.limbo[i].find_id_mut(id)
            },
            None => None,
        }
    }

    /// Take a node out of wherever it is.
    pub fn take(&mut self, id: u32) -> (r: Option<Node>)
        ensures
            final(self)@ == old(self)@.taken(id).0,
            match r {
                Some(n) => old(self)@.taken(id).1 == Some(n@),
                None => old(self)@.taken(id).1 is None,
            },
    {
        if let Some(n) = self.doc.detach(id) {
            self.dirty = true;
            return Some(n);
        }
        let ghost h0 = self@;
        let n: usize = self.limbo.len();
        proof {
            lemma_trees(self.limbo@);
        }
        let mut i: usize = 0;
        while i < n
            invariant
                n == self.limbo@.len(),
                i <= n,
                h0 == self@,
                h0 == old(self)@,
                h0.limbo.len() == n,
                !h0.doc.below(id),
                forall|k: int| 0 <= k < n ==> #[trigger] h0.limbo[k] == self.limbo@[k]@,
                forall|k: int| 0 <= k < i ==> (#[trigger] h0.limbo[k]).id != id,
            decreases n - i,
        {
            if self.limbo[i].id == id {
                proof {
                    assert(h0.limbo[i as int].id == id);
                    lemma_rooted(h0.limbo, id, i as int);
                    lemma_trees_remove(self.limbo@, i as int);
                }
                return Some(self.limbo.remove(i));
            }
            i += 1;
        }
        proof {
            lemma_rooted(h0.limbo, id, n as int);
        }
        let mut i: usize = 0;
        while i < n
            invariant
                n == self.limbo@.len(),
                i <= n,
                h0 == self@,
                h0 == old(self)@,
                h0.limbo.len() == n,
                !h0.doc.below(id),
                rooted(h0.limbo, id) == n,
                forall|k: int| 0 <= k < n ==> #[trigger] h0.limbo[k] == self.limbo@[k]@,
                forall|k: int| 0 <= k < i ==> !(#[trigger] h0.limbo[k]).below(id),
            decreases n - i,
        {
            if self.limbo[i].branch(id).is_some() {
                let ghost l0 = self.limbo@;
                proof {
                    assert(h0.limbo[i as int].below(id));
                    lemma_holding(h0.limbo, id, i as int);
                    assert forall|m: Node| trees(#[trigger] l0.update(i as int, m)) == trees(l0).update(i as int, m@) by {
                        lemma_trees_update(l0, i as int, m);
                    }
                }
                return self.limbo[i].detach(id);
            }
            proof {
                assert(!h0.limbo[i as int].below(id));
            }
            i += 1;
        }
        proof {
            lemma_holding(h0.limbo, id, n as int);
        }
        None
    }

    fn push_limbo(&mut self, n: Node)
        ensures
            final(self)@ == old(self)@.loose(n@),
    {
        proof {
            let l = self.limbo@;
            lemma_trees_insert(l, l.len() as int, n);
            assert(l.insert(l.len() as int, n) =~= l.push(n));
            lemma_trees(l);
            assert(trees(l).insert(l.len() as int, n@) =~= trees(l).push(n@));
        }
        self.limbo.push(n);
    }
}

// ---------------------------------------------------------------------
// Creating, moving, removing
// ---------------------------------------------------------------------

/// A new node: a text, or an element by its tag.
pub open spec fn created(tag: Seq<char>, text: bool, fresh: u32) -> Tree {
    Tree {
        id: fresh,
        kind: if text {
            KindState::Text(Seq::empty())
        } else {
            KindState::Element { tag: lower_all(tag), attrs: Seq::empty() }
        },
        children: Seq::empty(),
    }
}

/// Where a node goes among others: before one of them, or at the end.
pub open spec fn place_of(s: Seq<Tree>, before: Option<u32>) -> int {
    match before {
        Some(id) => rooted(s, id),
        None => s.len() as int,
    }
}

/// A node with one more child.
pub open spec fn adopted(p: Tree, n: Tree, before: Option<u32>) -> Tree {
    Tree { children: p.children.insert(place_of(p.children, before), n), ..p }
}

impl HostState {
    /// The host after a node was put under another.
    pub open spec fn inserted(self, parent: u32, child: u32, before: Option<u32>) -> HostState {
        let p = meant(self, parent);
        let (h, node) = self.taken(child);
        if parent == child || node is None {
            if parent == child { self } else { h }
        } else {
            let after = match h.node(p) {
                Some(t) => h.with_node(p, adopted(t, node->0, before)),
                None => h.loose(node->0),
            };
            after.touched(h.in_doc(p))
        }
    }

    /// The host after a node was removed from the page.
    pub open spec fn removed(self, id: u32) -> HostState {
        let (h, node) = self.taken(id);
        if id == self.doc.id || node is None {
            if id == self.doc.id { self } else { h }
        } else {
            h.loose(node->0)
        }
    }
}

fn new_element(tag: Vec<char>, fresh: u32) -> (r: Node)
    ensures
        r@ == (Tree {
            id: fresh,
            kind: KindState::Element { tag: tag@, attrs: Seq::empty() },
            children: Seq::empty(),
        }),
{
    let r: Node = Node { id: fresh, kind: Kind::Element { tag, attrs: Table::new() }, children: Vec::new() };
    proof {
        lemma_trees(r.children@);
        assert(r@.children =~= Seq::<Tree>::empty());
    }
    r
}

fn new_text(text: Vec<char>, fresh: u32) -> (r: Node)
    ensures
        r@ == (Tree { id: fresh, kind: KindState::Text(text@), children: Seq::empty() }),
{
    let r: Node = Node { id: fresh, kind: Kind::Text(text), children: Vec::new() };
    proof {
        lemma_trees(r.children@);
        assert(r@.children =~= Seq::<Tree>::empty());
    }
    r
}

impl Node {
    /// Put a node among the children.
    fn adopt(&mut self, n: Node, before: Option<u32>)
        ensures
            final(self)@ == adopted(old(self)@, n@, before),
    {
        let len: usize = self.children.len();
        let ghost t0 = self@;
        let ghost c0 = self.children@;
        proof {
            lemma_trees(self.children@);
        }
        let mut at: usize = len;
        if let Some(id) = before {
            let mut i: usize = 0;
            while i < len && self.children[i].id != id
                invariant
                    len == self.children@.len(),
                    i <= len,
                    t0 == self@,
                    self.children@ == c0,
                    t0.children.len() == len,
                    forall|k: int| 0 <= k < len ==> #[trigger] t0.children[k] == self.children@[k]@,
                    forall|k: int| 0 <= k < i ==> (#[trigger] t0.children[k]).id != id,
                decreases len - i,
            {
                proof {
                    assert(t0.children[i as int].id != id);
                }
                i += 1;
            }
            proof {
                if i < len {
                    assert(t0.children[i as int].id == id);
                }
                lemma_rooted(t0.children, id, i as int);
            }
            at = i;
        }
        proof {
            lemma_trees_insert(self.children@, at as int, n);
        }
        self.children.insert(at, n);
    }
}

impl Host {
    /// Make a new node, which is not in the page yet.
    pub fn rs_create(&mut self, tag: &[char], text: bool, fresh: u32) -> (r: u32)
        ensures
            r == fresh,
            final(self)@ == old(self)@.loose(created(tag@, text, fresh)),
    {
        let n: Node = if text { new_text(Vec::new(), fresh) } else { new_element(lowered(tag), fresh) };
        proof {
            assert(n@ =~= created(tag@, text, fresh));
        }
        self.push_limbo(n);
        fresh
    }

    /// Put a node under another, before one of its children or at the end.
    pub fn rs_insert(&mut self, parent: u32, child: u32, before: Option<u32>)
        ensures
            final(self)@ == old(self)@.inserted(parent, child, before),
    {
        if parent == child {
            return;
        }
        let p: u32 = if parent == DOCUMENT_ID { self.doc.id } else { parent };
        let node: Node = match self.take(child) {
            Some(n) => n,
            None => {
                return;
            },
        };
        let in_doc: bool = self.in_doc(p);
        let there: bool = self.node(p).is_some();
        if there {
            if let Some(t) = self.node_mut(p) {
                t.adopt(node, before);
            }
        } else {
            self.push_limbo(node);
        }
        if in_doc {
            self.dirty = true;
        }
    }

    /// Take a node out of the page; it stays usable. The root stays.
    pub fn rs_remove(&mut self, id: u32)
        ensures
            final(self)@ == old(self)@.removed(id),
    {
        if id == self.doc.id {
            return;
        }
        if let Some(n) = self.take(id) {
            self.push_limbo(n);
        }
    }
}

// ---------------------------------------------------------------------
// Relations
// ---------------------------------------------------------------------

/// The parent of a node, its place, and the ids of its siblings, in the page
/// or out of it.
pub open spec fn family(h: HostState, id: u32) -> Option<(Tree, int)> {
    match h.doc.parent_of(id) {
        Some(p) => Some(p),
        None => family_in(h.limbo, id),
    }
}

pub open spec fn family_in(s: Seq<Tree>, id: u32) -> Option<(Tree, int)>
    decreases s.len(),
{
    if s.len() == 0 {
        None
    } else {
        match s[0].parent_of(id) {
            Some(p) => Some(p),
            None => family_in(s.drop_first(), id),
        }
    }
}

/// A relative of a node: 0 its parent, 1 its first child, 2 the next
/// sibling, 4 its last child, any other number the sibling before.
pub open spec fn relative(h: HostState, id: u32, rel: i32) -> Option<u32> {
    if id == DOCUMENT_ID {
        if rel == 1 || rel == 4 { Some(h.doc.id) } else { None }
    } else if id == h.doc.id && rel == 0 {
        Some(DOCUMENT_ID)
    } else if rel == 1 || rel == 4 {
        match h.node(id) {
            Some(n) => if n.children.len() == 0 {
                None
            } else if rel == 1 {
                Some(n.children[0].id)
            } else {
                Some(n.children.last().id)
            },
            None => None,
        }
    } else {
        match family(h, id) {
            Some((p, i)) => if rel == 0 {
                Some(p.id)
            } else if rel == 2 {
                if i + 1 < p.children.len() { Some(p.children[i + 1].id) } else { None }
            } else if i > 0 {
                Some(p.children[i - 1].id)
            } else {
                None
            },
            None => None,
        }
    }
}

impl Host {
    fn family(&self, id: u32) -> (r: Option<(u32, usize, Vec<u32>)>)
        ensures
            match r {
                Some(p) => family(self@, id) matches Some(q) && q.0.id == p.0 && q.1 == p.1 && p.2@ == ids(q.0.children)
                    && p.1 < p.2@.len(),
                None => family(self@, id) is None,
            },
    {
        if let Some(p) = self.doc.parent_of(id) {
            return Some(p);
        }
        let n: usize = self.limbo.len();
        let mut i: usize = 0;
        proof {
            lemma_trees(self.limbo@);
            assert(self@.limbo.skip(0) =~= self@.limbo);
        }
        while i < n
            invariant
                n == self.limbo@.len(),
                i <= n,
                self@.limbo.len() == n,
                forall|k: int| 0 <= k < n ==> #[trigger] self@.limbo[k] == self.limbo@[k]@,
                family(self@, id) == family_in(self@.limbo.skip(i as int), id),
            decreases n - i,
        {
            proof {
                let s = self@.limbo.skip(i as int);
                assert(s[0] == self.limbo@[i as int]@);
                assert(s.drop_first() =~= self@.limbo.skip(i + 1));
            }
            if let Some(p) = self.limbo[i].parent_of(id) {
                return Some(p);
            }
            i += 1;
        }
        None
    }

    /// A relative of a node.
    pub fn rs_rel(&self, id: u32, rel: i32) -> (r: Option<u32>)
        ensures
            r == relative(self@, id, rel),
    {
        if id == DOCUMENT_ID {
            return if rel == 1 || rel == 4 { Some(self.doc.id) } else { None };
        }
        if id == self.doc.id && rel == 0 {
            return Some(DOCUMENT_ID);
        }
        if rel == 1 || rel == 4 {
            return match self.node(id) {
                Some(n) => {
                    let v: Vec<u32> = n.child_ids();
                    if v.len() == 0 {
                        None
                    } else if rel == 1 {
                        Some(v[0])
                    } else {
                        Some(v[v.len() - 1])
                    }
                },
                None => None,
            };
        }
        match self.family(id) {
            Some((p, i, sibs)) => {
                let n: usize = sibs.len();
                if rel == 0 {
                    Some(p)
                } else if rel == 2 {
                    if i + 1 < n { Some(sibs[i + 1]) } else { None }
                } else if i > 0 {
                    Some(sibs[i - 1])
                } else {
                    None
                }
            },
            None => None,
        }
    }

    /// The children of a node.
    pub fn rs_children(&self, id: u32) -> (r: Vec<u32>)
        ensures
            r@ == match self@.node(meant(self@, id)) {
                Some(n) => ids(n.children),
                None => Seq::<u32>::empty(),
            },
    {
        let id: u32 = if id == DOCUMENT_ID { self.doc.id } else { id };
        match self.node(id) {
            Some(n) => n.child_ids(),
            None => Vec::new(),
        }
    }
}

// ---------------------------------------------------------------------
// Laws
// ---------------------------------------------------------------------

proof fn lemma_rooted_range(s: Seq<Tree>, id: u32)
    ensures
        0 <= rooted(s, id) <= s.len(),
        rooted(s, id) < s.len() ==> s[rooted(s, id)].id == id,
    decreases s.len(),
{
    if s.len() > 0 && s[0].id != id {
        lemma_rooted_range(s.drop_first(), id);
    }
}

proof fn lemma_holding_range(s: Seq<Tree>, id: u32)
    ensures
        0 <= holding(s, id) <= s.len(),
        holding(s, id) < s.len() ==> s[holding(s, id)].below(id),
    decreases s.len(),
{
    if s.len() > 0 && !s[0].below(id) {
        lemma_holding_range(s.drop_first(), id);
    }
}

/// A node that was changed is found as it is now.
pub proof fn lemma_node_changed(h: HostState, id: u32, m: Tree)
    requires
        h.node(id) is Some,
        m.id == id,
    ensures
        h.with_node(id, m).node(id) == Some(m),
{
    let g = h.with_node(id, m);
    lemma_find(h.doc, id);
    if h.doc.has(id) {
        lemma_find_replaced(h.doc, id, m);
        lemma_find(g.doc, id);
    } else {
        let i = holder(h.limbo, id);
        lemma_holder(h.limbo, id);
        lemma_find_replaced(h.limbo[i], id, m);
        lemma_find(g.limbo[i], id);
        assert forall|k: int| 0 <= k < i implies !(#[trigger] g.limbo[k]).has(id) by {
            assert(!h.limbo[k].has(id));
        }
        lemma_holder_is(g.limbo, id, i);
    }
}

/// A node that is put under another is among its children, at the end or
/// before the one that was named.
pub proof fn lemma_inserted(h: HostState, parent: u32, child: u32, before: Option<u32>)
    requires
        parent != child,
        h.taken(child).1 is Some,
        h.taken(child).0.node(meant(h, parent)) is Some,
    ensures
        ({
            let p = meant(h, parent);
            let t = h.taken(child).0.node(p)->0;
            let n = h.taken(child).1->0;
            let after = h.inserted(parent, child, before).node(p);
            &&& after == Some(adopted(t, n, before))
            &&& after->0.children.contains(n)
            &&& before is None ==> after->0.children.last() == n
        }),
{
    let p = meant(h, parent);
    let (g, node) = h.taken(child);
    let t = g.node(p)->0;
    let n = node->0;
    let m = adopted(t, n, before);
    lemma_find(g.doc, p);
    if !g.doc.has(p) {
        lemma_holder(g.limbo, p);
        lemma_find(g.limbo[holder(g.limbo, p)], p);
    }
    lemma_node_changed(g, p, m);
    let at = place_of(t.children, before);
    if before is Some {
        lemma_rooted_range(t.children, before->0);
    }
    assert(m.children[at] == n);
}

/// All nodes, in the page and out of it.
pub open spec fn total(h: HostState) -> nat {
    count(h.doc) + count_all(h.limbo)
}

proof fn lemma_taken_count(h: HostState, id: u32)
    ensures
        ({
            let (g, node) = h.taken(id);
            total(h) == total(g) + match node {
                Some(n) => count(n),
                None => 0,
            }
        }),
{
    lemma_rooted_range(h.limbo, id);
    lemma_holding_range(h.limbo, id);
    let r = rooted(h.limbo, id);
    let k = holding(h.limbo, id);
    if h.doc.below(id) {
        lemma_holder(h.doc.children, id);
        lemma_find(h.doc.children[h.doc.branch(id)], id);
        lemma_detach_count(h.doc, id);
    } else if r < h.limbo.len() {
        lemma_count_remove(h.limbo, r);
    } else if k < h.limbo.len() {
        lemma_holder(h.limbo[k].children, id);
        lemma_find(h.limbo[k].children[h.limbo[k].branch(id)], id);
        lemma_detach_count(h.limbo[k], id);
        lemma_count_update(h.limbo, k, h.limbo[k].without(id));
    }
}

proof fn lemma_loose_count(h: HostState, n: Tree)
    ensures
        total(h.loose(n)) == total(h) + count(n),
{
    assert(h.limbo.push(n).drop_last() =~= h.limbo);
}

/// Moving nodes about and removing them from the page loses none.
pub proof fn lemma_nothing_lost(h: HostState, parent: u32, child: u32, before: Option<u32>)
    ensures
        total(h.inserted(parent, child, before)) == total(h),
        total(h.removed(child)) == total(h),
{
    let p = meant(h, parent);
    let (g, node) = h.taken(child);
    lemma_taken_count(h, child);
    if node is Some {
        let n = node->0;
        lemma_loose_count(g, n);
        lemma_find(g.doc, p);
        lemma_holder(g.limbo, p);
        if g.node(p) is Some {
            let t = g.node(p)->0;
            let m = adopted(t, n, before);
            let at = place_of(t.children, before);
            if before is Some {
                lemma_rooted_range(t.children, before->0);
            }
            lemma_count_remove(m.children, at);
            assert(m.children.remove(at) =~= t.children);
            if g.doc.has(p) {
                lemma_count_replace(g.doc, p, m);
            } else {
                let i = holder(g.limbo, p);
                lemma_find(g.limbo[i], p);
                lemma_count_replace(g.limbo[i], p, m);
                lemma_count_update(g.limbo, i, g.limbo[i].replace(p, m));
            }
        }
    }
}

/// A node that is put before another stands right before it, and the other
/// children of the parent keep their order around the two.
pub proof fn lemma_put_before(p: Tree, n: Tree, id: u32, at: int)
    requires
        0 <= at < p.children.len(),
        p.children[at].id == id,
        forall|k: int| 0 <= k < at ==> (#[trigger] p.children[k]).id != id,
    ensures
        ({
            let a = adopted(p, n, Some(id)).children;
            &&& a.len() == p.children.len() + 1
            &&& a[at] == n
            &&& a[at + 1] == p.children[at]
            &&& a.remove(at) == p.children
        }),
        ({
            let a = adopted(p, n, None).children;
            a.last() == n && a.drop_last() == p.children
        }),
{
    lemma_rooted(p.children, id, at);
    let a = adopted(p, n, Some(id)).children;
    assert(a.remove(at) =~= p.children);
    let b = adopted(p, n, None).children;
    assert(b.drop_last() =~= p.children);
}

/// The nodes around a node: its first and last child have no sibling before
/// and behind them, and among siblings the next of one is the one whose
/// previous it is.
pub proof fn lemma_siblings(h: HostState, a: u32, b: u32, p: Tree, i: int)
    requires
        a != DOCUMENT_ID,
        b != DOCUMENT_ID,
        family(h, a) == Some((p, i)),
        family(h, b) == Some((p, i + 1)),
        0 <= i,
        i + 1 < p.children.len(),
        p.children[i].id == a,
        p.children[i + 1].id == b,
    ensures
        relative(h, a, 2) == Some(b),
        relative(h, b, 3) == Some(a),
        a != h.doc.id ==> relative(h, a, 0) == Some(p.id),
        i == 0 ==> relative(h, a, 3) is None,
        i + 2 == p.children.len() ==> relative(h, b, 2) is None,
{
}

} // verus!
