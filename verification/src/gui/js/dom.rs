//! The elements and texts of a page, as a tree.

use super::table::{Pair, Table};
use crate::text::{copy, push_all, same};
use vstd::prelude::*;

verus! {

/// What a node is.
pub enum Kind {
    Element { tag: Vec<char>, attrs: Table },
    Text(Vec<char>),
}

#[verifier::ext_equal]
pub ghost enum KindState {
    Element { tag: Seq<char>, attrs: Seq<Pair> },
    Text(Seq<char>),
}

impl View for Kind {
    type V = KindState;

    open spec fn view(&self) -> KindState {
        match self {
            Kind::Element { tag, attrs } => KindState::Element { tag: tag@, attrs: attrs@ },
            Kind::Text(t) => KindState::Text(t@),
        }
    }
}

/// A node of a page. Every node has an id of its own.
pub struct Node {
    pub id: u32,
    pub kind: Kind,
    pub children: Vec<Node>,
}

#[verifier::ext_equal]
pub ghost struct Tree {
    pub id: u32,
    pub kind: KindState,
    pub children: Seq<Tree>,
}

impl View for Node {
    type V = Tree;

    open spec fn view(&self) -> Tree {
        tree_of(*self)
    }
}

pub open spec fn tree_of(n: Node) -> Tree
    decreases n,
{
    Tree { id: n.id, kind: n.kind@, children: trees(n.children@) }
}

pub open spec fn trees(s: Seq<Node>) -> Seq<Tree>
    decreases s,
{
    if s.len() == 0 { Seq::empty() } else { trees(s.drop_last()).push(tree_of(s.last())) }
}

pub proof fn lemma_trees(s: Seq<Node>)
    ensures
        trees(s).len() == s.len(),
        forall|i: int| 0 <= i < s.len() ==> #[trigger] trees(s)[i] == s[i]@,
    decreases s.len(),
{
    if s.len() > 0 {
        lemma_trees(s.drop_last());
        assert(trees(s) == trees(s.drop_last()).push(tree_of(s.last())));
        assert forall|i: int| 0 <= i < s.len() implies #[trigger] trees(s)[i] == s[i]@ by {
            if i < s.len() - 1 {
                assert(trees(s.drop_last())[i] == s.drop_last()[i]@);
            }
        }
    }
}

pub proof fn lemma_trees_update(s: Seq<Node>, i: int, n: Node)
    requires
        0 <= i < s.len(),
    ensures
        trees(s.update(i, n)) == trees(s).update(i, n@),
{
    lemma_trees(s);
    lemma_trees(s.update(i, n));
    assert(trees(s.update(i, n)) =~= trees(s).update(i, n@));
}

pub proof fn lemma_trees_remove(s: Seq<Node>, i: int)
    requires
        0 <= i < s.len(),
    ensures
        trees(s.remove(i)) == trees(s).remove(i),
{
    lemma_trees(s);
    lemma_trees(s.remove(i));
    assert(trees(s.remove(i)) =~= trees(s).remove(i));
}

pub proof fn lemma_trees_insert(s: Seq<Node>, i: int, n: Node)
    requires
        0 <= i <= s.len(),
    ensures
        trees(s.insert(i, n)) == trees(s).insert(i, n@),
{
    lemma_trees(s);
    lemma_trees(s.insert(i, n));
    assert(trees(s.insert(i, n)) =~= trees(s).insert(i, n@));
}

// ---------------------------------------------------------------------
// Finding
// ---------------------------------------------------------------------

/// The first of these trees that has a node; their number if none has it.
pub open spec fn holder(s: Seq<Tree>, id: u32) -> int
    decreases s,
{
    if s.len() == 0 {
        0
    } else if s[0].has(id) {
        0
    } else {
        1 + holder(s.drop_first(), id)
    }
}

impl Tree {
    /// Whether a node is in the tree.
    pub open spec fn has(self, id: u32) -> bool
        decreases self,
    {
        self.id == id || holder(self.children, id) < self.children.len()
    }

    /// The child that a node is in.
    pub open spec fn branch(self, id: u32) -> int {
        holder(self.children, id)
    }

    /// Whether a node is below the root.
    pub open spec fn below(self, id: u32) -> bool {
        0 <= self.branch(id) < self.children.len()
    }

    /// The part of the tree from a node on.
    pub open spec fn find(self, id: u32) -> Option<Tree>
        decreases self,
    {
        if self.id == id {
            Some(self)
        } else if self.below(id) {
            self.children[self.branch(id)].find(id)
        } else {
            None
        }
    }

    /// The tree with another in the place of a node.
    pub open spec fn replace(self, id: u32, m: Tree) -> Tree
        decreases self,
    {
        if self.id == id {
            m
        } else if self.below(id) {
            let i = self.branch(id);
            Tree { children: self.children.update(i, self.children[i].replace(id, m)), ..self }
        } else {
            self
        }
    }

    /// The node that a node is a child of, and the place among its children.
    pub open spec fn parent_of(self, id: u32) -> Option<(Tree, int)>
        decreases self,
    {
        if self.below(id) {
            let i = self.branch(id);
            if self.children[i].id == id { Some((self, i)) } else { self.children[i].parent_of(id) }
        } else {
            None
        }
    }

    /// The tree without a node that is below its root.
    pub open spec fn without(self, id: u32) -> Tree
        decreases self,
    {
        if self.below(id) {
            let i = self.branch(id);
            if self.children[i].id == id {
                Tree { children: self.children.remove(i), ..self }
            } else {
                Tree { children: self.children.update(i, self.children[i].without(id)), ..self }
            }
        } else {
            self
        }
    }

    /// The text in the tree.
    pub open spec fn text(self) -> Seq<char>
        decreases self,
    {
        match self.kind {
            KindState::Text(t) => t,
            KindState::Element { .. } => all_text(self.children),
        }
    }
}

/// The text in these trees, one after the other.
pub open spec fn all_text(s: Seq<Tree>) -> Seq<char>
    decreases s,
{
    if s.len() == 0 { Seq::empty() } else { all_text(s.drop_last()) + s.last().text() }
}

pub proof fn lemma_holder(s: Seq<Tree>, id: u32)
    ensures
        0 <= holder(s, id) <= s.len(),
        forall|i: int| 0 <= i < holder(s, id) ==> !(#[trigger] s[i]).has(id),
        holder(s, id) < s.len() ==> s[holder(s, id)].has(id),
    decreases s.len(),
{
    if s.len() > 0 && !s[0].has(id) {
        let t = s.drop_first();
        lemma_holder(t, id);
        assert forall|i: int| 0 <= i < holder(s, id) implies !(#[trigger] s[i]).has(id) by {
            if i > 0 {
                assert(s[i] == t[i - 1]);
            }
        }
        if holder(s, id) < s.len() {
            assert(s[holder(s, id)] == t[holder(t, id)]);
        }
    }
}

/// A node is found exactly if it is there, and it is the one looked for.
pub proof fn lemma_find(t: Tree, id: u32)
    ensures
        t.has(id) == t.find(id) is Some,
        t.has(id) == (t.id == id || t.below(id)),
        t.find(id) matches Some(n) ==> n.id == id,
    decreases t,
{
    lemma_holder(t.children, id);
    if t.id != id && t.below(id) {
        lemma_find(t.children[t.branch(id)], id);
    }
}

pub proof fn lemma_holder_is(s: Seq<Tree>, id: u32, n: int)
    requires
        0 <= n <= s.len(),
        forall|i: int| 0 <= i < n ==> !(#[trigger] s[i]).has(id),
        n < s.len() ==> s[n].has(id),
    ensures
        holder(s, id) == n,
{
    lemma_holder(s, id);
    let h = holder(s, id);
    if h < n {
        assert(!s[h].has(id));
    } else if h > n {
        assert(!s[n].has(id));
    }
}

impl Node {
    /// Whether a node is in the tree.
    pub fn has(&self, id: u32) -> (r: bool)
        ensures
            r == self@.has(id),
        decreases *self,
    {
        if self.id == id {
            return true;
        }
        let n: usize = self.children.len();
        let mut i: usize = 0;
        proof {
            lemma_trees(self.children@);
        }
        while i < n
            invariant
                n == self.children@.len(),
                i <= n,
                self@.children == trees(self.children@),
                self@.children.len() == n,
                self.id != id,
                forall|k: int| 0 <= k < n ==> #[trigger] self@.children[k] == self.children@[k]@,
                forall|k: int| 0 <= k < i ==> !(#[trigger] self@.children[k]).has(id),
            decreases n - i,
        {
            if self.children[i].has(id) {
                proof {
                    assert(self@.children[i as int].has(id));
                    lemma_holder_is(self@.children, id, i as int);
                }
                return true;
            }
            i += 1;
        }
        proof {
            lemma_holder_is(self@.children, id, n as int);
        }
        false
    }

    /// The child that a node is in.
    pub fn branch(&self, id: u32) -> (r: Option<usize>)
        ensures
            match r {
                Some(i) => self@.below(id) && i == self@.branch(id),
                None => !self@.below(id),
            },
            self@.children.len() == self.children@.len(),
            forall|k: int| 0 <= k < self.children@.len() ==> #[trigger] self@.children[k] == self.children@[k]@,
    {
        let n: usize = self.children.len();
        let mut i: usize = 0;
        proof {
            lemma_trees(self.children@);
        }
        while i < n
            invariant
                n == self.children@.len(),
                i <= n,
                self@.children.len() == n,
                forall|k: int| 0 <= k < n ==> #[trigger] self@.children[k] == self.children@[k]@,
                forall|k: int| 0 <= k < i ==> !(#[trigger] self@.children[k]).has(id),
            decreases n - i,
        {
            if self.children[i].has(id) {
                proof {
                    assert(self@.children[i as int].has(id));
                    lemma_holder_is(self@.children, id, i as int);
                }
                return Some(i);
            }
            i += 1;
        }
        proof {
            lemma_holder_is(self@.children, id, n as int);
        }
        None
    }

    /// A node.
    pub fn find_id(&self, id: u32) -> (r: Option<&Node>)
        ensures
            match r {
                Some(n) => self@.find(id) == Some(n@),
                None => self@.find(id) is None,
            },
        decreases *self,
    {
        if self.id == id {
            return Some(self);
        }
        match self.branch(id) {
            Some(i) => self.children[i].find_id(id),
            None => None,
        }
    }

    /// A node, to be changed.
    pub fn find_id_mut(&mut self, id: u32) -> (r: Option<&mut Node>)
        ensures
            match r {
                Some(n) => {
                    &&& old(self)@.find(id) == Some(n@)
                    &&& final(self)@ == old(self)@.replace(id, final(n)@)
                },
                None => old(self)@.find(id) is None && final(self)@ == old(self)@,
            },
        decreases *old(self),
    {
        if self.id == id {
            return Some(self);
        }
        match self.branch(id) {
            Some(i) => {
                let ghost c0 = self.children@;
                proof {
                    lemma_holder(self@.children, id);
                    lemma_find(c0[i as int]@, id);
                    assert forall|n: Node| trees(#[trigger] c0.update(i as int, n)) == trees(c0).update(i as int, n@) by {
                        lemma_trees_update(c0, i as int, n);
                    }
                }
                self.children[i].find_id_mut(id)
            },
            None => None,
        }
    }

    /// Take a node out that is below the root.
    pub fn detach(&mut self, id: u32) -> (r: Option<Node>)
        ensures
            match r {
                Some(n) => {
                    &&& old(self)@.below(id)
                    &&& old(self)@.children[old(self)@.branch(id)].find(id) == Some(n@)
                    &&& final(self)@ == old(self)@.without(id)
                },
                None => !old(self)@.below(id) && final(self)@ == old(self)@,
            },
        decreases *old(self),
    {
        match self.branch(id) {
            Some(i) => {
                let ghost c0 = self.children@;
                proof {
                    lemma_holder(self@.children, id);
                    lemma_find(c0[i as int]@, id);
                    lemma_trees_remove(c0, i as int);
                    assert forall|n: Node| trees(#[trigger] c0.update(i as int, n)) == trees(c0).update(i as int, n@) by {
                        lemma_trees_update(c0, i as int, n);
                    }
                }
                if self.children[i].id == id {
                    Some(self.children.remove(i))
                } else {
                    self.children[i].detach(id)
                }
            },
            None => None,
        }
    }

    /// The id of the node that a node is a child of, the place among its
    /// children, and their ids.
    pub fn parent_of(&self, id: u32) -> (r: Option<(u32, usize, Vec<u32>)>)
        ensures
            match r {
                Some(p) => self@.parent_of(id) matches Some(q) && q.0.id == p.0 && q.1 == p.1 && p.2@ == ids(q.0.children)
                    && p.1 < p.2@.len(),
                None => self@.parent_of(id) is None,
            },
        decreases *self,
    {
        match self.branch(id) {
            Some(i) => {
                if self.children[i].id == id {
                    Some((self.id, i, self.child_ids()))
                } else {
                    self.children[i].parent_of(id)
                }
            },
            None => None,
        }
    }

    /// The ids of the children.
    pub fn child_ids(&self) -> (r: Vec<u32>)
        ensures
            r@ == ids(self@.children),
    {
        let mut out: Vec<u32> = Vec::new();
        let n: usize = self.children.len();
        let mut i: usize = 0;
        proof {
            lemma_trees(self.children@);
        }
        while i < n
            invariant
                n == self.children@.len(),
                i <= n,
                out@.len() == i,
                forall|k: int| 0 <= k < i ==> out@[k] == (#[trigger] self.children@[k]).id,
            decreases n - i,
        {
            out.push(self.children[i].id);
            i += 1;
        }
        proof {
            assert forall|k: int| 0 <= k < n implies out@[k] == ids(self@.children)[k] by {
                assert(trees(self.children@)[k] == self.children@[k]@);
            }
            assert(out@ =~= ids(self@.children));
        }
        out
    }

    /// The text in the tree.
    pub fn text_content(&self) -> (r: Vec<char>)
        ensures
            r@ == self@.text(),
        decreases *self,
    {
        let mut out: Vec<char> = Vec::new();
        match &self.kind {
            Kind::Text(t) => copy(t),
            Kind::Element { .. } => {
                let n: usize = self.children.len();
                let mut i: usize = 0;
                proof {
                    lemma_trees(self.children@);
                }
                while i < n
                    invariant
                        n == self.children@.len(),
                        i <= n,
                        self@.children.len() == n,
                        forall|k: int| 0 <= k < n ==> #[trigger] self@.children[k] == self.children@[k]@,
                        out@ == all_text(self@.children.take(i as int)),
                    decreases n - i,
                {
                    let t: Vec<char> = self.children[i].text_content();
                    push_all(&mut out, &t);
                    i += 1;
                    proof {
                        let s = self@.children.take(i as int);
                        assert(s.drop_last() =~= self@.children.take(i - 1));
                        assert(s.last() == self.children@[i - 1]@);
                    }
                }
                proof {
                    assert(self@.children.take(n as int) =~= self@.children);
                }
                out
            },
        }
    }

    /// The first element of the tree with this tag.
    pub fn find_tag(&self, tag: &[char]) -> (r: Option<u32>)
        ensures
            r == self@.tagged(tag@),
        decreases *self,
    {
        if let Kind::Element { tag: own, .. } = &self.kind {
            if same(own, tag) {
                return Some(self.id);
            }
        }
        let n: usize = self.children.len();
        let mut i: usize = 0;
        proof {
            lemma_trees(self.children@);
            assert(self@.children.skip(0) =~= self@.children);
        }
        while i < n
            invariant
                n == self.children@.len(),
                i <= n,
                self@.children.len() == n,
                forall|k: int| 0 <= k < n ==> #[trigger] self@.children[k] == self.children@[k]@,
                self@.tagged(tag@) == tagged_in(self@.children.skip(i as int), tag@),
            decreases n - i,
        {
            proof {
                let s = self@.children.skip(i as int);
                assert(s[0] == self.children@[i as int]@);
                assert(s.drop_first() =~= self@.children.skip(i + 1));
            }
            if let Some(id) = self.children[i].find_tag(tag) {
                return Some(id);
            }
            i += 1;
        }
        None
    }

    /// Whether it is an element with this tag.
    pub fn is_tag(&self, tag: &[char]) -> (r: bool)
        ensures
            r == self@.is_element(tag@),
    {
        match &self.kind {
            Kind::Element { tag: own, .. } => same(own, tag),
            Kind::Text(_) => false,
        }
    }
}

/// The ids of these trees.
pub open spec fn ids(s: Seq<Tree>) -> Seq<u32> {
    Seq::new(s.len(), |i: int| s[i].id)
}

impl Tree {
    /// Whether it is an element with this tag.
    pub open spec fn is_element(self, tag: Seq<char>) -> bool {
        self.kind matches KindState::Element { tag: own, .. } && own == tag
    }

    /// The first element with this tag.
    pub open spec fn tagged(self, tag: Seq<char>) -> Option<u32>
        decreases self,
    {
        if self.is_element(tag) { Some(self.id) } else { tagged_in(self.children, tag) }
    }
}

pub open spec fn tagged_in(s: Seq<Tree>, tag: Seq<char>) -> Option<u32>
    decreases s,
{
    if s.len() == 0 {
        None
    } else {
        match s[0].tagged(tag) {
            Some(id) => Some(id),
            None => tagged_in(s.drop_first(), tag),
        }
    }
}

// ---------------------------------------------------------------------
// Laws
// ---------------------------------------------------------------------

/// A node that was changed is found as it is now.
pub proof fn lemma_find_replaced(t: Tree, id: u32, m: Tree)
    requires
        t.has(id),
        m.id == id,
    ensures
        t.replace(id, m).find(id) == Some(m),
    decreases t,
{
    lemma_find(t, id);
    if t.id != id {
        let i = t.branch(id);
        lemma_holder(t.children, id);
        lemma_find_replaced(t.children[i], id, m);
        let u = t.replace(id, m);
        lemma_find(u.children[i], id);
        assert forall|k: int| 0 <= k < i implies !(#[trigger] u.children[k]).has(id) by {
            assert(!t.children[k].has(id));
        }
        lemma_holder_is(u.children, id, i);
    }
}

/// Changing a node to what it is changes nothing.
pub proof fn lemma_replace_same(t: Tree, id: u32)
    requires
        t.has(id),
    ensures
        t.replace(id, t.find(id)->0) == t,
    decreases t,
{
    lemma_find(t, id);
    if t.id != id {
        let i = t.branch(id);
        lemma_holder(t.children, id);
        lemma_replace_same(t.children[i], id);
        assert(t.children.update(i, t.children[i]) =~= t.children);
    }
}

/// A node that is below the root has a parent, of which it is the child at
/// that place.
pub proof fn lemma_parent(t: Tree, id: u32)
    requires
        t.below(id),
    ensures
        t.parent_of(id) matches Some(p) && 0 <= p.1 < p.0.children.len() && p.0.children[p.1].id == id,
    decreases t,
{
    let i = t.branch(id);
    lemma_holder(t.children, id);
    lemma_find(t.children[i], id);
    if t.children[i].id != id {
        lemma_parent(t.children[i], id);
    }
}

/// How many nodes a tree has.
pub open spec fn count(t: Tree) -> nat
    decreases t,
{
    1 + count_all(t.children)
}

pub open spec fn count_all(s: Seq<Tree>) -> nat
    decreases s,
{
    if s.len() == 0 { 0 } else { count_all(s.drop_last()) + count(s.last()) }
}

pub proof fn lemma_count_remove(s: Seq<Tree>, i: int)
    requires
        0 <= i < s.len(),
    ensures
        count_all(s) == count_all(s.remove(i)) + count(s[i]),
    decreases s.len(),
{
    if i < s.len() - 1 {
        lemma_count_remove(s.drop_last(), i);
        assert(s.remove(i).drop_last() =~= s.drop_last().remove(i));
    } else {
        assert(s.remove(i) =~= s.drop_last());
    }
}

pub proof fn lemma_count_update(s: Seq<Tree>, i: int, m: Tree)
    requires
        0 <= i < s.len(),
    ensures
        count_all(s.update(i, m)) + count(s[i]) == count_all(s) + count(m),
{
    lemma_count_remove(s, i);
    lemma_count_remove(s.update(i, m), i);
    assert(s.update(i, m).remove(i) =~= s.remove(i));
}

/// Taking a node out loses nothing: what is left and what was taken have
/// all the nodes between them.
pub proof fn lemma_detach_count(t: Tree, id: u32)
    requires
        t.below(id),
    ensures
        count(t) == count(t.without(id)) + count(t.children[t.branch(id)].find(id)->0),
    decreases t,
{
    let i = t.branch(id);
    lemma_holder(t.children, id);
    lemma_find(t.children[i], id);
    if t.children[i].id == id {
        lemma_count_remove(t.children, i);
    } else {
        lemma_detach_count(t.children[i], id);
        lemma_count_update(t.children, i, t.children[i].without(id));
    }
}

/// A node that is changed changes the number of nodes by its own.
pub proof fn lemma_count_replace(t: Tree, id: u32, m: Tree)
    requires
        t.has(id),
    ensures
        count(t.replace(id, m)) + count(t.find(id)->0) == count(t) + count(m),
    decreases t,
{
    lemma_find(t, id);
    if t.id != id {
        let i = t.branch(id);
        lemma_holder(t.children, id);
        lemma_count_replace(t.children[i], id, m);
        lemma_count_update(t.children, i, t.children[i].replace(id, m));
    }
}

} // verus!
