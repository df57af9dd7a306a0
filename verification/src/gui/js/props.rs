//! What scripts read from nodes and write to them.

use super::dom::{lemma_trees, trees, Kind, KindState, Node, Tree};
use super::host::{row_views, Host, HostState, DOCUMENT_ID};
use super::store::names_of;
use super::table::{del, get, put, Pair, Row, Table};
use crate::text::{copy, is_str, join, join_with, push_all, push_str, same, to_chars, views};
use vstd::prelude::*;

verus! {

pub const W_TEXT: i32 = 0;
pub const W_HTML: i32 = 1;
pub const W_ATTR: i32 = 2;
pub const W_TAG: i32 = 3;
pub const W_STYLE: i32 = 4;
pub const W_OUTER: i32 = 5;
pub const W_TYPE: i32 = 6;
pub const W_VALUE: i32 = 7;
pub const W_RMATTR: i32 = 8;

// ---------------------------------------------------------------------
// Reading
// ---------------------------------------------------------------------

/// The value of the last declaration with a name; empty if there is none.
pub open spec fn declared(d: Seq<Pair>, name: Seq<char>) -> Seq<char>
    decreases d.len(),
{
    if d.len() == 0 {
        Seq::empty()
    } else if d.last().0 == name {
        d.last().1
    } else {
        declared(d.drop_last(), name)
    }
}

pub open spec fn or_empty(o: Option<Seq<char>>) -> Seq<char> {
    match o {
        Some(t) => t,
        None => Seq::empty(),
    }
}

/// What a script reads of a node. `html` is the node as HTML (its inside,
/// or all of it), and `decls` are the declarations of its style.
pub open spec fn shown(t: Tree, what: i32, name: Seq<char>, html: Seq<char>, decls: Seq<Pair>) -> Option<Seq<char>> {
    if what == W_TEXT {
        Some(t.text())
    } else if what == W_HTML || what == W_OUTER {
        Some(html)
    } else {
        match t.kind {
            KindState::Text(_) => if what == W_TYPE { Some("3"@) } else { None },
            KindState::Element { tag, attrs } => if what == W_TYPE {
                Some("1"@)
            } else if what == W_TAG {
                Some(tag)
            } else if what == W_ATTR {
                if name.len() == 0 || name == "\0names"@ {
                    Some(join(names_of(attrs), '\0'))
                } else {
                    get(attrs, name)
                }
            } else if what == W_VALUE {
                Some(if tag == "textarea"@ { t.text() } else { or_empty(get(attrs, "value"@)) })
            } else if what == W_STYLE {
                Some(declared(decls, name))
            } else {
                None
            },
        }
    }
}

fn last_declared(decls: &Vec<Row>, name: &[char]) -> (r: Vec<char>)
    ensures
        r@ == declared(row_views(decls@), name@),
{
    let n: usize = decls.len();
    let mut i: usize = n;
    let ghost all = row_views(decls@);
    proof {
        assert(all.take(n as int) =~= all);
    }
    while i > 0
        invariant
            n == decls@.len(),
            i <= n,
            all == row_views(decls@),
            declared(all, name@) == declared(all.take(i as int), name@),
        decreases i,
    {
        proof {
            assert(all.take(i as int).drop_last() =~= all.take(i - 1));
            assert(all.take(i as int).last() == all[i - 1]);
        }
        i -= 1;
        if same(&decls[i].key, name) {
            return copy(&decls[i].value);
        }
    }
    proof {
        assert(all.take(0) =~= Seq::<Pair>::empty());
    }
    Vec::new()
}

fn attr_names(t: &Table) -> (r: Vec<char>)
    ensures
        r@ == join(names_of(t@), '\0'),
{
    let mut keys: Vec<Vec<char>> = Vec::new();
    let n: usize = t.len();
    let mut i: usize = 0;
    proof {
        assert(views(keys@) =~= names_of(t@).take(0));
    }
    while i < n
        invariant
            i <= n,
            n == t@.len(),
            views(keys@) == names_of(t@).take(i as int),
        decreases n - i,
    {
        let ghost k0 = views(keys@);
        keys.push(copy(&t.row(i).key));
        i += 1;
        proof {
            assert(views(keys@) =~= k0.push(t@[i - 1].0));
            assert(views(keys@) =~= names_of(t@).take(i as int));
        }
    }
    proof {
        assert(names_of(t@).take(n as int) =~= names_of(t@));
    }
    join_with(&keys, '\0')
}

impl Node {
    fn show(&self, what: i32, name: &[char], html: &[char], decls: &Vec<Row>) -> (r: Option<Vec<char>>)
        ensures
            match r {
                Some(t) => shown(self@, what, name@, html@, row_views(decls@)) == Some(t@),
                None => shown(self@, what, name@, html@, row_views(decls@)) is None,
            },
    {
        if what == W_TEXT {
            return Some(self.text_content());
        }
        if what == W_HTML || what == W_OUTER {
            return Some(copy(html));
        }
        match &self.kind {
            Kind::Text(_) => if what == W_TYPE { Some(to_chars("3")) } else { None },
            Kind::Element { tag, attrs } => {
                if what == W_TYPE {
                    Some(to_chars("1"))
                } else if what == W_TAG {
                    Some(copy(tag))
                } else if what == W_ATTR {
                    if name.len() == 0 || is_str(name, "\0names") {
                        Some(attr_names(attrs))
                    } else {
                        attrs.get(name)
                    }
                } else if what == W_VALUE {
                    if is_str(tag, "textarea") {
                        Some(self.text_content())
                    } else {
                        match attrs.get(&to_chars("value")) {
                            Some(v) => Some(v),
                            None => Some(Vec::new()),
                        }
                    }
                } else if what == W_STYLE {
                    Some(last_declared(decls, name))
                } else {
                    None
                }
            },
        }
    }
}

impl Host {
    /// What a script reads of a node; nothing if there is no such node or
    /// no such property.
    pub fn rs_get(&self, id: u32, what: i32, name: &[char], html: &[char], decls: &Vec<Row>) -> (r: Option<Vec<char>>)
        ensures
            ({
                let want = if id == DOCUMENT_ID {
                    if what == W_TYPE { Some("9"@) } else { None }
                } else {
                    match self@.node(id) {
                        Some(t) => shown(t, what, name@, html@, row_views(decls@)),
                        None => None,
                    }
                };
                match r {
                    Some(t) => want == Some(t@),
                    None => want is None,
                }
            }),
    {
        if id == DOCUMENT_ID {
            return if what == W_TYPE { Some(to_chars("9")) } else { None };
        }
        match self.node(id) {
            Some(n) => n.show(what, name, html, decls),
            None => None,
        }
    }
}

// ---------------------------------------------------------------------
// Writing
// ---------------------------------------------------------------------

/// The declarations without those of a name.
pub open spec fn without_name(d: Seq<Pair>, name: Seq<char>) -> Seq<Pair>
    decreases d.len(),
{
    if d.len() == 0 {
        Seq::empty()
    } else if d.last().0 == name {
        without_name(d.drop_last(), name)
    } else {
        without_name(d.drop_last(), name).push(d.last())
    }
}

/// The declarations after one was set; an empty value removes it.
pub open spec fn restyled(d: Seq<Pair>, name: Seq<char>, value: Option<Seq<char>>) -> Seq<Pair> {
    let rest = without_name(d, name);
    match value {
        Some(v) => if v.len() > 0 { rest.push((name, v)) } else { rest },
        None => rest,
    }
}

/// Declarations as text.
pub open spec fn style_text(d: Seq<Pair>) -> Seq<char>
    decreases d.len(),
{
    if d.len() == 0 {
        Seq::empty()
    } else {
        style_text(d.drop_last()) + (if d.len() > 1 { "; "@ } else { Seq::<char>::empty() }) + d.last().0 + ": "@ + d.last().1
    }
}

pub open spec fn opt_chars(v: Option<Vec<char>>) -> Option<Seq<char>> {
    match v {
        Some(t) => Some(t@),
        None => None,
    }
}

/// A node after a script wrote to it; nothing if it cannot. `fragment` is
/// the value as parsed HTML, `decls` are the declarations of the node's
/// style, and `fresh` is the id for a new node.
pub open spec fn changed(
    t: Tree,
    what: i32,
    name: Seq<char>,
    value: Option<Seq<char>>,
    fragment: Seq<Tree>,
    decls: Seq<Pair>,
    fresh: u32,
) -> Option<Tree> {
    let v = or_empty(value);
    if what == W_HTML {
        Some(Tree { children: fragment, ..t })
    } else {
        match t.kind {
            KindState::Text(_) => if what == W_TEXT {
                Some(Tree { kind: KindState::Text(v), ..t })
            } else {
                None
            },
            KindState::Element { tag, attrs } => if what == W_TEXT {
                Some(
                    Tree {
                        children: seq![Tree { id: fresh, kind: KindState::Text(v), children: Seq::empty() }],
                        ..t
                    },
                )
            } else {
                let next = if what == W_ATTR {
                    Some(put(attrs, name, v))
                } else if what == W_VALUE {
                    Some(put(attrs, "value"@, v))
                } else if what == W_RMATTR {
                    Some(del(attrs, name))
                } else if what == W_STYLE {
                    Some(put(attrs, "style"@, style_text(restyled(decls, name, value))))
                } else {
                    None
                };
                match next {
                    Some(a) => Some(Tree { kind: KindState::Element { tag, attrs: a }, ..t }),
                    None => None,
                }
            },
        }
    }
}

/// Whether a script can write this to a node.
pub open spec fn writable(t: Tree, what: i32) -> bool {
    what == W_HTML || what == W_TEXT || (t.kind is Element && (what == W_ATTR || what == W_VALUE || what == W_RMATTR || what
        == W_STYLE))
}

/// The style of a node after a declaration was set.
fn restyle(decls: &Vec<Row>, name: &[char], value: &Option<Vec<char>>) -> (r: Vec<char>)
    ensures
        r@ == style_text(restyled(row_views(decls@), name@, opt_chars(*value))),
{
    let mut out: Vec<char> = Vec::new();
    let n: usize = decls.len();
    let ghost all = row_views(decls@);
    let ghost mut kept: Seq<Pair> = Seq::empty();
    let mut some: bool = false;
    let mut i: usize = 0;
    proof {
        assert(all.take(0) =~= Seq::<Pair>::empty());
    }
    while i < n
        invariant
            i <= n,
            n == decls@.len(),
            all == row_views(decls@),
            kept == without_name(all.take(i as int), name@),
            out@ == style_text(kept),
            some == (kept.len() > 0),
        decreases n - i,
    {
        proof {
            assert(all.take(i + 1).drop_last() =~= all.take(i as int));
            assert(all.take(i + 1).last() == all[i as int]);
        }
        if !same(&decls[i].key, name) {
            let ghost o = out@;
            if some {
                push_str(&mut out, "; ");
            }
            push_all(&mut out, &decls[i].key);
            push_str(&mut out, ": ");
            push_all(&mut out, &decls[i].value);
            proof {
                let next = kept.push(all[i as int]);
                assert(next.drop_last() =~= kept);
                assert(out@ =~= o + (if next.len() > 1 { "; "@ } else { Seq::<char>::empty() }) + all[i as int].0 + ": "@
                    + all[i as int].1);
                kept = next;
            }
            some = true;
        }
        i += 1;
    }
    proof {
        assert(all.take(n as int) =~= all);
    }
    if let Some(v) = value {
        if v.len() > 0 {
            let ghost o = out@;
            if some {
                push_str(&mut out, "; ");
            }
            push_all(&mut out, name);
            push_str(&mut out, ": ");
            push_all(&mut out, v);
            proof {
                let next = kept.push((name@, v@));
                assert(next.drop_last() =~= kept);
                assert(out@ =~= o + (if next.len() > 1 { "; "@ } else { Seq::<char>::empty() }) + name@ + ": "@ + v@);
            }
        }
    }
    out
}

fn given(value: Option<Vec<char>>) -> (r: Vec<char>)
    ensures
        r@ == or_empty(opt_chars(value)),
{
    match value {
        Some(v) => v,
        None => Vec::new(),
    }
}

impl Node {
    fn change(
        &mut self,
        what: i32,
        name: Vec<char>,
        value: Option<Vec<char>>,
        fragment: Vec<Node>,
        decls: &Vec<Row>,
        fresh: u32,
    )
        requires
            writable(old(self)@, what),
        ensures
            changed(old(self)@, what, name@, opt_chars(value), trees(fragment@), row_views(decls@), fresh) == Some(
                final(self)@,
            ),
    {
        if what == W_HTML {
            self.children = fragment;
            return;
        }
        let style: Vec<char> = if what == W_STYLE { restyle(decls, &name, &value) } else { Vec::new() };
        let v: Vec<char> = given(value);
        let is_text: bool = match &self.kind {
            Kind::Text(_) => true,
            Kind::Element { .. } => false,
        };
        if what == W_TEXT {
            if is_text {
                self.kind = Kind::Text(v);
            } else {
                let ghost tv = v@;
                let n: Node = Node { id: fresh, kind: Kind::Text(v), children: Vec::new() };
                let mut kids: Vec<Node> = Vec::new();
                proof {
                    lemma_trees(n.children@);
                    assert(n@ =~= (Tree { id: fresh, kind: KindState::Text(tv), children: Seq::empty() }));
                }
                let ghost nv = n@;
                kids.push(n);
                proof {
                    lemma_trees(kids@);
                    assert(trees(kids@) =~= seq![nv]);
                }
                self.children = kids;
            }
            return;
        }
        if let Kind::Element { tag: _, attrs } = &mut self.kind {
            if what == W_ATTR {
                attrs.put(name, v);
            } else if what == W_VALUE {
                attrs.put(to_chars("value"), v);
            } else if what == W_RMATTR {
                attrs.del(&name);
            } else {
                attrs.put(to_chars("style"), style);
            }
        }
    }

    fn can_change(&self, what: i32) -> (r: bool)
        ensures
            r == writable(self@, what),
    {
        if what == W_HTML || what == W_TEXT {
            return true;
        }
        match &self.kind {
            Kind::Element { .. } => what == W_ATTR || what == W_VALUE || what == W_RMATTR || what == W_STYLE,
            Kind::Text(_) => false,
        }
    }
}

impl HostState {
    /// The host after a script wrote to a node.
    pub open spec fn written(
        self,
        id: u32,
        what: i32,
        name: Seq<char>,
        value: Option<Seq<char>>,
        fragment: Seq<Tree>,
        decls: Seq<Pair>,
        fresh: u32,
    ) -> HostState {
        match self.node(id) {
            Some(t) => match changed(t, what, name, value, fragment, decls, fresh) {
                Some(m) => self.with_node(id, m).touched(self.in_doc(id)),
                None => self,
            },
            None => self,
        }
    }
}

impl Host {
    /// Write to a node.
    pub fn rs_set(
        &mut self,
        id: u32,
        what: i32,
        name: Vec<char>,
        value: Option<Vec<char>>,
        fragment: Vec<Node>,
        decls: &Vec<Row>,
        fresh: u32,
    )
        ensures
            final(self)@ == old(self)@.written(
                id,
                what,
                name@,
                opt_chars(value),
                trees(fragment@),
                row_views(decls@),
                fresh,
            ),
    {
        let in_doc: bool = self.in_doc(id);
        let can: bool = match self.node(id) {
            Some(n) => n.can_change(what),
            None => false,
        };
        if !can {
            return;
        }
        if let Some(n) = self.node_mut(id) {
            n.change(what, name, value, fragment, decls, fresh);
        }
        if in_doc {
            self.dirty = true;
        }
    }
}

// ---------------------------------------------------------------------
// Laws
// ---------------------------------------------------------------------

/// An attribute that a script sets on an element it reads back.
pub proof fn lemma_attr_back(t: Tree, name: Seq<char>, value: Seq<char>, fresh: u32)
    requires
        t.kind is Element,
        super::table::in_order(t.kind->attrs),
        name.len() > 0,
        name != "\0names"@,
    ensures
        ({
            let m = changed(t, W_ATTR, name, Some(value), Seq::empty(), Seq::empty(), fresh)->0;
            shown(m, W_ATTR, name, Seq::empty(), Seq::empty()) == Some(value)
        }),
{
    super::table::lemma_put_get(t.kind->attrs, name, value, name);
}

/// A text that a script sets it reads back.
pub proof fn lemma_text_back(t: Tree, value: Seq<char>, fresh: u32)
    ensures
        ({
            let m = changed(t, W_TEXT, Seq::empty(), Some(value), Seq::empty(), Seq::empty(), fresh)->0;
            shown(m, W_TEXT, Seq::empty(), Seq::empty(), Seq::empty()) == Some(value)
        }),
{
    let m = changed(t, W_TEXT, Seq::empty(), Some(value), Seq::empty(), Seq::empty(), fresh)->0;
    if t.kind is Element {
        let kid = Tree { id: fresh, kind: KindState::Text(value), children: Seq::empty() };
        assert(m.children =~= seq![kid]);
        assert(m.children.drop_last() =~= Seq::<Tree>::empty());
        reveal_with_fuel(super::dom::all_text, 2);
        assert(kid.text() == value);
        assert(super::dom::all_text(m.children) =~= value);
    }
}

/// A declaration that a script sets it reads back, and the others are as
/// they were; without a value, or with an empty one, it is gone.
pub proof fn lemma_style_back(d: Seq<Pair>, name: Seq<char>, value: Seq<char>, other: Seq<char>)
    ensures
        declared(restyled(d, name, Some(value)), name) == value,
        declared(restyled(d, name, None), name) == Seq::<char>::empty(),
        other != name ==> declared(restyled(d, name, Some(value)), other) == declared(d, other),
        other != name ==> declared(restyled(d, name, None), other) == declared(d, other),
{
    let rest = without_name(d, name);
    lemma_without_name(d, name, name);
    lemma_without_name(d, name, other);
    if value.len() > 0 {
        assert(rest.push((name, value)).drop_last() =~= rest);
    } else {
        assert(value =~= Seq::<char>::empty());
    }
}

proof fn lemma_without_name(d: Seq<Pair>, name: Seq<char>, other: Seq<char>)
    ensures
        declared(without_name(d, name), name) == Seq::<char>::empty(),
        other != name ==> declared(without_name(d, name), other) == declared(d, other),
    decreases d.len(),
{
    if d.len() > 0 {
        lemma_without_name(d.drop_last(), name, other);
        let w = without_name(d.drop_last(), name);
        if d.last().0 != name {
            assert(w.push(d.last()).drop_last() =~= w);
        }
    }
}

} // verus!
