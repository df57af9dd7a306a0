//! What scripts ask of the browser.

use super::dom::{lemma_trees, lemma_trees_insert, lemma_trees_remove, trees, Kind, KindState, Node, Tree};
use super::host::{request_views, row_views, Host, HostState, Request, RequestState, CONSOLE_LIMIT, DOCUMENT_ID};
use super::table::{get, named, Pair, Row, Table};
use crate::arith::{max, min};
use crate::boot::before_zero;
use crate::gui::browser::typed::{contains_text, has_text};
use crate::text::{int_text, is_str, lower_all, lowered, parse_uint, parsed, push_int, to_chars, utf8_text};
use vstd::prelude::*;
use vstd::utf8::{decode_utf8, valid_utf8};

verus! {

// ---------------------------------------------------------------------
// Special nodes
// ---------------------------------------------------------------------

/// Those of these trees that are the head of a page, or those that are not.
pub open spec fn heads(s: Seq<Tree>, head: bool) -> Seq<Tree>
    decreases s.len(),
{
    if s.len() == 0 {
        Seq::empty()
    } else if s.last().is_element("head"@) == head {
        heads(s.drop_last(), head).push(s.last())
    } else {
        heads(s.drop_last(), head)
    }
}

pub open spec fn element(tag: Seq<char>, children: Seq<Tree>, fresh: u32) -> Tree {
    Tree { id: fresh, kind: KindState::Element { tag, attrs: Seq::empty() }, children }
}

/// The root (0), the head (1), the body (2) or the document. Pages without
/// a head or a body get one: what is not the head is in the body.
pub open spec fn special(h: HostState, which: i32, fresh: u32) -> (HostState, u32) {
    let tag = if which == 1 { "head"@ } else { "body"@ };
    if which == 0 {
        (h, h.doc.id)
    } else if which == 1 || which == 2 {
        match h.doc.tagged(tag) {
            Some(id) => (h, id),
            None => {
                let kids = h.doc.children;
                let next = if which == 2 {
                    heads(kids, true).push(element(tag, heads(kids, false), fresh))
                } else {
                    kids.insert(0, element(tag, Seq::empty(), fresh))
                };
                (HostState { doc: Tree { children: next, ..h.doc }, ..h }, fresh)
            },
        }
    } else {
        (h, DOCUMENT_ID)
    }
}

fn new_element(tag: Vec<char>, children: Vec<Node>, fresh: u32) -> (r: Node)
    ensures
        r@ == element(tag@, trees(children@), fresh),
{
    Node { id: fresh, kind: Kind::Element { tag, attrs: Table::new() }, children }
}

/// Nodes that are the head of a page, and the others, in their order.
fn split_heads(kids: Vec<Node>) -> (r: (Vec<Node>, Vec<Node>))
    ensures
        trees(r.0@) == heads(trees(kids@), true),
        trees(r.1@) == heads(trees(kids@), false),
{
    let mut left: Vec<Node> = kids;
    let mut a: Vec<Node> = Vec::new();
    let mut b: Vec<Node> = Vec::new();
    let head: Vec<char> = to_chars("head");
    let ghost all = trees(left@);
    let ghost mut i: int = 0;
    proof {
        lemma_trees(left@);
        lemma_trees(a@);
        lemma_trees(b@);
        assert(all.skip(0) =~= all);
        assert(all.take(0) =~= Seq::<Tree>::empty());
        assert(trees(a@) =~= Seq::<Tree>::empty());
        assert(trees(b@) =~= Seq::<Tree>::empty());
    }
    while left.len() > 0
        invariant
            head@ == "head"@,
            0 <= i <= all.len(),
            trees(left@) == all.skip(i),
            left@.len() == all.len() - i,
            trees(a@) == heads(all.take(i), true),
            trees(b@) == heads(all.take(i), false),
        decreases left@.len(),
    {
        let ghost l0 = left@;
        let ghost a0 = a@;
        let ghost b0 = b@;
        let n: Node = left.remove(0);
        proof {
            lemma_trees(l0);
            lemma_trees_remove(l0, 0);
            assert(n@ == all.skip(i)[0]);
            assert(all.skip(i).remove(0) =~= all.skip(i + 1));
            assert(all.take(i + 1).drop_last() =~= all.take(i));
            assert(all.take(i + 1).last() == n@);
            lemma_trees(a0);
            lemma_trees(b0);
            lemma_trees_insert(a0, a0.len() as int, n);
            lemma_trees_insert(b0, b0.len() as int, n);
            assert(a0.insert(a0.len() as int, n) =~= a0.push(n));
            assert(b0.insert(b0.len() as int, n) =~= b0.push(n));
            assert(trees(a0).insert(a0.len() as int, n@) =~= trees(a0).push(n@));
            assert(trees(b0).insert(b0.len() as int, n@) =~= trees(b0).push(n@));
        }
        if n.is_tag(&head) {
            a.push(n);
        } else {
            b.push(n);
        }
        proof {
            i = i + 1;
        }
    }
    proof {
        assert(all.take(i) =~= all);
    }
    (a, b)
}

impl Host {
    /// The root, the head, the body or the document.
    pub fn rs_special(&mut self, which: i32, fresh: u32) -> (r: u32)
        ensures
            (final(self)@, r) == special(old(self)@, which, fresh),
    {
        if which == 0 {
            return self.doc.id;
        }
        if which != 1 && which != 2 {
            return DOCUMENT_ID;
        }
        let tag: Vec<char> = if which == 1 { to_chars("head") } else { to_chars("body") };
        if let Some(id) = self.doc.find_tag(&tag) {
            return id;
        }
        let mut kids: Vec<Node> = Vec::new();
        std::mem::swap(&mut kids, &mut self.doc.children);
        if which == 2 {
            let (mut top, rest) = split_heads(kids);
            let body: Node = new_element(tag, rest, fresh);
            proof {
                lemma_trees(top@);
                lemma_trees_insert(top@, top@.len() as int, body);
                assert(top@.insert(top@.len() as int, body) =~= top@.push(body));
                assert(trees(top@).insert(top@.len() as int, body@) =~= trees(top@).push(body@));
            }
            top.push(body);
            self.doc.children = top;
        } else {
            let head: Node = new_element(tag, Vec::new(), fresh);
            proof {
                lemma_trees(Seq::<Node>::empty());
                assert(trees(Seq::<Node>::empty()) =~= Seq::<Tree>::empty());
                lemma_trees_insert(kids@, 0, head);
            }
            kids.insert(0, head);
            self.doc.children = kids;
        }
        fresh
    }
}

// ---------------------------------------------------------------------
// Requests
// ---------------------------------------------------------------------

/// The messages after one more; the oldest goes when there are too many.
pub open spec fn logged(c: Seq<Pair>, m: Pair) -> Seq<Pair> {
    (if c.len() > CONSOLE_LIMIT { c.remove(0) } else { c }).push(m)
}

impl HostState {
    pub open spec fn asked(self, r: RequestState) -> HostState {
        HostState { requests: self.requests.push(r), ..self }
    }
}

/// The host after a call: a message (0), going to a page (1), a notice (2),
/// a title (3), scrolling (7), drawing (9) or going back (10). `target` is
/// the address `a` as seen from the page, and `y` the number that it is.
/// Storage and cookies (4, 5, 6, 8) are kept elsewhere.
pub open spec fn called(h: HostState, op: i32, a: Seq<char>, b: Seq<char>, target: Seq<char>, y: i32) -> HostState {
    if op == 0 {
        HostState { console: logged(h.console, (b, a)), ..h }
    } else if op == 1 {
        h.asked(RequestState::Navigate(target))
    } else if op == 2 {
        h.asked(RequestState::Alert(a))
    } else if op == 3 {
        HostState { title: a, ..h }
    } else if op == 7 {
        h.asked(RequestState::Scroll(y))
    } else if op == 9 {
        h.asked(
            RequestState::Canvas(
                match parsed(a, u32::MAX as int) {
                    Some(n) => n as u32,
                    None => 0,
                },
                b,
            ),
        )
    } else if op == 10 {
        h.asked(RequestState::Back)
    } else {
        h
    }
}

impl Host {
    fn ask(&mut self, r: Request)
        ensures
            final(self)@ == old(self)@.asked(r@),
    {
        let ghost q0 = self.requests@;
        self.requests.push(r);
        proof {
            assert(request_views(self.requests@) =~= request_views(q0).push(r@));
        }
    }

    /// A call of a script.
    pub fn rs_call(&mut self, op: i32, a: Vec<char>, b: Vec<char>, target: Vec<char>, y: i32)
        ensures
            final(self)@ == called(old(self)@, op, a@, b@, target@, y),
    {
        if op == 0 {
            let ghost c0 = self.console@;
            if self.console.len() > CONSOLE_LIMIT {
                self.console.remove(0);
                proof {
                    assert(row_views(self.console@) =~= row_views(c0).remove(0));
                }
            }
            let ghost c1 = self.console@;
            let ghost row = (b@, a@);
            self.console.push(Row { key: b, value: a });
            proof {
                assert(row_views(self.console@) =~= row_views(c1).push(row));
            }
        } else if op == 1 {
            self.ask(Request::Navigate(target));
        } else if op == 2 {
            self.ask(Request::Alert(a));
        } else if op == 3 {
            self.title = a;
        } else if op == 7 {
            self.ask(Request::Scroll(y));
        } else if op == 9 {
            let id: u32 = match parse_uint(&a, u32::MAX as u64) {
                Some(n) => n as u32,
                None => 0,
            };
            self.ask(Request::Canvas(id, b));
        } else if op == 10 {
            self.ask(Request::Back);
        }
    }
}

/// The size of the window, as scripts read it.
pub fn viewport_text(w: i32, h: i32) -> (r: Vec<char>)
    ensures
        r@ == int_text(w as int).push(',') + int_text(h as int),
{
    let mut out: Vec<char> = Vec::new();
    push_int(&mut out, w as i64);
    out.push(',');
    push_int(&mut out, h as i64);
    proof {
        assert(out@ =~= int_text(w as int).push(',') + int_text(h as int));
    }
    out
}

/// The messages that are kept are never too many, and the newest is the
/// last.
pub proof fn lemma_console_limit(c: Seq<Pair>, m: Pair)
    requires
        c.len() <= CONSOLE_LIMIT + 1,
    ensures
        logged(c, m).len() <= CONSOLE_LIMIT + 1,
        logged(c, m).last() == m,
{
}

// ---------------------------------------------------------------------
// Boxes
// ---------------------------------------------------------------------

/// A rectangle on the page that belongs to a node.
#[derive(Clone, Copy, Debug, PartialEq, Eq, Structural)]
pub struct NodeBox {
    pub id: u32,
    pub x: i32,
    pub y: i32,
    pub w: i32,
    pub h: i32,
}

impl NodeBox {
    /// Its edges leave room for sums.
    pub open spec fn small(self) -> bool {
        &&& -0x2000_0000 <= self.x <= 0x2000_0000
        &&& -0x2000_0000 <= self.y <= 0x2000_0000
        &&& 0 <= self.w <= 0x1000_0000
        &&& 0 <= self.h <= 0x1000_0000
    }
}

/// The edges around the boxes of a node: left, top, right, bottom.
pub open spec fn around(b: Seq<NodeBox>, id: u32) -> Option<(int, int, int, int)>
    decreases b.len(),
{
    if b.len() == 0 {
        None
    } else {
        let rest = around(b.drop_last(), id);
        let n = b.last();
        if n.id != id {
            rest
        } else {
            match rest {
                None => Some((n.x as int, n.y as int, n.x + n.w, n.y + n.h)),
                Some((x0, y0, x1, y1)) => Some(
                    (min(x0, n.x as int), min(y0, n.y as int), max(x1, n.x + n.w), max(y1, n.y + n.h)),
                ),
            }
        }
    }
}

/// Union of a node's boxes: place and size; all zero if it has none.
pub fn rs_box(boxes: &[NodeBox], id: u32) -> (r: (i32, i32, i32, i32))
    requires
        forall|i: int| 0 <= i < boxes@.len() ==> (#[trigger] boxes@[i]).small(),
    ensures
        match around(boxes@, id) {
            None => r == (0i32, 0i32, 0i32, 0i32),
            Some((x0, y0, x1, y1)) => r.0 == x0 && r.1 == y0 && r.2 == x1 - x0 && r.3 == y1 - y0,
        },
{
    let (mut x0, mut y0, mut x1, mut y1): (i32, i32, i32, i32) = (0, 0, 0, 0);
    let mut found: bool = false;
    let n: usize = boxes.len();
    let mut i: usize = 0;
    while i < n
        invariant
            n == boxes@.len(),
            i <= n,
            forall|k: int| 0 <= k < n ==> (#[trigger] boxes@[k]).small(),
            -0x2000_0000 <= x0 <= 0x2000_0000,
            -0x2000_0000 <= y0 <= 0x2000_0000,
            -0x2000_0000 <= x1 <= 0x3000_0000,
            -0x2000_0000 <= y1 <= 0x3000_0000,
            match around(boxes@.take(i as int), id) {
                None => !found && x0 == 0 && y0 == 0 && x1 == 0 && y1 == 0,
                Some((a, b, c, d)) => found && x0 == a && y0 == b && x1 == c && y1 == d,
            },
        decreases n - i,
    {
        let b: NodeBox = boxes[i];
        proof {
            assert(boxes@[i as int].small());
            assert(boxes@.take(i + 1).drop_last() =~= boxes@.take(i as int));
            assert(boxes@.take(i + 1).last() == b);
        }
        if b.id == id {
            if !found {
                x0 = b.x;
                y0 = b.y;
                x1 = b.x + b.w;
                y1 = b.y + b.h;
                found = true;
            } else {
                x0 = if b.x < x0 { b.x } else { x0 };
                y0 = if b.y < y0 { b.y } else { y0 };
                x1 = if b.x + b.w > x1 { b.x + b.w } else { x1 };
                y1 = if b.y + b.h > y1 { b.y + b.h } else { y1 };
            }
        }
        i += 1;
    }
    proof {
        assert(boxes@.take(n as int) =~= boxes@);
    }
    (x0, y0, x1 - x0, y1 - y0)
}

// ---------------------------------------------------------------------
// Scripts of a page
// ---------------------------------------------------------------------

/// Whether an element is a script that can be run: its type says so, or it
/// has none.
pub open spec fn runs(tag: Seq<char>, attrs: Seq<Pair>) -> bool {
    let ty = match get(attrs, "type"@) {
        Some(t) => lower_all(t),
        None => Seq::empty(),
    };
    &&& tag == "script"@
    &&& ty.len() == 0 || has_text(ty, "javascript"@) || ty == "text/ecmascript"@
    &&& !named(attrs, "nomodule"@)
}

/// The scripts of a tree, in order: where each is, or else its text.
pub open spec fn scripts_of(t: Tree) -> Seq<(Option<Seq<char>>, Seq<char>)>
    decreases t,
{
    own_script(t) + scripts_in(t.children)
}

pub open spec fn own_script(t: Tree) -> Seq<(Option<Seq<char>>, Seq<char>)> {
    match t.kind {
        KindState::Element { tag, attrs } => if runs(tag, attrs) {
            match get(attrs, "src"@) {
                Some(s) => seq![(Some(s), Seq::<char>::empty())],
                None => seq![(None, t.text())],
            }
        } else {
            Seq::empty()
        },
        KindState::Text(_) => Seq::empty(),
    }
}

pub open spec fn scripts_in(s: Seq<Tree>) -> Seq<(Option<Seq<char>>, Seq<char>)>
    decreases s,
{
    if s.len() == 0 { Seq::empty() } else { scripts_in(s.drop_last()) + scripts_of(s.last()) }
}

/// A script of a page.
pub struct Script {
    pub src: Option<Vec<char>>,
    pub code: Vec<char>,
}

pub open spec fn script_views(v: Seq<Script>) -> Seq<(Option<Seq<char>>, Seq<char>)> {
    Seq::new(
        v.len(),
        |i: int|
            (
                match v[i].src {
                    Some(s) => Some(s@),
                    None => None,
                },
                v[i].code@,
            ),
    )
}

fn is_script(tag: &[char], attrs: &Table) -> (r: bool)
    ensures
        r == runs(tag@, attrs@),
{
    let ty: Vec<char> = match attrs.get(&to_chars("type")) {
        Some(t) => lowered(&t),
        None => Vec::new(),
    };
    is_str(tag, "script") && (ty.len() == 0 || contains_text(&ty, &to_chars("javascript")) || is_str(&ty, "text/ecmascript"))
        && !attrs.has(&to_chars("nomodule"))
}

fn add_scripts(n: &Node, out: &mut Vec<Script>)
    ensures
        script_views(final(out)@) == script_views(old(out)@) + scripts_of(n@),
    decreases *n,
{
    let ghost o = script_views(out@);
    if let Kind::Element { tag, attrs } = &n.kind {
        if is_script(tag, attrs) {
            match attrs.get(&to_chars("src")) {
                Some(s) => {
                    out.push(Script { src: Some(s), code: Vec::new() });
                },
                None => {
                    out.push(Script { src: None, code: n.text_content() });
                },
            }
        }
    }
    proof {
        assert(script_views(out@) =~= o + own_script(n@));
        lemma_trees(n.children@);
    }
    let len: usize = n.children.len();
    let mut i: usize = 0;
    proof {
        assert(n@.children.take(0) =~= Seq::<Tree>::empty());
        assert(script_views(out@) =~= o + own_script(n@) + scripts_in(n@.children.take(0)));
    }
    while i < len
        invariant
            len == n.children@.len(),
            i <= len,
            n@.children.len() == len,
            forall|k: int| 0 <= k < len ==> #[trigger] n@.children[k] == n.children@[k]@,
            script_views(out@) == o + own_script(n@) + scripts_in(n@.children.take(i as int)),
        decreases len - i,
    {
        add_scripts(&n.children[i], out);
        i += 1;
        proof {
            let s = n@.children.take(i as int);
            assert(s.drop_last() =~= n@.children.take(i - 1));
            assert(s.last() == n.children@[i - 1]@);
            assert(script_views(out@) =~= o + own_script(n@) + scripts_in(s));
        }
    }
    proof {
        assert(n@.children.take(len as int) =~= n@.children);
        assert(script_views(out@) =~= o + scripts_of(n@));
    }
}

/// Scripts of a document, in order.
pub fn scripts(doc: &Node) -> (r: Vec<Script>)
    ensures
        script_views(r@) == scripts_of(doc@),
{
    let mut out: Vec<Script> = Vec::new();
    add_scripts(doc, &mut out);
    proof {
        assert(script_views(Seq::<Script>::empty()) + scripts_of(doc@) =~= scripts_of(doc@));
    }
    out
}

// ---------------------------------------------------------------------
// Texts from C
// ---------------------------------------------------------------------

/// Bytes as text; empty if they are no valid text.
pub open spec fn c_text(b: Seq<u8>) -> Seq<char> {
    if valid_utf8(b) { decode_utf8(b) } else { Seq::empty() }
}

/// Bytes as text.
pub fn bytes(b: &[u8]) -> (r: Vec<char>)
    ensures
        r@ == c_text(b@),
{
    match utf8_text(b) {
        Some(s) => to_chars(s.as_str()),
        None => Vec::new(),
    }
}

/// The text that a zero ends.
pub fn cstr(b: &[u8]) -> (r: Vec<char>)
    ensures
        r@ == c_text(before_zero(b@)),
{
    let mut v: Vec<u8> = Vec::new();
    let n: usize = b.len();
    let mut i: usize = 0;
    proof {
        assert(b@.skip(0) =~= b@);
        assert(v@ + before_zero(b@) =~= before_zero(b@));
    }
    while i < n && b[i] != 0
        invariant
            n == b@.len(),
            i <= n,
            before_zero(b@) == v@ + before_zero(b@.skip(i as int)),
        decreases n - i,
    {
        proof {
            assert(b@.skip(i as int).skip(1) =~= b@.skip(i + 1));
            assert(v@ + before_zero(b@.skip(i as int)) =~= v@.push(b@[i as int]) + before_zero(b@.skip(i + 1)));
        }
        v.push(b[i]);
        i += 1;
    }
    proof {
        assert(v@ + Seq::<u8>::empty() =~= v@);
    }
    bytes(&v)
}

/// Messages are kept in the order in which they came; only the oldest goes,
/// and only when there are too many.
pub proof fn lemma_messages_in_order(c: Seq<Pair>, m: Pair)
    ensures
        c.len() <= CONSOLE_LIMIT ==> logged(c, m) == c.push(m),
        c.len() > CONSOLE_LIMIT ==> logged(c, m) == c.skip(1).push(m),
{
    if c.len() > CONSOLE_LIMIT {
        assert(c.remove(0) =~= c.skip(1));
    }
}

/// The rectangle around a node's boxes holds each of them, and each of its
/// edges is the edge of one. A node without boxes has none.
pub proof fn lemma_around_is_tight(b: Seq<NodeBox>, id: u32)
    ensures
        around(b, id) is None <==> forall|i: int| 0 <= i < b.len() ==> (#[trigger] b[i]).id != id,
        around(b, id) matches Some((x0, y0, x1, y1)) ==> {
            &&& forall|i: int|
                0 <= i < b.len() && (#[trigger] b[i]).id == id ==> x0 <= b[i].x && y0 <= b[i].y && b[i].x + b[i].w <= x1
                    && b[i].y + b[i].h <= y1
            &&& exists|i: int| 0 <= i < b.len() && (#[trigger] b[i]).id == id && b[i].x == x0
            &&& exists|i: int| 0 <= i < b.len() && (#[trigger] b[i]).id == id && b[i].y == y0
            &&& exists|i: int| 0 <= i < b.len() && (#[trigger] b[i]).id == id && b[i].x + b[i].w == x1
            &&& exists|i: int| 0 <= i < b.len() && (#[trigger] b[i]).id == id && b[i].y + b[i].h == y1
        },
    decreases b.len(),
{
    if b.len() > 0 {
        let d = b.drop_last();
        lemma_around_is_tight(d, id);
        let n = b.len() - 1;
        assert(b[n] == b.last());
        assert forall|i: int| 0 <= i < d.len() implies #[trigger] d[i] == b[i] by {}
        if around(d, id) is None {
            if b.last().id != id {
                assert forall|i: int| 0 <= i < b.len() implies (#[trigger] b[i]).id != id by {
                    if i < n {
                        assert(d[i].id != id);
                    }
                }
            } else {
                assert forall|i: int| 0 <= i < b.len() && (#[trigger] b[i]).id == id implies i == n by {
                    if i < n {
                        assert(d[i].id != id);
                    }
                }
            }
        } else {
            let (x0, y0, x1, y1) = around(d, id)->0;
            let i0 = choose|i: int| 0 <= i < d.len() && (#[trigger] d[i]).id == id && d[i].x == x0;
            let i1 = choose|i: int| 0 <= i < d.len() && (#[trigger] d[i]).id == id && d[i].y == y0;
            let i2 = choose|i: int| 0 <= i < d.len() && (#[trigger] d[i]).id == id && d[i].x + d[i].w == x1;
            let i3 = choose|i: int| 0 <= i < d.len() && (#[trigger] d[i]).id == id && d[i].y + d[i].h == y1;
            assert(b[i0] == d[i0] && b[i1] == d[i1] && b[i2] == d[i2] && b[i3] == d[i3]);
            assert forall|i: int| 0 <= i < b.len() && (#[trigger] b[i]).id == id && i < n implies x0 <= b[i].x && y0
                <= b[i].y && b[i].x + b[i].w <= x1 && b[i].y + b[i].h <= y1 by {
                assert(d[i].id == id);
            }
        }
    }
}

} // verus!
