//! The directory tree that `tree` draws.

use super::help::{c_dir, c_off};
use super::report::{lemma_no_occurrence, lemma_occurrences_added, occurrences};
use crate::arith::min;
use crate::text::{copy, dec, push_all, push_dec, push_str, to_chars};
use vstd::prelude::*;

verus! {

/// A file or folder with what it holds; nothing where it could not be
/// read.
pub struct Node {
    pub name: Vec<char>,
    pub is_dir: bool,
    pub children: Option<Vec<Node>>,
}

/// How deep the tree is followed.
pub const MAX_DEPTH: u32 = 16;

pub open spec fn branch(last: bool) -> Seq<char> {
    if last { "\u{2514}\u{2500}\u{2500} "@ } else { "\u{251c}\u{2500}\u{2500} "@ }
}

pub open spec fn stem(last: bool) -> Seq<char> {
    if last { "    "@ } else { "\u{2502}   "@ }
}

/// The lines of all nodes and of what they hold.
pub open spec fn tree_of(nodes: Vec<Node>, prefix: Seq<char>, depth: int) -> Seq<char>
    decreases nodes, nodes@.len() + 1,
{
    if depth > MAX_DEPTH { Seq::empty() } else { tree_upto(nodes, nodes@.len() as int, prefix, depth) }
}

/// The lines of the first `k` nodes.
pub open spec fn tree_upto(nodes: Vec<Node>, k: int, prefix: Seq<char>, depth: int) -> Seq<char>
    decreases nodes, k,
{
    if k <= 0 || k > nodes@.len() {
        Seq::empty()
    } else {
        let n = nodes@[k - 1];
        let last = k == nodes@.len();
        let line = if n.is_dir {
            prefix + branch(last) + c_dir() + n.name@ + c_off() + "\n"@
        } else {
            prefix + branch(last) + n.name@ + "\n"@
        };
        let below = match n.children {
            Some(c) => if n.is_dir { tree_of(c, prefix + stem(last), depth + 1) } else { Seq::empty() },
            None => Seq::empty(),
        };
        tree_upto(nodes, k - 1, prefix, depth) + line + below
    }
}

/// How many folders, or files, the tree shows.
pub open spec fn count_of(nodes: Vec<Node>, dirs: bool, depth: int) -> int
    decreases nodes, nodes@.len() + 1,
{
    if depth > MAX_DEPTH { 0 } else { count_upto(nodes, nodes@.len() as int, dirs, depth) }
}

pub open spec fn count_upto(nodes: Vec<Node>, k: int, dirs: bool, depth: int) -> int
    decreases nodes, k,
{
    if k <= 0 || k > nodes@.len() {
        0
    } else {
        let n = nodes@[k - 1];
        let below = match n.children {
            Some(c) => if n.is_dir { count_of(c, dirs, depth + 1) } else { 0 },
            None => 0,
        };
        count_upto(nodes, k - 1, dirs, depth) + (if n.is_dir == dirs { 1int } else { 0 }) + below
    }
}

/// A count up to the largest number there is.
pub open spec fn capped(n: int) -> int {
    min(n, u64::MAX as int)
}

fn add_one(n: u64) -> (r: u64)
    ensures
        r == capped(n + 1),
{
    if n < u64::MAX { n + 1 } else { n }
}

/// The folders and files shown so far.
pub struct Counts {
    pub dirs: u64,
    pub files: u64,
}

/// Draw what a folder holds.
fn push_tree(nodes: &Vec<Node>, prefix: &[char], out: &mut Vec<char>, counts: &mut Counts, depth: u32)
    requires
        depth <= 17,
    ensures
        final(out)@ == old(out)@ + tree_of(*nodes, prefix@, depth as int),
        final(counts).dirs == capped(old(counts).dirs + count_of(*nodes, true, depth as int)),
        final(counts).files == capped(old(counts).files + count_of(*nodes, false, depth as int)),
        count_of(*nodes, true, depth as int) >= 0,
        count_of(*nodes, false, depth as int) >= 0,
    decreases nodes,
{
    if depth > MAX_DEPTH {
        proof {
            assert(out@ =~= old(out)@ + Seq::<char>::empty());
        }
        return;
    }
    let n: usize = nodes.len();
    let mut i: usize = 0;
    proof {
        assert(out@ =~= old(out)@ + tree_upto(*nodes, 0, prefix@, depth as int));
    }
    while i < n
        invariant
            i <= n == nodes@.len(),
            depth <= MAX_DEPTH,
            out@ == old(out)@ + tree_upto(*nodes, i as int, prefix@, depth as int),
            counts.dirs == capped(old(counts).dirs + count_upto(*nodes, i as int, true, depth as int)),
            counts.files == capped(old(counts).files + count_upto(*nodes, i as int, false, depth as int)),
            count_upto(*nodes, i as int, true, depth as int) >= 0,
            count_upto(*nodes, i as int, false, depth as int) >= 0,
        decreases n - i,
    {
        let e: &Node = &nodes[i];
        let last: bool = i + 1 == n;
        let ghost o0 = out@;
        push_all(out, prefix);
        push_str(out, if last { "\u{2514}\u{2500}\u{2500} " } else { "\u{251c}\u{2500}\u{2500} " });
        if e.is_dir {
            counts.dirs = add_one(counts.dirs);
            push_str(out, "\x1b[94m");
            push_all(out, &e.name);
            push_str(out, "\x1b[0m");
            push_str(out, "\n");
            proof {
                assert(out@ =~= o0 + (prefix@ + branch(last) + c_dir() + e.name@ + c_off() + "\n"@));
            }
            match &e.children {
                Some(c) => {
                    let mut below: Vec<char> = copy(prefix);
                    push_str(&mut below, if last { "    " } else { "\u{2502}   " });
                    proof {
                        assert(below@ =~= prefix@ + stem(last));
                        assert(*e == nodes@[i as int]);
                        assert(decreases_to!(nodes => nodes@));
                        assert(decreases_to!(nodes@ => nodes@[i as int]));
                        assert(decreases_to!(nodes@[i as int] => nodes@[i as int].children));
                        assert(decreases_to!(nodes@[i as int].children => nodes@[i as int].children->0));
                    }
                    push_tree(c, &below, out, counts, depth + 1);
                },
                None => {},
            }
        } else {
            counts.files = add_one(counts.files);
            push_all(out, &e.name);
            push_str(out, "\n");
            proof {
                assert(out@ =~= o0 + (prefix@ + branch(last) + e.name@ + "\n"@));
            }
        }
        i += 1;
        proof {
            assert(out@ =~= old(out)@ + tree_upto(*nodes, i as int, prefix@, depth as int));
        }
    }
}

/// What `tree` prints of a folder and what it holds.
pub fn tree(root: &[char], nodes: &Vec<Node>) -> (r: Vec<char>)
    ensures
        r@ == c_dir() + root@ + c_off() + "\n"@ + tree_of(*nodes, Seq::empty(), 0) + "\n"@ + dec(
            capped(count_of(*nodes, true, 0)) as nat,
        ) + " directories, "@ + dec(capped(count_of(*nodes, false, 0)) as nat) + " files\n"@,
{
    let mut out: Vec<char> = to_chars("\x1b[94m");
    push_all(&mut out, root);
    push_str(&mut out, "\x1b[0m");
    push_str(&mut out, "\n");
    let mut counts: Counts = Counts { dirs: 0, files: 0 };
    let none: Vec<char> = Vec::new();
    proof {
        assert(none@ =~= Seq::<char>::empty());
    }
    push_tree(nodes, &none, &mut out, &mut counts, 0);
    push_str(&mut out, "\n");
    push_dec(&mut out, counts.dirs);
    push_str(&mut out, " directories, ");
    push_dec(&mut out, counts.files);
    push_str(&mut out, " files\n");
    out
}

/// Whether no name of the first `k` nodes, or of what they hold, breaks its
/// line.
pub open spec fn one_line(nodes: Vec<Node>, k: int) -> bool
    decreases nodes, k,
{
    k <= 0 || k > nodes@.len() || {
        let n = nodes@[k - 1];
        &&& one_line(nodes, k - 1)
        &&& !n.name@.contains('\n')
        &&& match n.children {
            Some(c) => one_line(c, c@.len() as int),
            None => true,
        }
    }
}

/// The tree has a line for each folder and for each file that is counted,
/// and no other.
pub proof fn lemma_line_for_each(nodes: Vec<Node>, prefix: Seq<char>, depth: int)
    requires
        one_line(nodes, nodes@.len() as int),
        !prefix.contains('\n'),
    ensures
        occurrences(tree_of(nodes, prefix, depth), '\n') == count_of(nodes, true, depth) + count_of(nodes, false, depth),
    decreases nodes, nodes@.len() + 1,
{
    if depth <= MAX_DEPTH {
        lemma_lines_upto(nodes, nodes@.len() as int, prefix, depth);
    }
}

proof fn lemma_lines_upto(nodes: Vec<Node>, k: int, prefix: Seq<char>, depth: int)
    requires
        one_line(nodes, k),
        !prefix.contains('\n'),
        k <= nodes@.len(),
    ensures
        occurrences(tree_upto(nodes, k, prefix, depth), '\n') == count_upto(nodes, k, true, depth) + count_upto(
            nodes,
            k,
            false,
            depth,
        ),
    decreases nodes, k,
{
    if k > 0 {
        let n = nodes@[k - 1];
        let last = k == nodes@.len();
        lemma_lines_upto(nodes, k - 1, prefix, depth);
        let before = tree_upto(nodes, k - 1, prefix, depth);
        let line = if n.is_dir {
            prefix + branch(last) + c_dir() + n.name@ + c_off() + "\n"@
        } else {
            prefix + branch(last) + n.name@ + "\n"@
        };
        lemma_one_line(n, prefix, last);
        let below = match n.children {
            Some(c) => if n.is_dir { tree_of(c, prefix + stem(last), depth + 1) } else { Seq::empty() },
            None => Seq::empty(),
        };
        lemma_occurrences_added(before + line, below, '\n');
        lemma_occurrences_added(before, line, '\n');
        if n.is_dir {
            if let Some(c) = n.children {
                lemma_stem(prefix, last);
                lemma_line_for_each(c, prefix + stem(last), depth + 1);
            }
        }
    }
}

proof fn lemma_stem(prefix: Seq<char>, last: bool)
    requires
        !prefix.contains('\n'),
    ensures
        !(prefix + stem(last)).contains('\n'),
        !(prefix + branch(last)).contains('\n'),
{
    reveal_strlit("    ");
    reveal_strlit("\u{2502}   ");
    reveal_strlit("\u{2514}\u{2500}\u{2500} ");
    reveal_strlit("\u{251c}\u{2500}\u{2500} ");
    lemma_no_break(prefix, stem(last));
    lemma_no_break(prefix, branch(last));
}

proof fn lemma_no_break(a: Seq<char>, b: Seq<char>)
    requires
        !a.contains('\n'),
        !b.contains('\n'),
    ensures
        !(a + b).contains('\n'),
{
    assert forall|i: int| 0 <= i < (a + b).len() implies (a + b)[i] != '\n' by {
        if i < a.len() {
            assert(a.contains(a[i]));
        } else {
            assert(b.contains(b[i - a.len()]));
        }
    }
}

proof fn lemma_one_line(n: Node, prefix: Seq<char>, last: bool)
    requires
        !prefix.contains('\n'),
        !n.name@.contains('\n'),
    ensures
        occurrences(prefix + branch(last) + c_dir() + n.name@ + c_off() + "\n"@, '\n') == 1,
        occurrences(prefix + branch(last) + n.name@ + "\n"@, '\n') == 1,
{
    reveal_strlit("\n");
    reveal_strlit("\x1b[94m");
    reveal_strlit("\x1b[0m");
    lemma_stem(prefix, last);
    let p = prefix + branch(last);
    lemma_no_break(p, n.name@);
    lemma_no_break(p, c_dir());
    lemma_no_break(p + c_dir(), n.name@);
    lemma_no_break(p + c_dir() + n.name@, c_off());
    lemma_no_occurrence(p + n.name@, '\n');
    lemma_no_occurrence(p + c_dir() + n.name@ + c_off(), '\n');
    let e = "\n"@;
    assert(e.drop_last() =~= Seq::<char>::empty());
    assert(occurrences(e.drop_last(), '\n') == 0);
    assert(e.last() == '\n');
    assert(occurrences(e, '\n') == 1);
    lemma_occurrences_added(p + n.name@, e, '\n');
    lemma_occurrences_added(p + c_dir() + n.name@ + c_off(), e, '\n');
}

} // verus!
