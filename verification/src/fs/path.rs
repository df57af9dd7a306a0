//! Path helpers: resolving, taking apart and putting together.

use crate::text::{
    copy_range, dec, digit, is_str, join as joined, join_with, lemma_join_append, lemma_join_split, lemma_rfind,
    lemma_split_join, lemma_split_nonempty, lemma_split_pieces, lower_all, lowered, pad_left, push_all, push_dec,
    push_dec_zeros, push_str, rfind, rfind_char, split, split_on, starts, to_chars, to_text, trim_end_char, views,
};
use vstd::prelude::*;
use vstd::string::StrSliceExecFns;

verus! {

// ---------------------------------------------------------------------
// Models
// ---------------------------------------------------------------------

/// What the components of a path lead to: empty ones and "." stay where
/// they are, ".." goes up (no further than the root).
pub open spec fn resolve(parts: Seq<Seq<char>>) -> Seq<Seq<char>>
    decreases parts.len(),
{
    if parts.len() == 0 {
        parts
    } else {
        let r = resolve(parts.drop_last());
        let l = parts.last();
        if l == ""@ || l == "."@ {
            r
        } else if l == ".."@ {
            if r.len() > 0 { r.drop_last() } else { r }
        } else {
            r.push(l)
        }
    }
}

/// A component that names a file or folder.
pub open spec fn proper(name: Seq<char>) -> bool {
    name != ""@ && name != "."@ && name != ".."@ && !name.contains('/')
}

/// Components of a resolved path.
pub open spec fn canonical(parts: Seq<Seq<char>>) -> bool {
    forall|i: int| 0 <= i < parts.len() ==> proper(#[trigger] parts[i])
}

/// The absolute path with these components.
pub open spec fn path_of(parts: Seq<Seq<char>>) -> Seq<char> {
    seq!['/'] + joined(parts, '/')
}

/// The path that `path` stands for when it is taken relative to `cwd`.
pub open spec fn full_path(cwd: Seq<char>, path: Seq<char>) -> Seq<char> {
    if path.len() > 0 && path[0] == '/' {
        path
    } else {
        cwd + seq!['/'] + path
    }
}

/// Components of `path`, resolved against `cwd`.
pub open spec fn parts_of(cwd: Seq<char>, path: Seq<char>) -> Seq<Seq<char>> {
    resolve(split(full_path(cwd, path), '/'))
}

/// `path` resolved against `cwd`.
pub open spec fn normalized(cwd: Seq<char>, path: Seq<char>) -> Seq<char> {
    path_of(parts_of(cwd, path))
}

/// All but the last component, where there is one.
pub open spec fn up(parts: Seq<Seq<char>>) -> Seq<Seq<char>> {
    if parts.len() > 0 { parts.drop_last() } else { parts }
}

/// `name` inside `dir`.
pub open spec fn joined_path(dir: Seq<char>, name: Seq<char>) -> Seq<char> {
    if dir.len() > 0 && dir.last() == '/' { dir + name } else { dir + seq!['/'] + name }
}

/// The text after the last slash, not counting slashes at the end.
pub open spec fn base_name(path: Seq<char>) -> Seq<char> {
    split(trim_end_char(path, '/'), '/').last()
}

/// The lower-case text after the last dot; nothing where the only dot is
/// the first character.
pub open spec fn ext_of(name: Seq<char>) -> Option<Seq<char>> {
    match rfind(name, '.') {
        Some(i) => if i == 0 { None } else { Some(lower_all(name.skip(i + 1))) },
        None => None,
    }
}

/// The part of a file name that `unique_name` numbers, and what follows it.
pub open spec fn stem_and_ext(base: Seq<char>) -> (Seq<char>, Seq<char>) {
    match rfind(base, '.') {
        Some(i) => if i > 0 { (base.take(i), base.skip(i)) } else { (base, ""@) },
        None => (base, ""@),
    }
}

/// The `n`th name tried for a new file: the name itself, then "name 2",
/// "name 3", ...
pub open spec fn candidate(base: Seq<char>, n: int) -> Seq<char> {
    if n < 2 {
        base
    } else {
        stem_and_ext(base).0 + seq![' '] + dec(n as nat) + stem_and_ext(base).1
    }
}

// ---------------------------------------------------------------------
// Laws
// ---------------------------------------------------------------------

proof fn lemma_resolve_canonical(parts: Seq<Seq<char>>)
    requires
        forall|i: int| 0 <= i < parts.len() ==> !(#[trigger] parts[i]).contains('/'),
    ensures
        canonical(resolve(parts)),
    decreases parts.len(),
{
    if parts.len() > 0 {
        let q = parts.drop_last();
        assert forall|i: int| 0 <= i < q.len() implies !(#[trigger] q[i]).contains('/') by {
            assert(q[i] == parts[i]);
        }
        lemma_resolve_canonical(q);
        assert(!parts[parts.len() - 1].contains('/'));
    }
}

/// Resolved components are proper names.
pub proof fn lemma_parts_canonical(cwd: Seq<char>, path: Seq<char>)
    ensures
        canonical(parts_of(cwd, path)),
{
    lemma_split_pieces(full_path(cwd, path), '/');
    lemma_resolve_canonical(split(full_path(cwd, path), '/'));
}

proof fn lemma_resolve_proper(parts: Seq<Seq<char>>)
    requires
        canonical(parts),
    ensures
        resolve(seq![""@] + parts) == parts,
    decreases parts.len(),
{
    let q = seq![""@] + parts;
    if parts.len() == 0 {
        assert(q.drop_last() =~= Seq::<Seq<char>>::empty());
        assert(q.last() == ""@);
        assert(resolve(q.drop_last()) =~= parts);
    } else {
        assert(q.drop_last() =~= seq![""@] + parts.drop_last());
        lemma_resolve_proper(parts.drop_last());
        assert(proper(parts[parts.len() - 1]));
        assert(q.last() == parts.last());
        assert(parts.drop_last().push(parts.last()) =~= parts);
    }
}

/// Joining with an empty first piece puts a separator in front.
proof fn lemma_join_leading(parts: Seq<Seq<char>>)
    requires
        parts.len() > 0,
    ensures
        joined(seq![""@] + parts, '/') == seq!['/'] + joined(parts, '/'),
    decreases parts.len(),
{
    reveal_strlit("");
    let q = seq![""@] + parts;
    if parts.len() == 1 {
        assert(q.drop_last() =~= seq![""@]);
        assert(joined(seq![""@], '/') == ""@);
        assert(joined(q, '/') =~= seq!['/'] + parts[0]);
    } else {
        assert(q.drop_last() =~= seq![""@] + parts.drop_last());
        lemma_join_leading(parts.drop_last());
        assert(joined(q, '/') =~= seq!['/'] + joined(parts, '/'));
    }
}

/// A path made of proper names has just those components.
pub proof fn lemma_parts_of_path_of(cwd: Seq<char>, parts: Seq<Seq<char>>)
    requires
        canonical(parts),
    ensures
        parts_of(cwd, path_of(parts)) == parts,
{
    reveal_strlit("");
    let p = path_of(parts);
    assert(p[0] == '/');
    assert(full_path(cwd, p) == p);
    if parts.len() == 0 {
        let q = seq![""@, ""@];
        assert(q.drop_last() =~= seq![""@]);
        assert(joined(seq![""@], '/') == ""@);
        assert(joined(parts, '/') == Seq::<char>::empty());
        assert(joined(q, '/') =~= p);
        lemma_split_join(q, '/');
        assert(q =~= seq![""@] + seq![""@]);
        assert(q.drop_last().drop_last() =~= Seq::<Seq<char>>::empty());
        assert(resolve(Seq::<Seq<char>>::empty()) == Seq::<Seq<char>>::empty());
        assert(q.drop_last().last() == ""@);
        assert(resolve(q.drop_last()) =~= parts);
        assert(resolve(q) =~= parts);
    } else {
        let q = seq![""@] + parts;
        lemma_join_leading(parts);
        assert forall|i: int| 0 <= i < q.len() implies !(#[trigger] q[i]).contains('/') by {
            if i > 0 {
                assert(proper(parts[i - 1]));
                assert(q[i] == parts[i - 1]);
            }
        }
        lemma_split_join(q, '/');
        lemma_resolve_proper(parts);
    }
}

/// Resolving a resolved path changes nothing, against any folder.
pub proof fn lemma_normalize_idempotent(any: Seq<char>, cwd: Seq<char>, path: Seq<char>)
    ensures
        normalized(any, normalized(cwd, path)) == normalized(cwd, path),
{
    lemma_parts_canonical(cwd, path);
    lemma_parts_of_path_of(any, parts_of(cwd, path));
}

/// A resolved path starts with a slash, and ends with one only if it is
/// the root.
pub proof fn lemma_normalize_absolute(cwd: Seq<char>, path: Seq<char>)
    ensures
        normalized(cwd, path).len() >= 1,
        normalized(cwd, path)[0] == '/',
        normalized(cwd, path).len() > 1 ==> normalized(cwd, path).last() != '/',
        normalized(cwd, path).len() == 1 <==> parts_of(cwd, path).len() == 0,
{
    let parts = parts_of(cwd, path);
    lemma_parts_canonical(cwd, path);
    lemma_path_end(parts);
}

/// The last character of a path of proper names belongs to the last name.
proof fn lemma_path_end(parts: Seq<Seq<char>>)
    requires
        canonical(parts),
    ensures
        parts.len() == 0 ==> path_of(parts) == seq!['/'],
        parts.len() > 0 ==> path_of(parts).len() > 1 && path_of(parts).last() == parts.last().last() && path_of(
            parts,
        ).last() != '/',
{
    reveal_strlit("");
    if parts.len() == 0 {
        assert(path_of(parts) =~= seq!['/']);
    } else {
        let l = parts.last();
        assert(proper(parts[parts.len() - 1]));
        assert(l.len() > 0) by {
            if l.len() == 0 {
                assert(l =~= ""@);
            }
        }
        assert(joined(parts, '/').last() == l.last());
        assert(l[l.len() - 1] == l.last());
        assert(!l.contains('/'));
    }
}

/// The path without its last component is the path up to the last slash.
proof fn lemma_path_up(parts: Seq<Seq<char>>)
    requires
        canonical(parts),
    ensures
        rfind(path_of(parts), '/') is Some,
        ({
            let i = rfind(path_of(parts), '/')->0;
            path_of(up(parts)) == if i == 0 { seq!['/'] } else { path_of(parts).take(i) }
        }),
{
    reveal_strlit("");
    let p = path_of(parts);
    lemma_rfind(p, '/');
    assert(p[0] == '/');
    let i = rfind(p, '/')->0;
    if parts.len() == 0 {
        assert(p =~= seq!['/']);
        assert(i == 0);
    } else {
        let l = parts.last();
        let before = up(parts);
        assert(proper(parts[parts.len() - 1]));
        if parts.len() == 1 {
            assert(p =~= seq!['/'] + l);
            assert(i == 0) by {
                if i > 0 {
                    assert(p[i] == l[i - 1]);
                }
            }
            assert(path_of(before) =~= seq!['/']);
        } else {
            let n = path_of(before).len() as int;
            assert(p =~= path_of(before) + seq!['/'] + l);
            assert(p[n] == '/');
            assert(i == n) by {
                if i > n {
                    assert(p[i] == l[i - n - 1]);
                }
            }
            assert(p.take(n) =~= path_of(before));
        }
    }
}

/// A name put into a folder comes out of it again: the folder is its
/// parent, and its last component is the name.
pub proof fn lemma_join_parent_name(parts: Seq<Seq<char>>, name: Seq<char>)
    requires
        canonical(parts),
        proper(name),
    ensures
        joined_path(path_of(parts), name) == path_of(parts.push(name)),
        parts_of("/"@, joined_path(path_of(parts), name)) == parts.push(name),
        up(parts_of("/"@, joined_path(path_of(parts), name))) == parts,
        base_name(joined_path(path_of(parts), name)) == name,
{
    reveal_strlit("");
    let q = parts.push(name);
    let p = joined_path(path_of(parts), name);
    assert(canonical(q)) by {
        assert forall|i: int| 0 <= i < q.len() implies proper(#[trigger] q[i]) by {
            if i < parts.len() {
                assert(q[i] == parts[i]);
            }
        }
    }
    assert(q.drop_last() =~= parts);
    lemma_path_end(parts);
    if parts.len() == 0 {
        assert(path_of(q) =~= seq!['/'] + name);
    } else {
        assert(path_of(q) =~= path_of(parts) + seq!['/'] + name);
    }
    assert(p =~= path_of(q));
    lemma_parts_of_path_of("/"@, q);
    lemma_path_end(q);
    assert(trim_end_char(p, '/') == p);
    let full = if q.len() == 0 { seq![""@, ""@] } else { seq![""@] + q };
    lemma_join_leading(q);
    assert forall|i: int| 0 <= i < full.len() implies !(#[trigger] full[i]).contains('/') by {
        if i > 0 {
            assert(proper(q[i - 1]));
            assert(full[i] == q[i - 1]);
        }
    }
    lemma_split_join(full, '/');
    assert(full.last() == name);
}

/// From a folder, a name leads into it, two dots lead out of it, and one dot
/// stays in it.
pub proof fn lemma_relative_steps(parts: Seq<Seq<char>>, name: Seq<char>)
    requires
        canonical(parts),
        proper(name),
    ensures
        normalized(path_of(parts), name) == path_of(parts.push(name)),
        normalized(path_of(parts), ".."@) == path_of(up(parts)),
        normalized(path_of(parts), "."@) == path_of(parts),
        normalized(path_of(parts), ""@) == path_of(parts),
{
    reveal_strlit("");
    reveal_strlit(".");
    reveal_strlit("..");
    lemma_step(parts, name);
    lemma_step(parts, ".."@);
    lemma_step(parts, "."@);
    lemma_step(parts, ""@);
}

proof fn lemma_step(parts: Seq<Seq<char>>, x: Seq<char>)
    requires
        canonical(parts),
        !x.contains('/'),
    ensures
        parts_of(path_of(parts), x) == resolve(split(path_of(parts), '/').push(x)),
        resolve(split(path_of(parts), '/')) == parts,
        split(path_of(parts), '/').push(x).drop_last() == split(path_of(parts), '/'),
{
    let p = path_of(parts);
    let pieces = split(p, '/');
    lemma_parts_of_path_of("/"@, parts);
    assert(p[0] == '/');
    lemma_split_nonempty(p, '/');
    lemma_split_pieces(p, '/');
    lemma_join_split(p, '/');
    let q = pieces.push(x);
    assert(q.drop_last() =~= pieces);
    if x.len() > 0 {
        assert(x.contains(x[0]));
    }
    assert(joined(q, '/') =~= full_path(p, x));
    assert forall|i: int| 0 <= i < q.len() implies !(#[trigger] q[i]).contains('/') by {
        if i < pieces.len() {
            assert(q[i] == pieces[i]);
        }
    }
    lemma_split_join(q, '/');
}

/// A path of proper names is cut at its slashes into just those names.
pub proof fn lemma_split_path(parts: Seq<Seq<char>>)
    requires
        canonical(parts),
        parts.len() > 0,
    ensures
        split(path_of(parts), '/') == seq![""@] + parts,
{
    reveal_strlit("");
    let q = seq![""@] + parts;
    lemma_join_leading(parts);
    assert forall|i: int| 0 <= i < q.len() implies !(#[trigger] q[i]).contains('/') by {
        if i > 0 {
            assert(proper(parts[i - 1]));
            assert(q[i] == parts[i - 1]);
        }
    }
    lemma_split_join(q, '/');
}

/// A path goes on behind another one and a slash if all names of the other
/// one come first in it, and more follow.
pub proof fn lemma_path_below(a: Seq<Seq<char>>, b: Seq<Seq<char>>)
    requires
        canonical(a),
        canonical(b),
        a.len() > 0,
    ensures
        starts(path_of(b), path_of(a) + seq!['/']) <==> a.is_prefix_of(b) && a.len() < b.len(),
        a.is_prefix_of(b) && a.len() < b.len() ==> path_of(b).skip(path_of(a).len() as int) == path_of(
            b.skip(a.len() as int),
        ),
{
    let pa = path_of(a);
    let pb = path_of(b);
    let n = a.len() as int;
    if a.is_prefix_of(b) && a.len() < b.len() {
        let c = b.skip(n);
        assert(a + c =~= b);
        lemma_join_append(a, c, '/');
        assert(pb =~= pa + seq!['/'] + joined(c, '/'));
        assert(pb.take(pa.len() as int + 1) =~= pa + seq!['/']);
        assert(pb.skip(pa.len() as int) =~= path_of(c));
    }
    if starts(pb, pa + seq!['/']) {
        let k = pa.len() as int + 1;
        let r = pb.skip(k);
        assert(pb =~= pa + seq!['/'] + r) by {
            assert(pb =~= pb.take(k) + r);
        }
        let x = split(pa, '/');
        let y = split(r, '/');
        lemma_split_nonempty(pa, '/');
        lemma_split_nonempty(r, '/');
        lemma_split_pieces(pa, '/');
        lemma_split_pieces(r, '/');
        lemma_join_split(pa, '/');
        lemma_join_split(r, '/');
        lemma_join_append(x, y, '/');
        assert(joined(x + y, '/') =~= pb);
        assert forall|i: int| 0 <= i < (x + y).len() implies !(#[trigger] (x + y)[i]).contains('/') by {
            if i < x.len() {
                assert((x + y)[i] == x[i]);
            } else {
                assert((x + y)[i] == y[i - x.len()]);
            }
        }
        lemma_split_join(x + y, '/');
        lemma_split_path(a);
        if b.len() == 0 {
            assert(pb =~= seq!['/']);
            lemma_path_end(a);
            assert(false);
        }
        lemma_split_path(b);
        assert(seq![""@] + b == seq![""@] + a + y);
        assert forall|i: int| 0 <= i < n implies a[i] == b[i] by {
            assert((seq![""@] + b)[i + 1] == (seq![""@] + a + y)[i + 1]);
        }
        assert((seq![""@] + b).len() == (seq![""@] + a + y).len());
    }
}

/// The names that are tried for a new file differ from one another.
pub proof fn lemma_candidates_differ(base: Seq<char>, a: int, b: int)
    requires
        2 <= a < b,
    ensures
        candidate(base, a) != candidate(base, b),
{
    let (s, e) = stem_and_ext(base);
    lemma_dec_injective(a as nat, b as nat);
    let x = candidate(base, a);
    let y = candidate(base, b);
    if x == y {
        let da = dec(a as nat);
        let db = dec(b as nat);
        assert(x.len() == s.len() + 1 + da.len() + e.len());
        assert(y.len() == s.len() + 1 + db.len() + e.len());
        let n = s.len() as int + 1;
        assert(x.subrange(n, n + da.len()) =~= da);
        assert(y.subrange(n, n + db.len()) =~= db);
    }
}

proof fn lemma_dec_injective(a: nat, b: nat)
    ensures
        dec(a) == dec(b) ==> a == b,
    decreases a,
{
    if dec(a) == dec(b) {
        crate::text::lemma_dec_nonempty(a / 10);
        crate::text::lemma_dec_nonempty(b / 10);
        let x = dec(a);
        let y = dec(b);
        assert(x.last() == y.last());
        assert(x.last() == digit((a % 10) as int));
        assert(y.last() == digit((b % 10) as int));
        if a >= 10 && b >= 10 {
            assert(x.drop_last() =~= dec(a / 10));
            assert(y.drop_last() =~= dec(b / 10));
            lemma_dec_injective(a / 10, b / 10);
        } else if a >= 10 {
            assert(x.len() >= 2);
        } else if b >= 10 {
            assert(y.len() >= 2);
        }
    }
}

// ---------------------------------------------------------------------
// Functions
// ---------------------------------------------------------------------

/// Resolved components of `path` relative to `cwd`.
pub fn components(cwd: &[char], path: &[char]) -> (r: Vec<Vec<char>>)
    ensures
        views(r@) == parts_of(cwd@, path@),
        canonical(views(r@)),
{
    let mut full: Vec<char> = Vec::new();
    if !(path.len() > 0 && path[0] == '/') {
        push_all(&mut full, cwd);
        full.push('/');
    }
    push_all(&mut full, path);
    proof {
        assert(full@ =~= full_path(cwd@, path@));
        lemma_parts_canonical(cwd@, path@);
    }
    let pieces: Vec<Vec<char>> = split_on(&full, '/');
    let mut parts: Vec<Vec<char>> = Vec::new();
    let mut i: usize = 0;
    proof {
        assert(views(parts@) =~= resolve(views(pieces@).take(0)));
    }
    while i < pieces.len()
        invariant
            i <= pieces@.len(),
            views(parts@) == resolve(views(pieces@).take(i as int)),
        decreases pieces@.len() - i,
    {
        let ghost before = parts@;
        proof {
            assert(views(pieces@).take(i + 1).drop_last() =~= views(pieces@).take(i as int));
            assert(views(pieces@).take(i + 1).last() == pieces@[i as int]@);
        }
        let p: &Vec<char> = &pieces[i];
        if is_str(p, "") || is_str(p, ".") {
        } else if is_str(p, "..") {
            if parts.len() > 0 {
                parts.pop();
                proof {
                    assert(views(parts@) =~= views(before).drop_last());
                }
            }
        } else {
            let copied: Vec<char> = crate::text::copy(p);
            parts.push(copied);
            proof {
                assert(views(parts@) =~= views(before).push(p@));
            }
        }
        i += 1;
    }
    proof {
        assert(views(pieces@).take(pieces@.len() as int) =~= views(pieces@));
    }
    parts
}

/// The absolute path with these components.
pub fn assemble(parts: &[Vec<char>]) -> (r: Vec<char>)
    ensures
        r@ == path_of(views(parts@)),
{
    let mut out: Vec<char> = Vec::new();
    out.push('/');
    let rest: Vec<char> = join_with(parts, '/');
    push_all(&mut out, &rest);
    proof {
        assert(out@ =~= path_of(views(parts@)));
    }
    out
}

pub fn normalize_chars(cwd: &[char], path: &[char]) -> (r: Vec<char>)
    ensures
        r@ == normalized(cwd@, path@),
{
    let parts: Vec<Vec<char>> = components(cwd, path);
    assemble(&parts)
}

/// Resolve `path` against `cwd`, collapsing `.` and `..`.
pub fn normalize(cwd: &str, path: &str) -> (r: String)
    ensures
        r@ == normalized(cwd@, path@),
{
    let v: Vec<char> = normalize_chars(&to_chars(cwd), &to_chars(path));
    to_text(&v)
}

pub fn join_chars(dir: &[char], name: &[char]) -> (r: Vec<char>)
    ensures
        r@ == joined_path(dir@, name@),
{
    let mut out: Vec<char> = Vec::new();
    push_all(&mut out, dir);
    if !(dir.len() > 0 && dir[dir.len() - 1] == '/') {
        out.push('/');
    }
    push_all(&mut out, name);
    proof {
        assert(out@ =~= joined_path(dir@, name@));
    }
    out
}

pub fn join(dir: &str, name: &str) -> (r: String)
    ensures
        r@ == joined_path(dir@, name@),
{
    let v: Vec<char> = join_chars(&to_chars(dir), &to_chars(name));
    to_text(&v)
}

pub fn parent_chars(path: &[char]) -> (r: Vec<char>)
    ensures
        r@ == path_of(up(parts_of("/"@, path@))),
{
    let p: Vec<char> = normalize_chars(&to_chars("/"), path);
    proof {
        lemma_parts_canonical("/"@, path@);
        lemma_path_up(parts_of("/"@, path@));
        lemma_rfind(p@, '/');
    }
    match rfind_char(&p, '/') {
        Some(i) => {
            if i > 0 {
                let r: Vec<char> = copy_range(&p, 0, i);
                proof {
                    assert(p@.subrange(0, i as int) =~= p@.take(i as int));
                }
                return r;
            }
        },
        None => {},
    }
    let mut root: Vec<char> = Vec::new();
    root.push('/');
    proof {
        assert(root@ =~= seq!['/']);
    }
    root
}

/// The folder that holds `path`; the root is its own parent.
pub fn parent(path: &str) -> (r: String)
    ensures
        r@ == path_of(up(parts_of("/"@, path@))),
{
    let v: Vec<char> = parent_chars(&to_chars(path));
    to_text(&v)
}

/// Where the last component of a path starts and ends.
fn name_range(path: &[char]) -> (r: (usize, usize))
    ensures
        r.0 <= r.1 <= path@.len(),
        path@.subrange(r.0 as int, r.1 as int) == base_name(path@),
{
    let mut end: usize = path.len();
    proof {
        assert(path@.take(end as int) =~= path@);
    }
    while end > 0 && path[end - 1] == '/'
        invariant
            end <= path@.len(),
            trim_end_char(path@, '/') == trim_end_char(path@.take(end as int), '/'),
        decreases end,
    {
        proof {
            assert(path@.take(end as int).drop_last() =~= path@.take(end - 1));
        }
        end -= 1;
    }
    let ghost t = path@.take(end as int);
    proof {
        assert(trim_end_char(t, '/') == t);
        lemma_split_nonempty(t, '/');
    }
    let mut start: usize = end;
    while start > 0 && path[start - 1] != '/'
        invariant
            start <= end <= path@.len(),
            t == path@.take(end as int),
            forall|k: int| start <= k < end ==> path@[k] != '/',
        decreases start,
    {
        start -= 1;
    }
    proof {
        lemma_last_piece(t, start as int);
        assert(path@.subrange(start as int, end as int) =~= t.skip(start as int));
    }
    (start, end)
}

/// The last piece of a split starts behind the last separator.
proof fn lemma_last_piece(t: Seq<char>, start: int)
    requires
        0 <= start <= t.len(),
        forall|k: int| start <= k < t.len() ==> t[k] != '/',
        start > 0 ==> t[start - 1] == '/',
    ensures
        split(t, '/').len() >= 1,
        split(t, '/').last() == t.skip(start),
    decreases t.len(),
{
    lemma_split_nonempty(t, '/');
    if t.len() == 0 {
        assert(t.skip(0) =~= Seq::<char>::empty());
    } else if start == t.len() {
        assert(t.skip(start) =~= Seq::<char>::empty());
    } else {
        let d = t.drop_last();
        assert forall|k: int| start <= k < d.len() implies d[k] != '/' by {
            assert(d[k] == t[k]);
        }
        if start > 0 {
            assert(d[start - 1] == t[start - 1]);
        }
        lemma_last_piece(d, start);
        assert(d.skip(start).push(t.last()) =~= t.skip(start));
    }
}

pub fn file_name_chars(path: &[char]) -> (r: Vec<char>)
    ensures
        r@ == base_name(path@),
{
    let (a, b): (usize, usize) = name_range(path);
    copy_range(path, a, b)
}

/// The last component of a path.
pub fn file_name(path: &str) -> (r: &str)
    ensures
        r@ == base_name(path@),
{
    let v: Vec<char> = to_chars(path);
    let (a, b): (usize, usize) = name_range(&v);
    path.substring_char(a, b)
}

pub fn extension_chars(name: &[char]) -> (r: Option<Vec<char>>)
    ensures
        match r {
            Some(e) => ext_of(name@) == Some(e@),
            None => ext_of(name@) is None,
        },
{
    proof {
        lemma_rfind(name@, '.');
    }
    match rfind_char(name, '.') {
        Some(i) => {
            if i == 0 {
                None
            } else {
                let n: usize = name.len();
                let t: Vec<char> = copy_range(name, i + 1, n);
                proof {
                    assert(name@.subrange(i + 1, name@.len() as int) =~= name@.skip(i + 1));
                }
                Some(lowered(&t))
            }
        },
        None => None,
    }
}

/// The lower-case file name extension, if there is one.
pub fn extension(name: &str) -> (r: Option<String>)
    ensures
        match r {
            Some(e) => ext_of(name@) == Some(e@),
            None => ext_of(name@) is None,
        },
{
    match extension_chars(&to_chars(name)) {
        Some(e) => Some(to_text(&e)),
        None => None,
    }
}

/// The `n`th name tried for a new file.
pub fn candidate_name(base: &[char], n: u64) -> (r: Vec<char>)
    ensures
        r@ == candidate(base@, n as int),
{
    if n < 2 {
        return crate::text::copy(base);
    }
    proof {
        lemma_rfind(base@, '.');
        reveal_strlit("");
    }
    let at: usize = match rfind_char(base, '.') {
        Some(i) => if i > 0 { i } else { base.len() },
        None => base.len(),
    };
    let mut out: Vec<char> = copy_range(base, 0, at);
    out.push(' ');
    push_dec(&mut out, n);
    let ext: Vec<char> = copy_range(base, at, base.len());
    push_all(&mut out, &ext);
    proof {
        assert(base@.subrange(0, at as int) =~= stem_and_ext(base@).0);
        assert(ext@ =~= stem_and_ext(base@).1);
        assert(out@ =~= candidate(base@, n as int));
    }
    out
}

/// Whether `present` answered `answer` when it was asked about `path`.
pub open spec fn answered<F: Fn(&str) -> bool>(present: F, path: Seq<char>, answer: bool) -> bool {
    exists|s: &str| #[trigger] s@ == path && call_ensures(present, (s,), answer)
}

/// Pick "name", "name 2", "name 3", ... that does not exist in `dir`.
/// `present` says whether there is something at a path. Only where every name
/// with a number that a machine word can hold is taken does the name itself
/// come back.
pub fn unique_name<F: Fn(&str) -> bool>(present: F, dir: &str, base: &str) -> (r: String)
    requires
        forall|s: &str| call_requires(present, (s,)),
    ensures
        ({
            ||| exists|n: int|
                #![trigger candidate(base@, n)]
                1 <= n < u64::MAX && r@ == candidate(base@, n) && answered(present, joined_path(dir@, r@), false)
                    && forall|m: int|
                    #![trigger candidate(base@, m)]
                    1 <= m < n ==> answered(present, joined_path(dir@, candidate(base@, m)), true)
            ||| r@ == base@ && forall|m: int|
                #![trigger candidate(base@, m)]
                1 <= m < u64::MAX ==> answered(present, joined_path(dir@, candidate(base@, m)), true)
        }),
{
    let d: Vec<char> = to_chars(dir);
    let b: Vec<char> = to_chars(base);
    let mut n: u64 = 1;
    while n < u64::MAX
        invariant
            1 <= n,
            d@ == dir@,
            b@ == base@,
            forall|s: &str| call_requires(present, (s,)),
            forall|m: int|
                #![trigger candidate(base@, m)]
                1 <= m < n ==> answered(present, joined_path(dir@, candidate(base@, m)), true),
        decreases u64::MAX - n,
    {
        let c: Vec<char> = candidate_name(&b, n);
        let p: String = to_text(&join_chars(&d, &c));
        let s: &str = p.as_str();
        let taken: bool = present(s);
        proof {
            assert(s@ == joined_path(dir@, c@) && call_ensures(present, (s,), taken));
            assert(answered(present, joined_path(dir@, c@), taken));
        }
        if !taken {
            proof {
                assert(c@ == candidate(base@, n as int));
            }
            return to_text(&c);
        }
        n += 1;
    }
    to_text(&b)
}

/// One decimal place of `bytes` counted in `unit`s, cut off.
pub open spec fn tenths(bytes: int, unit: int) -> Seq<char> {
    dec((bytes / unit) as nat) + seq!['.'] + dec(((bytes % unit) * 10 / unit) as nat)
}

/// A byte count for people to read.
pub open spec fn size_text(bytes: int) -> Seq<char> {
    if bytes < 1024 {
        dec(bytes as nat) + " B"@
    } else if bytes < 1048576 {
        tenths(bytes, 1024) + " KB"@
    } else if bytes < 1073741824 {
        tenths(bytes, 1048576) + " MB"@
    } else {
        tenths(bytes, 1073741824) + " GB"@
    }
}

pub fn size_chars(bytes: u64) -> (r: Vec<char>)
    ensures
        r@ == size_text(bytes as int),
{
    let mut out: Vec<char> = Vec::new();
    if bytes < 1024 {
        push_dec(&mut out, bytes);
        push_str(&mut out, " B");
    } else {
        let unit: u64 = if bytes < 1048576 {
            1024
        } else if bytes < 1073741824 {
            1048576
        } else {
            1073741824
        };
        push_dec(&mut out, bytes / unit);
        out.push('.');
        push_dec(&mut out, (bytes % unit) * 10 / unit);
        if unit == 1024 {
            push_str(&mut out, " KB");
        } else if unit == 1048576 {
            push_str(&mut out, " MB");
        } else {
            push_str(&mut out, " GB");
        }
    }
    proof {
        assert(out@ =~= size_text(bytes as int));
    }
    out
}

pub fn format_size(bytes: u64) -> (r: String)
    ensures
        r@ == size_text(bytes as int),
{
    to_text(&size_chars(bytes))
}

/// A moment in local time, as file systems keep it.
#[derive(Clone, Copy, Debug, PartialEq, Eq, Structural)]
pub struct Timestamp {
    pub year: u16,
    pub month: u8,
    pub day: u8,
    pub hour: u8,
    pub minute: u8,
    pub second: u8,
}

/// "2024-03-09 08:05"
pub open spec fn time_text(t: Timestamp) -> Seq<char> {
    pad_left(dec(t.year as nat), 4, '0') + seq!['-'] + pad_left(dec(t.month as nat), 2, '0') + seq!['-'] + pad_left(
        dec(t.day as nat),
        2,
        '0',
    ) + seq![' '] + pad_left(dec(t.hour as nat), 2, '0') + seq![':'] + pad_left(dec(t.minute as nat), 2, '0')
}

pub fn format_time(t: &Timestamp) -> (r: String)
    ensures
        r@ == time_text(*t),
{
    let mut out: Vec<char> = Vec::new();
    push_dec_zeros(&mut out, t.year as u64, 4);
    out.push('-');
    push_dec_zeros(&mut out, t.month as u64, 2);
    out.push('-');
    push_dec_zeros(&mut out, t.day as u64, 2);
    out.push(' ');
    push_dec_zeros(&mut out, t.hour as u64, 2);
    out.push(':');
    push_dec_zeros(&mut out, t.minute as u64, 2);
    proof {
        assert(out@ =~= time_text(*t));
    }
    to_text(&out)
}

} // verus!
