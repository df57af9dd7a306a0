//! Merging of damaged screen areas before they are repainted.

use super::super::geom::Rect;
use vstd::prelude::*;

verus! {

/// Rectangles closer than this are repainted as one.
pub const MERGE_GAP: i32 = 16;

/// At most this many areas are repainted separately.
pub const MAX_AREAS: usize = 6;

/// A non-empty area with edges of moderate size.
pub open spec fn area(r: Rect) -> bool {
    &&& r.w > 0
    &&& r.h > 0
    &&& -0x1000_0000 <= r.x
    &&& r.x + r.w <= 0x1000_0000
    &&& -0x1000_0000 <= r.y
    &&& r.y + r.h <= 0x1000_0000
}

pub open spec fn areas(s: Seq<Rect>) -> bool {
    forall|i: int| 0 <= i < s.len() ==> area(#[trigger] s[i])
}

/// Whether `a`, grown by the gap on each side, meets `b`.
pub open spec fn near(a: Rect, b: Rect) -> bool {
    &&& a.x - MERGE_GAP < b.x + b.w
    &&& b.x < a.x + a.w + MERGE_GAP
    &&& a.y - MERGE_GAP < b.y + b.h
    &&& b.y < a.y + a.h + MERGE_GAP
}

/// The list with the `i`th area grown over the `j`th, whose place the last
/// one takes.
pub open spec fn merged(s: Seq<Rect>, i: int, j: int) -> Seq<Rect> {
    s.update(i, s[i].spec_union(s[j])).update(j, s.update(i, s[i].spec_union(s[j])).last()).drop_last()
}

/// The list after one pass that is at the `i`th area and compares it with the
/// `j`th: one that is near is merged into it, and what took its place comes
/// next; then follows the next area.
pub open spec fn walked(s: Seq<Rect>, i: int, j: int) -> Seq<Rect>
    decreases s.len() - i, s.len() - j,
{
    if !(0 <= i < s.len() && i < j) {
        s
    } else if j >= s.len() {
        walked(s, i + 1, i + 2)
    } else if near(s[i], s[j]) {
        walked(merged(s, i, j), i, j)
    } else {
        walked(s, i, j + 1)
    }
}

/// The list after as many passes as it takes for nothing more to merge.
pub open spec fn settled(s: Seq<Rect>) -> Seq<Rect>
    decreases s.len(),
{
    let t = walked(s, 0, 1);
    if t.len() < s.len() { settled(t) } else { t }
}

/// No two areas are close enough to be merged.
pub open spec fn separate(s: Seq<Rect>) -> bool {
    forall|i: int, j: int| 0 <= i < j < s.len() ==> !near(#[trigger] s[i], #[trigger] s[j])
}

/// The smallest rectangle around the first areas of a list.
pub open spec fn hull(s: Seq<Rect>) -> Rect
    decreases s.len(),
{
    if s.len() == 0 {
        Rect { x: 0, y: 0, w: 0, h: 0 }
    } else {
        hull(s.drop_last()).spec_union(s.last())
    }
}

/// Whether a point lies in one of the areas.
pub open spec fn covers(s: Seq<Rect>, x: int, y: int) -> bool {
    exists|i: int| 0 <= i < s.len() && (#[trigger] s[i]).spec_contains(x, y)
}

/// What is repainted for a list of damaged areas.
pub open spec fn repainted(ins: Seq<Rect>) -> Seq<Rect> {
    let mid = settled(ins);
    if mid.len() > MAX_AREAS { seq![hull(mid)] } else { mid }
}

proof fn lemma_union_area(a: Rect, b: Rect)
    requires
        area(a),
        area(b),
    ensures
        a.union_fits(b),
        area(a.spec_union(b)),
        forall|x: int, y: int| #[trigger]
            a.spec_contains(x, y) || b.spec_contains(x, y) ==> a.spec_union(b).spec_contains(x, y),
{
}

proof fn lemma_merged(s: Seq<Rect>, i: int, j: int)
    requires
        areas(s),
        0 <= i < j < s.len(),
    ensures
        areas(merged(s, i, j)),
        merged(s, i, j).len() == s.len() - 1,
        forall|x: int, y: int| #[trigger] covers(s, x, y) ==> covers(merged(s, i, j), x, y),
{
    let m = merged(s, i, j);
    let u = s[i].spec_union(s[j]);
    lemma_union_area(s[i], s[j]);
    assert forall|k: int| 0 <= k < m.len() implies area(#[trigger] m[k]) by {
        if k == i {
            assert(m[k] == u);
        } else if k == j {
            assert(m[k] == s[s.len() - 1]);
        } else {
            assert(m[k] == s[k]);
        }
    }
    assert forall|x: int, y: int| #[trigger] covers(s, x, y) implies covers(m, x, y) by {
        let k = choose|k: int| 0 <= k < s.len() && (#[trigger] s[k]).spec_contains(x, y);
        if k == i || k == j {
            assert(s[i].spec_contains(x, y) || s[j].spec_contains(x, y));
            assert(m[i].spec_contains(x, y));
        } else if k == s.len() - 1 {
            assert(m[j].spec_contains(x, y));
        } else {
            assert(m[k].spec_contains(x, y));
        }
    }
}

/// Whether no area before the `i`th is near a later one, nor the `i`th one
/// between it and the `j`th.
spec fn apart_before(s: Seq<Rect>, i: int, j: int) -> bool {
    &&& forall|p: int, q: int| 0 <= p < i && p < q < s.len() ==> !near(#[trigger] s[p], #[trigger] s[q])
    &&& i < s.len() ==> forall|q: int| i < q < j && q < s.len() ==> !near(s[i], #[trigger] s[q])
}

proof fn lemma_walked(s: Seq<Rect>, i: int, j: int)
    requires
        areas(s),
        0 <= i < j,
    ensures
        areas(walked(s, i, j)),
        walked(s, i, j).len() <= s.len(),
        forall|x: int, y: int| #[trigger] covers(s, x, y) ==> covers(walked(s, i, j), x, y),
        apart_before(s, i, j) && walked(s, i, j).len() == s.len() ==> walked(s, i, j) == s && separate(s),
    decreases s.len() - i, s.len() - j,
{
    if i >= s.len() {
    } else if j >= s.len() {
        lemma_walked(s, i + 1, i + 2);
    } else if near(s[i], s[j]) {
        lemma_merged(s, i, j);
        lemma_walked(merged(s, i, j), i, j);
    } else {
        lemma_walked(s, i, j + 1);
    }
}

/// Merging loses no damaged pixel, and ends only when no two areas are near
/// each other.
pub proof fn lemma_settled(s: Seq<Rect>)
    requires
        areas(s),
    ensures
        areas(settled(s)),
        separate(settled(s)),
        settled(s).len() <= s.len(),
        forall|x: int, y: int| #[trigger] covers(s, x, y) ==> covers(settled(s), x, y),
    decreases s.len(),
{
    lemma_walked(s, 0, 1);
    let t = walked(s, 0, 1);
    if t.len() < s.len() {
        lemma_settled(t);
    }
}

proof fn lemma_hull(s: Seq<Rect>)
    requires
        areas(s),
        s.len() > 0,
    ensures
        area(hull(s)),
        forall|x: int, y: int| #[trigger] covers(s, x, y) ==> hull(s).spec_contains(x, y),
    decreases s.len(),
{
    let d = s.drop_last();
    let l = s.last();
    assert(area(s[s.len() - 1]));
    if d.len() > 0 {
        assert forall|i: int| 0 <= i < d.len() implies area(#[trigger] d[i]) by {
            assert(d[i] == s[i]);
        }
        lemma_hull(d);
        lemma_union_area(hull(d), l);
    }
    assert forall|x: int, y: int| #[trigger] covers(s, x, y) implies hull(s).spec_contains(x, y) by {
        let k = choose|k: int| 0 <= k < s.len() && (#[trigger] s[k]).spec_contains(x, y);
        if k < d.len() {
            assert(d[k].spec_contains(x, y));
            assert(covers(d, x, y));
            assert(hull(d).spec_contains(x, y) || l.spec_contains(x, y));
        } else {
            assert(l.spec_contains(x, y));
            assert(hull(d).spec_contains(x, y) || l.spec_contains(x, y));
        }
    }
}

/// Every damaged pixel is repainted.
pub proof fn lemma_repaint_covers(ins: Seq<Rect>)
    requires
        areas(ins),
    ensures
        areas(repainted(ins)),
        forall|x: int, y: int| #[trigger] covers(ins, x, y) ==> covers(repainted(ins), x, y),
        repainted(ins).len() <= MAX_AREAS,
{
    let mid = settled(ins);
    let out = repainted(ins);
    lemma_settled(ins);
    if mid.len() > MAX_AREAS {
        lemma_hull(mid);
        assert forall|x: int, y: int| #[trigger] covers(ins, x, y) implies covers(out, x, y) by {
            assert(covers(mid, x, y));
            assert(out[0].spec_contains(x, y));
        }
    }
}

fn is_near(a: &Rect, b: &Rect) -> (r: bool)
    requires
        area(*a),
        area(*b),
    ensures
        r == near(*a, *b),
{
    a.x - MERGE_GAP < b.x + b.w && b.x < a.x + a.w + MERGE_GAP && a.y - MERGE_GAP < b.y + b.h && b.y < a.y + a.h
        + MERGE_GAP
}

/// Merge areas that are close to each other; many remaining ones become a
/// single area.
pub fn merged_damage(damage: Vec<Rect>) -> (r: Vec<Rect>)
    requires
        areas(damage@),
    ensures
        r@ == repainted(damage@),
        areas(r@),
        r@.len() <= MAX_AREAS,
{
    let ghost ins = damage@;
    let mut rects: Vec<Rect> = damage;
    proof {
        lemma_repaint_covers(ins);
        lemma_settled(ins);
    }
    let mut changed: bool = true;
    while changed
        invariant
            areas(rects@),
            changed ==> settled(ins) == settled(rects@),
            !changed ==> settled(ins) == rects@,
        decreases 2 * rects@.len() + if changed { 1int } else { 0 },
    {
        changed = false;
        let mut i: usize = 0;
        let ghost start = rects@;
        proof {
            lemma_walked(start, 0, 1);
        }
        while i < rects.len()
            invariant
                areas(rects@),
                i <= rects@.len() <= start.len(),
                changed == (rects@.len() < start.len()),
                walked(start, 0, 1) == walked(rects@, i as int, i + 1),
            decreases rects@.len() - i,
        {
            let n: usize = rects.len();
            let mut j: usize = i + 1;
            while j < rects.len()
                invariant
                    areas(rects@),
                    i < j <= rects@.len() <= n,
                    rects@.len() <= start.len(),
                    changed == (rects@.len() < start.len()),
                    walked(start, 0, 1) == walked(rects@, i as int, j as int),
                decreases rects@.len() - j,
            {
                let a: Rect = rects[i];
                let b: Rect = rects[j];
                if is_near(&a, &b) {
                    let ghost s = rects@;
                    proof {
                        lemma_union_area(a, b);
                        lemma_merged(s, i as int, j as int);
                    }
                    rects.set(i, a.union(&b));
                    rects.swap_remove(j);
                    proof {
                        assert(rects@ =~= merged(s, i as int, j as int));
                    }
                    changed = true;
                } else {
                    j += 1;
                }
            }
            i += 1;
        }
    }
    if rects.len() > MAX_AREAS {
        let mut all: Rect = Rect { x: 0, y: 0, w: 0, h: 0 };
        let mut k: usize = 0;
        while k < rects.len()
            invariant
                k <= rects@.len(),
                areas(rects@),
                all == hull(rects@.take(k as int)),
                k > 0 ==> area(all),
                k == 0 ==> all.spec_is_empty(),
            decreases rects@.len() - k,
        {
            let ghost t = rects@.take(k + 1);
            proof {
                assert(t.drop_last() =~= rects@.take(k as int));
                assert(t.last() == rects@[k as int]);
                if k > 0 {
                    lemma_union_area(all, rects@[k as int]);
                }
            }
            all = all.union(&rects[k]);
            k += 1;
        }
        let mut one: Vec<Rect> = Vec::new();
        one.push(all);
        proof {
            assert(rects@.take(rects@.len() as int) =~= rects@);
            assert(one@ =~= seq![hull(rects@)]);
        }
        return one;
    }
    rects
}

} // verus!
