//! Chaining of slice contour segments into closed outlines for capping.
//!
//! Each contour segment is known by the quantised positions of its two ends
//! (coordinates scaled by 10000 and truncated to `i32`).  Starting from each
//! segment not yet used, the chainer follows, from the current end point,
//! the first unused segment that touches it, until the outline closes on its
//! starting point, no segment continues it, or as many steps as there are
//! segments have been taken.  Outlines of at least three points are kept.
//! A point is given as `(segment, end)` with `end` 0 or 1.  The segments
//! that touch a point are found through a hash map from the point (packed
//! into one integer) to those segments in order.
use vstd::prelude::*;
use std::collections::HashMap;

verus! {

broadcast use {vstd::array::group_array_axioms, vstd::std_specs::hash::group_hash_axioms};

/// Quantised position of a segment end.
pub type QPoint = [i32; 3];

/// A segment end: segment position and which end (0 or 1).
pub type SegmentEnd = (usize, usize);

/// Quantised position of a segment end.
pub open spec fn end_key(segs: Seq<(QPoint, QPoint)>, p: SegmentEnd) -> QPoint {
    if p.1 == 0 {
        segs[p.0 as int].0
    } else {
        segs[p.0 as int].1
    }
}

/// Segment `j` has an end at `q`.
pub open spec fn touches(segs: Seq<(QPoint, QPoint)>, j: int, q: QPoint) -> bool {
    segs[j].0 == q || segs[j].1 == q
}

/// The first segment at position `j` or later that is unused and touches `q`.
pub open spec fn first_unused_from(segs: Seq<(QPoint, QPoint)>, used: Seq<bool>, q: QPoint, j: int) -> Option<usize>
    decreases segs.len() - j,
{
    if j < 0 || j >= segs.len() {
        None
    } else if !used[j] && touches(segs, j, q) {
        Some(j as usize)
    } else {
        first_unused_from(segs, used, q, j + 1)
    }
}

/// The end reached by walking segment `j` away from `q`.
pub open spec fn far_end(segs: Seq<(QPoint, QPoint)>, j: usize, q: QPoint) -> SegmentEnd {
    if segs[j as int].0 == q {
        (j, 1)
    } else {
        (j, 0)
    }
}

/// Continues an outline whose points so far are `pts`, ending at `last`,
/// for at most `fuel` more steps; gives the updated use marks and points.
/// The closing point (back at `start`) is not repeated.
pub open spec fn extend_outline(
    segs: Seq<(QPoint, QPoint)>,
    used: Seq<bool>,
    pts: Seq<SegmentEnd>,
    last: SegmentEnd,
    start: QPoint,
    fuel: nat,
) -> (Seq<bool>, Seq<SegmentEnd>)
    decreases fuel,
{
    if fuel == 0 {
        (used, pts)
    } else {
        let q = end_key(segs, last);
        match first_unused_from(segs, used, q, 0) {
            None => (used, pts),
            Some(j) => {
                let next = far_end(segs, j, q);
                let used2 = used.update(j as int, true);
                if end_key(segs, next) == start {
                    (used2, pts)
                } else {
                    extend_outline(segs, used2, pts.push(next), next, start, (fuel - 1) as nat)
                }
            },
        }
    }
}

/// Outlines started from segment `i` onwards, given the use marks and the
/// outlines found so far.
pub open spec fn outlines_from(
    segs: Seq<(QPoint, QPoint)>,
    i: int,
    used: Seq<bool>,
    found: Seq<Seq<SegmentEnd>>,
) -> Seq<Seq<SegmentEnd>>
    decreases segs.len() - i,
{
    if i < 0 || i >= segs.len() {
        found
    } else if used[i] {
        outlines_from(segs, i + 1, used, found)
    } else {
        let (used2, pts) = extend_outline(
            segs,
            used.update(i, true),
            seq![(i as usize, 0usize), (i as usize, 1usize)],
            (i as usize, 1usize),
            segs[i].0,
            segs.len(),
        );
        let found2 = if pts.len() >= 3 { found.push(pts) } else { found };
        outlines_from(segs, i + 1, used2, found2)
    }
}

/// The closed outlines that the chainer builds from `segs`.
pub open spec fn segment_outlines(segs: Seq<(QPoint, QPoint)>) -> Seq<Seq<SegmentEnd>> {
    outlines_from(segs, 0, Seq::new(segs.len(), |i: int| false), Seq::empty())
}

fn qpoints_equal(a: &QPoint, b: &QPoint) -> (eq: bool)
    ensures
        eq == (*a == *b),
{
    let eq = a[0] == b[0] && a[1] == b[1] && a[2] == b[2];
    if eq {
        assert(*a =~= *b);
    }
    eq
}

fn end_point(segs: &Vec<(QPoint, QPoint)>, p: SegmentEnd) -> (q: QPoint)
    requires
        p.0 < segs@.len(),
    ensures
        q == end_key(segs@, p),
{
    if p.1 == 0 {
        segs[p.0].0
    } else {
        segs[p.0].1
    }
}

/// A quantised point packed losslessly into one integer (the three
/// coordinates' bit patterns side by side), used as the key of the point
/// index.
pub open spec fn pack_key(a: i32, b: i32, c: i32) -> u128 {
    (((a as u32) as u128) << 64u128) | (((b as u32) as u128) << 32u128) | ((c as u32) as u128)
}

/// Index key of a quantised point.
pub open spec fn qkey(q: QPoint) -> u128 {
    pack_key(q[0], q[1], q[2])
}

proof fn lemma_pack_injective(a: i32, b: i32, c: i32, d: i32, e: i32, f: i32)
    by (bit_vector)
    requires
        pack_key(a, b, c) == pack_key(d, e, f),
    ensures
        a == d,
        b == e,
        c == f,
{
}

proof fn lemma_qkey_injective(p: QPoint, q: QPoint)
    requires
        qkey(p) == qkey(q),
    ensures
        p == q,
{
    lemma_pack_injective(p[0], p[1], p[2], q[0], q[1], q[2]);
    assert(p =~= q);
}

fn point_key(q: &QPoint) -> (k: u128)
    ensures
        k == qkey(*q),
{
    (((q[0] as u32) as u128) << 64u128) | (((q[1] as u32) as u128) << 32u128) | ((q[2] as u32) as u128)
}

/// The segments listed under key `k` (none when the key is absent).
pub open spec fn key_list(m: Map<u128, Vec<usize>>, k: u128) -> Seq<usize> {
    if m.contains_key(k) {
        m[k]@
    } else {
        Seq::empty()
    }
}

/// `l` lists, in ascending order, exactly the segments before `i` that have
/// an end at `q` (a segment with both ends there is listed twice).
pub open spec fn candidates_ok(segs: Seq<(QPoint, QPoint)>, l: Seq<usize>, q: QPoint, i: int) -> bool {
    &&& forall|t: int| 0 <= t < l.len() ==> (#[trigger] l[t]) < i && touches(segs, l[t] as int, q)
    &&& forall|t1: int, t2: int| 0 <= t1 <= t2 < l.len() ==> #[trigger] l[t1] <= #[trigger] l[t2]
    &&& forall|j: int| 0 <= j < i && #[trigger] touches(segs, j, q) ==> l.contains(j as usize)
}

/// The point index lists, for every point, the segments before `i` that
/// touch it.
pub open spec fn index_ok(segs: Seq<(QPoint, QPoint)>, m: Map<u128, Vec<usize>>, i: int) -> bool {
    forall|q: QPoint| #[trigger] candidates_ok(segs, key_list(m, qkey(q)), q, i)
}

/// Files `i` at the end of the list under key `k`.
pub(crate) fn add_candidate(index: &mut HashMap<u128, Vec<usize>>, k: u128, i: usize)
    ensures
        key_list(final(index)@, k) == key_list(old(index)@, k).push(i),
        forall|k2: u128| k2 != k ==> #[trigger] key_list(final(index)@, k2) == key_list(old(index)@, k2),
{
    let removed = index.remove(&k);
    let mut v = match removed {
        Some(v) => v,
        None => Vec::new(),
    };
    v.push(i);
    index.insert(k, v);
}

proof fn lemma_index_step(
    segs: Seq<(QPoint, QPoint)>,
    m0: Map<u128, Vec<usize>>,
    m1: Map<u128, Vec<usize>>,
    m2: Map<u128, Vec<usize>>,
    i: int,
)
    requires
        0 <= i < segs.len(),
        segs.len() <= usize::MAX,
        index_ok(segs, m0, i),
        key_list(m1, qkey(segs[i].0)) == key_list(m0, qkey(segs[i].0)).push(i as usize),
        forall|k2: u128| k2 != qkey(segs[i].0) ==> #[trigger] key_list(m1, k2) == key_list(m0, k2),
        key_list(m2, qkey(segs[i].1)) == key_list(m1, qkey(segs[i].1)).push(i as usize),
        forall|k2: u128| k2 != qkey(segs[i].1) ==> #[trigger] key_list(m2, k2) == key_list(m1, k2),
    ensures
        index_ok(segs, m2, i + 1),
{
    let k0 = qkey(segs[i].0);
    let k1 = qkey(segs[i].1);
    assert forall|q: QPoint| #[trigger] candidates_ok(segs, key_list(m2, qkey(q)), q, i + 1) by {
        let k = qkey(q);
        let l0 = key_list(m0, k);
        assert(candidates_ok(segs, l0, q, i));
        if k == k0 {
            lemma_qkey_injective(q, segs[i].0);
        }
        if k == k1 {
            lemma_qkey_injective(q, segs[i].1);
        }
        let c = i as usize;
        if k == k0 && k == k1 {
            lemma_push_candidate(segs, l0, q, i);
            lemma_push_candidate_again(segs, l0.push(c), q, i);
        } else if k == k0 {
            lemma_push_candidate(segs, l0, q, i);
        } else if k == k1 {
            lemma_push_candidate(segs, l0, q, i);
        } else {
            assert(!touches(segs, i, q));
            assert(key_list(m2, k) == l0);
        }
    }
}

proof fn lemma_push_candidate(segs: Seq<(QPoint, QPoint)>, l: Seq<usize>, q: QPoint, i: int)
    requires
        0 <= i < segs.len(),
        segs.len() <= usize::MAX,
        candidates_ok(segs, l, q, i),
        touches(segs, i, q),
    ensures
        candidates_ok(segs, l.push(i as usize), q, i + 1),
{
    let l2 = l.push(i as usize);
    assert forall|t: int| 0 <= t < l2.len() implies (#[trigger] l2[t]) < i + 1 && touches(segs, l2[t] as int, q) by {
        if t < l.len() {
            assert(l2[t] == l[t]);
        }
    }
    assert forall|t1: int, t2: int| 0 <= t1 <= t2 < l2.len() implies #[trigger] l2[t1] <= #[trigger] l2[t2] by {
        if t2 < l.len() {
            assert(l2[t1] == l[t1] && l2[t2] == l[t2]);
        } else if t1 < l.len() {
            assert(l2[t1] == l[t1]);
            assert(l[t1] < i);
        }
    }
    assert forall|j: int| 0 <= j < i + 1 && #[trigger] touches(segs, j, q) implies l2.contains(j as usize) by {
        if j < i {
            assert(l.contains(j as usize));
            let t = choose|t: int| 0 <= t < l.len() && l[t] == j as usize;
            assert(l2[t] == j as usize);
        } else {
            assert(l2[l.len() as int] == j as usize);
        }
    }
}

proof fn lemma_push_candidate_again(segs: Seq<(QPoint, QPoint)>, l: Seq<usize>, q: QPoint, i: int)
    requires
        0 <= i < segs.len(),
        segs.len() <= usize::MAX,
        candidates_ok(segs, l, q, i + 1),
        touches(segs, i, q),
    ensures
        candidates_ok(segs, l.push(i as usize), q, i + 1),
{
    let l2 = l.push(i as usize);
    assert forall|t: int| 0 <= t < l2.len() implies (#[trigger] l2[t]) < i + 1 && touches(segs, l2[t] as int, q) by {
        if t < l.len() {
            assert(l2[t] == l[t]);
        }
    }
    assert forall|t1: int, t2: int| 0 <= t1 <= t2 < l2.len() implies #[trigger] l2[t1] <= #[trigger] l2[t2] by {
        if t2 < l.len() {
            assert(l2[t1] == l[t1] && l2[t2] == l[t2]);
        } else if t1 < l.len() {
            assert(l2[t1] == l[t1]);
            assert(l[t1] < i + 1);
        }
    }
    assert forall|j: int| 0 <= j < i + 1 && #[trigger] touches(segs, j, q) implies l2.contains(j as usize) by {
        assert(l.contains(j as usize));
        let t = choose|t: int| 0 <= t < l.len() && l[t] == j as usize;
        assert(l2[t] == j as usize);
    }
}

/// Builds the point index: every segment is filed under the keys of both
/// its ends, in segment order.
fn build_point_index(segs: &Vec<(QPoint, QPoint)>) -> (index: HashMap<u128, Vec<usize>>)
    ensures
        index_ok(segs@, index@, segs@.len() as int),
{
    let mut index: HashMap<u128, Vec<usize>> = HashMap::new();
    assert forall|q: QPoint| #[trigger] candidates_ok(segs@, key_list(index@, qkey(q)), q, 0) by {
        assert(key_list(index@, qkey(q)) =~= Seq::<usize>::empty());
    }
    let mut b: usize = 0;
    while b < segs.len()
        invariant
            b <= segs@.len(),
            index_ok(segs@, index@, b as int),
        decreases segs@.len() - b,
    {
        let k0 = point_key(&segs[b].0);
        let k1 = point_key(&segs[b].1);
        let ghost m0 = index@;
        add_candidate(&mut index, k0, b);
        let ghost m1 = index@;
        add_candidate(&mut index, k1, b);
        proof {
            lemma_index_step(segs@, m0, m1, index@, b as int);
        }
        b = b + 1;
    }
    index
}

proof fn lemma_first_unused_char(segs: Seq<(QPoint, QPoint)>, used: Seq<bool>, q: QPoint, j: int)
    requires
        0 <= j,
        segs.len() <= usize::MAX,
        used.len() == segs.len(),
    ensures
        match first_unused_from(segs, used, q, j) {
            Some(k) => {
                &&& j <= k < segs.len()
                &&& !used[k as int]
                &&& touches(segs, k as int, q)
                &&& forall|l: int| j <= l < k && #[trigger] touches(segs, l, q) ==> used[l]
            },
            None => forall|l: int| j <= l < segs.len() && #[trigger] touches(segs, l, q) ==> used[l],
        },
    decreases segs.len() - j,
{
    if j < segs.len() && !(!used[j] && touches(segs, j, q)) {
        lemma_first_unused_char(segs, used, q, j + 1);
    }
}

fn find_unused_touching(
    segs: &Vec<(QPoint, QPoint)>,
    used: &Vec<bool>,
    index: &HashMap<u128, Vec<usize>>,
    q: &QPoint,
) -> (r: Option<usize>)
    requires
        used@.len() == segs@.len(),
        index_ok(segs@, index@, segs@.len() as int),
    ensures
        r == first_unused_from(segs@, used@, *q, 0),
        r matches Some(j) ==> j < segs@.len(),
{
    let ghost n = segs@.len() as int;
    assert(segs@.len() == segs.len());
    proof {
        lemma_first_unused_char(segs@, used@, *q, 0);
        assert(candidates_ok(segs@, key_list(index@, qkey(*q)), *q, n));
    }
    let k = point_key(q);
    match index.get(&k) {
        None => {
            proof {
                assert(key_list(index@, qkey(*q)) =~= Seq::<usize>::empty());
                if let Some(m) = first_unused_from(segs@, used@, *q, 0) {
                    assert(key_list(index@, qkey(*q)).contains(m));
                }
            }
            None
        },
        Some(list) => {
            assert(list@ == key_list(index@, qkey(*q)));
            let mut t: usize = 0;
            while t < list.len()
                invariant
                    used@.len() == segs@.len(),
                    n == segs@.len(),
                    candidates_ok(segs@, list@, *q, n),
                    t <= list@.len(),
                    forall|u: int| 0 <= u < t ==> used@[#[trigger] list@[u] as int],
                    match first_unused_from(segs@, used@, *q, 0) {
                        Some(m) => {
                            &&& 0 <= m < n
                            &&& !used@[m as int]
                            &&& touches(segs@, m as int, *q)
                            &&& forall|l: int| 0 <= l < m && #[trigger] touches(segs@, l, *q) ==> used@[l]
                        },
                        None => forall|l: int| 0 <= l < n && #[trigger] touches(segs@, l, *q) ==> used@[l],
                    },
                decreases list@.len() - t,
            {
                let c = list[t];
                assert(c < n && touches(segs@, c as int, *q));
                if !used[c] {
                    proof {
                        match first_unused_from(segs@, used@, *q, 0) {
                            Some(m) => {
                                assert(list@.contains(m));
                                let p = choose|p: int| 0 <= p < list@.len() && list@[p] == m;
                                if p < t {
                                    assert(used@[list@[p] as int]);
                                }
                                assert(list@[t as int] <= list@[p]);
                                if c < m {
                                    assert(used@[c as int]);
                                }
                            },
                            None => {
                                assert(used@[c as int]);
                            },
                        }
                    }
                    return Some(c);
                }
                t = t + 1;
            }
            proof {
                if let Some(m) = first_unused_from(segs@, used@, *q, 0) {
                    assert(list@.contains(m));
                    let p = choose|p: int| 0 <= p < list@.len() && list@[p] == m;
                    assert(used@[list@[p] as int]);
                }
            }
            None
        },
    }
}

proof fn lemma_first_unused_bounds(segs: Seq<(QPoint, QPoint)>, used: Seq<bool>, q: QPoint, j: int)
    requires
        j >= 0,
        segs.len() <= usize::MAX,
    ensures
        first_unused_from(segs, used, q, j) matches Some(k) ==> j <= k < segs.len(),
    decreases segs.len() - j,
{
    if j < segs.len() && !(!used[j] && touches(segs, j, q)) {
        lemma_first_unused_bounds(segs, used, q, j + 1);
    }
}

/// Chains contour segments, given by the quantised positions of their ends,
/// into closed outlines of at least three points.
pub fn chain_outlines(segs: &Vec<(QPoint, QPoint)>) -> (outlines: Vec<Vec<SegmentEnd>>)
    ensures
        outlines@.len() == segment_outlines(segs@).len(),
        forall|k: int| 0 <= k < outlines@.len() ==> #[trigger] outlines@[k]@ == segment_outlines(segs@)[k],
{
    let n = segs.len();
    let mut used: Vec<bool> = Vec::new();
    let mut z: usize = 0;
    while z < n
        invariant
            z <= n,
            n == segs@.len(),
            used@ == Seq::new(z as nat, |i: int| false),
        decreases n - z,
    {
        used.push(false);
        z = z + 1;
        assert(used@ =~= Seq::new(z as nat, |i: int| false));
    }
    let index = build_point_index(segs);
    let mut outlines: Vec<Vec<SegmentEnd>> = Vec::new();
    let ghost target = segment_outlines(segs@);
    let ghost mut found: Seq<Seq<SegmentEnd>> = Seq::empty();
    let mut i: usize = 0;
    while i < n
        invariant
            i <= n,
            n == segs@.len(),
            used@.len() == n,
            outlines@.len() == found.len(),
            forall|k: int| 0 <= k < found.len() ==> #[trigger] outlines@[k]@ == found[k],
            outlines_from(segs@, i as int, used@, found) == target,
            index_ok(segs@, index@, n as int),
        decreases n - i,
    {
        if used[i] {
            i = i + 1;
        } else {
            let ghost used_start = used@.update(i as int, true);
            used.set(i, true);
            let start = segs[i].0;
            let mut pts: Vec<SegmentEnd> = Vec::new();
            pts.push((i, 0));
            pts.push((i, 1));
            let mut last: SegmentEnd = (i, 1);
            let ghost goal = extend_outline(segs@, used_start, pts@, last, start, n as nat);
            let mut fuel: usize = n;
            assert(pts@ =~= seq![(i as usize, 0usize), (i as usize, 1usize)]);
            while fuel > 0
                invariant_except_break
                    extend_outline(segs@, used@, pts@, last, start, fuel as nat) == goal,
                invariant
                    n == segs@.len(),
                    used@.len() == n,
                    last.0 < n,
                    fuel <= n,
                    index_ok(segs@, index@, n as int),
                ensures
                    used@.len() == n,
                    (used@, pts@) == goal,
                decreases fuel,
            {
                let q = end_point(segs, last);
                let found_j = find_unused_touching(segs, &used, &index, &q);
                match found_j {
                    None => {
                        break;
                    },
                    Some(j) => {
                        let next: SegmentEnd = if qpoints_equal(&segs[j].0, &q) {
                            (j, 1)
                        } else {
                            (j, 0)
                        };
                        assert(next == far_end(segs@, j, q));
                        used.set(j, true);
                        let next_q = end_point(segs, next);
                        if qpoints_equal(&next_q, &start) {
                            break;
                        }
                        pts.push(next);
                        last = next;
                        fuel = fuel - 1;
                    },
                }
            }
            if pts.len() >= 3 {
                proof {
                    found = found.push(pts@);
                }
                outlines.push(pts);
            }
            i = i + 1;
        }
    }
    outlines
}

/// A point names an end of one of the segments.
pub open spec fn valid_end(segs: Seq<(QPoint, QPoint)>, p: SegmentEnd) -> bool {
    p.0 < segs.len() && p.1 <= 1
}

proof fn lemma_extend_valid(
    segs: Seq<(QPoint, QPoint)>,
    used: Seq<bool>,
    pts: Seq<SegmentEnd>,
    last: SegmentEnd,
    start: QPoint,
    fuel: nat,
)
    requires
        segs.len() <= usize::MAX,
        used.len() == segs.len(),
        valid_end(segs, last),
        forall|k: int| 0 <= k < pts.len() ==> valid_end(segs, #[trigger] pts[k]),
    ensures
        extend_outline(segs, used, pts, last, start, fuel).0.len() == segs.len(),
        extend_outline(segs, used, pts, last, start, fuel).1.len() >= pts.len(),
        extend_outline(segs, used, pts, last, start, fuel).1.take(pts.len() as int) == pts,
        forall|k: int|
            0 <= k < extend_outline(segs, used, pts, last, start, fuel).1.len() ==> valid_end(
                segs,
                #[trigger] extend_outline(segs, used, pts, last, start, fuel).1[k],
            ),
    decreases fuel,
{
    assert(pts.take(pts.len() as int) =~= pts);
    if fuel > 0 {
        let q = end_key(segs, last);
        lemma_first_unused_bounds(segs, used, q, 0);
        match first_unused_from(segs, used, q, 0) {
            None => {},
            Some(j) => {
                let next = far_end(segs, j, q);
                let used2 = used.update(j as int, true);
                if end_key(segs, next) != start {
                    lemma_extend_valid(segs, used2, pts.push(next), next, start, (fuel - 1) as nat);
                    let r = extend_outline(segs, used2, pts.push(next), next, start, (fuel - 1) as nat).1;
                    assert(r.take(pts.len() as int) =~= r.take((pts.len() + 1) as int).take(pts.len() as int));
                    assert(pts.push(next).take(pts.len() as int) =~= pts);
                }
            },
        }
    }
}

proof fn lemma_outlines_valid(
    segs: Seq<(QPoint, QPoint)>,
    i: int,
    used: Seq<bool>,
    found: Seq<Seq<SegmentEnd>>,
)
    requires
        segs.len() <= usize::MAX,
        used.len() == segs.len(),
        forall|o: int| 0 <= o < found.len() ==> (#[trigger] found[o]).len() >= 3,
        forall|o: int, k: int| 0 <= o < found.len() && 0 <= k < found[o].len() ==> valid_end(segs, #[trigger] found[o][k]),
    ensures
        forall|o: int| 0 <= o < outlines_from(segs, i, used, found).len() ==> (#[trigger] outlines_from(segs, i, used, found)[o]).len() >= 3,
        forall|o: int, k: int|
            0 <= o < outlines_from(segs, i, used, found).len() && 0 <= k < outlines_from(segs, i, used, found)[o].len()
                ==> valid_end(segs, #[trigger] outlines_from(segs, i, used, found)[o][k]),
    decreases segs.len() - i,
{
    if 0 <= i < segs.len() {
        if used[i] {
            lemma_outlines_valid(segs, i + 1, used, found);
            assert(outlines_from(segs, i, used, found) == outlines_from(segs, i + 1, used, found));
        } else {
            let init = seq![(i as usize, 0usize), (i as usize, 1usize)];
            lemma_extend_valid(segs, used.update(i, true), init, (i as usize, 1usize), segs[i].0, segs.len());
            let (used2, pts) = extend_outline(segs, used.update(i, true), init, (i as usize, 1usize), segs[i].0, segs.len());
            let found2 = if pts.len() >= 3 { found.push(pts) } else { found };
            assert forall|o: int, k: int| 0 <= o < found2.len() && 0 <= k < found2[o].len() implies valid_end(segs, #[trigger] found2[o][k]) by {
                if o < found.len() {
                    assert(found2[o] == found[o]);
                } else {
                    assert(found2[o] == pts);
                }
            }
            assert forall|o: int| 0 <= o < found2.len() implies (#[trigger] found2[o]).len() >= 3 by {
                if o < found.len() {
                    assert(found2[o] == found[o]);
                }
            }
            lemma_outlines_valid(segs, i + 1, used2, found2);
            assert(outlines_from(segs, i, used, found) == outlines_from(segs, i + 1, used2, found2));
        }
    } else {
        assert(outlines_from(segs, i, used, found) == found);
    }
}

/// Every outline the chainer returns has at least three points, and every
/// point is an end (0 or 1) of one of the given segments.
pub proof fn law_outlines_are_closed_polygons(segs: Seq<(QPoint, QPoint)>)
    requires
        segs.len() <= usize::MAX,
    ensures
        forall|o: int| 0 <= o < segment_outlines(segs).len() ==> (#[trigger] segment_outlines(segs)[o]).len() >= 3,
        forall|o: int, k: int|
            0 <= o < segment_outlines(segs).len() && 0 <= k < segment_outlines(segs)[o].len()
                ==> valid_end(segs, #[trigger] segment_outlines(segs)[o][k]),
{
    lemma_outlines_valid(segs, 0, Seq::new(segs.len(), |i: int| false), Seq::empty());
}

/// Every outline starts with both ends of one segment, first end first.
pub proof fn law_outline_starts_with_segment(segs: Seq<(QPoint, QPoint)>)
    requires
        segs.len() <= usize::MAX,
    ensures
        forall|o: int| 0 <= o < segment_outlines(segs).len() ==> {
            let pts = #[trigger] segment_outlines(segs)[o];
            &&& pts[0].0 == pts[1].0
            &&& pts[0].1 == 0
            &&& pts[1].1 == 1
        },
{
    lemma_outlines_start(segs, 0, Seq::new(segs.len(), |i: int| false), Seq::empty());
}

proof fn lemma_outlines_start(
    segs: Seq<(QPoint, QPoint)>,
    i: int,
    used: Seq<bool>,
    found: Seq<Seq<SegmentEnd>>,
)
    requires
        segs.len() <= usize::MAX,
        used.len() == segs.len(),
        forall|o: int| 0 <= o < found.len() ==> {
            let pts = #[trigger] found[o];
            &&& pts.len() >= 2
            &&& pts[0].0 == pts[1].0
            &&& pts[0].1 == 0
            &&& pts[1].1 == 1
        },
    ensures
        forall|o: int| 0 <= o < outlines_from(segs, i, used, found).len() ==> {
            let pts = #[trigger] outlines_from(segs, i, used, found)[o];
            &&& pts.len() >= 2
            &&& pts[0].0 == pts[1].0
            &&& pts[0].1 == 0
            &&& pts[1].1 == 1
        },
    decreases segs.len() - i,
{
    if 0 <= i < segs.len() {
        if used[i] {
            lemma_outlines_start(segs, i + 1, used, found);
            assert(outlines_from(segs, i, used, found) == outlines_from(segs, i + 1, used, found));
        } else {
            let init = seq![(i as usize, 0usize), (i as usize, 1usize)];
            lemma_extend_valid(segs, used.update(i, true), init, (i as usize, 1usize), segs[i].0, segs.len());
            let (used2, pts) = extend_outline(segs, used.update(i, true), init, (i as usize, 1usize), segs[i].0, segs.len());
            assert(pts[0] == pts.take(2)[0]);
            assert(pts[1] == pts.take(2)[1]);
            let found2 = if pts.len() >= 3 { found.push(pts) } else { found };
            assert forall|o: int| 0 <= o < found2.len() implies {
                let p = #[trigger] found2[o];
                &&& p.len() >= 2
                &&& p[0].0 == p[1].0
                &&& p[0].1 == 0
                &&& p[1].1 == 1
            } by {
                if o < found.len() {
                    assert(found2[o] == found[o]);
                }
            }
            lemma_outlines_start(segs, i + 1, used2, found2);
            assert(outlines_from(segs, i, used, found) == outlines_from(segs, i + 1, used2, found2));
        }
    }
}

/// The other end of the same segment.
pub open spec fn opposite(p: SegmentEnd) -> SegmentEnd {
    (p.0, if p.1 == 0 { 1usize } else { 0usize })
}

/// Consecutive points are joined by segments: the segment of each point
/// after the first starts, at its other end, where the previous point is.
pub open spec fn linked(segs: Seq<(QPoint, QPoint)>, pts: Seq<SegmentEnd>) -> bool {
    forall|k1: int, k2: int|
        #![trigger pts[k1], pts[k2]]
        0 <= k1 && k2 == k1 + 1 && k2 < pts.len() ==> end_key(segs, opposite(pts[k2])) == end_key(segs, pts[k1])
}

proof fn lemma_extend_linked(
    segs: Seq<(QPoint, QPoint)>,
    used: Seq<bool>,
    pts: Seq<SegmentEnd>,
    last: SegmentEnd,
    start: QPoint,
    fuel: nat,
)
    requires
        segs.len() <= usize::MAX,
        used.len() == segs.len(),
        pts.len() >= 1,
        last == pts.last(),
        linked(segs, pts),
    ensures
        linked(segs, extend_outline(segs, used, pts, last, start, fuel).1),
    decreases fuel,
{
    if fuel > 0 {
        let q = end_key(segs, last);
        lemma_first_unused_char(segs, used, q, 0);
        match first_unused_from(segs, used, q, 0) {
            None => {},
            Some(j) => {
                let next = far_end(segs, j, q);
                let used2 = used.update(j as int, true);
                if end_key(segs, next) != start {
                    let pts2 = pts.push(next);
                    assert(end_key(segs, opposite(next)) == q);
                    assert forall|k1: int, k2: int|
                        #![trigger pts2[k1], pts2[k2]]
                        0 <= k1 && k2 == k1 + 1 && k2 < pts2.len() implies end_key(segs, opposite(pts2[k2])) == end_key(segs, pts2[k1]) by {
                        if k2 < pts.len() {
                            assert(pts2[k1] == pts[k1] && pts2[k2] == pts[k2]);
                        } else {
                            assert(pts2[k1] == last);
                        }
                    }
                    lemma_extend_linked(segs, used2, pts2, next, start, (fuel - 1) as nat);
                }
            },
        }
    }
}

proof fn lemma_outlines_linked(
    segs: Seq<(QPoint, QPoint)>,
    i: int,
    used: Seq<bool>,
    found: Seq<Seq<SegmentEnd>>,
)
    requires
        segs.len() <= usize::MAX,
        used.len() == segs.len(),
        forall|o: int| 0 <= o < found.len() ==> linked(segs, #[trigger] found[o]),
    ensures
        forall|o: int| 0 <= o < outlines_from(segs, i, used, found).len() ==> linked(segs, #[trigger] outlines_from(segs, i, used, found)[o]),
    decreases segs.len() - i,
{
    if 0 <= i < segs.len() {
        if used[i] {
            lemma_outlines_linked(segs, i + 1, used, found);
            assert(outlines_from(segs, i, used, found) == outlines_from(segs, i + 1, used, found));
        } else {
            let init = seq![(i as usize, 0usize), (i as usize, 1usize)];
            assert forall|k1: int, k2: int|
                #![trigger init[k1], init[k2]]
                0 <= k1 && k2 == k1 + 1 && k2 < init.len() implies end_key(segs, opposite(init[k2])) == end_key(segs, init[k1]) by {
                assert(k1 == 0 && k2 == 1);
            }
            lemma_extend_linked(segs, used.update(i, true), init, (i as usize, 1usize), segs[i].0, segs.len());
            lemma_extend_valid(segs, used.update(i, true), init, (i as usize, 1usize), segs[i].0, segs.len());
            let (used2, pts) = extend_outline(segs, used.update(i, true), init, (i as usize, 1usize), segs[i].0, segs.len());
            let found2 = if pts.len() >= 3 { found.push(pts) } else { found };
            assert forall|o: int| 0 <= o < found2.len() implies linked(segs, #[trigger] found2[o]) by {
                if o < found.len() {
                    assert(found2[o] == found[o]);
                }
            }
            lemma_outlines_linked(segs, i + 1, used2, found2);
            assert(outlines_from(segs, i, used, found) == outlines_from(segs, i + 1, used2, found2));
        }
    } else {
        assert(outlines_from(segs, i, used, found) == found);
    }
}

/// Every outline is a walk along the segments: each point after the first
/// is the far end of a segment whose other end lies where the previous
/// point does.
pub proof fn law_outlines_follow_segments(segs: Seq<(QPoint, QPoint)>)
    requires
        segs.len() <= usize::MAX,
    ensures
        forall|o: int, k: int|
            #![trigger segment_outlines(segs)[o][k]]
            0 <= o < segment_outlines(segs).len() && 0 < k < segment_outlines(segs)[o].len()
                ==> end_key(segs, opposite(segment_outlines(segs)[o][k])) == end_key(segs, segment_outlines(segs)[o][k - 1]),
{
    lemma_outlines_linked(segs, 0, Seq::new(segs.len(), |i: int| false), Seq::empty());
    assert forall|o: int, k: int|
        #![trigger segment_outlines(segs)[o][k]]
        0 <= o < segment_outlines(segs).len() && 0 < k < segment_outlines(segs)[o].len()
            implies end_key(segs, opposite(segment_outlines(segs)[o][k])) == end_key(segs, segment_outlines(segs)[o][k - 1]) by {
        let pts = segment_outlines(segs)[o];
        assert(linked(segs, pts));
        assert(pts[k - 1] == pts[k - 1] && pts[k] == pts[k]);
    }
}

} // verus!
