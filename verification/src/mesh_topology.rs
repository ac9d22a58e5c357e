//! Index-level mesh bookkeeping: reading triangle lists out of index
//! buffers, vertex welding by quantised key, and moving a selection of
//! triangles from one mesh part to another.
//!
//! Vertex attributes are floats and stay with the caller; here a vertex is
//! known by its position in the vertex buffer and by its welding key (the
//! vertex's position, normal and UV scaled by 10000 and truncated to `i32`).
use vstd::prelude::*;
use std::collections::{HashMap, HashSet};
use crate::capper::{add_candidate, key_list};

verus! {

broadcast use vstd::array::group_array_axioms, vstd::std_specs::hash::group_hash_axioms;

/// Welding key of a vertex.
pub type WeldKey = [i32; 8];

// ---------------------------------------------------------------------------
// Triangles out of index buffers
// ---------------------------------------------------------------------------

/// Splits an index buffer into triangles; a trailing incomplete triple is
/// ignored.
pub fn triangles_from_indices(indices: &Vec<u32>) -> (tris: Vec<[usize; 3]>)
    ensures
        tris@.len() == indices@.len() / 3,
        forall|t: int, k: int|
            0 <= t < tris@.len() && 0 <= k < 3 ==> #[trigger] tris@[t][k] == indices@[3 * t + k] as usize,
{
    let n = indices.len() / 3;
    let mut tris: Vec<[usize; 3]> = Vec::new();
    let mut t: usize = 0;
    while t < n
        invariant
            t <= n,
            n == indices@.len() / 3,
            tris@.len() == t,
            forall|s: int, k: int|
                0 <= s < t && 0 <= k < 3 ==> #[trigger] tris@[s][k] == indices@[3 * s + k] as usize,
        decreases n - t,
    {
        assert(indices@.len() == indices.len());
        assert(3 * t + 2 < indices@.len()) by (nonlinear_arith)
            requires
                t < n,
                n == indices@.len() / 3,
        ;
        let base = 3 * t;
        let tri = [indices[base] as usize, indices[base + 1] as usize, indices[base + 2] as usize];
        tris.push(tri);
        t = t + 1;
    }
    tris
}

/// The vertex order of a mesh: its index buffer when it has one, otherwise
/// `0, 1, ..., vertex_count - 1`.
pub fn vertex_order(indices: Option<&Vec<u32>>, vertex_count: usize) -> (order: Vec<usize>)
    ensures
        indices matches Some(idx) ==> order@.len() == idx@.len()
            && forall|i: int| 0 <= i < idx@.len() ==> #[trigger] order@[i] == idx@[i] as usize,
        indices is None ==> order@ == Seq::new(vertex_count as nat, |i: int| i as usize),
{
    let mut order: Vec<usize> = Vec::new();
    match indices {
        Some(idx) => {
            let mut i: usize = 0;
            while i < idx.len()
                invariant
                    i <= idx@.len(),
                    order@.len() == i,
                    forall|j: int| 0 <= j < i ==> #[trigger] order@[j] == idx@[j] as usize,
                decreases idx@.len() - i,
            {
                order.push(idx[i] as usize);
                i = i + 1;
            }
        },
        None => {
            let mut i: usize = 0;
            while i < vertex_count
                invariant
                    i <= vertex_count,
                    order@ == Seq::new(i as nat, |j: int| j as usize),
                decreases vertex_count - i,
            {
                order.push(i);
                i = i + 1;
                assert(order@ =~= Seq::new(i as nat, |j: int| j as usize));
            }
        },
    }
    order
}

/// Index buffer of a mesh built from `triangle_count` separate triangles:
/// triangle `t` uses vertices `3t`, `3t + 1`, `3t + 2`.
pub fn separate_triangle_indices(triangle_count: usize) -> (idx: Vec<u32>)
    requires
        3 * triangle_count <= u32::MAX + 1,
    ensures
        idx@ == Seq::new(3 * triangle_count as nat, |i: int| i as u32),
{
    let mut idx: Vec<u32> = Vec::new();
    let mut t: usize = 0;
    while t < triangle_count
        invariant
            t <= triangle_count,
            3 * triangle_count <= u32::MAX + 1,
            idx@ == Seq::new(3 * t as nat, |i: int| i as u32),
        decreases triangle_count - t,
    {
        let start = (3 * t) as u32;
        idx.push(start);
        idx.push(start + 1);
        idx.push(start + 2);
        t = t + 1;
        assert(idx@ =~= Seq::new(3 * t as nat, |i: int| i as u32));
    }
    idx
}

/// Number of indices kept when the procedural cap triangles, which start at
/// triangle `cap_start_tri`, are cut off an index buffer of `index_count`
/// entries; `None` when there is nothing to cut.
pub fn cap_cleanup_length(cap_start_tri: usize, index_count: usize) -> (keep: Option<usize>)
    requires
        3 * cap_start_tri <= usize::MAX,
    ensures
        3 * cap_start_tri < index_count ==> keep == Some((3 * cap_start_tri) as usize),
        3 * cap_start_tri >= index_count ==> keep is None,
{
    let keep = cap_start_tri * 3;
    if keep < index_count {
        Some(keep)
    } else {
        None
    }
}

/// Triangle count shown for one mesh: its index count over 3, or, for an
/// unindexed mesh, its vertex count over 3.
pub open spec fn mesh_polycount(index_count: Option<usize>, vertex_count: usize) -> int {
    match index_count {
        Some(n) => n as int / 3,
        None => vertex_count as int / 3,
    }
}

/// Sum of the triangle counts of several meshes.
pub open spec fn total_polycount(meshes: Seq<(Option<usize>, usize)>) -> int
    decreases meshes.len(),
{
    if meshes.len() == 0 {
        0
    } else {
        total_polycount(meshes.drop_last()) + mesh_polycount(meshes.last().0, meshes.last().1)
    }
}

/// Triangle count of an actor: the sum over its meshes of
/// `mesh_polycount`, given each mesh's index count (if indexed) and vertex
/// count.
pub fn polycount(meshes: &Vec<(Option<usize>, usize)>) -> (total: usize)
    requires
        total_polycount(meshes@) <= usize::MAX,
    ensures
        total == total_polycount(meshes@),
{
    let mut total: usize = 0;
    let mut i: usize = 0;
    while i < meshes.len()
        invariant
            i <= meshes@.len(),
            total == total_polycount(meshes@.take(i as int)),
            total_polycount(meshes@) <= usize::MAX,
        decreases meshes@.len() - i,
    {
        proof {
            assert(meshes@.take(i + 1).drop_last() =~= meshes@.take(i as int));
            lemma_total_polycount_prefix(meshes@, i + 1);
        }
        let (idx, verts) = meshes[i];
        let count = match idx {
            Some(n) => n / 3,
            None => verts / 3,
        };
        total = total + count;
        i = i + 1;
    }
    assert(meshes@.take(meshes@.len() as int) =~= meshes@);
    total
}

proof fn lemma_total_polycount_prefix(m: Seq<(Option<usize>, usize)>, k: int)
    requires
        0 <= k <= m.len(),
    ensures
        total_polycount(m.take(k)) <= total_polycount(m),
    decreases m.len() - k,
{
    if k < m.len() {
        assert(m.take(k + 1).drop_last() =~= m.take(k));
        let last = m.take(k + 1).last();
        assert(mesh_polycount(last.0, last.1) >= 0);
        assert(total_polycount(m.take(k + 1)) == total_polycount(m.take(k)) + mesh_polycount(last.0, last.1));
        lemma_total_polycount_prefix(m, k + 1);
    } else {
        assert(m.take(k) =~= m);
    }
}

// ---------------------------------------------------------------------------
// Welding
// ---------------------------------------------------------------------------

/// The corner list of a triangle, keeping only corners that name one of the
/// `n` vertices.
pub open spec fn kept_of_triangle(t: [usize; 3], n: nat) -> Seq<usize> {
    (if t[0] < n { seq![t[0]] } else { Seq::empty() })
        + (if t[1] < n { seq![t[1]] } else { Seq::empty() })
        + (if t[2] < n { seq![t[2]] } else { Seq::empty() })
}

/// All corners of a triangle list in order, skipping corners that name no
/// vertex (index `>= n`).
pub open spec fn kept_corners(tris: Seq<[usize; 3]>, n: nat) -> Seq<usize>
    decreases tris.len(),
{
    if tris.len() == 0 {
        Seq::empty()
    } else {
        kept_corners(tris.drop_last(), n) + kept_of_triangle(tris.last(), n)
    }
}

/// `sources` and `slots` are the welding of `corners` by `keys`:
/// `sources` lists one original vertex per distinct key, in order of first
/// use, and corner `m` is sent to slot `slots[m]`, the new vertex with the
/// same key.
pub open spec fn is_weld_of(
    keys: Seq<WeldKey>,
    corners: Seq<usize>,
    sources: Seq<usize>,
    slots: Seq<usize>,
) -> bool {
    &&& slots.len() == corners.len()
    &&& forall|m: int| 0 <= m < corners.len() ==> #[trigger] corners[m] < keys.len()
    &&& forall|m: int|
        0 <= m < slots.len() ==> #[trigger] slots[m] < sources.len()
            && keys[sources[slots[m] as int] as int] == keys[corners[m] as int]
    &&& forall|j1: int, j2: int|
        0 <= j1 < j2 < sources.len() ==> keys[#[trigger] sources[j1] as int] != keys[#[trigger] sources[j2] as int]
    &&& forall|j: int|
        #![trigger sources[j]]
        0 <= j < sources.len() ==> sources[j] < keys.len() && exists|m: int|
            0 <= m < corners.len() && #[trigger] slots[m] == j && corners[m] == sources[j]
                && forall|m2: int| 0 <= m2 < m ==> #[trigger] slots[m2] < j
}

/// Result of welding: the vertices kept (by original position) and, for
/// each corner, the new vertex it uses.
pub struct Weld {
    pub sources: Vec<usize>,
    pub slots: Vec<usize>,
}

fn keys_equal(a: &WeldKey, b: &WeldKey) -> (eq: bool)
    ensures
        eq == (*a == *b),
{
    let mut i: usize = 0;
    while i < 8
        invariant
            i <= 8,
            forall|k: int| 0 <= k < i ==> a[k] == b[k],
        decreases 8 - i,
    {
        if a[i] != b[i] {
            return false;
        }
        i = i + 1;
    }
    assert(*a =~= *b);
    true
}

/// Bucket of a welding key in the slot index: its first four components
/// packed side by side.  Keys in one bucket are told apart by comparing
/// them whole.
pub open spec fn weld_bucket(k: WeldKey) -> u128 {
    (((k[0] as u32) as u128) << 96u128) | (((k[1] as u32) as u128) << 64u128)
        | (((k[2] as u32) as u128) << 32u128) | ((k[3] as u32) as u128)
}

fn weld_bucket_of(k: &WeldKey) -> (b: u128)
    ensures
        b == weld_bucket(*k),
{
    (((k[0] as u32) as u128) << 96u128) | (((k[1] as u32) as u128) << 64u128)
        | (((k[2] as u32) as u128) << 32u128) | ((k[3] as u32) as u128)
}

/// The slot index files every new vertex under the bucket of its key, and
/// holds nothing else.
pub open spec fn slot_index_ok(keys: Seq<WeldKey>, sources: Seq<usize>, m: Map<u128, Vec<usize>>) -> bool {
    &&& forall|j: int| #![trigger sources[j]]
        0 <= j < sources.len() ==> key_list(m, weld_bucket(keys[sources[j] as int])).contains(j as usize)
    &&& forall|k: u128, t: int| 0 <= t < key_list(m, k).len() ==> #[trigger] key_list(m, k)[t] < sources.len()
}

proof fn lemma_slot_listed(keys: Seq<WeldKey>, sources: Seq<usize>, m: Map<u128, Vec<usize>>, j: int)
    requires
        slot_index_ok(keys, sources, m),
        0 <= j < sources.len(),
    ensures
        key_list(m, weld_bucket(keys[sources[j] as int])).contains(j as usize),
{
    assert(sources[j] == sources[j]);
}

fn find_slot(
    keys: &Vec<WeldKey>,
    sources: &Vec<usize>,
    index: &HashMap<u128, Vec<usize>>,
    key: &WeldKey,
) -> (found: Option<usize>)
    requires
        forall|j: int| 0 <= j < sources@.len() ==> #[trigger] sources@[j] < keys@.len(),
        slot_index_ok(keys@, sources@, index@),
    ensures
        found matches Some(j) ==> j < sources@.len() && keys@[sources@[j as int] as int] == *key,
        found is None ==> forall|j: int| 0 <= j < sources@.len() ==> keys@[#[trigger] sources@[j] as int] != *key,
{
    let b = weld_bucket_of(key);
    assert(sources@.len() == sources.len());
    match index.get(&b) {
        None => {
            proof {
                assert forall|j: int| 0 <= j < sources@.len() implies keys@[#[trigger] sources@[j] as int] != *key by {
                    if keys@[sources@[j] as int] == *key {
                        lemma_slot_listed(keys@, sources@, index@, j);
                        assert(key_list(index@, b).contains(j as usize));
                    }
                }
            }
            None
        },
        Some(bucket) => {
            assert(bucket@ == key_list(index@, b));
            let mut t: usize = 0;
            while t < bucket.len()
                invariant
                    bucket@ == key_list(index@, b),
                    b == weld_bucket(*key),
                    t <= bucket@.len(),
                    sources@.len() <= usize::MAX,
                    forall|j: int| 0 <= j < sources@.len() ==> #[trigger] sources@[j] < keys@.len(),
                    slot_index_ok(keys@, sources@, index@),
                    forall|u: int| 0 <= u < t ==> keys@[sources@[#[trigger] bucket@[u] as int] as int] != *key,
                decreases bucket@.len() - t,
            {
                let j = bucket[t];
                assert(key_list(index@, b)[t as int] < sources@.len());
                if keys_equal(&keys[sources[j]], key) {
                    return Some(j);
                }
                t = t + 1;
            }
            proof {
                assert forall|j: int| 0 <= j < sources@.len() implies keys@[#[trigger] sources@[j] as int] != *key by {
                    if keys@[sources@[j] as int] == *key {
                        lemma_slot_listed(keys@, sources@, index@, j);
                        assert(key_list(index@, b).contains(j as usize));
                        assert(bucket@.contains(j as usize));
                        let u = choose|u: int| 0 <= u < bucket@.len() && bucket@[u] == j as usize;
                        assert(keys@[sources@[bucket@[u] as int] as int] != *key);
                    }
                }
            }
            None
        },
    }
}

/// Welds the corners of `tris`: corners whose vertices have equal keys end
/// up sharing one new vertex.  Corners naming no vertex are dropped.  New
/// vertices are looked up through a hash map keyed by the bucket of their
/// welding key.
pub fn weld(keys: &Vec<WeldKey>, tris: &Vec<[usize; 3]>) -> (w: Weld)
    ensures
        is_weld_of(keys@, kept_corners(tris@, keys@.len()), w.sources@, w.slots@),
{
    let n = keys.len();
    let mut sources: Vec<usize> = Vec::new();
    let mut slots: Vec<usize> = Vec::new();
    let ghost mut corners: Seq<usize> = Seq::empty();
    let ghost mut firsts: Seq<int> = Seq::empty();
    let mut index: HashMap<u128, Vec<usize>> = HashMap::new();
    assert forall|k: u128, t: int| 0 <= t < key_list(index@, k).len() implies #[trigger] key_list(index@, k)[t] < sources@.len() by {
        assert(key_list(index@, k) =~= Seq::<usize>::empty());
    }
    let mut t: usize = 0;
    while t < tris.len()
        invariant
            n == keys@.len(),
            slot_index_ok(keys@, sources@, index@),
            t <= tris@.len(),
            corners == kept_corners(tris@.take(t as int), n as nat),
            slots@.len() == corners.len(),
            firsts.len() == sources@.len(),
            forall|m: int| 0 <= m < corners.len() ==> #[trigger] corners[m] < n,
            forall|j: int| 0 <= j < sources@.len() ==> #[trigger] sources@[j] < n,
            forall|m: int|
                0 <= m < slots@.len() ==> #[trigger] slots@[m] < sources@.len()
                    && keys@[sources@[slots@[m] as int] as int] == keys@[corners[m] as int],
            forall|j1: int, j2: int|
                0 <= j1 < j2 < sources@.len() ==> keys@[#[trigger] sources@[j1] as int] != keys@[#[trigger] sources@[j2] as int],
            forall|j: int|
                0 <= j < sources@.len() ==> {
                    let m = #[trigger] firsts[j];
                    &&& 0 <= m < corners.len()
                    &&& slots@[m] == j
                    &&& corners[m] == sources@[j]
                    &&& forall|m2: int| 0 <= m2 < m ==> #[trigger] slots@[m2] < j
                },
        decreases tris@.len() - t,
    {
        let tri = tris[t];
        let ghost before = corners;
        let mut c: usize = 0;
        while c < 3
            invariant
                n == keys@.len(),
                slot_index_ok(keys@, sources@, index@),
                t < tris@.len(),
                tri == tris@[t as int],
                c <= 3,
                corners == before + (if c >= 1 && tri[0] < n { seq![tri[0]] } else { Seq::<usize>::empty() })
                    + (if c >= 2 && tri[1] < n { seq![tri[1]] } else { Seq::<usize>::empty() })
                    + (if c >= 3 && tri[2] < n { seq![tri[2]] } else { Seq::<usize>::empty() }),
                slots@.len() == corners.len(),
                firsts.len() == sources@.len(),
                forall|m: int| 0 <= m < corners.len() ==> #[trigger] corners[m] < n,
                forall|j: int| 0 <= j < sources@.len() ==> #[trigger] sources@[j] < n,
                forall|m: int|
                    0 <= m < slots@.len() ==> #[trigger] slots@[m] < sources@.len()
                        && keys@[sources@[slots@[m] as int] as int] == keys@[corners[m] as int],
                forall|j1: int, j2: int|
                    0 <= j1 < j2 < sources@.len() ==> keys@[#[trigger] sources@[j1] as int] != keys@[#[trigger] sources@[j2] as int],
                forall|j: int|
                    0 <= j < sources@.len() ==> {
                        let m = #[trigger] firsts[j];
                        &&& 0 <= m < corners.len()
                        &&& slots@[m] == j
                        &&& corners[m] == sources@[j]
                        &&& forall|m2: int| 0 <= m2 < m ==> #[trigger] slots@[m2] < j
                    },
            decreases 3 - c,
        {
            let vi = tri[c];
            let ghost prev = corners;
            if vi < n {
                let key = keys[vi];
                match find_slot(keys, &sources, &index, &key) {
                    Some(j) => {
                        slots.push(j);
                    },
                    None => {
                        let j = sources.len();
                        proof {
                            firsts = firsts.push(corners.len() as int);
                        }
                        let ghost old_sources = sources@;
                        let ghost old_index = index@;
                        let b = weld_bucket_of(&key);
                        add_candidate(&mut index, b, j);
                        sources.push(vi);
                        slots.push(j);
                        proof {
                            assert forall|i: int| #![trigger sources@[i]] 0 <= i < sources@.len() implies
                                key_list(index@, weld_bucket(keys@[sources@[i] as int])).contains(i as usize) by {
                                if i < old_sources.len() {
                                    assert(sources@[i] == old_sources[i]);
                                    let kb = weld_bucket(keys@[old_sources[i] as int]);
                                    assert(key_list(old_index, kb).contains(i as usize));
                                    let u = choose|u: int| 0 <= u < key_list(old_index, kb).len() && key_list(old_index, kb)[u] == i as usize;
                                    if kb == b {
                                        assert(key_list(index@, kb)[u] == i as usize);
                                    } else {
                                        assert(key_list(index@, kb) == key_list(old_index, kb));
                                    }
                                } else {
                                    assert(key_list(index@, b)[key_list(old_index, b).len() as int] == j);
                                }
                            }
                            assert forall|k: u128, u: int| 0 <= u < key_list(index@, k).len() implies #[trigger] key_list(index@, k)[u] < sources@.len() by {
                                if k == b {
                                    if u < key_list(old_index, b).len() {
                                        assert(key_list(index@, b)[u] == key_list(old_index, b)[u]);
                                    }
                                } else {
                                    assert(key_list(index@, k) == key_list(old_index, k));
                                }
                            }
                        }
                    },
                }
                proof {
                    corners = corners.push(vi);
                }
            }
            proof {
                if c == 0 {
                    assert(corners =~= before + (if tri[0] < n { seq![tri[0]] } else { Seq::<usize>::empty() })
                        + Seq::<usize>::empty() + Seq::<usize>::empty());
                } else if c == 1 {
                    assert(corners =~= before + (if tri[0] < n { seq![tri[0]] } else { Seq::<usize>::empty() })
                        + (if tri[1] < n { seq![tri[1]] } else { Seq::<usize>::empty() }) + Seq::<usize>::empty());
                } else {
                    assert(corners =~= before + (if tri[0] < n { seq![tri[0]] } else { Seq::<usize>::empty() })
                        + (if tri[1] < n { seq![tri[1]] } else { Seq::<usize>::empty() })
                        + (if tri[2] < n { seq![tri[2]] } else { Seq::<usize>::empty() }));
                }
                assert forall|j: int| 0 <= j < sources@.len() implies {
                    let m = #[trigger] firsts[j];
                    &&& 0 <= m < corners.len()
                    &&& slots@[m] == j
                    &&& corners[m] == sources@[j]
                    &&& forall|m2: int| 0 <= m2 < m ==> #[trigger] slots@[m2] < j
                } by {
                    let m = firsts[j];
                    assert forall|m2: int| 0 <= m2 < m implies #[trigger] slots@[m2] < j by {
                        if m2 < prev.len() {
                        }
                    }
                }
            }
            c = c + 1;
        }
        proof {
            assert(tris@.take(t + 1).drop_last() =~= tris@.take(t as int));
            assert(corners =~= kept_corners(tris@.take(t + 1), n as nat));
        }
        t = t + 1;
    }
    proof {
        assert(tris@.take(tris@.len() as int) =~= tris@);
        assert forall|j: int| #![trigger sources@[j]] 0 <= j < sources@.len() implies sources@[j] < keys@.len() && exists|m: int|
            0 <= m < corners.len() && #[trigger] slots@[m] == j && corners[m] == sources@[j]
                && forall|m2: int| 0 <= m2 < m ==> #[trigger] slots@[m2] < j by {
            let m = firsts[j];
            assert(slots@[m] == j);
        }
    }
    Weld { sources, slots }
}

/// Slots as a 32-bit index buffer (each slot cast to `u32`).
pub fn slots_to_indices(slots: &Vec<usize>) -> (idx: Vec<u32>)
    ensures
        idx@.len() == slots@.len(),
        forall|i: int| 0 <= i < slots@.len() ==> #[trigger] idx@[i] == slots@[i] as u32,
{
    let mut idx: Vec<u32> = Vec::new();
    let mut i: usize = 0;
    while i < slots.len()
        invariant
            i <= slots@.len(),
            idx@.len() == i,
            forall|j: int| 0 <= j < i ==> #[trigger] idx@[j] == slots@[j] as u32,
        decreases slots@.len() - i,
    {
        idx.push(slots[i] as u32);
        i = i + 1;
    }
    idx
}

// ---------------------------------------------------------------------------
// Moving triangles between parts
// ---------------------------------------------------------------------------

/// Triangles of `tris` whose position is not in `selected` (first) and
/// those whose position is (second), each in their original order.
pub open spec fn partition_triangles(tris: Seq<[usize; 3]>, selected: Set<usize>) -> (Seq<[usize; 3]>, Seq<[usize; 3]>)
    decreases tris.len(),
{
    if tris.len() == 0 {
        (Seq::empty(), Seq::empty())
    } else {
        let (keep, moved) = partition_triangles(tris.drop_last(), selected);
        if selected.contains((tris.len() - 1) as usize) {
            (keep, moved.push(tris.last()))
        } else {
            (keep.push(tris.last()), moved)
        }
    }
}

/// `tris` with every corner shifted by `offset`.
pub open spec fn offset_triangles(tris: Seq<[usize; 3]>, offset: nat) -> Seq<[usize; 3]> {
    Seq::new(
        tris.len(),
        |i: int| [(tris[i][0] + offset) as usize, (tris[i][1] + offset) as usize, (tris[i][2] + offset) as usize],
    )
}

/// The two weldings of a triangle transfer.  `src` welds the source part's
/// remaining triangles over the source vertices; `dst` welds the target
/// part's triangles followed by the moved ones over the target vertices
/// followed by the source vertices.
pub struct TransferPlan {
    pub src: Weld,
    pub dst: Weld,
}

/// Splits `tris` by membership of each triangle's position in `selected`.
pub fn split_selected(tris: &Vec<[usize; 3]>, selected: &HashSet<usize>) -> (r: (Vec<[usize; 3]>, Vec<[usize; 3]>))
    ensures
        (r.0@, r.1@) == partition_triangles(tris@, selected@),
{
    let mut keep: Vec<[usize; 3]> = Vec::new();
    let mut moved: Vec<[usize; 3]> = Vec::new();
    let mut i: usize = 0;
    while i < tris.len()
        invariant
            i <= tris@.len(),
            (keep@, moved@) == partition_triangles(tris@.take(i as int), selected@),
        decreases tris@.len() - i,
    {
        proof {
            assert(tris@.take(i + 1).drop_last() =~= tris@.take(i as int));
        }
        if selected.contains(&i) {
            moved.push(tris[i]);
        } else {
            keep.push(tris[i]);
        }
        i = i + 1;
    }
    assert(tris@.take(tris@.len() as int) =~= tris@);
    (keep, moved)
}

/// The target part's triangles followed by the moved triangles, whose
/// corners are shifted past the target part's `offset` vertices.
pub fn append_offset(dst_tris: &Vec<[usize; 3]>, moved: &Vec<[usize; 3]>, offset: usize) -> (all: Vec<[usize; 3]>)
    requires
        forall|t: int, k: int| 0 <= t < moved@.len() && 0 <= k < 3 ==> #[trigger] moved@[t][k] + offset <= usize::MAX,
    ensures
        all@ == dst_tris@ + offset_triangles(moved@, offset as nat),
{
    let mut all: Vec<[usize; 3]> = Vec::new();
    let mut i: usize = 0;
    while i < dst_tris.len()
        invariant
            i <= dst_tris@.len(),
            all@ == dst_tris@.take(i as int),
        decreases dst_tris@.len() - i,
    {
        all.push(dst_tris[i]);
        i = i + 1;
        assert(all@ =~= dst_tris@.take(i as int));
    }
    assert(dst_tris@.take(dst_tris@.len() as int) =~= dst_tris@);
    let mut j: usize = 0;
    while j < moved.len()
        invariant
            j <= moved@.len(),
            forall|t: int, k: int| 0 <= t < moved@.len() && 0 <= k < 3 ==> #[trigger] moved@[t][k] + offset <= usize::MAX,
            all@ == dst_tris@ + offset_triangles(moved@.take(j as int), offset as nat),
        decreases moved@.len() - j,
    {
        let t = moved[j];
        assert(t[0] + offset <= usize::MAX && t[1] + offset <= usize::MAX && t[2] + offset <= usize::MAX) by {
            assert(moved@[j as int][0] + offset <= usize::MAX);
            assert(moved@[j as int][1] + offset <= usize::MAX);
            assert(moved@[j as int][2] + offset <= usize::MAX);
        }
        all.push([t[0] + offset, t[1] + offset, t[2] + offset]);
        j = j + 1;
        assert(all@ =~= dst_tris@ + offset_triangles(moved@.take(j as int), offset as nat));
    }
    assert(moved@.take(moved@.len() as int) =~= moved@);
    all
}

/// Appends the source vertices' keys after the target's.
fn concat_keys(a: &Vec<WeldKey>, b: &Vec<WeldKey>) -> (c: Vec<WeldKey>)
    ensures
        c@ == a@ + b@,
{
    let mut c: Vec<WeldKey> = Vec::new();
    let mut i: usize = 0;
    while i < a.len()
        invariant
            i <= a@.len(),
            c@ == a@.take(i as int),
        decreases a@.len() - i,
    {
        c.push(a[i]);
        i = i + 1;
        assert(c@ =~= a@.take(i as int));
    }
    let mut j: usize = 0;
    while j < b.len()
        invariant
            j <= b@.len(),
            c@ == a@ + b@.take(j as int),
        decreases b@.len() - j,
    {
        c.push(b[j]);
        j = j + 1;
        assert(c@ =~= a@ + b@.take(j as int));
    }
    assert(a@.take(a@.len() as int) =~= a@);
    assert(b@.take(b@.len() as int) =~= b@);
    c
}

/// Plans moving the selected triangles of a source part into a target
/// part.  The source keeps its unselected triangles, re-welded; the target
/// gets its own triangles followed by the moved ones (their corners shifted
/// past the target's vertices), welded over the target's vertices followed
/// by the source's.
pub fn transfer_triangles(
    src_keys: &Vec<WeldKey>,
    src_tris: &Vec<[usize; 3]>,
    dst_keys: &Vec<WeldKey>,
    dst_tris: &Vec<[usize; 3]>,
    selected: &HashSet<usize>,
) -> (plan: TransferPlan)
    requires
        forall|t: int, k: int| 0 <= t < src_tris@.len() && 0 <= k < 3 ==> #[trigger] src_tris@[t][k] + dst_keys@.len() <= usize::MAX,
    ensures
        ({
            let (keep, moved) = partition_triangles(src_tris@, selected@);
            &&& is_weld_of(src_keys@, kept_corners(keep, src_keys@.len()), plan.src.sources@, plan.src.slots@)
            &&& is_weld_of(
                dst_keys@ + src_keys@,
                kept_corners(dst_tris@ + offset_triangles(moved, dst_keys@.len()), (dst_keys@.len() + src_keys@.len()) as nat),
                plan.dst.sources@,
                plan.dst.slots@,
            )
        }),
{
    let (keep, moved) = split_selected(src_tris, selected);
    proof {
        lemma_partition_members(src_tris@, selected@);
        assert forall|t: int, k: int| 0 <= t < moved@.len() && 0 <= k < 3 implies #[trigger] moved@[t][k] + dst_keys@.len() <= usize::MAX by {
            let s = choose|s: int| 0 <= s < src_tris@.len() && #[trigger] partition_triangles(src_tris@, selected@).1[t] == src_tris@[s];
            assert(src_tris@[s][k] + dst_keys@.len() <= usize::MAX);
        }
    }
    let src = weld(src_keys, &keep);
    let combined = concat_keys(dst_keys, src_keys);
    let all = append_offset(dst_tris, &moved, dst_keys.len());
    let dst = weld(&combined, &all);
    TransferPlan { src, dst }
}

proof fn lemma_partition_members(tris: Seq<[usize; 3]>, selected: Set<usize>)
    ensures
        forall|t: int| 0 <= t < partition_triangles(tris, selected).1.len() ==> exists|s: int|
            0 <= s < tris.len() && #[trigger] partition_triangles(tris, selected).1[t] == tris[s],
    decreases tris.len(),
{
    if tris.len() > 0 {
        lemma_partition_members(tris.drop_last(), selected);
        let moved = partition_triangles(tris, selected).1;
        let prev = partition_triangles(tris.drop_last(), selected).1;
        assert forall|t: int| 0 <= t < moved.len() implies exists|s: int|
            0 <= s < tris.len() && #[trigger] moved[t] == tris[s] by {
            if t < prev.len() {
                let s = choose|s: int| 0 <= s < tris.drop_last().len() && prev[t] == tris.drop_last()[s];
                assert(moved[t] == tris[s]);
            } else {
                assert(moved[t] == tris[tris.len() - 1]);
            }
        }
    }
}

// ---------------------------------------------------------------------------
// Laws
// ---------------------------------------------------------------------------

/// A transfer neither loses nor duplicates triangles: the kept and moved
/// lists together have as many triangles as the source had, and a triangle
/// is moved exactly when its position was selected.
pub proof fn law_transfer_partition(tris: Seq<[usize; 3]>, selected: Set<usize>)
    ensures
        partition_triangles(tris, selected).0.len() + partition_triangles(tris, selected).1.len() == tris.len(),
        partition_triangles(tris, selected).1.len() == Set::new(|i: int| 0 <= i < tris.len() && selected.contains(i as usize)).len(),
    decreases tris.len(),
{
    let sel = Set::new(|i: int| 0 <= i < tris.len() && selected.contains(i as usize));
    if tris.len() == 0 {
        assert(sel =~= Set::<int>::empty());
    } else {
        law_transfer_partition(tris.drop_last(), selected);
        let prev = Set::new(|i: int| 0 <= i < tris.drop_last().len() && selected.contains(i as usize));
        let last = tris.len() - 1;
        vstd::set_lib::lemma_int_range(0, last);
        assert(prev.subset_of(vstd::set_lib::set_int_range(0, last)));
        vstd::set_lib::lemma_len_subset(prev, vstd::set_lib::set_int_range(0, last));
        if selected.contains(last as usize) {
            assert(sel =~= prev.insert(last));
        } else {
            assert(sel =~= prev);
        }
    }
}

/// Welding never changes which key a corner sees: every corner's new vertex
/// carries the key of the corner's original vertex, and no two new vertices
/// share a key.
pub proof fn law_weld_preserves_keys(keys: Seq<WeldKey>, corners: Seq<usize>, sources: Seq<usize>, slots: Seq<usize>, m: int, j1: int, j2: int)
    requires
        is_weld_of(keys, corners, sources, slots),
        0 <= m < corners.len(),
        0 <= j1 < sources.len(),
        0 <= j2 < sources.len(),
        j1 != j2,
    ensures
        keys[sources[slots[m] as int] as int] == keys[corners[m] as int],
        keys[sources[j1] as int] != keys[sources[j2] as int],
{
    if j1 < j2 {
        assert(keys[sources[j1] as int] != keys[sources[j2] as int]);
    } else {
        assert(keys[sources[j2] as int] != keys[sources[j1] as int]);
    }
}

} // verus!
