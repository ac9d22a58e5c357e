//! Mesh decimation around the `meshopt` library.
//!
//! An optimisation welds vertices with equal positions, hands the welded
//! index buffer to meshopt's simplifier (with a float error bound, so the
//! caller makes that call), rejects results that do not shrink the mesh, and
//! compacts the vertex buffer to the vertices the simplified mesh uses.
//! Positions and other attributes travel as float bit patterns.
use vstd::prelude::*;

verus! {

broadcast use vstd::array::group_array_axioms;

/// Marker of a vertex that no index refers to in a remap table.
pub const UNUSED_VERTEX: u32 = 0xffff_ffffu32;

// ---------------------------------------------------------------------------
// Trusted items: meshopt
// ---------------------------------------------------------------------------

/// What `meshopt::generate_vertex_remap` returns: the number of distinct
/// vertices and the remap table.
pub uninterp spec fn vertex_remap(vertices: Seq<[u32; 3]>, indices: Seq<u32>) -> (usize, Seq<u32>);

/// `i` is the position of a vertex that some index refers to.
pub open spec fn referenced(indices: Seq<u32>, i: int) -> bool {
    exists|k: int| 0 <= k < indices.len() && indices[k] as int == i
}

/// Some index refers to a vertex that the table sends to slot `j`.
pub open spec fn slot_used(remap: Seq<u32>, indices: Seq<u32>, j: int) -> bool {
    exists|k: int| 0 <= k < indices.len() && remap[indices[k] as int] == j
}

/// No index before position `k` uses the slot that index `k` uses.
pub open spec fn first_use(remap: Seq<u32>, indices: Seq<u32>, k: int) -> bool {
    forall|k2: int| 0 <= k2 < k ==> #[trigger] remap[indices[k2] as int] != remap[indices[k] as int]
}

/// `remap`, with `count` slots, numbers the vertices that `indices` refers
/// to in order of first use: a vertex that no index refers to maps to
/// `UNUSED_VERTEX`; the others map below `count`, binary-equal vertices
/// (equal bit patterns) to the same slot and distinct ones to distinct
/// slots; every slot below `count` is used; and a slot first used at
/// position `k` is larger than every slot used before `k`.  Together these
/// fix `count` and `remap`.
pub open spec fn remaps_by_first_use(vertices: Seq<[u32; 3]>, indices: Seq<u32>, count: int, remap: Seq<u32>) -> bool {
    &&& remap.len() == vertices.len()
    &&& count <= vertices.len()
    &&& forall|i: int| 0 <= i < vertices.len() && !referenced(indices, i) ==> #[trigger] remap[i] == UNUSED_VERTEX
    &&& forall|k: int| 0 <= k < indices.len() ==> #[trigger] remap[indices[k] as int] < count
    &&& forall|k1: int, k2: int|
        0 <= k1 < indices.len() && 0 <= k2 < indices.len() ==> ((#[trigger] remap[indices[k1] as int]
            == #[trigger] remap[indices[k2] as int]) <==> vertices[indices[k1] as int] == vertices[indices[k2] as int])
    &&& forall|j: int| 0 <= j < count ==> #[trigger] slot_used(remap, indices, j)
    &&& forall|k1: int, k2: int|
        #![trigger first_use(remap, indices, k2), remap[indices[k1] as int]]
        0 <= k1 < k2 < indices.len() && first_use(remap, indices, k2) ==> remap[indices[k1] as int] < remap[indices[k2] as int]
}

/// Calls `meshopt::generate_vertex_remap` with an index buffer.
///
/// The contract names the result (`vertex_remap`) and states what the
/// library's source shows (`remaps_by_first_use`): walking the index
/// buffer, each vertex not yet numbered gets the slot of an earlier
/// binary-equal vertex, or else the next free slot.  The C code asserts
/// that every index is in range and that the index count is a multiple of
/// three, and counts vertices in 32 bits with `UNUSED_VERTEX` as a marker,
/// so the vertex count must stay below it.
#[verifier::external_body]
fn generate_vertex_remap(vertices: &Vec<[u32; 3]>, indices: &Vec<u32>) -> (r: (usize, Vec<u32>))
    requires
        vertices@.len() < UNUSED_VERTEX,
        indices@.len() % 3 == 0,
        forall|k: int| 0 <= k < indices@.len() ==> (#[trigger] indices@[k]) < vertices@.len(),
    ensures
        (r.0, r.1@) == vertex_remap(vertices@, indices@),
        remaps_by_first_use(vertices@, indices@, r.0 as int, r.1@),
{
    meshopt::generate_vertex_remap(vertices, Some(indices))
}

/// Calls `meshopt::remap_index_buffer` with an index buffer.
///
/// As its source shows, entry `k` of the result is `remap[indices[k]]`.
/// The C code asserts that each of those entries is not `UNUSED_VERTEX` and
/// that the index count is a multiple of three.
#[verifier::external_body]
fn remap_index_buffer(indices: &Vec<u32>, vertex_count: usize, remap: &Vec<u32>) -> (r: Vec<u32>)
    requires
        indices@.len() % 3 == 0,
        forall|k: int| 0 <= k < indices@.len() ==> (#[trigger] indices@[k]) < remap@.len(),
        forall|k: int| 0 <= k < indices@.len() ==> #[trigger] remap@[indices@[k] as int] != UNUSED_VERTEX,
    ensures
        r@.len() == indices@.len(),
        forall|k: int| 0 <= k < indices@.len() ==> #[trigger] r@[k] == remap@[indices@[k] as int],
{
    meshopt::remap_index_buffer(Some(indices), vertex_count, remap)
}

/// Position of the last vertex below `n` that the table sends to `j`, or -1.
pub open spec fn last_source(remap: Seq<u32>, j: int, n: int) -> int
    decreases n,
{
    if n <= 0 {
        -1
    } else if remap[n - 1] as int == j {
        n - 1
    } else {
        last_source(remap, j, n - 1)
    }
}

/// Calls `meshopt::remap_vertex_buffer`.
///
/// As its source shows, the result has `vertex_count` entries and, for each
/// vertex `i` in order whose table entry is not `UNUSED_VERTEX`, entry
/// `remap[i]` receives vertex `i`; so slot `j` holds the last vertex sent to
/// it.  Slots that no vertex is sent to keep the value the result was
/// filled with, `<[u32; N]>::default()`, all zeros.  The C code asserts that every used table entry is
/// in range and that a vertex takes at most 256 bytes.
#[verifier::external_body]
fn remap_vertex_buffer<const N: usize>(vertices: &Vec<[u32; N]>, vertex_count: usize, remap: &Vec<u32>) -> (r: Vec<[u32; N]>)
    where
        [u32; N]: Default,
    requires
        1 <= N <= 64,
        remap@.len() == vertices@.len(),
        forall|i: int| 0 <= i < remap@.len() ==> (#[trigger] remap@[i] == UNUSED_VERTEX || remap@[i] < vertex_count),
        forall|i: int| 0 <= i < remap@.len() ==> (#[trigger] remap@[i] == UNUSED_VERTEX || remap@[i] < vertices@.len()),
    ensures
        r@.len() == vertex_count,
        forall|j: int| 0 <= j < vertex_count && #[trigger] last_source(remap@, j, vertices@.len() as int) >= 0
            ==> r@[j] == vertices@[last_source(remap@, j, vertices@.len() as int)],
        forall|j: int, w: int| #![trigger r@[j][w]]
            0 <= j < vertex_count && last_source(remap@, j, vertices@.len() as int) < 0 && 0 <= w < N ==> r@[j][w] == 0,
{
    meshopt::remap_vertex_buffer(vertices, vertex_count, remap)
}

/// Triangle budget used when none has been typed.
pub const DEFAULT_TARGET_TRIANGLES: usize = 15000;

/// Options of the mesh optimiser panel.
#[derive(Clone, Copy, Debug, PartialEq, Eq, Structural)]
pub struct OptimizationSettings {
    pub target_triangles: usize,
    pub is_optimized: bool,
    pub wireframe: bool,
}

impl Default for OptimizationSettings {
    /// A 15000-triangle budget, showing the original mesh, no wireframe.
    fn default() -> (s: Self)
        ensures
            s == (OptimizationSettings { target_triangles: DEFAULT_TARGET_TRIANGLES, is_optimized: false, wireframe: false }),
    {
        OptimizationSettings { target_triangles: DEFAULT_TARGET_TRIANGLES, is_optimized: false, wireframe: false }
    }
}

// ---------------------------------------------------------------------------
// Decisions
// ---------------------------------------------------------------------------

/// Number of indices the simplifier is asked for: three per target
/// triangle, never more than the mesh has.
pub fn target_index_count(target_triangles: usize, index_count: usize) -> (n: usize)
    requires
        3 * target_triangles <= usize::MAX,
    ensures
        n == (if 3 * target_triangles <= index_count { 3 * target_triangles } else { index_count as int }),
{
    let wanted = target_triangles * 3;
    if wanted < index_count {
        wanted
    } else {
        index_count
    }
}

/// Whether regular simplification fell too far short of the target, so the
/// aggressive ("sloppy") simplifier is tried instead: the result has more
/// than twice the target's indices, and more than 100.
pub fn needs_sloppy_retry(simplified_count: usize, target_count: usize) -> (b: bool)
    requires
        2 * target_count <= usize::MAX,
    ensures
        b == (simplified_count > 2 * target_count && simplified_count > 100),
{
    simplified_count > target_count * 2 && simplified_count > 100
}

/// A simplification is rejected when it has indices but no fewer than the
/// original mesh.
pub fn simplification_rejected(simplified_count: usize, original_count: usize) -> (b: bool)
    ensures
        b == (simplified_count >= original_count && simplified_count > 0),
{
    simplified_count >= original_count && simplified_count > 0
}

// ---------------------------------------------------------------------------
// Welding and compaction
// ---------------------------------------------------------------------------

/// A mesh whose vertices with equal positions have been merged.
pub struct WeldedMesh {
    /// Number of merged vertices.
    pub vertex_count: usize,
    /// For each original vertex, its merged vertex (or `UNUSED_VERTEX`).
    pub remap: Vec<u32>,
    /// The index buffer over merged vertices.
    pub indices: Vec<u32>,
    /// Positions of the merged vertices.
    pub positions: Vec<[u32; 3]>,
}

/// Merges vertices with equal positions.  Every triangle corner keeps its
/// position: merged vertex `indices[k]` sits where original vertex
/// `indices[k]` did.
pub fn weld_positions(positions: &Vec<[u32; 3]>, indices: &Vec<u32>) -> (w: WeldedMesh)
    requires
        positions@.len() < UNUSED_VERTEX,
        indices@.len() % 3 == 0,
        forall|k: int| 0 <= k < indices@.len() ==> (#[trigger] indices@[k]) < positions@.len(),
    ensures
        (w.vertex_count, w.remap@) == vertex_remap(positions@, indices@),
        remaps_by_first_use(positions@, indices@, w.vertex_count as int, w.remap@),
        w.vertex_count <= positions@.len(),
        w.indices@.len() == indices@.len(),
        w.positions@.len() == w.vertex_count,
        forall|k: int| 0 <= k < indices@.len() ==> #[trigger] w.indices@[k] == w.remap@[indices@[k] as int],
        forall|k: int| 0 <= k < indices@.len() ==> #[trigger] w.indices@[k] < w.vertex_count,
        forall|k: int| 0 <= k < indices@.len() ==> w.positions@[#[trigger] w.indices@[k] as int] == positions@[indices@[k] as int],
{
    let (count, remap) = generate_vertex_remap(positions, indices);
    let welded_indices = remap_index_buffer(indices, count, &remap);
    proof {
        assert forall|i: int| 0 <= i < remap@.len() implies (#[trigger] remap@[i] == UNUSED_VERTEX || remap@[i] < count) by {
            if referenced(indices@, i) {
                let k = choose|k: int| 0 <= k < indices@.len() && indices@[k] as int == i;
                assert(remap@[indices@[k] as int] < count);
            }
        }
    }
    let welded_positions = remap_vertex_buffer(positions, count, &remap);
    proof {
        assert forall|k: int| 0 <= k < indices@.len() implies welded_positions@[#[trigger] welded_indices@[k] as int] == positions@[indices@[k] as int] by {
            let j = welded_indices@[k] as int;
            let src = indices@[k] as int;
            lemma_last_source_found(remap@, j, positions@.len() as int, src);
            let last = last_source(remap@, j, positions@.len() as int);
            assert(referenced(indices@, last)) by {
                if !referenced(indices@, last) {
                    assert(remap@[last] == UNUSED_VERTEX);
                }
            }
            let k2 = choose|k2: int| 0 <= k2 < indices@.len() && indices@[k2] as int == last;
            assert(remap@[indices@[k2] as int] == remap@[indices@[k] as int]);
        }
    }
    WeldedMesh { vertex_count: count, remap, indices: welded_indices, positions: welded_positions }
}

proof fn lemma_last_source_bounds(remap: Seq<u32>, j: int, n: int)
    ensures
        -1 <= last_source(remap, j, n) < if n > 0 { n } else { 0 },
        last_source(remap, j, n) >= 0 ==> remap[last_source(remap, j, n)] as int == j,
    decreases n,
{
    if n > 0 && remap[n - 1] as int != j {
        lemma_last_source_bounds(remap, j, n - 1);
    }
}

proof fn lemma_last_source_found(remap: Seq<u32>, j: int, n: int, i: int)
    requires
        0 <= i < n <= remap.len(),
        remap[i] as int == j,
    ensures
        i <= last_source(remap, j, n) < n,
        remap[last_source(remap, j, n)] as int == j,
    decreases n,
{
    if remap[n - 1] as int != j {
        lemma_last_source_found(remap, j, n - 1, i);
    }
}

/// The compacted result of a simplification.
pub struct CompactedMesh {
    /// Number of vertices the simplified mesh uses.
    pub vertex_count: usize,
    /// For each welded vertex, its final vertex (or `UNUSED_VERTEX`).
    pub remap: Vec<u32>,
    /// The final index buffer.
    pub indices: Vec<u32>,
}

/// Finishes an optimisation from the simplifier's output: `None` when the
/// result is rejected (`simplification_rejected`), otherwise the final
/// vertex remap and index buffer over the welded vertices.
pub fn finish_optimization(welded: &WeldedMesh, original_index_count: usize, simplified: &Vec<u32>) -> (r: Option<CompactedMesh>)
    requires
        welded.positions@.len() < UNUSED_VERTEX,
        simplified@.len() % 3 == 0,
        forall|k: int| 0 <= k < simplified@.len() ==> (#[trigger] simplified@[k]) < welded.positions@.len(),
    ensures
        simplification_rejected_spec(simplified@.len() as int, original_index_count as int) <==> r is None,
        r matches Some(c) ==> {
            &&& (c.vertex_count, c.remap@) == vertex_remap(welded.positions@, simplified@)
            &&& remaps_by_first_use(welded.positions@, simplified@, c.vertex_count as int, c.remap@)
            &&& c.indices@.len() == simplified@.len()
            &&& forall|k: int| 0 <= k < simplified@.len() ==> #[trigger] c.indices@[k] == c.remap@[simplified@[k] as int]
            &&& forall|k: int| 0 <= k < simplified@.len() ==> #[trigger] c.indices@[k] < c.vertex_count
        },
{
    if simplification_rejected(simplified.len(), original_index_count) {
        return None;
    }
    let (count, remap) = generate_vertex_remap(&welded.positions, simplified);
    let indices = remap_index_buffer(simplified, count, &remap);
    Some(CompactedMesh { vertex_count: count, remap, indices })
}

/// An optimisation is kept whenever the simplifier returned fewer indices
/// than the mesh had, or none at all, and dropped whenever it returned at
/// least as many (and some).
pub proof fn law_shrinking_results_kept(simplified_count: int, original_count: int)
    requires
        0 <= simplified_count,
        0 <= original_count,
    ensures
        simplified_count < original_count ==> !simplification_rejected_spec(simplified_count, original_count),
        simplified_count == 0 ==> !simplification_rejected_spec(simplified_count, original_count),
        simplified_count > 0 && simplified_count >= original_count ==> simplification_rejected_spec(simplified_count, original_count),
{
}

/// The rejection rule of `simplification_rejected`.
pub open spec fn simplification_rejected_spec(simplified_count: int, original_count: int) -> bool {
    simplified_count >= original_count && simplified_count > 0
}

/// Carries one vertex attribute (of `N` words per vertex) through both
/// remaps of an optimisation: first onto the welded vertices, then onto the
/// final ones.  Final vertex `j` takes the value of the last original vertex
/// sent to the last welded vertex sent to `j`; where there is none, it is
/// all zeros.
pub fn remap_attribute<const N: usize>(values: &Vec<[u32; N]>, welded: &WeldedMesh, compacted: &CompactedMesh) -> (out: Vec<[u32; N]>)
    where
        [u32; N]: Default,
    requires
        1 <= N <= 64,
        values@.len() == welded.remap@.len(),
        welded.remap@.len() >= welded.vertex_count,
        compacted.remap@.len() == welded.vertex_count,
        forall|i: int| 0 <= i < welded.remap@.len() ==> (#[trigger] welded.remap@[i] == UNUSED_VERTEX || welded.remap@[i] < welded.vertex_count),
        forall|i: int| 0 <= i < compacted.remap@.len() ==> (#[trigger] compacted.remap@[i] == UNUSED_VERTEX || compacted.remap@[i] < compacted.vertex_count),
        compacted.vertex_count <= welded.vertex_count,
    ensures
        out@.len() == compacted.vertex_count,
        forall|j: int| 0 <= j < compacted.vertex_count && #[trigger] last_source(compacted.remap@, j, welded.vertex_count as int) >= 0
            && last_source(welded.remap@, last_source(compacted.remap@, j, welded.vertex_count as int), values@.len() as int) >= 0
            ==> out@[j] == values@[last_source(welded.remap@, last_source(compacted.remap@, j, welded.vertex_count as int), values@.len() as int)],
        forall|j: int, w: int| #![trigger out@[j][w]]
            0 <= j < compacted.vertex_count && 0 <= w < N && (last_source(compacted.remap@, j, welded.vertex_count as int) < 0
                || last_source(welded.remap@, last_source(compacted.remap@, j, welded.vertex_count as int), values@.len() as int) < 0)
            ==> out@[j][w] == 0,
{
    proof {
        assert forall|i: int| 0 <= i < welded.remap@.len() implies (#[trigger] welded.remap@[i] == UNUSED_VERTEX || welded.remap@[i] < values@.len()) by {}
        assert forall|i: int| 0 <= i < compacted.remap@.len() implies (#[trigger] compacted.remap@[i] == UNUSED_VERTEX || compacted.remap@[i] < welded.vertex_count) by {}
    }
    let on_welded = remap_vertex_buffer(values, welded.vertex_count, &welded.remap);
    let out = remap_vertex_buffer(&on_welded, compacted.vertex_count, &compacted.remap);
    proof {
        assert forall|j: int| 0 <= j < compacted.vertex_count && #[trigger] last_source(compacted.remap@, j, welded.vertex_count as int) >= 0
            && last_source(welded.remap@, last_source(compacted.remap@, j, welded.vertex_count as int), values@.len() as int) >= 0
            implies out@[j] == values@[last_source(welded.remap@, last_source(compacted.remap@, j, welded.vertex_count as int), values@.len() as int)] by {
            let l1 = last_source(compacted.remap@, j, welded.vertex_count as int);
            lemma_last_source_bounds(compacted.remap@, j, welded.vertex_count as int);
            assert(out@[j] == on_welded@[l1]);
        }
        assert forall|j: int, w: int|
            0 <= j < compacted.vertex_count && 0 <= w < N && (last_source(compacted.remap@, j, welded.vertex_count as int) < 0
                || last_source(welded.remap@, last_source(compacted.remap@, j, welded.vertex_count as int), values@.len() as int) < 0)
            implies #[trigger] out@[j][w] == 0 by {
            let l1 = last_source(compacted.remap@, j, welded.vertex_count as int);
            lemma_last_source_bounds(compacted.remap@, j, welded.vertex_count as int);
            if l1 >= 0 {
                assert(out@[j] == on_welded@[l1]);
                assert(on_welded@[l1][w] == 0);
            }
        }
    }
    out
}

} // verus!
