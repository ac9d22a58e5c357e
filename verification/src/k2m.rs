//! The `.k2m` binary mesh format.
//!
//! A file is a sequence of little-endian 32-bit words:
//! `[magic] [version] [vertex_count] [index_count]`, then `vertex_count`
//! positions (3 words each), `vertex_count` normals (3 words each),
//! `vertex_count` UVs (2 words each) and `index_count` indices.
//! Positions, normals and UVs are 32-bit floats; this module carries them as
//! their raw bit patterns (`f32::to_bits`), so a float travels through the
//! codec unchanged.
use vstd::prelude::*;
use vstd::bytes::{spec_u32_to_le_bytes, spec_u32_from_le_bytes, u32_to_le_bytes, u32_from_le_bytes, lemma_auto_spec_u32_to_from_le_bytes};
use vstd::slice::slice_subrange;

verus! {

/// Magic word at the start of every `.k2m` file ("K2M!").
pub const K2M_MAGIC: u32 = 0x4B32_4D21u32;

/// Format version written by the encoder.  The decoder reads and ignores it.
pub const K2M_VERSION: u32 = 1u32;

/// A mesh as stored in a `.k2m` file.  Attribute values are float bit
/// patterns.
pub struct K2mMesh {
    pub positions: Vec<[u32; 3]>,
    pub normals: Vec<[u32; 3]>,
    pub uvs: Vec<[u32; 2]>,
    pub indices: Vec<u32>,
}

/// Why a byte buffer is not a `.k2m` file.
#[derive(Debug, Clone, Copy, PartialEq, Eq)]
pub enum K2mError {
    /// The buffer ends before the data that its header announces.
    UnexpectedEof,
    /// The first word is not `K2M_MAGIC`.
    InvalidMagic,
}

/// Why a mesh cannot be written as a `.k2m` file.
#[derive(Debug, Clone, Copy, PartialEq, Eq)]
pub enum ExportError {
    NoPositions,
    NoNormals,
    NoUvs,
}

/// The attributes of a mesh that is about to be exported; `None` marks an
/// attribute that the mesh does not carry.
pub struct ExportSource {
    pub positions: Option<Vec<[u32; 3]>>,
    pub normals: Option<Vec<[u32; 3]>>,
    pub uvs: Option<Vec<[u32; 2]>>,
    pub indices: Option<Vec<u32>>,
}

// ---------------------------------------------------------------------------
// Specification
// ---------------------------------------------------------------------------

/// Little-endian bytes of a word sequence.
pub open spec fn words_to_bytes(w: Seq<u32>) -> Seq<u8>
    decreases w.len(),
{
    if w.len() == 0 {
        Seq::empty()
    } else {
        words_to_bytes(w.drop_last()) + spec_u32_to_le_bytes(w.last())
    }
}

/// The word stored at word offset `k` of a byte buffer.
pub open spec fn word_at(b: Seq<u8>, k: int) -> u32 {
    spec_u32_from_le_bytes(b.subrange(4 * k, 4 * k + 4))
}

/// Triples laid out one after the other.
pub open spec fn flatten3(s: Seq<[u32; 3]>) -> Seq<u32>
    decreases s.len(),
{
    if s.len() == 0 {
        Seq::empty()
    } else {
        flatten3(s.drop_last()) + seq![s.last()[0], s.last()[1], s.last()[2]]
    }
}

/// Pairs laid out one after the other.
pub open spec fn flatten2(s: Seq<[u32; 2]>) -> Seq<u32>
    decreases s.len(),
{
    if s.len() == 0 {
        Seq::empty()
    } else {
        flatten2(s.drop_last()) + seq![s.last()[0], s.last()[1]]
    }
}

/// The words of the file that the encoder writes for these attributes.
pub open spec fn k2m_words(
    positions: Seq<[u32; 3]>,
    normals: Seq<[u32; 3]>,
    uvs: Seq<[u32; 2]>,
    indices: Seq<u32>,
) -> Seq<u32> {
    seq![K2M_MAGIC, K2M_VERSION, positions.len() as u32, indices.len() as u32]
        + flatten3(positions) + flatten3(normals) + flatten2(uvs) + indices
}

/// The bytes of the file that the encoder writes for these attributes.
pub open spec fn k2m_encoded(
    positions: Seq<[u32; 3]>,
    normals: Seq<[u32; 3]>,
    uvs: Seq<[u32; 2]>,
    indices: Seq<u32>,
) -> Seq<u8> {
    words_to_bytes(k2m_words(positions, normals, uvs, indices))
}

/// Vertex count announced by a header.
pub open spec fn header_vertex_count(b: Seq<u8>) -> int {
    word_at(b, 2) as int
}

/// Index count announced by a header.
pub open spec fn header_index_count(b: Seq<u8>) -> int {
    word_at(b, 3) as int
}

/// Number of words that a file with this header occupies.
pub open spec fn announced_words(b: Seq<u8>) -> int {
    4 + 8 * header_vertex_count(b) + header_index_count(b)
}

/// The error that decoding `b` reports, or `None` when `b` is a `.k2m` file.
/// A buffer too short to hold the magic word is truncated, not mislabelled.
pub open spec fn k2m_error_of(b: Seq<u8>) -> Option<K2mError> {
    if b.len() < 4 {
        Some(K2mError::UnexpectedEof)
    } else if word_at(b, 0) != K2M_MAGIC {
        Some(K2mError::InvalidMagic)
    } else if b.len() < 16 || b.len() < 4 * announced_words(b) {
        Some(K2mError::UnexpectedEof)
    } else {
        None
    }
}

/// `positions`, `normals`, `uvs` and `indices` are what the file `b`
/// holds (trailing bytes after the announced data are ignored).
pub open spec fn k2m_decodes_to(
    b: Seq<u8>,
    positions: Seq<[u32; 3]>,
    normals: Seq<[u32; 3]>,
    uvs: Seq<[u32; 2]>,
    indices: Seq<u32>,
) -> bool {
    let vc = header_vertex_count(b);
    let ic = header_index_count(b);
    &&& positions.len() == vc
    &&& normals.len() == vc
    &&& uvs.len() == vc
    &&& indices.len() == ic
    &&& forall|i: int, k: int|
        0 <= i < vc && 0 <= k < 3 ==> #[trigger] positions[i][k] == word_at(b, 4 + 3 * i + k)
    &&& forall|i: int, k: int|
        0 <= i < vc && 0 <= k < 3 ==> #[trigger] normals[i][k] == word_at(b, 4 + 3 * vc + 3 * i + k)
    &&& forall|i: int, k: int|
        0 <= i < vc && 0 <= k < 2 ==> #[trigger] uvs[i][k] == word_at(b, 4 + 6 * vc + 2 * i + k)
    &&& forall|i: int| 0 <= i < ic ==> #[trigger] indices[i] == word_at(b, 4 + 8 * vc + i)
}

/// Indices `0, 1, ..., n - 1` of an unindexed mesh, with the count taken as
/// a 32-bit value.
pub open spec fn sequential_u32(n: nat) -> Seq<u32> {
    Seq::new((n as u32) as nat, |i: int| i as u32)
}

// ---------------------------------------------------------------------------
// Lemmas
// ---------------------------------------------------------------------------

proof fn lemma_words_to_bytes_len(w: Seq<u32>)
    ensures
        words_to_bytes(w).len() == 4 * w.len(),
    decreases w.len(),
{
    lemma_auto_spec_u32_to_from_le_bytes();
    if w.len() > 0 {
        lemma_words_to_bytes_len(w.drop_last());
    }
}

proof fn lemma_words_to_bytes_push(w: Seq<u32>, x: u32)
    ensures
        words_to_bytes(w.push(x)) == words_to_bytes(w) + spec_u32_to_le_bytes(x),
{
    assert(w.push(x).drop_last() =~= w);
}

proof fn lemma_word_at_words(w: Seq<u32>, k: int)
    requires
        0 <= k < w.len(),
    ensures
        word_at(words_to_bytes(w), k) == w[k],
    decreases w.len(),
{
    lemma_auto_spec_u32_to_from_le_bytes();
    lemma_words_to_bytes_len(w);
    let prefix = w.drop_last();
    lemma_words_to_bytes_len(prefix);
    let b = words_to_bytes(w);
    if k == w.len() - 1 {
        assert(b.subrange(4 * k, 4 * k + 4) =~= spec_u32_to_le_bytes(w.last()));
    } else {
        lemma_word_at_words(prefix, k);
        assert(b.subrange(4 * k, 4 * k + 4) =~= words_to_bytes(prefix).subrange(4 * k, 4 * k + 4));
    }
}

proof fn lemma_flatten3(s: Seq<[u32; 3]>)
    ensures
        flatten3(s).len() == 3 * s.len(),
        forall|i: int, k: int| 0 <= i < s.len() && 0 <= k < 3 ==> #[trigger] flatten3(s)[3 * i + k] == s[i][k],
    decreases s.len(),
{
    if s.len() > 0 {
        lemma_flatten3(s.drop_last());
        assert forall|i: int, k: int| 0 <= i < s.len() && 0 <= k < 3 implies #[trigger] flatten3(s)[3 * i + k] == s[i][k] by {
            if i < s.len() - 1 {
                assert(flatten3(s.drop_last())[3 * i + k] == s.drop_last()[i][k]);
            }
        }
    }
}

proof fn lemma_flatten2(s: Seq<[u32; 2]>)
    ensures
        flatten2(s).len() == 2 * s.len(),
        forall|i: int, k: int| 0 <= i < s.len() && 0 <= k < 2 ==> #[trigger] flatten2(s)[2 * i + k] == s[i][k],
    decreases s.len(),
{
    if s.len() > 0 {
        lemma_flatten2(s.drop_last());
        assert forall|i: int, k: int| 0 <= i < s.len() && 0 <= k < 2 implies #[trigger] flatten2(s)[2 * i + k] == s[i][k] by {
            if i < s.len() - 1 {
                assert(flatten2(s.drop_last())[2 * i + k] == s.drop_last()[i][k]);
            }
        }
    }
}

proof fn lemma_flatten3_push(s: Seq<[u32; 3]>, t: [u32; 3])
    ensures
        flatten3(s.push(t)) == flatten3(s) + seq![t[0], t[1], t[2]],
{
    assert(s.push(t).drop_last() =~= s);
}

proof fn lemma_flatten2_push(s: Seq<[u32; 2]>, t: [u32; 2])
    ensures
        flatten2(s.push(t)) == flatten2(s) + seq![t[0], t[1]],
{
    assert(s.push(t).drop_last() =~= s);
}

// ---------------------------------------------------------------------------
// Encoding
// ---------------------------------------------------------------------------

fn push_word(out: &mut Vec<u8>, Ghost(words): Ghost<Seq<u32>>, x: u32)
    requires
        old(out)@ == words_to_bytes(words),
    ensures
        final(out)@ == words_to_bytes(words.push(x)),
{
    let mut bytes = u32_to_le_bytes(x);
    out.append(&mut bytes);
    proof {
        lemma_words_to_bytes_push(words, x);
    }
}

fn push_triples(out: &mut Vec<u8>, Ghost(words): Ghost<Seq<u32>>, values: &Vec<[u32; 3]>)
    requires
        old(out)@ == words_to_bytes(words),
    ensures
        final(out)@ == words_to_bytes(words + flatten3(values@)),
{
    let mut i: usize = 0;
    assert(values@.take(0) =~= Seq::<[u32; 3]>::empty());
    assert(words + flatten3(Seq::<[u32; 3]>::empty()) =~= words);
    while i < values.len()
        invariant
            i <= values@.len(),
            out@ == words_to_bytes(words + flatten3(values@.take(i as int))),
        decreases values@.len() - i,
    {
        let t = values[i];
        let ghost before = words + flatten3(values@.take(i as int));
        push_word(out, Ghost(before), t[0]);
        push_word(out, Ghost(before.push(t[0])), t[1]);
        push_word(out, Ghost(before.push(t[0]).push(t[1])), t[2]);
        proof {
            assert(values@.take(i + 1) =~= values@.take(i as int).push(t));
            lemma_flatten3_push(values@.take(i as int), t);
            assert(before.push(t[0]).push(t[1]).push(t[2]) =~= words + flatten3(values@.take(i + 1)));
        }
        i = i + 1;
    }
    assert(values@.take(values@.len() as int) =~= values@);
}

fn push_pairs(out: &mut Vec<u8>, Ghost(words): Ghost<Seq<u32>>, values: &Vec<[u32; 2]>)
    requires
        old(out)@ == words_to_bytes(words),
    ensures
        final(out)@ == words_to_bytes(words + flatten2(values@)),
{
    let mut i: usize = 0;
    assert(words + flatten2(Seq::<[u32; 2]>::empty()) =~= words);
    assert(values@.take(0) =~= Seq::<[u32; 2]>::empty());
    while i < values.len()
        invariant
            i <= values@.len(),
            out@ == words_to_bytes(words + flatten2(values@.take(i as int))),
        decreases values@.len() - i,
    {
        let t = values[i];
        let ghost before = words + flatten2(values@.take(i as int));
        push_word(out, Ghost(before), t[0]);
        push_word(out, Ghost(before.push(t[0])), t[1]);
        proof {
            assert(values@.take(i + 1) =~= values@.take(i as int).push(t));
            lemma_flatten2_push(values@.take(i as int), t);
            assert(before.push(t[0]).push(t[1]) =~= words + flatten2(values@.take(i + 1)));
        }
        i = i + 1;
    }
    assert(values@.take(values@.len() as int) =~= values@);
}

fn push_words(out: &mut Vec<u8>, Ghost(words): Ghost<Seq<u32>>, values: &Vec<u32>)
    requires
        old(out)@ == words_to_bytes(words),
    ensures
        final(out)@ == words_to_bytes(words + values@),
{
    let mut i: usize = 0;
    assert(words + values@.take(0) =~= words);
    while i < values.len()
        invariant
            i <= values@.len(),
            out@ == words_to_bytes(words + values@.take(i as int)),
        decreases values@.len() - i,
    {
        let x = values[i];
        push_word(out, Ghost(words + values@.take(i as int)), x);
        assert((words + values@.take(i as int)).push(x) =~= words + values@.take(i + 1));
        i = i + 1;
    }
    assert(values@.take(values@.len() as int) =~= values@);
}

/// Serialises a mesh in the `.k2m` layout.  The vertex count written to the
/// header is the number of positions, and both counts are stored as 32-bit
/// words (truncated, as a `u32` cast does).  Normals and UVs are written as
/// given, whatever their number.
pub fn encode_k2m(mesh: &K2mMesh) -> (bytes: Vec<u8>)
    ensures
        bytes@ == k2m_encoded(mesh.positions@, mesh.normals@, mesh.uvs@, mesh.indices@),
{
    let mut out: Vec<u8> = Vec::new();
    let ghost w0 = Seq::<u32>::empty();
    push_word(&mut out, Ghost(w0), K2M_MAGIC);
    push_word(&mut out, Ghost(w0.push(K2M_MAGIC)), K2M_VERSION);
    let vc = mesh.positions.len() as u32;
    let ic = mesh.indices.len() as u32;
    push_word(&mut out, Ghost(w0.push(K2M_MAGIC).push(K2M_VERSION)), vc);
    push_word(&mut out, Ghost(w0.push(K2M_MAGIC).push(K2M_VERSION).push(vc)), ic);
    let ghost header = w0.push(K2M_MAGIC).push(K2M_VERSION).push(vc).push(ic);
    assert(header =~= seq![K2M_MAGIC, K2M_VERSION, mesh.positions@.len() as u32, mesh.indices@.len() as u32]);
    push_triples(&mut out, Ghost(header), &mesh.positions);
    let ghost w1 = header + flatten3(mesh.positions@);
    push_triples(&mut out, Ghost(w1), &mesh.normals);
    let ghost w2 = w1 + flatten3(mesh.normals@);
    push_pairs(&mut out, Ghost(w2), &mesh.uvs);
    let ghost w3 = w2 + flatten2(mesh.uvs@);
    push_words(&mut out, Ghost(w3), &mesh.indices);
    out
}

// ---------------------------------------------------------------------------
// Decoding
// ---------------------------------------------------------------------------

fn read_word(b: &[u8], k: usize) -> (x: u32)
    requires
        4 * k + 4 <= b@.len(),
    ensures
        x == word_at(b@, k as int),
{
    assert(b@.len() == b.len());
    let s = slice_subrange(b, 4 * k, 4 * k + 4);
    u32_from_le_bytes(s)
}

fn read_triples(b: &[u8], start: usize, count: usize) -> (out: Vec<[u32; 3]>)
    requires
        4 * (start + 3 * count) <= b@.len(),
    ensures
        out@.len() == count,
        forall|i: int, k: int| 0 <= i < count && 0 <= k < 3 ==> #[trigger] out@[i][k] == word_at(b@, start + 3 * i + k),
{
    let mut out: Vec<[u32; 3]> = Vec::new();
    let mut i: usize = 0;
    while i < count
        invariant
            i <= count,
            4 * (start + 3 * count) <= b@.len(),
            out@.len() == i,
            forall|j: int, k: int| 0 <= j < i && 0 <= k < 3 ==> #[trigger] out@[j][k] == word_at(b@, start + 3 * j + k),
        decreases count - i,
    {
        assert(b@.len() == b.len());
        assert(3 * i + 2 < 3 * count) by (nonlinear_arith)
            requires
                i < count,
        ;
        let base = start + 3 * i;
        let t = [read_word(b, base), read_word(b, base + 1), read_word(b, base + 2)];
        out.push(t);
        i = i + 1;
    }
    out
}

fn read_pairs(b: &[u8], start: usize, count: usize) -> (out: Vec<[u32; 2]>)
    requires
        4 * (start + 2 * count) <= b@.len(),
    ensures
        out@.len() == count,
        forall|i: int, k: int| 0 <= i < count && 0 <= k < 2 ==> #[trigger] out@[i][k] == word_at(b@, start + 2 * i + k),
{
    let mut out: Vec<[u32; 2]> = Vec::new();
    let mut i: usize = 0;
    while i < count
        invariant
            i <= count,
            4 * (start + 2 * count) <= b@.len(),
            out@.len() == i,
            forall|j: int, k: int| 0 <= j < i && 0 <= k < 2 ==> #[trigger] out@[j][k] == word_at(b@, start + 2 * j + k),
        decreases count - i,
    {
        assert(b@.len() == b.len());
        assert(2 * i + 1 < 2 * count) by (nonlinear_arith)
            requires
                i < count,
        ;
        let base = start + 2 * i;
        let t = [read_word(b, base), read_word(b, base + 1)];
        out.push(t);
        i = i + 1;
    }
    out
}

fn read_words(b: &[u8], start: usize, count: usize) -> (out: Vec<u32>)
    requires
        4 * (start + count) <= b@.len(),
    ensures
        out@.len() == count,
        forall|i: int| 0 <= i < count ==> #[trigger] out@[i] == word_at(b@, start + i),
{
    let mut out: Vec<u32> = Vec::new();
    let mut i: usize = 0;
    while i < count
        invariant
            i <= count,
            4 * (start + count) <= b@.len(),
            out@.len() == i,
            forall|j: int| 0 <= j < i ==> #[trigger] out@[j] == word_at(b@, start + j),
        decreases count - i,
    {
        assert(b@.len() == b.len());
        out.push(read_word(b, start + i));
        i = i + 1;
    }
    out
}

/// Parses a `.k2m` file.  Succeeds exactly when `k2m_error_of` reports no
/// error, and then returns the attributes that the file holds.
pub fn decode_k2m(b: &[u8]) -> (r: Result<K2mMesh, K2mError>)
    ensures
        r is Ok <==> k2m_error_of(b@) is None,
        r matches Err(e) ==> k2m_error_of(b@) == Some(e),
        r matches Ok(m) ==> k2m_decodes_to(b@, m.positions@, m.normals@, m.uvs@, m.indices@),
{
    if b.len() < 4 {
        return Err(K2mError::UnexpectedEof);
    }
    let magic = read_word(b, 0);
    if magic != K2M_MAGIC {
        return Err(K2mError::InvalidMagic);
    }
    if b.len() < 16 {
        return Err(K2mError::UnexpectedEof);
    }
    let vc32 = read_word(b, 2);
    let ic32 = read_word(b, 3);
    let need: u64 = 4 + 8 * (vc32 as u64) + (ic32 as u64);
    if (b.len() as u64) < 4 * need {
        return Err(K2mError::UnexpectedEof);
    }
    let vc = vc32 as usize;
    let ic = ic32 as usize;
    let positions = read_triples(b, 4, vc);
    let normals = read_triples(b, 4 + 3 * vc, vc);
    let uvs = read_pairs(b, 4 + 6 * vc, vc);
    let indices = read_words(b, 4 + 8 * vc, ic);
    proof {
        let bb = b@;
        assert forall|i: int, k: int| 0 <= i < vc && 0 <= k < 3 implies #[trigger] normals@[i][k] == word_at(bb, 4 + 3 * vc + 3 * i + k) by {
            assert(normals@[i][k] == word_at(bb, (4 + 3 * vc) + 3 * i + k));
        }
        assert forall|i: int, k: int| 0 <= i < vc && 0 <= k < 2 implies #[trigger] uvs@[i][k] == word_at(bb, 4 + 6 * vc + 2 * i + k) by {
            assert(uvs@[i][k] == word_at(bb, (4 + 6 * vc) + 2 * i + k));
        }
        assert forall|i: int| 0 <= i < ic implies #[trigger] indices@[i] == word_at(bb, 4 + 8 * vc + i) by {
            assert(indices@[i] == word_at(bb, (4 + 8 * vc) + i));
        }
    }
    Ok(K2mMesh { positions, normals, uvs, indices })
}

// ---------------------------------------------------------------------------
// Export preparation
// ---------------------------------------------------------------------------

fn sequential_indices(n: usize) -> (out: Vec<u32>)
    ensures
        out@ == sequential_u32(n as nat),
{
    let count = n as u32;
    let mut out: Vec<u32> = Vec::new();
    let mut i: u32 = 0;
    while i < count
        invariant
            i <= count,
            count == n as u32,
            out@ == Seq::new(i as nat, |j: int| j as u32),
        decreases count - i,
    {
        out.push(i);
        i = i + 1;
        assert(out@ =~= Seq::new(i as nat, |j: int| j as u32));
    }
    out
}

/// Checks that a mesh carries the attributes the format needs (positions,
/// then normals, then UVs, reported in that order) and supplies the indices
/// `0..n` of an unindexed mesh.
pub fn prepare_export(source: ExportSource) -> (r: Result<K2mMesh, ExportError>)
    ensures
        source.positions is None ==> r == Err::<K2mMesh, ExportError>(ExportError::NoPositions),
        source.positions is Some && source.normals is None ==> r == Err::<K2mMesh, ExportError>(ExportError::NoNormals),
        source.positions is Some && source.normals is Some && source.uvs is None ==> r == Err::<K2mMesh, ExportError>(ExportError::NoUvs),
        r is Ok <==> (source.positions is Some && source.normals is Some && source.uvs is Some),
        r matches Ok(m) ==> {
            &&& m.positions@ == source.positions->0@
            &&& m.normals@ == source.normals->0@
            &&& m.uvs@ == source.uvs->0@
            &&& m.indices@ == match source.indices {
                Some(idx) => idx@,
                None => sequential_u32(source.positions->0@.len()),
            }
        },
{
    let ExportSource { positions, normals, uvs, indices } = source;
    let positions = match positions {
        Some(p) => p,
        None => return Err(ExportError::NoPositions),
    };
    let normals = match normals {
        Some(n) => n,
        None => return Err(ExportError::NoNormals),
    };
    let uvs = match uvs {
        Some(u) => u,
        None => return Err(ExportError::NoUvs),
    };
    let indices = match indices {
        Some(idx) => idx,
        None => sequential_indices(positions.len()),
    };
    Ok(K2mMesh { positions, normals, uvs, indices })
}

/// The bytes of the `.k2m` file for a mesh, or the attribute it lacks.
pub fn export_k2m_bytes(source: ExportSource) -> (r: Result<Vec<u8>, ExportError>)
    ensures
        r is Ok <==> (source.positions is Some && source.normals is Some && source.uvs is Some),
        source.positions is None ==> r == Err::<Vec<u8>, ExportError>(ExportError::NoPositions),
        source.positions is Some && source.normals is None ==> r == Err::<Vec<u8>, ExportError>(ExportError::NoNormals),
        source.positions is Some && source.normals is Some && source.uvs is None ==> r == Err::<Vec<u8>, ExportError>(ExportError::NoUvs),
        r matches Ok(bytes) ==> bytes@ == k2m_encoded(
            source.positions->0@,
            source.normals->0@,
            source.uvs->0@,
            match source.indices {
                Some(idx) => idx@,
                None => sequential_u32(source.positions->0@.len()),
            },
        ),
{
    match prepare_export(source) {
        Ok(mesh) => Ok(encode_k2m(&mesh)),
        Err(e) => Err(e),
    }
}

// ---------------------------------------------------------------------------
// Laws
// ---------------------------------------------------------------------------

/// Reading back a written file gives the mesh that was written, whenever
/// every vertex has a normal and a UV and both counts fit in 32 bits.
pub proof fn law_k2m_roundtrip(
    positions: Seq<[u32; 3]>,
    normals: Seq<[u32; 3]>,
    uvs: Seq<[u32; 2]>,
    indices: Seq<u32>,
)
    requires
        normals.len() == positions.len(),
        uvs.len() == positions.len(),
        positions.len() <= u32::MAX,
        indices.len() <= u32::MAX,
    ensures
        k2m_error_of(k2m_encoded(positions, normals, uvs, indices)) is None,
        k2m_decodes_to(k2m_encoded(positions, normals, uvs, indices), positions, normals, uvs, indices),
{
    let w = k2m_words(positions, normals, uvs, indices);
    let b = words_to_bytes(w);
    let vc = positions.len() as int;
    let ic = indices.len() as int;
    lemma_flatten3(positions);
    lemma_flatten3(normals);
    lemma_flatten2(uvs);
    lemma_words_to_bytes_len(w);
    assert(w.len() == 4 + 8 * vc + ic);
    lemma_word_at_words(w, 0);
    lemma_word_at_words(w, 2);
    lemma_word_at_words(w, 3);
    assert(w[0] == K2M_MAGIC);
    assert(w[2] == positions.len() as u32);
    assert(w[3] == indices.len() as u32);
    assert(header_vertex_count(b) == vc);
    assert(header_index_count(b) == ic);
    assert forall|i: int, k: int| 0 <= i < vc && 0 <= k < 3 implies #[trigger] positions[i][k] == word_at(b, 4 + 3 * i + k) by {
        lemma_word_at_words(w, 4 + 3 * i + k);
        assert(w[4 + 3 * i + k] == flatten3(positions)[3 * i + k]);
    }
    assert forall|i: int, k: int| 0 <= i < vc && 0 <= k < 3 implies #[trigger] normals[i][k] == word_at(b, 4 + 3 * vc + 3 * i + k) by {
        lemma_word_at_words(w, 4 + 3 * vc + 3 * i + k);
        assert(w[4 + 3 * vc + 3 * i + k] == flatten3(normals)[3 * i + k]);
    }
    assert forall|i: int, k: int| 0 <= i < vc && 0 <= k < 2 implies #[trigger] uvs[i][k] == word_at(b, 4 + 6 * vc + 2 * i + k) by {
        lemma_word_at_words(w, 4 + 6 * vc + 2 * i + k);
        assert(w[4 + 6 * vc + 2 * i + k] == flatten2(uvs)[2 * i + k]);
    }
    assert forall|i: int| 0 <= i < ic implies #[trigger] indices[i] == word_at(b, 4 + 8 * vc + i) by {
        lemma_word_at_words(w, 4 + 8 * vc + i);
    }
}

/// The file layout: a written mesh is the header (magic, version, vertex
/// count, index count) followed by every position, then every normal, then
/// every UV, then every index, each as little-endian 32-bit words; nothing
/// follows.
pub proof fn law_k2m_layout(
    positions: Seq<[u32; 3]>,
    normals: Seq<[u32; 3]>,
    uvs: Seq<[u32; 2]>,
    indices: Seq<u32>,
)
    requires
        normals.len() == positions.len(),
        uvs.len() == positions.len(),
        positions.len() <= u32::MAX,
        indices.len() <= u32::MAX,
    ensures
        ({
            let b = k2m_encoded(positions, normals, uvs, indices);
            let n = positions.len() as int;
            &&& b.len() == 4 * (4 + 8 * n + indices.len())
            &&& word_at(b, 0) == 0x4B32_4D21u32
            &&& word_at(b, 1) == 1u32
            &&& word_at(b, 2) as int == n
            &&& word_at(b, 3) as int == indices.len()
            &&& forall|v: int, c: int| 0 <= v < n && 0 <= c < 3 ==> word_at(b, 4 + 3 * v + c) == #[trigger] positions[v][c]
            &&& forall|v: int, c: int| 0 <= v < n && 0 <= c < 3 ==> word_at(b, 4 + 3 * n + 3 * v + c) == #[trigger] normals[v][c]
            &&& forall|v: int, c: int| 0 <= v < n && 0 <= c < 2 ==> word_at(b, 4 + 6 * n + 2 * v + c) == #[trigger] uvs[v][c]
            &&& forall|x: int| 0 <= x < indices.len() ==> word_at(b, 4 + 8 * n + x) == #[trigger] indices[x]
        }),
{
    law_k2m_roundtrip(positions, normals, uvs, indices);
    let wds = k2m_words(positions, normals, uvs, indices);
    lemma_flatten3(positions);
    lemma_flatten3(normals);
    lemma_flatten2(uvs);
    lemma_words_to_bytes_len(wds);
    lemma_word_at_words(wds, 1);
    assert(wds[1] == K2M_VERSION);
}

/// Reading follows the same layout: whatever a successful read returns,
/// vertex `v`'s position is at word `4 + 3v`, its normal at `4 + 3n + 3v`
/// and its UV at `4 + 6n + 2v` (for `n` vertices), and index `x` at word
/// `4 + 8n + x`; the counts are the header's third and fourth words.
pub proof fn law_k2m_read_layout(
    b: Seq<u8>,
    positions: Seq<[u32; 3]>,
    normals: Seq<[u32; 3]>,
    uvs: Seq<[u32; 2]>,
    indices: Seq<u32>,
)
    requires
        k2m_decodes_to(b, positions, normals, uvs, indices),
    ensures
        positions.len() == word_at(b, 2) as int,
        normals.len() == positions.len(),
        uvs.len() == positions.len(),
        indices.len() == word_at(b, 3) as int,
        forall|v: int, c: int| 0 <= v < positions.len() && 0 <= c < 3 ==> #[trigger] positions[v][c] == word_at(b, 4 + 3 * v + c),
        forall|v: int, c: int| 0 <= v < positions.len() && 0 <= c < 3 ==> #[trigger] normals[v][c] == word_at(b, 4 + 3 * positions.len() + 3 * v + c),
        forall|v: int, c: int| 0 <= v < positions.len() && 0 <= c < 2 ==> #[trigger] uvs[v][c] == word_at(b, 4 + 6 * positions.len() + 2 * v + c),
        forall|x: int| 0 <= x < indices.len() ==> #[trigger] indices[x] == word_at(b, 4 + 8 * positions.len() + x),
{
}

/// Which error a read reports: a buffer shorter than one word is cut
/// short; otherwise a first word other than the magic is a wrong magic; a
/// buffer with the magic that is shorter than the header, or than the data
/// its header announces (four words plus eight per vertex plus one per
/// index), is cut short; any other buffer is read.
pub proof fn law_k2m_errors(b: Seq<u8>)
    ensures
        b.len() < 4 ==> k2m_error_of(b) == Some(K2mError::UnexpectedEof),
        b.len() >= 4 && word_at(b, 0) != 0x4B32_4D21u32 ==> k2m_error_of(b) == Some(K2mError::InvalidMagic),
        b.len() >= 4 && word_at(b, 0) == 0x4B32_4D21u32 && (b.len() < 16
            || b.len() < 4 * (4 + 8 * (word_at(b, 2) as int) + word_at(b, 3) as int))
            ==> k2m_error_of(b) == Some(K2mError::UnexpectedEof),
        b.len() >= 16 && word_at(b, 0) == 0x4B32_4D21u32
            && b.len() >= 4 * (4 + 8 * (word_at(b, 2) as int) + word_at(b, 3) as int) ==> k2m_error_of(b) is None,
{
}

} // verus!
