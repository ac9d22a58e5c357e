use actor_editor::action_stack::{ActionStack, DEFAULT_MAX_SIZE};
use actor_editor::k2m::{
    decode_k2m, encode_k2m, export_k2m_bytes, prepare_export, ExportError, ExportSource, K2mError, K2mMesh,
    K2M_MAGIC, K2M_VERSION,
};

fn stack_with(max: usize) -> ActionStack<u32> {
    let mut s = ActionStack::new();
    s.max_size = max;
    s
}

#[test]
fn action_stack_defaults() {
    let s: ActionStack<u32> = ActionStack::default();
    assert!(s.undo.is_empty());
    assert!(s.redo.is_empty());
    assert_eq!(s.max_size, 50);
    assert_eq!(DEFAULT_MAX_SIZE, 50);
    assert!(!s.can_undo());
    assert!(!s.can_redo());
}

#[test]
fn push_clears_redo_and_caps_history() {
    let mut s = stack_with(3);
    s.push(1);
    s.push(2);
    s.redo.push(99);
    s.push(3);
    assert!(s.redo.is_empty());
    s.push(4);
    assert_eq!(s.undo, vec![2, 3, 4]);
}

#[test]
fn push_then_undo_returns_command() {
    let mut s = stack_with(5);
    s.push(7);
    s.push(8);
    assert_eq!(s.pop_undo(), Some(8));
    assert_eq!(s.undo, vec![7]);
    let mut empty = stack_with(5);
    assert_eq!(empty.pop_undo(), None);
    assert_eq!(empty.pop_redo(), None);
}

#[test]
fn undo_then_redo_restores_lists() {
    let mut s = stack_with(4);
    s.push(1);
    s.push(2);
    s.push(3);
    let before_undo = s.undo.clone();
    let before_redo = s.redo.clone();
    let c = s.pop_undo().unwrap();
    s.record_undone(c);
    assert_eq!(s.redo, vec![3]);
    assert!(s.can_redo());
    let c = s.pop_redo().unwrap();
    s.record_redone(c);
    assert_eq!(s.undo, before_undo);
    assert_eq!(s.redo, before_redo);
}

#[test]
fn redo_list_is_capped() {
    let mut s = stack_with(2);
    s.record_undone(1);
    s.record_undone(2);
    s.record_undone(3);
    assert_eq!(s.redo, vec![2, 3]);
    s.record_redone(4);
    s.record_redone(5);
    s.record_redone(6);
    assert_eq!(s.undo, vec![5, 6]);
    assert_eq!(s.redo, vec![2, 3]);
}

#[test]
fn zero_capacity_keeps_nothing() {
    let mut s = stack_with(0);
    s.push(1);
    assert!(s.undo.is_empty());
}

fn sample_mesh() -> K2mMesh {
    K2mMesh {
        positions: vec![[1.0f32.to_bits(), 2.0f32.to_bits(), 3.0f32.to_bits()], [0, 0, 0x3f80_0000]],
        normals: vec![[0, 0x3f80_0000, 0], [0, 0x3f80_0000, 0]],
        uvs: vec![[0, 0], [0x3f00_0000, 0x3f00_0000]],
        indices: vec![0, 1, 0],
    }
}

#[test]
fn k2m_layout_is_little_endian_words() {
    let bytes = encode_k2m(&sample_mesh());
    assert_eq!(bytes.len(), 4 * (4 + 8 * 2 + 3));
    assert_eq!(&bytes[0..4], &[0x21, 0x4D, 0x32, 0x4B]);
    assert_eq!(&bytes[0..4], &K2M_MAGIC.to_le_bytes());
    assert_eq!(&bytes[4..8], &K2M_VERSION.to_le_bytes());
    assert_eq!(&bytes[8..12], &2u32.to_le_bytes());
    assert_eq!(&bytes[12..16], &3u32.to_le_bytes());
    assert_eq!(&bytes[16..20], &1.0f32.to_le_bytes());
    assert_eq!(&bytes[bytes.len() - 4..], &0u32.to_le_bytes());
}

#[test]
fn k2m_roundtrip() {
    let mesh = sample_mesh();
    let bytes = encode_k2m(&mesh);
    let back = decode_k2m(&bytes).ok().unwrap();
    assert_eq!(back.positions, mesh.positions);
    assert_eq!(back.normals, mesh.normals);
    assert_eq!(back.uvs, mesh.uvs);
    assert_eq!(back.indices, mesh.indices);
}

#[test]
fn k2m_ignores_trailing_bytes_and_version() {
    let mut bytes = encode_k2m(&sample_mesh());
    bytes[4] = 9;
    bytes.extend_from_slice(&[1, 2, 3]);
    let back = decode_k2m(&bytes).ok().unwrap();
    assert_eq!(back.indices, vec![0, 1, 0]);
}

#[test]
fn k2m_errors() {
    assert_eq!(decode_k2m(&[]).err(), Some(K2mError::UnexpectedEof));
    assert_eq!(decode_k2m(&[0x21, 0x4D]).err(), Some(K2mError::UnexpectedEof));
    assert_eq!(decode_k2m(&[0, 0, 0, 0]).err(), Some(K2mError::InvalidMagic));
    assert_eq!(decode_k2m(&K2M_MAGIC.to_le_bytes()).err(), Some(K2mError::UnexpectedEof));
    let bytes = encode_k2m(&sample_mesh());
    assert_eq!(decode_k2m(&bytes[..bytes.len() - 1]).err(), Some(K2mError::UnexpectedEof));
    let mut huge = Vec::new();
    huge.extend_from_slice(&K2M_MAGIC.to_le_bytes());
    huge.extend_from_slice(&1u32.to_le_bytes());
    huge.extend_from_slice(&u32::MAX.to_le_bytes());
    huge.extend_from_slice(&u32::MAX.to_le_bytes());
    assert_eq!(decode_k2m(&huge).err(), Some(K2mError::UnexpectedEof));
}

#[test]
fn k2m_empty_mesh() {
    let mesh = K2mMesh { positions: vec![], normals: vec![], uvs: vec![], indices: vec![] };
    let bytes = encode_k2m(&mesh);
    assert_eq!(bytes.len(), 16);
    let back = decode_k2m(&bytes).ok().unwrap();
    assert!(back.positions.is_empty() && back.indices.is_empty());
}

#[test]
fn export_reports_missing_attributes_in_order() {
    let src = |p: bool, n: bool, u: bool| ExportSource {
        positions: if p { Some(vec![[0, 0, 0]]) } else { None },
        normals: if n { Some(vec![[0, 0, 0]]) } else { None },
        uvs: if u { Some(vec![[0, 0]]) } else { None },
        indices: None,
    };
    assert_eq!(prepare_export(src(false, false, false)).err(), Some(ExportError::NoPositions));
    assert_eq!(prepare_export(src(true, false, false)).err(), Some(ExportError::NoNormals));
    assert_eq!(prepare_export(src(true, true, false)).err(), Some(ExportError::NoUvs));
    assert_eq!(export_k2m_bytes(src(true, false, true)).err(), Some(ExportError::NoNormals));
}

#[test]
fn export_of_unindexed_mesh_numbers_vertices() {
    let source = ExportSource {
        positions: Some(vec![[0, 0, 0], [1, 1, 1], [2, 2, 2]]),
        normals: Some(vec![[0, 0, 0]; 3]),
        uvs: Some(vec![[0, 0]; 3]),
        indices: None,
    };
    let mesh = prepare_export(source).ok().unwrap();
    assert_eq!(mesh.indices, vec![0, 1, 2]);
    let indexed = ExportSource {
        positions: Some(vec![[0, 0, 0]]),
        normals: Some(vec![[0, 0, 0]]),
        uvs: Some(vec![[0, 0]]),
        indices: Some(vec![0, 0, 0]),
    };
    let bytes = export_k2m_bytes(indexed).ok().unwrap();
    let back = decode_k2m(&bytes).ok().unwrap();
    assert_eq!(back.indices, vec![0, 0, 0]);
}
