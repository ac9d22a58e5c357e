use std::collections::HashSet;

use actor_editor::capper::chain_outlines;
use actor_editor::mesh_topology::{
    append_offset, cap_cleanup_length, polycount, separate_triangle_indices, slots_to_indices, split_selected,
    transfer_triangles, triangles_from_indices, vertex_order, weld,
};
use actor_editor::optimization::{
    finish_optimization, needs_sloppy_retry, remap_attribute, simplification_rejected, target_index_count,
    weld_positions, OptimizationSettings, UNUSED_VERTEX,
};
use actor_editor::slicing::{
    classify_triangle, plan_triangle_split, slicing_step, split_pieces, Corner, Placement, TriangleSplit,
};

fn key(n: i32) -> [i32; 8] {
    [n, 0, 0, 0, 0, 0, 0, 0]
}

#[test]
fn triangles_ignore_trailing_partial_triple() {
    let tris = triangles_from_indices(&vec![0, 1, 2, 2, 3, 0, 7]);
    assert_eq!(tris, vec![[0, 1, 2], [2, 3, 0]]);
    assert!(triangles_from_indices(&vec![1, 2]).is_empty());
}

#[test]
fn vertex_order_uses_indices_or_counts() {
    let idx = vec![2u32, 0, 1];
    assert_eq!(vertex_order(Some(&idx), 10), vec![2, 0, 1]);
    assert_eq!(vertex_order(None, 4), vec![0, 1, 2, 3]);
}

#[test]
fn separate_triangles_get_consecutive_indices() {
    assert_eq!(separate_triangle_indices(2), vec![0, 1, 2, 3, 4, 5]);
    assert!(separate_triangle_indices(0).is_empty());
}

#[test]
fn cap_cleanup_truncates_only_when_caps_exist() {
    assert_eq!(cap_cleanup_length(2, 12), Some(6));
    assert_eq!(cap_cleanup_length(4, 12), None);
    assert_eq!(cap_cleanup_length(5, 12), None);
}

#[test]
fn polycount_sums_meshes() {
    let meshes = vec![(Some(9usize), 100usize), (None, 7), (Some(2), 3)];
    assert_eq!(polycount(&meshes), 3 + 2 + 0);
    assert_eq!(polycount(&vec![]), 0);
}

#[test]
fn weld_merges_equal_keys_in_first_use_order() {
    let keys = vec![key(5), key(6), key(5), key(7)];
    let tris = vec![[1, 2, 0], [3, 0, 9]];
    let w = weld(&keys, &tris);
    assert_eq!(w.sources, vec![1, 2, 3]);
    assert_eq!(w.slots, vec![0, 1, 1, 2, 1]);
    assert_eq!(slots_to_indices(&w.slots), vec![0u32, 1, 1, 2, 1]);
}

#[test]
fn split_selected_partitions_in_order() {
    let tris = vec![[0, 1, 2], [3, 4, 5], [6, 7, 8]];
    let mut sel = HashSet::new();
    sel.insert(1usize);
    sel.insert(5usize);
    let (keep, moved) = split_selected(&tris, &sel);
    assert_eq!(keep, vec![[0, 1, 2], [6, 7, 8]]);
    assert_eq!(moved, vec![[3, 4, 5]]);
    assert_eq!(keep.len() + moved.len(), tris.len());
}

#[test]
fn append_offset_shifts_moved_corners() {
    let all = append_offset(&vec![[0, 1, 2]], &vec![[0, 2, 1]], 3);
    assert_eq!(all, vec![[0, 1, 2], [3, 5, 4]]);
}

#[test]
fn transfer_moves_selected_triangle() {
    let src_keys = vec![key(1), key(2), key(3), key(4)];
    let src_tris = vec![[0, 1, 2], [1, 3, 2]];
    let dst_keys = vec![key(10), key(11), key(12)];
    let dst_tris = vec![[0, 1, 2]];
    let mut sel = HashSet::new();
    sel.insert(1usize);
    let plan = transfer_triangles(&src_keys, &src_tris, &dst_keys, &dst_tris, &sel);
    assert_eq!(plan.src.sources, vec![0, 1, 2]);
    assert_eq!(plan.src.slots, vec![0, 1, 2]);
    assert_eq!(plan.dst.sources, vec![0, 1, 2, 4, 6, 5]);
    assert_eq!(plan.dst.slots, vec![0, 1, 2, 3, 4, 5]);
}

#[test]
fn transfer_welds_shared_vertices() {
    let src_keys = vec![key(1), key(2), key(3)];
    let src_tris = vec![[0, 1, 2]];
    let dst_keys = vec![key(1), key(2), key(9)];
    let dst_tris = vec![[0, 1, 2]];
    let mut sel = HashSet::new();
    sel.insert(0usize);
    let plan = transfer_triangles(&src_keys, &src_tris, &dst_keys, &dst_tris, &sel);
    assert!(plan.src.sources.is_empty());
    assert!(plan.src.slots.is_empty());
    assert_eq!(plan.dst.sources, vec![0, 1, 2, 5]);
    assert_eq!(plan.dst.slots, vec![0, 1, 2, 0, 1, 3]);
}

fn q(x: i32, z: i32) -> [i32; 3] {
    [x, 0, z]
}

#[test]
fn chain_closes_a_square() {
    let segs = vec![
        (q(0, 0), q(1, 0)),
        (q(1, 1), q(0, 1)),
        (q(1, 0), q(1, 1)),
        (q(0, 1), q(0, 0)),
    ];
    let outlines = chain_outlines(&segs);
    assert_eq!(outlines, vec![vec![(0, 0), (0, 1), (2, 1), (1, 1)]]);
}

#[test]
fn chain_follows_reversed_segments_and_drops_short_runs() {
    let segs = vec![
        (q(0, 0), q(1, 0)),
        (q(1, 1), q(1, 0)),
        (q(0, 0), q(1, 1)),
        (q(5, 5), q(6, 6)),
    ];
    let outlines = chain_outlines(&segs);
    assert_eq!(outlines, vec![vec![(0, 0), (0, 1), (1, 0)]]);
    assert!(chain_outlines(&vec![]).is_empty());
}

#[test]
fn chain_open_polyline_is_kept_when_long_enough() {
    let segs = vec![(q(0, 0), q(1, 0)), (q(1, 0), q(2, 0)), (q(2, 0), q(3, 0))];
    let outlines = chain_outlines(&segs);
    assert_eq!(outlines, vec![vec![(0, 0), (0, 1), (1, 1), (2, 1)]]);
    for o in &outlines {
        assert!(o.len() >= 3);
        assert_eq!(o[0].0, o[1].0);
    }
}

#[test]
fn split_plan_picks_lone_vertex_and_keeps_winding() {
    assert_eq!(plan_triangle_split([true, true, true]), TriangleSplit::AllAbove);
    assert_eq!(plan_triangle_split([false, false, false]), TriangleSplit::AllBelow);
    assert_eq!(
        plan_triangle_split([false, true, false]),
        TriangleSplit::Split { lone: 1, lone_above: true, first: 2, second: 0 }
    );
    assert_eq!(
        plan_triangle_split([true, true, false]),
        TriangleSplit::Split { lone: 2, lone_above: false, first: 0, second: 1 }
    );
    assert_eq!(
        plan_triangle_split([true, false, false]),
        TriangleSplit::Split { lone: 0, lone_above: true, first: 1, second: 2 }
    );
}

#[test]
fn split_pieces_layout() {
    let p = split_pieces(1, true, 2, 0);
    assert!(p.lone_above);
    assert_eq!(p.lone_side, [Corner::Vertex(1), Corner::Cut(0), Corner::Cut(1)]);
    assert_eq!(p.far_side[0], [Corner::Cut(0), Corner::Vertex(2), Corner::Vertex(0)]);
    assert_eq!(p.far_side[1], [Corner::Cut(0), Corner::Vertex(0), Corner::Cut(1)]);
}

#[test]
fn classify_triangles_between_planes() {
    let t = [true; 3];
    let f = [false; 3];
    assert_eq!(classify_triangle(t, f, t, f), Placement::Head);
    assert_eq!(classify_triangle(f, t, f, t), Placement::Legs);
    assert_eq!(classify_triangle(f, f, t, t), Placement::Body);
    assert_eq!(classify_triangle([true, false, true], f, t, [false, true, false]), Placement::Straddles);
}

#[test]
fn optimization_settings_default() {
    let s = OptimizationSettings::default();
    assert_eq!(s.target_triangles, 15000);
    assert!(!s.is_optimized);
    assert!(!s.wireframe);
}

#[test]
fn optimization_decisions() {
    assert_eq!(target_index_count(10, 100), 30);
    assert_eq!(target_index_count(50, 100), 100);
    assert!(needs_sloppy_retry(301, 150));
    assert!(!needs_sloppy_retry(300, 150));
    assert!(!needs_sloppy_retry(99, 10));
    assert!(simplification_rejected(30, 30));
    assert!(!simplification_rejected(0, 0));
    assert!(!simplification_rejected(27, 30));
}

#[test]
fn weld_positions_merges_duplicates() {
    let positions = vec![[1, 2, 3], [4, 5, 6], [1, 2, 3], [7, 8, 9], [9, 9, 9]];
    let indices = vec![0u32, 1, 3, 2, 3, 1];
    let w = weld_positions(&positions, &indices);
    assert_eq!(w.vertex_count, 3);
    assert_eq!(w.indices.len(), 6);
    assert_eq!(w.indices[0], w.indices[3]);
    for k in 0..indices.len() {
        assert_eq!(w.positions[w.indices[k] as usize], positions[indices[k] as usize]);
    }
    assert_eq!(w.remap[4], UNUSED_VERTEX);
}

#[test]
fn finish_and_remap_attribute() {
    let positions = vec![[1, 0, 0], [2, 0, 0], [3, 0, 0], [4, 0, 0]];
    let indices = vec![0u32, 1, 2, 1, 2, 3];
    let w = weld_positions(&positions, &indices);
    assert!(finish_optimization(&w, 6, &vec![0, 1, 2, 0, 1, 2]).is_none());
    let simplified = vec![w.indices[3], w.indices[4], w.indices[5]];
    let c = finish_optimization(&w, 6, &simplified).unwrap();
    assert_eq!(c.vertex_count, 3);
    assert_eq!(c.indices, vec![0, 1, 2]);
    let normals: Vec<[u32; 3]> = vec![[10, 0, 0], [20, 0, 0], [30, 0, 0], [40, 0, 0]];
    let out = remap_attribute(&normals, &w, &c);
    assert_eq!(out, vec![[20, 0, 0], [30, 0, 0], [40, 0, 0]]);
}

#[test]
fn slicing_waits_for_running_task_or_missing_actor() {
    let s = slicing_step(true, true, true, true, false, true, true, true);
    assert!(!s.start_slice && !s.push_undo && !s.apply_default_cuts && !s.clear_dragging);
    assert!(s.trigger_slice && !s.suppress_undo && s.needs_confirm);
    let s = slicing_step(false, false, false, true, true, true, true, false);
    assert!(!s.start_slice && s.trigger_slice && s.suppress_undo && s.needs_confirm);
}

#[test]
fn slicing_first_load_applies_default_cuts() {
    let s = slicing_step(false, true, true, false, false, false, false, true);
    assert!(s.start_slice && s.apply_default_cuts && !s.push_undo);
    assert!(!s.trigger_slice && s.needs_confirm && !s.clear_dragging);
    let s = slicing_step(false, true, true, false, false, true, false, false);
    assert!(s.start_slice && !s.apply_default_cuts);
}

#[test]
fn slicing_trigger_records_undo_and_resets_flags() {
    let s = slicing_step(false, true, false, true, false, true, true, false);
    assert!(s.push_undo && s.start_slice && !s.apply_default_cuts);
    assert!(!s.trigger_slice && !s.suppress_undo && !s.needs_confirm && s.clear_dragging);
    // A suppressed trigger (undo / redo / load) slices without recording.
    let s = slicing_step(false, true, false, true, true, true, true, false);
    assert!(!s.push_undo && s.start_slice && !s.suppress_undo);
    // No earlier cut, or unchanged cuts: nothing to record.
    assert!(!slicing_step(false, true, false, true, false, false, true, false).push_undo);
    assert!(!slicing_step(false, true, false, true, false, true, false, false).push_undo);
}

#[test]
fn slicing_moved_cut_starts_without_trigger() {
    let s = slicing_step(false, true, false, false, false, true, true, false);
    assert!(s.start_slice && !s.push_undo && s.needs_confirm && !s.clear_dragging);
    let s = slicing_step(false, true, false, false, false, true, false, false);
    assert!(!s.start_slice);
}

#[test]
fn chain_shares_points_between_many_segments() {
    // Two triangles sharing the corner (0, 0): both outlines close.
    let a = q(0, 0);
    let segs = vec![(a, q(1, 0)), (q(1, 0), q(1, 1)), (q(1, 1), a), (a, q(-1, 0)), (q(-1, 0), q(-1, -1)), (q(-1, -1), a)];
    let outlines = chain_outlines(&segs);
    assert_eq!(outlines.len(), 2);
    assert_eq!(outlines[0], vec![(0, 0), (0, 1), (1, 1)]);
    assert_eq!(outlines[1], vec![(3, 0), (3, 1), (4, 1)]);
}

#[test]
fn weld_separates_keys_with_equal_leading_components() {
    let mut k1 = key(1);
    let mut k2 = key(1);
    k1[7] = 10;
    k2[7] = 20;
    let w = weld(&vec![k1, k2, k1], &vec![[0, 1, 2]]);
    assert_eq!(w.sources, vec![0, 1]);
    assert_eq!(w.slots, vec![0, 1, 0]);
}

#[test]
fn finish_renumbers_in_first_use_order() {
    let positions = vec![[1u32, 0, 0], [0, 1, 0], [0, 0, 1]];
    let indices = vec![0u32, 1, 2];
    let w = weld_positions(&positions, &indices);
    assert_eq!(w.remap, vec![0, 1, 2]);
    let c = finish_optimization(&w, 6, &vec![0, 2, 1]).expect("accepted");
    assert_eq!(c.remap, vec![0, 2, 1]);
    assert_eq!(c.indices, vec![0, 1, 2]);
}
