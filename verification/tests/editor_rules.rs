use std::collections::HashSet;

use actor_editor::editor_state::{
    apply_selection, confirm_action, decide_preset_save, decide_save, is_environment_mesh, PresetSave, gizmo_viewport, import_target, lasso_priority_part,
    loading_overlay_visible, next_isolated_part, normalization_step, sections_for_mode, shortcut_requests,
    status_label, sync_inspector_mode, ConfirmOutcome, EditorAction, EditorMode, EditorStatus, ImportTarget,
    InspectionSettings, LassoSelectionMode, SaveDecision, ViewportSettings,
};
use actor_editor::sockets::{
    append_decimal, next_socket_name, next_socket_number, parse_u32_chars, socket_name_is_valid,
    socket_name_prefix, string_chars, ActorPart, SocketFilterState, SocketInfo,
};

fn sock(part: ActorPart, name: &str) -> SocketInfo {
    SocketInfo { part, name: name.to_string() }
}

fn parse(s: &str) -> Option<u32> {
    let chars: Vec<char> = s.chars().collect();
    parse_u32_chars(&chars, 0)
}

#[test]
fn parse_follows_u32_from_str() {
    for s in ["0", "7", "+12", "007", "4294967295", "", "+", "-1", "12a", " 1", "4294967296", "99999999999", "١"] {
        assert_eq!(parse(s), s.parse::<u32>().ok(), "input {:?}", s);
    }
    let chars: Vec<char> = "ab42".chars().collect();
    assert_eq!(parse_u32_chars(&chars, 2), Some(42));
}

#[test]
fn decimal_formatting() {
    for n in [0u32, 5, 10, 123, 4294967295] {
        let mut s = String::from("x");
        append_decimal(&mut s, n);
        assert_eq!(s, format!("x{}", n));
    }
}

#[test]
fn prefixes_name_the_part() {
    assert_eq!(socket_name_prefix(ActorPart::Head), "Socket_Head_");
    assert_eq!(socket_name_prefix(ActorPart::Body), "Socket_Body_");
    assert_eq!(socket_name_prefix(ActorPart::Engine), "Socket_Engine_");
    assert_eq!(string_chars(&"añb".to_string()), vec!['a', 'ñ', 'b']);
}

#[test]
fn first_socket_is_number_one() {
    assert_eq!(next_socket_name(ActorPart::Head, &vec![]), "Socket_Head_1");
}

#[test]
fn next_socket_name_fills_the_first_gap() {
    let sockets = vec![
        sock(ActorPart::Head, "Socket_Head_1"),
        sock(ActorPart::Head, "Socket_Head_3"),
        sock(ActorPart::Body, "Socket_Body_2"),
        sock(ActorPart::Head, "Custom"),
    ];
    assert_eq!(next_socket_name(ActorPart::Head, &sockets), "Socket_Head_2");
    assert_eq!(next_socket_name(ActorPart::Body, &sockets), "Socket_Body_1");
    assert_eq!(next_socket_name(ActorPart::Engine, &sockets), "Socket_Engine_1");
}

#[test]
fn next_socket_number_skips_duplicates_and_other_parts() {
    let sockets = vec![
        sock(ActorPart::Body, "Socket_Body_1"),
        sock(ActorPart::Body, "Socket_Body_1"),
        sock(ActorPart::Body, "Socket_Body_+2"),
        sock(ActorPart::Body, "Socket_Body_04"),
        sock(ActorPart::Head, "Socket_Body_3"),
        sock(ActorPart::Body, "Socket_Body_x"),
    ];
    assert_eq!(next_socket_number(ActorPart::Body, &sockets), 3);
    assert_eq!(next_socket_name(ActorPart::Body, &sockets), "Socket_Body_3");
}

#[test]
fn socket_names_must_be_unique_per_part() {
    let sockets = vec![
        sock(ActorPart::Head, "A"),
        sock(ActorPart::Head, "B"),
        sock(ActorPart::Body, "C"),
    ];
    assert!(!socket_name_is_valid(&sockets, 0, &"B".to_string()));
    assert!(socket_name_is_valid(&sockets, 0, &"C".to_string()));
    assert!(socket_name_is_valid(&sockets, 0, &"A".to_string()));
    assert!(!socket_name_is_valid(&sockets, 0, &"".to_string()));
    assert!(socket_name_is_valid(&sockets, 7, &"B".to_string()));
    assert!(!socket_name_is_valid(&sockets, 7, &"".to_string()));
}

#[test]
fn socket_filter_is_case_insensitive() {
    let mut f = SocketFilterState::new();
    assert!(f.shows(&"Anything".to_string(), ActorPart::Body));
    f.search_text = "head".to_string();
    assert!(f.shows(&"Socket_HEAD_1".to_string(), ActorPart::Head));
    assert!(!f.shows(&"Socket_Body_1".to_string(), ActorPart::Head));
    f.part_filter = Some(ActorPart::Body);
    assert!(!f.shows(&"Socket_HEAD_1".to_string(), ActorPart::Head));
    f.search_text = String::new();
    assert!(f.shows(&"x".to_string(), ActorPart::Body));
}

#[test]
fn inspection_cycles_through_parts() {
    let mut p = None;
    let mut seen = Vec::new();
    for _ in 0..4 {
        p = next_isolated_part(p);
        seen.push(p);
    }
    assert_eq!(seen, vec![Some(ActorPart::Head), Some(ActorPart::Body), Some(ActorPart::Engine), None]);
    let mut s = InspectionSettings::new();
    assert_eq!(s.advance_isolation(), Some(ActorPart::Head));
    assert!(s.is_active);
    assert!(s.part_visible(ActorPart::Head));
    assert!(!s.part_visible(ActorPart::Body));
    s.ghost_mode = true;
    assert!(s.part_visible(ActorPart::Body));
}

#[test]
fn lasso_prefers_head_then_body() {
    assert_eq!(lasso_priority_part(&vec![]), None);
    assert_eq!(lasso_priority_part(&vec![ActorPart::Engine, ActorPart::Body]), Some(ActorPart::Body));
    assert_eq!(lasso_priority_part(&vec![ActorPart::Body, ActorPart::Head, ActorPart::Engine]), Some(ActorPart::Head));
    assert_eq!(lasso_priority_part(&vec![ActorPart::Engine]), Some(ActorPart::Engine));
}

#[test]
fn selection_add_and_subtract() {
    let mut sel: HashSet<usize> = [1, 2].into_iter().collect();
    apply_selection(&mut sel, &vec![2, 3], LassoSelectionMode::Add);
    assert_eq!(sel, [1, 2, 3].into_iter().collect());
    apply_selection(&mut sel, &vec![1, 5], LassoSelectionMode::Subtract);
    assert_eq!(sel, [2, 3].into_iter().collect());
    apply_selection(&mut sel, &vec![9], LassoSelectionMode::Add);
    apply_selection(&mut sel, &vec![9], LassoSelectionMode::Subtract);
    assert_eq!(sel, [2, 3].into_iter().collect());
}

#[test]
fn obj_files_load_as_mesh_others_as_scene() {
    match import_target(&"models/robot.obj".to_string()) {
        ImportTarget::Mesh(p) => assert_eq!(p, "models/robot.obj"),
        ImportTarget::Scene(_) => panic!("expected mesh"),
    }
    match import_target(&"models/robot.glb".to_string()) {
        ImportTarget::Scene(p) => assert_eq!(p, "models/robot.glb#Scene0"),
        ImportTarget::Mesh(_) => panic!("expected scene"),
    }
    assert!(matches!(import_target(&"obj".to_string()), ImportTarget::Scene(_)));
}

#[test]
fn save_decisions() {
    assert!(matches!(decide_save(None, &String::new(), false, false, true), SaveDecision::NoActiveProject));
    match decide_save(Some("bot".to_string()), &"old".to_string(), false, false, true) {
        SaveDecision::ConfirmOverwrite(n) => assert_eq!(n, "bot"),
        _ => panic!("expected confirmation"),
    }
    match decide_save(Some("bot".to_string()), &"old".to_string(), true, false, true) {
        SaveDecision::Save(n) => assert_eq!(n, "bot"),
        _ => panic!("expected save"),
    }
    match decide_save(None, &"old".to_string(), false, true, true) {
        SaveDecision::Save(n) => assert_eq!(n, "old"),
        _ => panic!("expected save"),
    }
    match decide_save(None, &"old".to_string(), false, false, false) {
        SaveDecision::Save(n) => assert_eq!(n, "old"),
        _ => panic!("expected save"),
    }
}

#[test]
fn confirm_dialog_outcomes() {
    assert!(matches!(confirm_action(&EditorAction::BackToMenu, &String::new()), ConfirmOutcome::GoToMenu));
    match confirm_action(&EditorAction::SaveProject(String::new()), &"  robot \n".to_string()) {
        ConfirmOutcome::SaveAs { name, force } => {
            assert_eq!(name, "robot");
            assert!(!force);
        },
        _ => panic!("expected save"),
    }
    assert!(matches!(
        confirm_action(&EditorAction::SaveProject(String::new()), &"   ".to_string()),
        ConfirmOutcome::Nothing
    ));
    match confirm_action(&EditorAction::OverwriteProject("bot".to_string()), &"ignored".to_string()) {
        ConfirmOutcome::SaveAs { name, force } => {
            assert_eq!(name, "bot");
            assert!(force);
        },
        _ => panic!("expected overwrite"),
    }
}

#[test]
fn inspector_mode_sync() {
    let s = sync_inspector_mode(EditorMode::Slicing, true, false);
    assert_eq!(s.mode, EditorMode::Sockets);
    assert!(!s.clear_socket_selection);
    let s = sync_inspector_mode(EditorMode::Sockets, false, true);
    assert_eq!(s.mode, EditorMode::Slicing);
    assert!(s.clear_socket_selection);
    let s = sync_inspector_mode(EditorMode::Sockets, true, true);
    assert_eq!(s.mode, EditorMode::Slicing);
    let s = sync_inspector_mode(EditorMode::Sockets, true, false);
    assert_eq!(s.mode, EditorMode::Sockets);
    assert!(!s.clear_socket_selection);
    assert_eq!(sections_for_mode(EditorMode::Sockets), (true, false));
    assert_eq!(sections_for_mode(EditorMode::Slicing), (false, true));
}

#[test]
fn viewport_layout_and_progress() {
    assert_eq!(gizmo_viewport(1080), (20, 940, 120, 120));
    assert_eq!(gizmo_viewport(100), (20, 0, 120, 120));
    assert_eq!(normalization_step(0, 120), 50);
    assert_eq!(normalization_step(100, 120), 120);
    assert_eq!(normalization_step(130, 120), 130);
}

#[test]
fn status_texts() {
    assert_eq!(status_label(EditorStatus::Ready), "READY");
    assert_eq!(status_label(EditorStatus::Saving), "SAVING...");
    assert_eq!(status_label(EditorStatus::Loading), "LOADING...");
    assert_eq!(status_label(EditorStatus::Processing), "PROCESSING...");
    assert!(loading_overlay_visible(EditorStatus::Loading));
    assert!(!loading_overlay_visible(EditorStatus::Ready));
}

#[test]
fn viewport_hotkeys_and_defaults() {
    let mut v = ViewportSettings::default();
    assert!(v.grid && v.slices && v.sockets && v.gizmos && !v.xray && v.show_vfx);
    v.apply_hotkeys(true, false, true, false);
    assert!(!v.grid && v.slices && !v.sockets && v.gizmos);
}

#[test]
fn undo_redo_shortcuts() {
    assert_eq!(shortcut_requests(true, false, true, false), (1, 0));
    assert_eq!(shortcut_requests(true, true, true, false), (0, 1));
    assert_eq!(shortcut_requests(true, false, false, true), (0, 1));
    assert_eq!(shortcut_requests(true, true, true, true), (0, 2));
    assert_eq!(shortcut_requests(false, false, true, true), (0, 0));
}

#[test]
fn environment_meshes_are_recognised_by_name() {
    assert!(is_environment_mesh(&"Shadow_Plane".to_string()));
    assert!(is_environment_mesh(&"GROUND_FLOOR".to_string()));
    assert!(is_environment_mesh(&"debug grid".to_string()));
    assert!(is_environment_mesh(&"Backdrop_Background".to_string()));
    assert!(!is_environment_mesh(&"Robot_Head".to_string()));
    assert!(!is_environment_mesh(&"".to_string()));
}

#[test]
fn preset_save_needs_a_name() {
    assert!(matches!(decide_preset_save(&"   ".to_string()), PresetSave::MissingName));
    assert!(matches!(decide_preset_save(&"".to_string()), PresetSave::MissingName));
    match decide_preset_save(&"  Sparks\t".to_string()) {
        PresetSave::Save(n) => assert_eq!(n, "Sparks"),
        PresetSave::MissingName => panic!("a name was typed"),
    }
}

#[test]
fn confirm_trims_unicode_white_space() {
    let outcome = confirm_action(&EditorAction::SaveProject(String::new()), &"\u{3000} Ship\u{00A0}\n".to_string());
    match outcome {
        ConfirmOutcome::SaveAs { name, force } => {
            assert_eq!(name, "Ship");
            assert!(!force);
        }
        _ => panic!("a name was typed"),
    }
}
