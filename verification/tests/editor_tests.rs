use generation::editor::dialogs::{
    ConfirmChoice, ConfirmationDialog, ErrorDialog, PendingAction, ShortcutsPanel,
};
use generation::editor::duplication::{cloned_parents, copy_name, duplicate_requested};
use generation::editor::gizmo::{
    drag_speed, DragSpeed, GizmoState, TransformMode, TransformOrientation,
};
use generation::editor::grouping::{group_requested, ungroup_requested, GroupCounter};
use generation::editor::hierarchy::HierarchyState;
use generation::editor::inspector::parse_hex_color;
use generation::editor::outline::{root_entities, visible_rows};
use generation::editor::persistence::{
    autosave_file_name, autosave_menu_label, AutoSaveInterval, AutoSaveNotification, AutoSaveTimer, CurrentFile,
    NOTIFICATION_SECS,
};
use generation::editor::primitives::{identify_primitive_type, PrimitiveType};
use generation::editor::selection::{SelectedEntity, SelectionSet};
use generation::editor::spawn::{choose_spawn_point, spawn_marker_to_use, NamedSpawnPoint};
use generation::editor::text::decimal_string;
use std::collections::{HashMap, HashSet};

fn sorted(v: Vec<u64>) -> Vec<u64> {
    let mut v = v;
    v.sort();
    v
}

#[test]
fn selection_add_remove_toggle() {
    let mut s = SelectionSet::default();
    assert!(s.is_empty());
    s.add(3);
    s.add(5);
    s.add(3);
    assert_eq!(s.len(), 2);
    assert!(s.contains(3));
    s.remove(3);
    assert!(!s.contains(3));
    s.toggle(7);
    assert!(s.contains(7));
    s.toggle(7);
    assert!(!s.contains(7));
    assert_eq!(s.len(), 1);
    s.clear();
    assert!(s.is_empty());
}

#[test]
fn selection_toggle_twice_gives_it_back() {
    let mut s = SelectionSet::default();
    s.add(1);
    s.add(2);
    s.toggle(2);
    s.toggle(2);
    s.toggle(9);
    s.toggle(9);
    assert_eq!(sorted(s.to_vec()), vec![1, 2]);
}

#[test]
fn selection_first_and_to_vec() {
    let mut s = SelectionSet::default();
    assert_eq!(s.first(), None);
    assert!(s.to_vec().is_empty());
    s.add(42);
    assert_eq!(s.first(), Some(42));
    s.add(8);
    let f = s.first().unwrap();
    assert!(f == 42 || f == 8);
    assert_eq!(sorted(s.to_vec()), vec![8, 42]);
    assert!(SelectedEntity::default().entity.is_none());
}

#[test]
fn plain_click_selects_only_the_clicked_entity() {
    let mut s = SelectionSet::default();
    s.add(1);
    s.add(2);
    assert!(s.handle_selection(5, false, false, true, false, false));
    assert_eq!(s.to_vec(), vec![5]);
}

#[test]
fn ctrl_click_flips_the_clicked_entity() {
    let mut s = SelectionSet::default();
    s.add(1);
    assert!(s.handle_selection(2, false, false, true, false, true));
    assert_eq!(sorted(s.to_vec()), vec![1, 2]);
    assert!(s.handle_selection(1, false, false, true, false, true));
    assert_eq!(s.to_vec(), vec![2]);
}

#[test]
fn clicks_that_do_not_select() {
    let mut s = SelectionSet::default();
    s.add(1);
    assert!(!s.handle_selection(2, true, false, true, false, false));
    assert!(!s.handle_selection(2, false, true, true, false, false));
    assert!(!s.handle_selection(2, false, false, false, false, false));
    assert!(!s.handle_selection(2, false, false, true, true, false));
    assert_eq!(s.to_vec(), vec![1]);
}

#[test]
fn escape_clears_unless_placing() {
    let mut s = SelectionSet::default();
    assert!(!s.handle_deselection(false, true));
    s.add(4);
    assert!(!s.handle_deselection(true, true));
    assert!(!s.handle_deselection(false, false));
    assert_eq!(s.len(), 1);
    assert!(s.handle_deselection(false, true));
    assert!(s.is_empty());
}

#[test]
fn delete_returns_the_selection_and_clears_it() {
    let mut s = SelectionSet::default();
    s.add(4);
    s.add(6);
    assert!(s.delete_selected(true, true).is_empty());
    assert!(s.delete_selected(false, false).is_empty());
    assert_eq!(s.len(), 2);
    assert_eq!(sorted(s.delete_selected(false, true)), vec![4, 6]);
    assert!(s.is_empty());
}

#[test]
fn gizmo_modes_cycle() {
    assert_eq!(TransformMode::Translate.next(), TransformMode::Rotate);
    assert_eq!(TransformMode::Rotate.next(), TransformMode::Scale);
    assert_eq!(TransformMode::Scale.next(), TransformMode::Translate);
    for m in [TransformMode::Translate, TransformMode::Rotate, TransformMode::Scale] {
        assert_eq!(m.next().previous(), m);
        assert_eq!(m.previous().next(), m);
        assert_eq!(m.next().next().next(), m);
    }
    assert_eq!(TransformOrientation::Global.flip(), TransformOrientation::Local);
    assert_eq!(TransformOrientation::Local.flip().flip(), TransformOrientation::Local);
    assert_eq!(TransformMode::default(), TransformMode::Translate);
    assert_eq!(TransformOrientation::default(), TransformOrientation::Global);
}

#[test]
fn gizmo_keys() {
    let mut g = GizmoState::default();
    assert_eq!(g.mode, TransformMode::Translate);
    assert_eq!(g.orientation, TransformOrientation::Global);
    g.toggle_transform_mode(true, false, false);
    assert_eq!(g.mode, TransformMode::Rotate);
    g.toggle_transform_mode(true, true, true);
    assert_eq!(g.mode, TransformMode::Translate);
    assert_eq!(g.orientation, TransformOrientation::Local);
    g.toggle_transform_mode(false, true, false);
    assert_eq!(g.mode, TransformMode::Translate);
    g.toggle_transform_mode(true, true, false);
    assert_eq!(g.mode, TransformMode::Scale);
}

#[test]
fn gizmo_axes_and_snapping() {
    let mut g = GizmoState::default();
    assert!(g.drags_in_world_axes(1));
    assert!(g.snaps_translation(3));
    g.orientation = TransformOrientation::Local;
    assert!(!g.drags_in_world_axes(1));
    assert!(g.drags_in_world_axes(2));
    assert!(g.snaps_translation(1));
    assert!(!g.snaps_translation(2));
}

#[test]
fn drag_speed_by_modifiers() {
    assert_eq!(drag_speed(true, true), DragSpeed::Quarter);
    assert_eq!(drag_speed(false, true), DragSpeed::Quadruple);
    assert_eq!(drag_speed(false, false), DragSpeed::Normal);
}

#[test]
fn confirmation_dialog_request_and_close() {
    let mut d = ConfirmationDialog::default();
    assert!(!d.show);
    d.request(PendingAction::OpenFile);
    assert!(d.show);
    assert_eq!(d.pending_action, Some(PendingAction::OpenFile));
    d.close();
    assert!(!d.show);
    assert_eq!(d.pending_action, None);
}

#[test]
fn guard_waits_only_with_unsaved_changes() {
    let mut d = ConfirmationDialog::default();
    assert!(d.guard(false, PendingAction::NewFile));
    assert!(!d.show);
    assert!(!d.guard(true, PendingAction::NewFile));
    assert!(d.show);
    assert_eq!(d.pending_action, Some(PendingAction::NewFile));
}

#[test]
fn resolving_the_dialog() {
    let mut d = ConfirmationDialog::default();
    d.request(PendingAction::NewFile);
    let out = d.resolve(ConfirmChoice::Save);
    assert!(out.save);
    assert_eq!(out.proceed, Some(PendingAction::NewFile));
    assert!(!d.show);

    d.request(PendingAction::OpenFile);
    let out = d.resolve(ConfirmChoice::DontSave);
    assert!(!out.save);
    assert_eq!(out.proceed, Some(PendingAction::OpenFile));

    d.request(PendingAction::OpenFile);
    let out = d.resolve(ConfirmChoice::Cancel);
    assert!(!out.save);
    assert_eq!(out.proceed, None);
    assert_eq!(d.pending_action, None);
}

#[test]
fn error_dialog_shows_and_clears() {
    let mut e = ErrorDialog::default();
    e.show_error("Save Failed", "disk full");
    assert!(e.show);
    assert_eq!(e.title, "Save Failed");
    assert_eq!(e.message, "disk full");
    e.close();
    assert!(!e.show);
    assert!(e.title.is_empty() && e.message.is_empty());
}

#[test]
fn shortcuts_panel_toggles() {
    let mut p = ShortcutsPanel::default();
    p.toggle();
    assert!(p.show);
    p.toggle();
    assert!(!p.show);
    p.toggle();
    p.close();
    assert!(!p.show);
}

#[test]
fn current_file_flags() {
    let mut f = CurrentFile::default();
    assert!(!f.is_dirty() && !f.has_path());
    assert_eq!(f.get_path(), None);
    f.mark_dirty();
    assert!(f.is_dirty());
    f.set_path("scenes/level.yaml".to_string());
    assert_eq!(f.get_path(), Some("scenes/level.yaml".to_string()));
    f.mark_clean(100);
    assert!(!f.is_dirty());
    assert_eq!(f.last_saved, Some(100));
    f.start_new_file(200);
    assert!(!f.has_path());
    assert_eq!(f.last_saved, Some(200));
}

#[test]
fn file_names_shown() {
    let mut f = CurrentFile::default();
    assert_eq!(f.get_filename(), "untitled");
    f.set_path("scenes/level1.yaml".to_string());
    assert_eq!(f.get_filename(), "level1.yaml");
    assert_eq!(f.display_name(), "level1.yaml");
    f.mark_dirty();
    assert_eq!(f.display_name(), "level1.yaml*");
    f.set_path("/".to_string());
    assert_eq!(f.get_filename(), "untitled");
    f.set_path("maps/..".to_string());
    assert_eq!(f.get_filename(), "untitled");
}

#[test]
fn last_saved_texts() {
    let mut f = CurrentFile::default();
    assert_eq!(f.get_last_saved_text(1000), "never");
    f.mark_clean(1000);
    assert_eq!(f.get_last_saved_text(1000), "just now");
    assert_eq!(f.get_last_saved_text(1059), "just now");
    assert_eq!(f.get_last_saved_text(1060), "1m ago");
    assert_eq!(f.get_last_saved_text(1000 + 5 * 60 + 30), "5m ago");
    assert_eq!(f.get_last_saved_text(1000 + 3599), "59m ago");
    assert_eq!(f.get_last_saved_text(1000 + 3600), "1h ago");
    assert_eq!(f.get_last_saved_text(1000 + 26 * 3600), "26h ago");
    assert_eq!(f.get_last_saved_text(10), "just now");
}

#[test]
fn autosave_names_and_intervals() {
    assert_eq!(autosave_file_name("level.yaml"), "level.yaml.autosave");
    assert_eq!(AutoSaveInterval::Disabled.duration(), None);
    assert_eq!(AutoSaveInterval::OneMinute.duration(), Some(60));
    assert_eq!(AutoSaveInterval::ThirtyMinutes.duration(), Some(1800));
    assert_eq!(AutoSaveInterval::FifteenMinutes.label(), "15 minutes");
    assert_eq!(AutoSaveInterval::Disabled.label(), "Disabled");
    let all = AutoSaveInterval::all();
    assert_eq!(all.len(), 6);
    assert_eq!(all[0], AutoSaveInterval::Disabled);
    assert_eq!(all[5], AutoSaveInterval::ThirtyMinutes);
}

#[test]
fn autosave_timer_settings() {
    let mut t = AutoSaveTimer::default();
    assert_eq!(t.interval, AutoSaveInterval::FiveMinutes);
    assert_eq!(t.period_secs, 300);
    assert!(t.is_enabled());
    assert_eq!(t.set_interval(AutoSaveInterval::TenMinutes), Some(600));
    assert_eq!(t.period_secs, 600);
    assert_eq!(t.set_interval(AutoSaveInterval::Disabled), None);
    assert!(!t.is_enabled());
    assert_eq!(t.period_secs, 600);
}

#[test]
fn autosave_needs_a_dirty_file_with_a_path() {
    let mut t = AutoSaveTimer::default();
    let mut f = CurrentFile::default();
    f.mark_dirty();
    assert!(!t.should_autosave(true, &f));
    f.set_path("a.yaml".to_string());
    assert!(t.should_autosave(true, &f));
    assert!(!t.should_autosave(false, &f));
    f.mark_clean(0);
    assert!(!t.should_autosave(true, &f));
    f.mark_dirty();
    t.set_interval(AutoSaveInterval::Disabled);
    assert!(!t.should_autosave(true, &f));
}

#[test]
fn autosave_notice_expires() {
    let mut n = AutoSaveNotification::default();
    assert!(!n.is_shown());
    n.show("Autosaved to a.yaml.autosave".to_string());
    assert!(n.is_shown());
    n.update(false);
    assert_eq!(n.message.as_deref(), Some("Autosaved to a.yaml.autosave"));
    n.update(true);
    assert!(n.message.is_none());
    assert_eq!(NOTIFICATION_SECS, 3);
}

#[test]
fn hierarchy_expansion_and_renaming() {
    let mut h = HierarchyState::default();
    assert!(!h.is_expanded(3));
    h.toggle_expanded(3);
    assert!(h.is_expanded(3));
    h.toggle_expanded(3);
    assert!(!h.is_expanded(3));
    assert_eq!(h.finish_rename(), None);
    h.start_rename(9, "Cube");
    assert_eq!(h.renaming, Some(9));
    h.name_buffer.push_str(" 2");
    assert_eq!(h.finish_rename(), Some((9, "Cube 2".to_string())));
    assert_eq!(h.renaming, None);
    assert!(h.name_buffer.is_empty());
    h.start_rename(4, "Lamp");
    h.cancel_rename();
    assert_eq!(h.finish_rename(), None);
}

#[test]
fn group_names_count_up() {
    let mut c = GroupCounter::default();
    assert_eq!(c.next_name(), "Group");
    assert_eq!(c.next_name(), "Group 1");
    assert_eq!(c.next_name(), "Group 2");
    assert_eq!(c.count, 3);
    let mut names = HashSet::new();
    let mut d = GroupCounter { count: 0 };
    for _ in 0..120 {
        assert!(names.insert(d.next_name()));
    }
    assert!(names.contains("Group 100"));
}

#[test]
fn group_and_ungroup_keys() {
    assert!(group_requested(false, true, false, true, 2));
    assert!(!group_requested(false, true, false, true, 1));
    assert!(!group_requested(false, true, true, true, 2));
    assert!(!group_requested(true, true, false, true, 2));
    assert!(ungroup_requested(false, true, true, true, 1));
    assert!(!ungroup_requested(false, true, true, true, 0));
    assert!(!ungroup_requested(false, true, false, true, 3));
}

#[test]
fn hex_colors() {
    assert_eq!(parse_hex_color("#ff8000"), Some((255, 128, 0)));
    assert_eq!(parse_hex_color("FF8000"), Some((255, 128, 0)));
    assert_eq!(parse_hex_color("##0a0B0c"), Some((10, 11, 12)));
    assert_eq!(parse_hex_color("+f+f+f"), Some((15, 15, 15)));
    assert_eq!(parse_hex_color("#12345"), None);
    assert_eq!(parse_hex_color("#1234567"), None);
    assert_eq!(parse_hex_color("gg0000"), None);
    assert_eq!(parse_hex_color("-10000"), None);
    assert_eq!(parse_hex_color("f+0000"), None);
    assert_eq!(parse_hex_color(""), None);
    assert_eq!(parse_hex_color("ab\u{e9}cd"), None);
}

#[test]
fn duplication_names_and_keys() {
    assert_eq!(copy_name(Some("Cube")), "Cube Copy");
    assert_eq!(copy_name(None), "Copy");
    assert!(duplicate_requested(false, true, true, 1));
    assert!(!duplicate_requested(false, true, true, 0));
    assert!(!duplicate_requested(true, true, true, 1));
    assert!(!duplicate_requested(false, false, true, 1));
}

#[test]
fn copies_keep_parents_that_were_copied() {
    let sources = vec![10, 11, 12];
    let clones = vec![20, 21, 22];
    let parents = vec![None, Some(10), Some(99)];
    assert_eq!(cloned_parents(&sources, &clones, &parents), vec![None, Some(20), None]);
}

#[test]
fn roots_in_index_order() {
    let gen = 1u64 << 32;
    let entities = vec![(5, None), (gen + 2, None), (7, Some(5)), (3, None), (2 * gen + 9, None)];
    assert_eq!(root_entities(&entities), vec![gen + 2, 3, 5, 2 * gen + 9]);
    assert!(root_entities(&vec![]).is_empty());
}

#[test]
fn visible_rows_follow_expansion() {
    let mut children = HashMap::new();
    children.insert(1u64, vec![2u64, 3]);
    children.insert(2u64, vec![4u64]);
    let mut expanded = HashSet::new();
    assert_eq!(visible_rows(&vec![1, 5], &children, &expanded, 10), vec![(1, 0), (5, 0)]);
    expanded.insert(1u64);
    assert_eq!(
        visible_rows(&vec![1, 5], &children, &expanded, 10),
        vec![(1, 0), (2, 1), (3, 1), (5, 0)]
    );
    expanded.insert(2u64);
    assert_eq!(
        visible_rows(&vec![1, 5], &children, &expanded, 10),
        vec![(1, 0), (2, 1), (4, 2), (3, 1), (5, 0)]
    );
    assert_eq!(visible_rows(&vec![1], &children, &expanded, 1), vec![(1, 0), (2, 1), (3, 1)]);
}

#[test]
fn primitive_from_vertex_count() {
    assert_eq!(identify_primitive_type(24), PrimitiveType::Cube);
    assert_eq!(identify_primitive_type(4), PrimitiveType::Plane);
    assert_eq!(identify_primitive_type(482), PrimitiveType::Sphere);
    assert_eq!(identify_primitive_type(101), PrimitiveType::Sphere);
    assert_eq!(identify_primitive_type(100), PrimitiveType::Cylinder);
    assert_eq!(identify_primitive_type(41), PrimitiveType::Cylinder);
    assert_eq!(identify_primitive_type(40), PrimitiveType::Capsule);
    assert_eq!(identify_primitive_type(0), PrimitiveType::Capsule);
}

#[test]
fn decimal_numerals() {
    assert_eq!(decimal_string(0), "0");
    assert_eq!(decimal_string(7), "7");
    assert_eq!(decimal_string(10), "10");
    assert_eq!(decimal_string(1234), "1234");
    assert_eq!(decimal_string(u64::MAX), u64::MAX.to_string());
}

#[test]
fn status_and_menu_texts() {
    let mut g = GizmoState::default();
    assert_eq!(g.mode_text(), "Mode: Translate");
    g.toggle_transform_mode(true, true, false);
    assert_eq!(g.mode_text(), "Mode: Scale");
    let mut t = AutoSaveTimer::default();
    assert_eq!(t.status_text(), "Autosave: 5 minutes");
    t.set_interval(AutoSaveInterval::Disabled);
    assert_eq!(t.status_text(), "Autosave: Disabled");
    assert_eq!(
        autosave_menu_label(AutoSaveInterval::OneMinute, AutoSaveInterval::OneMinute),
        "\u{2713} 1 minute"
    );
    assert_eq!(
        autosave_menu_label(AutoSaveInterval::TenMinutes, AutoSaveInterval::OneMinute),
        "10 minutes"
    );
}

#[test]
fn selecting_the_copies() {
    let mut s = SelectionSet::default();
    s.add(1);
    s.select_only(&vec![7, 8, 7]);
    assert_eq!(sorted(s.to_vec()), vec![7, 8]);
    s.select_only(&vec![]);
    assert!(s.is_empty());
}

fn spawn(name: &str, priority: i32) -> NamedSpawnPoint {
    NamedSpawnPoint { name: name.to_string(), priority }
}

#[test]
fn spawn_point_by_name() {
    let points = vec![spawn("hall", 1), spawn("roof", 5), spawn("hall", 9)];
    assert_eq!(choose_spawn_point(&points, Some("hall")), Some(0));
    assert_eq!(choose_spawn_point(&points, Some("roof")), Some(1));
    assert_eq!(choose_spawn_point(&points, Some("cellar")), None);
}

#[test]
fn spawn_point_by_priority_takes_the_last_of_a_tie() {
    let points = vec![spawn("a", 3), spawn("b", 7), spawn("c", 7), spawn("d", -2)];
    assert_eq!(choose_spawn_point(&points, None), Some(2));
    assert_eq!(choose_spawn_point(&vec![], None), None);
    assert_eq!(choose_spawn_point(&vec![spawn("x", -5)], None), Some(0));
}

#[test]
fn spawn_marker_choice() {
    assert_eq!(spawn_marker_to_use(0), None);
    assert_eq!(spawn_marker_to_use(1), Some(0));
    assert_eq!(spawn_marker_to_use(3), Some(0));
}

#[test]
fn inspector_shows_a_single_selection_only() {
    let mut s = SelectionSet::default();
    assert_eq!(s.single(), None);
    s.add(9);
    assert_eq!(s.single(), Some(9));
    s.add(4);
    assert_eq!(s.single(), None);
}
