use generation::editor::duplication::{objects_to_copy, select_copies};
use generation::editor::inspector::{InspectorState, InspectorView};
use generation::editor::placement::{PlacementAction, PlacementState};
use generation::editor::selection::SelectionSet;

fn selection_of(ids: &[u64]) -> SelectionSet {
    let mut s = SelectionSet::default();
    for &id in ids {
        s.add(id);
    }
    s
}

fn placing() -> PlacementState<&'static str, &'static str> {
    let mut p: PlacementState<&'static str, &'static str> = PlacementState::default();
    assert_eq!(p.start(40, Some("Cube"), "cube asset"), None);
    p
}

#[test]
fn placement_start_replaces_the_preview() {
    let mut p = placing();
    assert!(p.active);
    assert_eq!(p.preview_entity, Some(40));
    assert_eq!(p.start(41, None, "model"), Some(40));
    assert_eq!(p.preview_entity, Some(41));
    assert_eq!(p.selected_primitive, None);
    assert_eq!(p.selected_asset, Some("model"));
}

#[test]
fn placement_escape_resets_the_state() {
    let mut p = placing();
    match p.handle_input(false, true, true, true) {
        PlacementAction::Cancel { despawn } => assert_eq!(despawn, Some(40)),
        _ => panic!("escape must cancel placement"),
    }
    assert!(!p.active);
    assert_eq!(p.preview_entity, None);
    assert_eq!(p.selected_primitive, None);
    assert_eq!(p.selected_asset, None);
    assert!(matches!(p.handle_input(false, true, true, true), PlacementAction::Nothing));
}

#[test]
fn placement_click_places_and_stays_active() {
    let mut p = placing();
    assert!(matches!(p.handle_input(false, false, true, true), PlacementAction::Place));
    assert!(p.active);
    assert_eq!(p.preview_entity, Some(40));
    assert!(matches!(p.handle_input(false, false, true, false), PlacementAction::Nothing));
    assert!(matches!(p.handle_input(false, false, false, true), PlacementAction::Nothing));
}

#[test]
fn placement_ignores_input_while_the_mouse_is_locked() {
    let mut p = placing();
    assert!(matches!(p.handle_input(true, true, true, true), PlacementAction::Nothing));
    assert!(p.active);
    assert_eq!(p.preview_entity, Some(40));
}

#[test]
fn inspector_view_follows_the_selection() {
    let mut st: InspectorState<u32> = InspectorState::default();
    st.lighting_editors.push(9);
    assert!(matches!(st.show_selection(&selection_of(&[])), InspectorView::Lighting));
    assert_eq!(st.selected_entity, None);
    assert!(matches!(st.show_selection(&selection_of(&[3, 4, 5])), InspectorView::Multiple(3)));
    assert_eq!(st.selected_entity, None);
    assert!(matches!(st.show_selection(&selection_of(&[7])), InspectorView::Single(7)));
    assert_eq!(st.selected_entity, Some(7));
    assert_eq!(st.lighting_editors, vec![9]);
}

#[test]
fn inspector_keeps_editors_for_the_same_entity_and_drops_them_on_change() {
    let mut st: InspectorState<u32> = InspectorState::default();
    st.show_selection(&selection_of(&[7]));
    st.editors.push(1);
    st.editors.push(2);
    st.show_selection(&selection_of(&[7]));
    assert_eq!(st.editors, vec![1, 2]);
    st.show_selection(&selection_of(&[8]));
    assert_eq!(st.selected_entity, Some(8));
    assert!(st.editors.is_empty());
}

#[test]
fn duplication_copies_only_objects_with_a_transform() {
    assert_eq!(objects_to_copy(&vec![5, 6, 7, 8], &vec![true, false, true, true]), vec![5, 7, 8]);
    assert_eq!(objects_to_copy(&vec![5, 6], &vec![false, false]), Vec::<u64>::new());
    assert_eq!(objects_to_copy(&vec![], &vec![]), Vec::<u64>::new());
}

#[test]
fn duplication_selects_exactly_the_copies() {
    let mut s = selection_of(&[1, 2, 3]);
    select_copies(&mut s, &vec![10, 11]);
    assert_eq!(s.len(), 2);
    assert!(s.contains(10) && s.contains(11));
    assert!(!s.contains(1) && !s.contains(2) && !s.contains(3));
}
