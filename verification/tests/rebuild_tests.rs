use steer::viewport::line_slice_bounds;
use steer::rebuild::{plan_widget_reuse, rebuild_kind, RebuildKind, RebuildMemo, WidgetAction, WidgetKey};
use steer::chat_list_state::{ChatListState, ViewMode};

fn key(id: &str, hash: u64) -> WidgetKey {
    WidgetKey { id: id.to_string(), content_hash: hash }
}

#[test]
fn clean_viewport_with_same_geometry_is_not_rebuilt() {
    assert!(rebuild_kind(false, false, false, false) == RebuildKind::Skip);
}

#[test]
fn geometry_change_on_clean_viewport_only_relayouts() {
    assert!(rebuild_kind(false, true, false, false) == RebuildKind::Relayout);
    assert!(rebuild_kind(false, false, true, false) == RebuildKind::Relayout);
    assert!(rebuild_kind(false, false, false, true) == RebuildKind::Relayout);
}

#[test]
fn dirty_viewport_is_rebuilt_fully() {
    assert!(rebuild_kind(true, false, false, false) == RebuildKind::Full);
    assert!(rebuild_kind(true, true, true, true) == RebuildKind::Full);
}

#[test]
fn widgets_are_kept_by_id_and_rerendered_when_content_changed() {
    let existing = vec![key("a", 1), key("b", 2), key("c", 3)];
    let new = vec![key("c", 3), key("a", 9), key("d", 4)];
    let plan = plan_widget_reuse(&existing, &new);
    assert_eq!(plan.len(), 3);
    assert!(plan[0] == WidgetAction::Reuse { from: 2 });
    assert!(plan[1] == WidgetAction::Recreate { from: 0 });
    assert!(plan[2] == WidgetAction::Create);
}

#[test]
fn duplicate_ids_take_the_last_old_widget_once() {
    let existing = vec![key("x", 1), key("x", 2)];
    let new = vec![key("x", 2), key("x", 2)];
    let plan = plan_widget_reuse(&existing, &new);
    assert!(plan[0] == WidgetAction::Reuse { from: 1 });
    assert!(plan[1] == WidgetAction::Create);
}

#[test]
fn empty_flattening_keeps_nothing() {
    let existing = vec![key("a", 1)];
    let plan = plan_widget_reuse(&existing, &Vec::new());
    assert!(plan.is_empty());
}

#[test]
fn line_slices_are_cut_to_the_lines_there_are() {
    assert_eq!(line_slice_bounds(10, 2, 5), (2, 5));
    assert_eq!(line_slice_bounds(10, 8, 20), (8, 10));
    assert_eq!(line_slice_bounds(10, 12, 20), (10, 10));
    assert_eq!(line_slice_bounds(10, 6, 3), (6, 6));
    assert_eq!(line_slice_bounds(0, 0, 4), (0, 0));
}

#[test]
fn rebuild_memo_tracks_geometry_and_dirtiness() {
    let mut memo = RebuildMemo::new();
    let mut state = ChatListState::new();
    assert!(memo.begin_rebuild(&mut state, 80, ViewMode::Compact, 1) == RebuildKind::Full);
    memo.finish_rebuild(&mut state, 42);
    assert_eq!(state.total_content_height, 42);
    assert!(state.visible_range.is_none());
    assert!(memo.begin_rebuild(&mut state, 80, ViewMode::Compact, 1) == RebuildKind::Skip);
    assert!(memo.begin_rebuild(&mut state, 80, ViewMode::Detailed, 1) == RebuildKind::Relayout);
    assert!(state.view_mode == ViewMode::Detailed);
    assert_eq!(memo.last_width, 80);
    memo.mark_dirty();
    assert!(memo.begin_rebuild(&mut state, 80, ViewMode::Detailed, 1) == RebuildKind::Full);
}
