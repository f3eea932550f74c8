use steer::chat_list_state::{ChatListState, ScrollTarget, ViewMode};
use steer::height_cache::HeightCache;
use steer::ops::EditMatchSelection;

#[test]
fn test_scroll_noop_at_bottom() {
    let mut state = ChatListState::new();
    state.total_content_height = 100;
    state.last_viewport_height = 10;
    state.offset = 90;
    state.user_scrolled = false;

    let moved_down = state.scroll_down(5);
    assert!(!moved_down, "Scrolling down at bottom should be a no-op");
    assert_eq!(state.offset, 90, "Offset should remain at max");
    assert!(!state.user_scrolled, "No-op scroll should not mark user_scrolled");

    let moved_up = state.scroll_up(1);
    assert!(moved_up, "Scrolling up should move");
    assert_eq!(state.offset, 89, "Offset should decrease");
    assert!(state.user_scrolled, "User scroll should be tracked when moving");
}

#[test]
fn test_edit_match_selection_partial_eq() {
    assert_eq!(EditMatchSelection::ExactlyOne, EditMatchSelection::ExactlyOne);
    assert_eq!(EditMatchSelection::First, EditMatchSelection::First);
    assert_eq!(EditMatchSelection::All, EditMatchSelection::All);
    assert_eq!(
        EditMatchSelection::Nth { match_index: Some(2) },
        EditMatchSelection::Nth { match_index: Some(2) }
    );
    assert_ne!(
        EditMatchSelection::Nth { match_index: Some(1) },
        EditMatchSelection::Nth { match_index: Some(2) }
    );
}

#[test]
fn scrolling_up_then_down_returns_to_the_same_offset() {
    let mut state = ChatListState::new();
    state.total_content_height = 100;
    state.last_viewport_height = 20;
    state.offset = 10;
    assert!(state.scroll_up(4));
    assert_eq!(state.offset, 6);
    assert!(state.scroll_down(4));
    assert_eq!(state.offset, 10);
}

#[test]
fn toggling_the_view_mode_twice_restores_it() {
    let mut state = ChatListState::new();
    let before = state.view_mode;
    state.toggle_view_mode();
    assert_ne!(state.view_mode, before);
    state.toggle_view_mode();
    assert_eq!(state.view_mode, before);
}

#[test]
fn scroll_to_item_sets_a_target_that_is_taken_once() {
    let mut state = ChatListState::new();
    state.scroll_to_item(3);
    assert_eq!(state.take_scroll_target(), Some(ScrollTarget::Item(3)));
    assert_eq!(state.take_scroll_target(), None);
}

#[test]
fn height_cache_returns_what_was_stored_until_invalidated() {
    let mut cache = HeightCache::new();
    assert_eq!(cache.get(ViewMode::Compact, 80), None);
    cache.set(ViewMode::Compact, 80, 12);
    assert_eq!(cache.get(ViewMode::Compact, 80), Some(12));
    assert_eq!(cache.get(ViewMode::Detailed, 80), None);
    assert_eq!(cache.get(ViewMode::Compact, 40), None);
    cache.invalidate();
    assert_eq!(cache.get(ViewMode::Compact, 80), None);
}
