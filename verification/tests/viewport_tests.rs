//! Layout and measurement of the chat list. Items are given by their
//! rendered heights: a one-line message is one row high, an n-line message
//! n rows; messages are followed by one row of spacing unless said otherwise.

use steer::chat_list_state::ChatListState;
use steer::viewport::{cached_heights, unmeasured_items, HeightCache, RowKind, ViewportLayout};
use steer::chat_list_state::ViewMode;

fn layout(heights: &[usize], spacing: usize) -> ViewportLayout {
    let is_message = vec![true; heights.len()];
    let mut l = ViewportLayout::new();
    l.rebuild_segment_index(heights, &is_message, spacing);
    l
}

fn first_item(rows: &[steer::viewport::RowMetrics]) -> Option<usize> {
    rows.iter().find_map(|row| match row.kind {
        RowKind::Item { idx } => Some(idx),
        RowKind::Gap => None,
    })
}

#[test]
fn test_measure_visible_rows_basic() {
    let l = layout(&[1, 1, 1], 1);
    let mut state = ChatListState::new();
    state.offset = 0;
    state.scroll_target = None;
    let rows = l.measure_visible_rows(&mut state, 10);
    assert!(!rows.is_empty(), "Should have visible rows");
    match rows[0].kind {
        RowKind::Item { idx } => assert_eq!(idx, 0, "First visible row should be index 0"),
        RowKind::Gap => panic!("First visible row should be a message row"),
    }
    assert_eq!(rows[0].first_visible_line, 0, "First row should start from line 0");
}

#[test]
fn test_measure_visible_rows_with_partial_first() {
    let l = layout(&[20, 1], 1);
    let mut state = ChatListState::new();
    state.scroll_target = None;
    state.offset = 5;
    let rows = l.measure_visible_rows(&mut state, 10);
    assert!(!rows.is_empty(), "Should have visible rows");
    match rows[0].kind {
        RowKind::Item { idx } => assert_eq!(idx, 0, "First visible row should still be index 0"),
        RowKind::Gap => panic!("First visible row should be a message row"),
    }
    assert_eq!(rows[0].first_visible_line, 5, "First row should skip 5 lines");
    assert_eq!(rows[0].render_h, 10);
}

#[test]
fn test_gap_rows_in_measure_visible_rows() {
    let l = layout(&[1, 1], 2);
    let mut state = ChatListState::new();
    let _rows = l.measure_visible_rows(&mut state, 3);
    let first_height = 1;
    state.offset = first_height;
    let rows = l.measure_visible_rows(&mut state, 3);
    assert!(
        rows.iter().any(|row| matches!(row.kind, RowKind::Gap)),
        "Gap rows should be represented when offset is inside spacing"
    );
}

#[test]
fn test_total_height_includes_spacing() {
    let l = layout(&[1, 1], 2);
    let mut state = ChatListState::new();
    let _rows = l.measure_visible_rows(&mut state, 10);
    let (h1, h2, spacing) = (1usize, 1usize, 2usize);
    assert_eq!(
        state.total_content_height,
        h1.saturating_add(spacing).saturating_add(h2),
        "Total height should include spacing between message rows"
    );
}

#[test]
fn test_scroll_to_item_out_of_range_clamps() {
    let l = layout(&[20, 1], 1);
    let mut state = ChatListState::new();
    let _rows = l.measure_visible_rows(&mut state, 5);
    let max_offset = state.total_content_height.saturating_sub(5);
    state.scroll_to_item(usize::MAX);
    let _rows = l.measure_visible_rows(&mut state, 5);
    assert!(state.offset <= max_offset, "Offset should stay clamped even for invalid item targets");
}

#[test]
fn test_visible_range_tracks_item_rows_only() {
    let l = layout(&[1, 1, 1], 1);
    let mut state = ChatListState::new();
    state.scroll_target = None;
    state.offset = 1;
    let rows = l.measure_visible_rows(&mut state, 3);
    assert!(!rows.is_empty(), "Expected visible rows");
    let visible = state.visible_range.expect("visible range should be populated");
    assert_eq!(visible.first_index, 1);
    assert_eq!(visible.last_index, 1);
    assert_eq!(visible.first_y, 1);
    assert_eq!(visible.last_y, 1);
}

#[test]
fn test_measure_visible_rows_jumps_to_first_visible_segment() {
    let l = layout(&[200, 1, 1], 1);
    let mut state = ChatListState::new();
    let _rows = l.measure_visible_rows(&mut state, 2);
    let first_height = 200usize;
    state.offset = first_height.saturating_add(1);
    let rows = l.measure_visible_rows(&mut state, 2);
    assert_eq!(first_item(&rows), Some(1));
}

#[test]
fn test_scroll_to_item_centers_using_indexed_start_positions() {
    let l = layout(&[1, 1, 1], 2);
    let mut state = ChatListState::new();
    let _rows = l.measure_visible_rows(&mut state, 4);
    let expected = l.item_start_y[1].saturating_sub(4 / 2);
    state.scroll_to_item(1);
    let _rows = l.measure_visible_rows(&mut state, 4);
    assert_eq!(state.offset, expected);
}

#[test]
fn segment_index_places_items_and_gaps() {
    let l = layout(&[3, 2, 4], 1);
    assert_eq!(l.item_start_y, vec![0, 4, 7]);
    assert_eq!(l.total_content_height, 11);
    let kinds: Vec<RowKind> = l.segments.iter().map(|s| s.kind).collect();
    assert!(
        kinds
            == vec![
                RowKind::Item { idx: 0 },
                RowKind::Gap,
                RowKind::Item { idx: 1 },
                RowKind::Gap,
                RowKind::Item { idx: 2 }
            ]
    );
}

#[test]
fn no_gap_follows_items_that_are_not_messages() {
    let mut l = ViewportLayout::new();
    l.rebuild_segment_index(&[2, 2, 2], &[false, true, true], 3);
    assert_eq!(l.item_start_y, vec![0, 2, 7]);
    assert_eq!(l.total_content_height, 9);
}

#[test]
fn bottom_target_scrolls_to_the_last_screenful() {
    let l = layout(&[10, 10], 1);
    let mut state = ChatListState::new();
    state.scroll_to_bottom();
    let rows = l.measure_visible_rows(&mut state, 5);
    assert_eq!(state.offset, 21 - 5);
    let shown: usize = rows.iter().map(|r| r.render_h).sum();
    assert_eq!(shown, 5);
    assert!(state.scroll_target.is_none());
}

#[test]
fn visible_rows_cut_items_only_at_the_edges() {
    let l = layout(&[4, 4, 4], 1);
    let mut state = ChatListState::new();
    state.scroll_target = None;
    state.offset = 2;
    let rows = l.measure_visible_rows(&mut state, 8);
    let summary: Vec<(RowKind, usize, usize)> =
        rows.iter().map(|r| (r.kind, r.first_visible_line, r.render_h)).collect();
    assert!(
        summary
            == vec![
                (RowKind::Item { idx: 0 }, 2, 2),
                (RowKind::Gap, 0, 1),
                (RowKind::Item { idx: 1 }, 0, 4),
                (RowKind::Gap, 0, 1)
            ]
    );
}

#[test]
fn empty_layout_shows_nothing() {
    let l = ViewportLayout::new();
    let mut state = ChatListState::new();
    let rows = l.measure_visible_rows(&mut state, 5);
    assert!(rows.is_empty());
    assert!(state.visible_range.is_none());
}

#[test]
fn rebuild_measures_only_items_without_a_cached_height() {
    let mut caches = vec![HeightCache::new(), HeightCache::new(), HeightCache::new()];
    caches[1].set_height(ViewMode::Compact, 4, 80);
    caches[2].set_height(ViewMode::Detailed, 9, 80);
    assert_eq!(unmeasured_items(&caches, ViewMode::Compact), vec![0, 2]);
    assert_eq!(unmeasured_items(&caches, ViewMode::Detailed), vec![0, 1]);
    assert!(cached_heights(&caches, ViewMode::Compact).is_none());

    caches[0].set_height(ViewMode::Compact, 2, 80);
    caches[2].set_height(ViewMode::Compact, 3, 80);
    assert!(unmeasured_items(&caches, ViewMode::Compact).is_empty());
    assert_eq!(cached_heights(&caches, ViewMode::Compact), Some(vec![2, 4, 3]));

    for c in caches.iter_mut() {
        c.invalidate(true, false);
    }
    assert_eq!(unmeasured_items(&caches, ViewMode::Compact), vec![0, 1, 2]);
    assert_eq!(unmeasured_items(&caches, ViewMode::Detailed), vec![0, 1, 2]);
}
