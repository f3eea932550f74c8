use steer::attachments::ImageSource;
use steer::edit::{build_match_previews, find_match_locations, select_match_indices};
use steer::error::{non_unique_match_preview_suffix, EditMatchPreview, WorkspaceError};
use steer::media::image_from_png;
use steer::ops::EditMatchSelection;
use steer::read_file::{ReadFileFormatter, ReadOutcome};
use steer::search::{file_passes_glob, glob_entry_error_message, invalid_glob_message};
use steer::text::{trim_chars, u64_to_decimal};
use steer::tui::{
    coalesce_step, CoalesceStep, CoalescedEventPoll, EditingMode, Event, InputMode, ModeState,
    MouseEvent, MouseEventKind, PendingScroll, ScrollDirection,
};
use steer::viewport::ViewportLayout;

fn chars(s: &str) -> Vec<char> {
    s.chars().collect()
}

#[test]
fn selection_picks_the_occurrences_to_replace() {
    let content = chars("ab ab ab");
    let locs = find_match_locations(&content, &chars("ab"));
    assert_eq!(
        select_match_indices(EditMatchSelection::All, &locs, &content, "f", 1).ok(),
        Some(vec![0, 1, 2])
    );
    assert_eq!(
        select_match_indices(EditMatchSelection::First, &locs, &content, "f", 1).ok(),
        Some(vec![0])
    );
    assert_eq!(
        select_match_indices(EditMatchSelection::Nth { match_index: Some(3) }, &locs, &content, "f", 1)
            .ok(),
        Some(vec![2])
    );
    assert!(matches!(
        select_match_indices(EditMatchSelection::Nth { match_index: Some(0) }, &locs, &content, "f", 1),
        Err(WorkspaceError::Edit(_))
    ));
}

#[test]
fn previews_show_line_column_and_trimmed_line() {
    let content = chars("a\n  x = 1   \nx");
    let locs = find_match_locations(&content, &chars("x"));
    let (previews, omitted) = build_match_previews(&content, &locs);
    assert_eq!(omitted, 0);
    assert_eq!(previews.len(), 2);
    assert_eq!((previews[0].line_number, previews[0].column_number), (2, 3));
    assert_eq!(previews[0].snippet, "  x = 1");
    assert_eq!((previews[1].line_number, previews[1].column_number), (3, 1));
}

#[test]
fn preview_suffix_lists_matches_and_the_rest() {
    let previews = vec![
        EditMatchPreview { line_number: 1, column_number: 1, snippet: "a".to_string() },
        EditMatchPreview { line_number: 4, column_number: 2, snippet: "b c".to_string() },
    ];
    assert_eq!(
        non_unique_match_preview_suffix(&previews, 3),
        "; matches: line 1:1 `a`; line 4:2 `b c`; and 3 more"
    );
    assert_eq!(non_unique_match_preview_suffix(&previews, 0), "; matches: line 1:1 `a`; line 4:2 `b c`");
    assert_eq!(non_unique_match_preview_suffix(&[], 3), "");
}

#[test]
fn numbers_print_in_decimal_and_text_trims() {
    assert_eq!(u64_to_decimal(0), "0");
    assert_eq!(u64_to_decimal(1234567890), "1234567890");
    assert_eq!(u64_to_decimal(u64::MAX), "18446744073709551615");
    let v = chars("  hi there \t\n");
    assert_eq!(trim_chars(&v, 0, v.len()).iter().collect::<String>(), "hi there");
    assert_eq!(trim_chars(&v, 4, 5).iter().collect::<String>(), "");
    assert_eq!(trim_chars(&v, 4, 6).iter().collect::<String>(), "t");
}

#[test]
fn mode_stack_remembers_and_restores_modes() {
    let mut state = ModeState::new(EditingMode::Vim);
    assert!(state.default_input_mode() == InputMode::VimNormal);
    assert!(!state.is_text_input_mode());
    state.push_mode();
    state.input_mode = InputMode::VimInsert;
    assert!(state.is_text_input_mode());
    assert!(state.pop_mode() == Some(InputMode::VimNormal));
    assert!(state.pop_mode().is_none());
}

#[test]
fn coalescing_extends_runs_and_stops_on_other_events() {
    let run = PendingScroll { direction: ScrollDirection::Up, steps: 2 };
    let up = MouseEvent { kind: MouseEventKind::ScrollUp, column: 1, row: 1 };
    let down = MouseEvent { kind: MouseEventKind::ScrollDown, column: 1, row: 1 };
    assert!(
        coalesce_step(run, CoalescedEventPoll::Event(Event::Mouse(up)), true)
            == CoalesceStep::Continue(PendingScroll { direction: ScrollDirection::Up, steps: 3 })
    );
    assert!(
        coalesce_step(run, CoalescedEventPoll::Event(Event::Mouse(down)), true)
            == CoalesceStep::Continue(PendingScroll { direction: ScrollDirection::Down, steps: 1 })
    );
    assert!(
        coalesce_step(run, CoalescedEventPoll::Event(Event::Key), true)
            == CoalesceStep::Stop(run, Some(Event::Key), false)
    );
    assert!(ScrollDirection::from_mouse_event(&up) == Some(ScrollDirection::Up));
    let click = MouseEvent { kind: MouseEventKind::Other, column: 0, row: 0 };
    assert!(ScrollDirection::from_mouse_event(&click).is_none());
}

#[test]
fn read_file_labels_name_the_range_and_the_outcome() {
    let f = ReadFileFormatter;
    assert_eq!(f.range_label(None, None), None);
    assert_eq!(f.range_label(Some(9), Some(5)), Some(" [10-14]".to_string()));
    assert_eq!(f.range_label(Some(9), None), Some(" [10+]".to_string()));
    assert_eq!(f.outcome_label(&ReadOutcome::FileContent("a\nb\n".to_string())), "2 lines");
    assert_eq!(f.outcome_label(&ReadOutcome::Error), "error");
    assert_eq!(f.outcome_label(&ReadOutcome::Pending), "pending");
}

#[test]
fn glob_messages_and_filtering() {
    assert_eq!(invalid_glob_message("[", "bad"), "Invalid glob pattern '[': bad");
    assert_eq!(glob_entry_error_message("*.rs", "denied"), "Error matching glob pattern '*.rs': denied");
    assert_eq!(file_passes_glob("*.rs", Some("/w/src/a.rs"), Some("src/a.rs"), Some("a.rs")), Some(true));
    assert_eq!(file_passes_glob("*.md", Some("/w/src/a.rs"), Some("src/a.rs"), Some("a.rs")), Some(false));
    assert_eq!(file_passes_glob("[", Some("/w/a.rs"), None, None), None);
}

#[test]
fn png_images_become_data_urls() {
    let image = image_from_png(2, 3, &[1, 2, 3]);
    assert_eq!(image.mime_type, "image/png");
    assert_eq!(image.width, Some(2));
    assert_eq!(image.height, Some(3));
    assert_eq!(image.bytes, Some(3));
    match &image.source {
        ImageSource::DataUrl { data_url } => assert_eq!(data_url, "data:image/png;base64,AQID"),
    }
}

#[test]
fn first_visible_segment_is_the_first_reaching_below_the_offset() {
    let mut l = ViewportLayout::new();
    l.rebuild_segment_index(&[3, 2, 4], &[true, true, true], 1);
    assert_eq!(l.first_visible_segment_index(0), 0);
    assert_eq!(l.first_visible_segment_index(3), 1);
    assert_eq!(l.first_visible_segment_index(4), 2);
    assert_eq!(l.first_visible_segment_index(11), 5);
}
