use steer::chat_list_state::ChatListState;
use steer::tui::{apply_scroll_steps, handle_mouse_event};
use steer::tui::{auth_status_from_source, has_any_auth_source, AuthSource, AuthStatus};
use steer::tui::{merge_pending_scroll, normalize_pasted_text};
use steer::tui::{agent_label_from_config, cycle_primary_agent_step, AgentCycleAction, NoticeLevel};
use steer::tui::{
    coalesce_mouse_scroll_events, editing_preview, format_available_primary_agents,
    format_command_response, get_spinner_char, mode_allows_mouse_chat_scroll,
    mouse_event_in_rect, next_primary_agent_id, rect_contains_point, CoalescedEventPoll,
    CommandResponse, CompactResult, EditingMode, Event, InputMode, ModeState, MouseEvent,
    MouseEventKind, PendingScroll, PrimaryAgentSpec, Rect, ScrollDirection,
};

fn rect(x: u16, y: u16, width: u16, height: u16) -> Rect {
    Rect { x, y, width, height }
}

fn scroll(kind: MouseEventKind, column: u16, row: u16) -> MouseEvent {
    MouseEvent { kind, column, row }
}

fn polls(events: &[CoalescedEventPoll], chat_row_limit: u16) -> Vec<(CoalescedEventPoll, bool)> {
    events
        .iter()
        .map(|p| {
            let targets = match p {
                CoalescedEventPoll::Event(Event::Mouse(m)) => m.row < chat_row_limit,
                _ => true,
            };
            (*p, targets)
        })
        .collect()
}

fn steps(p: Option<PendingScroll>) -> Option<(ScrollDirection, usize)> {
    p.map(|p| (p.direction, p.steps))
}

#[test]
fn next_primary_agent_id_cycles_from_current_agent() {
    let available = vec!["normal".to_string(), "plan".to_string(), "yolo".to_string()];

    assert_eq!(next_primary_agent_id(Some("normal"), &available), Some("plan".to_string()));
    assert_eq!(next_primary_agent_id(Some("plan"), &available), Some("yolo".to_string()));
    assert_eq!(next_primary_agent_id(Some("yolo"), &available), Some("normal".to_string()));
}

#[test]
fn next_primary_agent_id_uses_default_when_current_unknown() {
    let available = vec!["normal".to_string(), "plan".to_string(), "yolo".to_string()];

    assert_eq!(next_primary_agent_id(Some("custom"), &available), Some("plan".to_string()));
    assert_eq!(next_primary_agent_id(None, &available), Some("plan".to_string()));
}

#[test]
fn next_primary_agent_id_returns_none_when_empty() {
    let available: Vec<String> = Vec::new();

    assert_eq!(next_primary_agent_id(Some("normal"), &available), None);
    assert_eq!(next_primary_agent_id(None, &available), None);
}

#[test]
fn format_available_primary_agents_marks_current_agent() {
    let agents = vec![
        PrimaryAgentSpec {
            id: "normal".to_string(),
            name: "Normal".to_string(),
            description: "Default agent".to_string(),
        },
        PrimaryAgentSpec {
            id: "plan".to_string(),
            name: "Plan".to_string(),
            description: "Planning agent".to_string(),
        },
    ];

    let output = format_available_primary_agents(&agents, Some("plan"));

    assert!(output.contains("Available primary agents:"));
    assert!(output.contains("normal: Default agent"));
    assert!(output.contains("plan: Planning agent (current)"));
    assert_eq!(
        output,
        "Available primary agents:\n- normal: Default agent\n- plan: Planning agent (current)"
    );
}

#[test]
fn format_available_primary_agents_empty_state() {
    let output = format_available_primary_agents(&[], None);
    assert_eq!(output, "No primary agents available.");
}

#[test]
fn mouse_scroll_allowed_while_typing_in_text_modes() {
    assert!(mode_allows_mouse_chat_scroll(InputMode::Simple));
    assert!(mode_allows_mouse_chat_scroll(InputMode::VimInsert));
    assert!(mode_allows_mouse_chat_scroll(InputMode::BashCommand));
}

#[test]
fn mouse_scroll_blocked_in_setup_and_overlay_modes() {
    assert!(!mode_allows_mouse_chat_scroll(InputMode::Setup));
    assert!(!mode_allows_mouse_chat_scroll(InputMode::FuzzyFinder));
    assert!(!mode_allows_mouse_chat_scroll(InputMode::EditMessageSelection));
}

#[test]
fn rect_contains_point_respects_edges() {
    let r = rect(5, 3, 10, 4);

    assert!(rect_contains_point(r, 5, 3));
    assert!(rect_contains_point(r, 14, 6));
    assert!(!rect_contains_point(r, 15, 6));
    assert!(!rect_contains_point(r, 14, 7));
    assert!(!rect_contains_point(r, 4, 3));
    assert!(!rect_contains_point(r, 5, 2));
}

#[test]
fn rect_contains_point_saturates_at_the_far_edge() {
    let r = rect(65530, 0, 100, 1);
    assert!(rect_contains_point(r, 65534, 0));
    assert!(!rect_contains_point(r, 65535, 0));
}

#[test]
fn mouse_event_in_rect_uses_mouse_coordinates() {
    let event = MouseEvent { kind: MouseEventKind::Other, column: 7, row: 2 };

    assert!(mouse_event_in_rect(&event, rect(5, 2, 3, 2)));
    assert!(!mouse_event_in_rect(&event, rect(8, 2, 3, 2)));
}

#[test]
fn coalesced_mouse_scroll_stops_at_non_chat_scroll_and_defers_it() {
    let initial = scroll(MouseEventKind::ScrollDown, 10, 5);
    let in_chat = scroll(MouseEventKind::ScrollDown, 12, 6);
    let outside_chat = scroll(MouseEventKind::ScrollDown, 12, 22);

    let events = polls(
        &[
            CoalescedEventPoll::Event(Event::Mouse(in_chat)),
            CoalescedEventPoll::Event(Event::Mouse(outside_chat)),
            CoalescedEventPoll::NotReady,
        ],
        20,
    );

    let (pending, deferred, should_exit, consumed) =
        coalesce_mouse_scroll_events(initial, initial.row < 20, &events);

    assert!(!should_exit);
    assert_eq!(steps(pending), Some((ScrollDirection::Down, 2)));
    assert_eq!(deferred, Some(Event::Mouse(outside_chat)));
    assert_eq!(consumed, 2);
}

#[test]
fn coalesced_mouse_scroll_defers_first_non_mouse_event() {
    let initial = scroll(MouseEventKind::ScrollUp, 10, 5);

    let events = polls(&[CoalescedEventPoll::Event(Event::Key), CoalescedEventPoll::NotReady], 20);

    let (pending, deferred, should_exit, _) =
        coalesce_mouse_scroll_events(initial, true, &events);

    assert!(!should_exit);
    assert_eq!(steps(pending), Some((ScrollDirection::Up, 1)));
    assert!(matches!(deferred, Some(Event::Key)));
}

#[test]
fn coalesced_mouse_scroll_keeps_last_direction_run_before_deferred_event() {
    let initial = scroll(MouseEventKind::ScrollDown, 10, 5);
    let same_direction = scroll(MouseEventKind::ScrollDown, 10, 6);
    let opposite_direction = scroll(MouseEventKind::ScrollUp, 10, 7);
    let outside_chat = scroll(MouseEventKind::ScrollUp, 10, 22);

    let events = polls(
        &[
            CoalescedEventPoll::Event(Event::Mouse(same_direction)),
            CoalescedEventPoll::Event(Event::Mouse(opposite_direction)),
            CoalescedEventPoll::Event(Event::Mouse(outside_chat)),
            CoalescedEventPoll::NotReady,
        ],
        20,
    );

    let (pending, deferred, should_exit, _) =
        coalesce_mouse_scroll_events(initial, initial.row < 20, &events);

    assert!(!should_exit);
    assert_eq!(steps(pending), Some((ScrollDirection::Up, 1)));
    assert_eq!(deferred, Some(Event::Mouse(outside_chat)));
}

#[test]
fn coalesced_mouse_scroll_ignores_initial_non_chat_scroll() {
    let initial = scroll(MouseEventKind::ScrollDown, 10, 22);
    let events = polls(&[CoalescedEventPoll::NotReady], 20);

    let (pending, deferred, should_exit, consumed) =
        coalesce_mouse_scroll_events(initial, initial.row < 20, &events);

    assert_eq!(consumed, 0, "should not drain coalescing queue for non-chat start");
    assert!(!should_exit);
    assert!(pending.is_none());
    assert!(deferred.is_none());
}

#[test]
fn coalesced_mouse_scroll_exits_when_the_stream_ends() {
    let initial = scroll(MouseEventKind::ScrollDown, 1, 1);
    let events = polls(&[CoalescedEventPoll::StreamEnded], 20);

    let (pending, deferred, should_exit, consumed) =
        coalesce_mouse_scroll_events(initial, true, &events);

    assert!(should_exit);
    assert_eq!(steps(pending), Some((ScrollDirection::Down, 1)));
    assert!(deferred.is_none());
    assert_eq!(consumed, 1);
}

#[test]
fn switching_mode_and_restoring_returns_to_the_previous_mode() {
    let mut state = ModeState::new(EditingMode::Simple);
    assert_eq!(state.input_mode, InputMode::Simple);
    state.switch_mode(InputMode::FuzzyFinder);
    assert_eq!(state.input_mode, InputMode::FuzzyFinder);
    state.restore_previous_mode();
    assert_eq!(state.input_mode, InputMode::Simple);
}

#[test]
fn restoring_with_an_empty_stack_falls_back_to_the_default_mode() {
    let mut state = ModeState::new(EditingMode::Vim);
    state.set_mode(InputMode::Setup);
    state.restore_previous_mode();
    assert_eq!(state.input_mode, InputMode::VimNormal);
}

#[test]
fn spinner_cycles_through_its_frames() {
    assert_eq!(get_spinner_char(0), "⠋");
    assert_eq!(get_spinner_char(1), "⠙");
    assert_eq!(get_spinner_char(10), "⠋");
}

#[test]
fn command_responses_render_their_outcome() {
    assert_eq!(format_command_response(&CommandResponse::Text("hi".to_string())), "hi");
    assert_eq!(
        format_command_response(&CommandResponse::Compact(CompactResult::Cancelled)),
        "Compact cancelled."
    );
}

#[test]
fn editing_preview_takes_the_first_non_blank_line() {
    assert_eq!(editing_preview("\n  \n  hello world  \nnext"), Some("hello world".to_string()));
    assert_eq!(editing_preview("   \n"), None);
}

#[test]
fn mouse_scroll_moves_the_chat_only_where_allowed() {
    let mut state = ChatListState::new();
    state.total_content_height = 100;
    state.last_viewport_height = 10;
    state.offset = 50;
    assert!(!apply_scroll_steps(InputMode::Setup, &mut state, ScrollDirection::Up, 3));
    assert_eq!(state.offset, 50);
    assert!(apply_scroll_steps(InputMode::Simple, &mut state, ScrollDirection::Up, 3));
    assert_eq!(state.offset, 47);
    assert!(apply_scroll_steps(InputMode::VimInsert, &mut state, ScrollDirection::Down, 100));
    assert_eq!(state.offset, 90);
}

#[test]
fn auth_status_follows_the_credential_source() {
    assert!(auth_status_from_source(Some(&AuthSource::ApiKey)) == AuthStatus::ApiKeySet);
    assert!(auth_status_from_source(Some(&AuthSource::Plugin)) == AuthStatus::OAuthConfigured);
    assert!(auth_status_from_source(Some(&AuthSource::Other)) == AuthStatus::NotConfigured);
    assert!(auth_status_from_source(None) == AuthStatus::NotConfigured);
}

#[test]
fn any_auth_source_means_configured() {
    for source in [Some(AuthSource::ApiKey), Some(AuthSource::Plugin), Some(AuthSource::Other), None] {
        let configured = auth_status_from_source(source.as_ref()) != AuthStatus::NotConfigured;
        assert_eq!(has_any_auth_source(source.as_ref()), configured);
    }
    assert!(has_any_auth_source(Some(&AuthSource::ApiKey)));
    assert!(!has_any_auth_source(None));
}

#[test]
fn single_wheel_event_scrolls_only_over_the_chat() {
    let mut state = ChatListState::new();
    state.total_content_height = 100;
    state.last_viewport_height = 10;
    state.offset = 50;
    let up = MouseEvent { kind: MouseEventKind::ScrollUp, column: 3, row: 4 };
    let click = MouseEvent { kind: MouseEventKind::Other, column: 3, row: 4 };
    assert!(!handle_mouse_event(InputMode::Simple, &mut state, &up, false));
    assert_eq!(state.offset, 50);
    assert!(!handle_mouse_event(InputMode::Simple, &mut state, &click, true));
    assert_eq!(state.offset, 50);
    assert!(handle_mouse_event(InputMode::Simple, &mut state, &up, true));
    assert_eq!(state.offset, 49);
    assert!(!handle_mouse_event(InputMode::FuzzyFinder, &mut state, &up, true));
    assert_eq!(state.offset, 49);
}

#[test]
fn agent_label_defaults_to_the_normal_agent() {
    assert_eq!(agent_label_from_config(None), "normal");
    assert_eq!(agent_label_from_config(Some("")), "normal");
    assert_eq!(agent_label_from_config(Some("planner")), "planner");
}

#[test]
fn cycling_agents_switches_to_the_next_one() {
    let ids = vec!["normal".to_string(), "plan".to_string(), "yolo".to_string()];
    match cycle_primary_agent_step(Some("plan"), Ok(ids.clone())) {
        AgentCycleAction::Switch(next) => assert_eq!(next, "yolo"),
        _ => panic!("expected a switch"),
    }
    match cycle_primary_agent_step(Some("yolo"), Ok(ids)) {
        AgentCycleAction::Switch(next) => assert_eq!(next, "normal"),
        _ => panic!("expected a switch"),
    }
}

#[test]
fn cycling_agents_reports_what_went_wrong() {
    match cycle_primary_agent_step(Some("plan"), Ok(Vec::new())) {
        AgentCycleAction::Notice { level, text } => {
            assert!(level == NoticeLevel::Warn);
            assert_eq!(text, "No primary agents available to cycle.");
        }
        _ => panic!("expected a notice"),
    }
    match cycle_primary_agent_step(None, Err("unavailable".to_string())) {
        AgentCycleAction::Notice { level, text } => {
            assert!(level == NoticeLevel::Error);
            assert_eq!(text, "unavailable");
        }
        _ => panic!("expected a notice"),
    }
}

#[test]
fn pasted_text_gets_unix_line_breaks() {
    assert_eq!(normalize_pasted_text("a\r\nb\rc\nd"), "a\nb\nc\nd");
    assert_eq!(normalize_pasted_text("\r\r\n"), "\n\n");
    assert_eq!(normalize_pasted_text(""), "");
}

#[test]
fn pasted_text_drops_image_token_labels() {
    assert_eq!(normalize_pasted_text("see\u{E000}[Image 1]\r\nthis"), "see\nthis");
}

#[test]
fn pending_scroll_runs_merge_by_direction() {
    let up = |steps| PendingScroll { direction: ScrollDirection::Up, steps };
    let down = |steps| PendingScroll { direction: ScrollDirection::Down, steps };
    assert!(merge_pending_scroll(None, up(2)) == (Some(up(2)), true));
    assert!(merge_pending_scroll(Some(up(2)), up(3)) == (Some(up(5)), false));
    assert!(merge_pending_scroll(Some(up(2)), down(1)) == (Some(down(1)), false));
    assert!(merge_pending_scroll(Some(up(usize::MAX)), up(1)) == (Some(up(usize::MAX)), false));
}
