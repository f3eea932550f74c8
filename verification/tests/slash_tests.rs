use steer::slash::{
    auth_setup_entered, help_text_for, slash_command_step, theme_loaded, workspace_target_step,
    CommandInfo, SessionLookup, SlashAction, SlashCommand, SlashInput,
};
use steer::tui::{EditingMode, InputMode, ModeState, NoticeLevel};

fn info(name: &str, usage: &str, description: &str) -> CommandInfo {
    CommandInfo {
        name: name.to_string(),
        usage: usage.to_string(),
        description: description.to_string(),
    }
}

fn respond_text(actions: &[SlashAction]) -> Vec<String> {
    actions
        .iter()
        .filter_map(|a| match a {
            SlashAction::Respond { text, .. } => Some(text.clone()),
            _ => None,
        })
        .collect()
}

#[test]
fn editing_mode_command_switches_and_saves() {
    let mut modes = ModeState::new(EditingMode::Simple);
    let input = SlashInput::Command(SlashCommand::EditingMode(Some("vim".to_string())));
    let actions = slash_command_step(&input, &mut modes, &[], "editing-mode");
    assert!(modes.editing_mode == EditingMode::Vim);
    assert!(modes.input_mode == InputMode::VimNormal);
    assert_eq!(actions.len(), 2);
    assert!(matches!(actions[0], SlashAction::SavePreferences));
    match &actions[1] {
        SlashAction::Respond { command, text } => {
            assert_eq!(command, "editing-mode");
            assert_eq!(text, "Switched to Vim mode (Normal)");
        }
        _ => panic!("expected an answer"),
    }
    let back = SlashInput::Command(SlashCommand::EditingMode(Some("simple".to_string())));
    let actions = slash_command_step(&back, &mut modes, &[], "editing-mode");
    assert!(modes.input_mode == InputMode::Simple);
    assert_eq!(respond_text(&actions), vec!["Switched to Simple mode".to_string()]);
}

#[test]
fn editing_mode_command_reports_and_rejects() {
    let mut modes = ModeState::new(EditingMode::Vim);
    let show = SlashInput::Command(SlashCommand::EditingMode(None));
    let actions = slash_command_step(&show, &mut modes, &[], "editing-mode");
    assert_eq!(respond_text(&actions), vec!["Current editing mode: vim".to_string()]);
    let bad = SlashInput::Command(SlashCommand::EditingMode(Some("emacs".to_string())));
    let actions = slash_command_step(&bad, &mut modes, &[], "editing-mode");
    assert_eq!(
        respond_text(&actions),
        vec!["Unknown mode: 'emacs'. Use 'simple' or 'vim'".to_string()]
    );
    assert!(modes.input_mode == InputMode::VimNormal);
}

#[test]
fn help_lists_commands_or_describes_one() {
    let cs = vec![info("help", "/help", "Show help"), info("new", "/new", "Start a new session")];
    assert_eq!(
        help_text_for(&cs, None),
        "Available commands:\n  /help                - Show help\n  /new                 - Start a new session"
    );
    assert_eq!(
        help_text_for(&cs, Some("new")),
        "Command: new\n\nDescription: Start a new session\n\nUsage: /new"
    );
    assert_eq!(help_text_for(&cs, Some("nope")), "Unknown command: nope");
}

#[test]
fn workspace_command_resolves_the_workspace_id() {
    let mut modes = ModeState::new(EditingMode::Simple);
    let given = SlashInput::Command(SlashCommand::Workspace(Some("ws-1".to_string())));
    let actions = slash_command_step(&given, &mut modes, &[], "workspace");
    assert!(matches!(&actions[0], SlashAction::FetchWorkspaceStatus(id) if id == "ws-1"));
    let from_ref = SessionLookup::Config { workspace_id: None, ref_workspace_id: Some("ws-2".to_string()) };
    let actions = workspace_target_step(&from_ref);
    assert!(matches!(&actions[0], SlashAction::FetchWorkspaceStatus(id) if id == "ws-2"));
    let empty = SessionLookup::Config { workspace_id: Some(String::new()), ref_workspace_id: None };
    let actions = workspace_target_step(&empty);
    assert!(matches!(&actions[0], SlashAction::Notice { level: NoticeLevel::Error, text }
        if text == "Workspace id not available for current session"));
    let missing = workspace_target_step(&SessionLookup::NotFound);
    assert!(matches!(&missing[0], SlashAction::Notice { text, .. }
        if text == "Session not found for workspace status"));
}

#[test]
fn auth_enters_setup_without_a_mode_to_return_to() {
    let mut modes = ModeState::new(EditingMode::Simple);
    modes.push_mode();
    let actions = slash_command_step(&SlashInput::Command(SlashCommand::Auth), &mut modes, &[], "auth");
    assert!(matches!(actions[0], SlashAction::FetchAuthProviders));
    let actions = auth_setup_entered(&mut modes, "auth");
    assert!(modes.input_mode == InputMode::Setup);
    assert!(modes.mode_stack.is_empty());
    assert_eq!(respond_text(&actions), vec!["Entering authentication setup mode...".to_string()]);
}

#[test]
fn other_commands_ask_for_their_work() {
    let mut modes = ModeState::new(EditingMode::Simple);
    let cases = vec![
        SlashInput::CustomPrompt("do it".to_string()),
        SlashInput::Invalid("Unknown command: /x".to_string()),
        SlashInput::Command(SlashCommand::ReloadFiles),
        SlashInput::Command(SlashCommand::Model(None)),
    ];
    let lens: Vec<usize> =
        cases.iter().map(|c| slash_command_step(c, &mut modes, &[], "c").len()).collect();
    assert_eq!(lens, vec![1, 1, 2, 0]);
    assert!(matches!(theme_loaded("dark", Err("nope".to_string())),
        SlashAction::Notice { text, .. } if text == "Failed to load theme 'dark': nope"));
    assert!(matches!(theme_loaded("dark", Ok(())), SlashAction::ThemeChanged(n) if n == "dark"));
}
