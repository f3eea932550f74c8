//! Slash commands typed into the chat input: what each one does to the
//! input modes, what it answers, and which work it asks the client for.
//!
//! The work (talking to the server, loading themes, saving preferences) is
//! done by the caller, which hands the outcome back to the steps below
//! where a decision follows it.

use vstd::prelude::*;
use crate::text::push_str;
use crate::tui::{EditingMode, InputMode, ModeState, NoticeLevel};

verus! {

/// A built-in command, as the command parser reports it.
pub enum SlashCommand {
    ReloadFiles,
    Theme(Option<String>),
    Help(Option<String>),
    Auth,
    EditingMode(Option<String>),
    Mcp,
    Workspace(Option<String>),
    New,
    Compact,
    Agent(Option<String>),
    Model(Option<String>),
}

/// What the typed input turned out to be.
pub enum SlashInput {
    /// A custom command of the registry, which sends its prompt.
    CustomPrompt(String),
    /// A built-in command.
    Command(SlashCommand),
    /// Input that no command parses, with the parser's error.
    Invalid(String),
}

/// A command of the registry, as help shows it.
pub struct CommandInfo {
    pub name: String,
    pub description: String,
    pub usage: String,
}

/// What the caller is to do, in order; it stops at the first failure.
pub enum SlashAction {
    /// Send the prompt to the current model.
    SendPrompt(String),
    /// Show a notice in the chat.
    Notice { level: NoticeLevel, text: String },
    /// Show a text answer to the command.
    Respond { command: String, text: String },
    /// Clear the file cache and request the workspace files again.
    ReloadFileCache,
    /// Load the named theme and answer with the outcome ([`theme_loaded`]).
    LoadTheme(String),
    /// Answer that the theme changed to this one.
    ThemeChanged(String),
    /// Answer with the list of themes.
    ListThemes,
    /// Fetch the providers and their authentication status, then enter
    /// setup ([`auth_setup_entered`]).
    FetchAuthProviders,
    /// Save the preferences.
    SavePreferences,
    /// Answer with the MCP servers.
    ListMcpServers,
    /// Fetch the session's config to find its workspace
    /// ([`workspace_target_step`]).
    FetchSessionForWorkspace,
    /// Fetch the status of this workspace and answer with it.
    FetchWorkspaceStatus(String),
    StartNewSession,
    CompactSession,
    /// Switch the primary agent.
    SwitchAgent(String),
    /// Answer with the primary agents.
    ListAgents,
    /// Resolve the model name and make it current.
    ResolveModel(String),
}

/// The plain values of a [`SlashAction`].
pub enum ActionView {
    SendPrompt(Seq<char>),
    Notice(NoticeLevel, Seq<char>),
    Respond(Seq<char>, Seq<char>),
    ReloadFileCache,
    LoadTheme(Seq<char>),
    ThemeChanged(Seq<char>),
    ListThemes,
    FetchAuthProviders,
    SavePreferences,
    ListMcpServers,
    FetchSessionForWorkspace,
    FetchWorkspaceStatus(Seq<char>),
    StartNewSession,
    CompactSession,
    SwitchAgent(Seq<char>),
    ListAgents,
    ResolveModel(Seq<char>),
}

pub open spec fn action_view(a: SlashAction) -> ActionView {
    match a {
        SlashAction::SendPrompt(p) => ActionView::SendPrompt(p@),
        SlashAction::Notice { level, text } => ActionView::Notice(level, text@),
        SlashAction::Respond { command, text } => ActionView::Respond(command@, text@),
        SlashAction::ReloadFileCache => ActionView::ReloadFileCache,
        SlashAction::LoadTheme(n) => ActionView::LoadTheme(n@),
        SlashAction::ThemeChanged(n) => ActionView::ThemeChanged(n@),
        SlashAction::ListThemes => ActionView::ListThemes,
        SlashAction::FetchAuthProviders => ActionView::FetchAuthProviders,
        SlashAction::SavePreferences => ActionView::SavePreferences,
        SlashAction::ListMcpServers => ActionView::ListMcpServers,
        SlashAction::FetchSessionForWorkspace => ActionView::FetchSessionForWorkspace,
        SlashAction::FetchWorkspaceStatus(id) => ActionView::FetchWorkspaceStatus(id@),
        SlashAction::StartNewSession => ActionView::StartNewSession,
        SlashAction::CompactSession => ActionView::CompactSession,
        SlashAction::SwitchAgent(id) => ActionView::SwitchAgent(id@),
        SlashAction::ListAgents => ActionView::ListAgents,
        SlashAction::ResolveModel(n) => ActionView::ResolveModel(n@),
    }
}

pub open spec fn actions_view(v: Seq<SlashAction>) -> Seq<ActionView> {
    v.map_values(|a: SlashAction| action_view(a))
}

/// The name an editing mode is shown by.
pub open spec fn editing_mode_label(m: EditingMode) -> Seq<char> {
    match m {
        EditingMode::Simple => "simple"@,
        EditingMode::Vim => "vim"@,
    }
}

/// `s` padded with spaces on the right to `width` characters.
pub open spec fn padded(s: Seq<char>, width: nat) -> Seq<char> {
    if s.len() < width {
        s + Seq::new((width - s.len()) as nat, |i: int| ' ')
    } else {
        s
    }
}

/// One line of the command list: usage padded to twenty, then description.
pub open spec fn help_line(c: CommandInfo) -> Seq<char> {
    "\n  "@ + padded(c.usage@, 20) + " - "@ + c.description@
}

pub open spec fn help_lines(cs: Seq<CommandInfo>) -> Seq<char>
    decreases cs.len(),
{
    if cs.len() == 0 {
        Seq::empty()
    } else {
        help_lines(cs.drop_last()) + help_line(cs.last())
    }
}

/// The first command of `cs` at or after `i` named `name`.
pub open spec fn command_named(cs: Seq<CommandInfo>, name: Seq<char>, i: int) -> Option<CommandInfo>
    decreases cs.len() - i,
{
    if i < 0 || i >= cs.len() {
        None
    } else if cs[i].name@ == name {
        Some(cs[i])
    } else {
        command_named(cs, name, i + 1)
    }
}

/// The help text: for one command its name, description and usage, else
/// the list of all commands.
pub open spec fn help_text(cs: Seq<CommandInfo>, name: Option<Seq<char>>) -> Seq<char> {
    match name {
        Some(n) => match command_named(cs, n, 0) {
            Some(c) => "Command: "@ + c.name@ + "\n\nDescription: "@ + c.description@
                + "\n\nUsage: "@ + c.usage@,
            None => "Unknown command: "@ + n,
        },
        None => "Available commands:"@ + help_lines(cs),
    }
}

pub open spec fn opt_view(o: Option<String>) -> Option<Seq<char>> {
    match o {
        Some(s) => Some(s@),
        None => None,
    }
}

/// The actions for `input`, answering under the command name `command`,
/// with editing mode `mode` in force and the registry listing `cs`.
pub open spec fn slash_actions(
    input: SlashInput,
    mode: EditingMode,
    cs: Seq<CommandInfo>,
    command: Seq<char>,
) -> Seq<ActionView> {
    match input {
        SlashInput::CustomPrompt(p) => seq![ActionView::SendPrompt(p@)],
        SlashInput::Invalid(e) => seq![ActionView::Notice(NoticeLevel::Error, e@)],
        SlashInput::Command(c) => match c {
            SlashCommand::ReloadFiles => seq![
                ActionView::ReloadFileCache,
                ActionView::Respond(
                    command,
                    "File cache cleared. Files will be reloaded on next access."@,
                ),
            ],
            SlashCommand::Theme(Some(n)) => seq![ActionView::LoadTheme(n@)],
            SlashCommand::Theme(None) => seq![ActionView::ListThemes],
            SlashCommand::Help(n) => seq![ActionView::Respond(command, help_text(cs, opt_view(n)))],
            SlashCommand::Auth => seq![ActionView::FetchAuthProviders],
            SlashCommand::EditingMode(None) => seq![
                ActionView::Respond(command, "Current editing mode: "@ + editing_mode_label(mode)),
            ],
            SlashCommand::EditingMode(Some(m)) => if m@ == "simple"@ {
                seq![
                    ActionView::SavePreferences,
                    ActionView::Respond(command, "Switched to Simple mode"@),
                ]
            } else if m@ == "vim"@ {
                seq![
                    ActionView::SavePreferences,
                    ActionView::Respond(command, "Switched to Vim mode (Normal)"@),
                ]
            } else {
                seq![
                    ActionView::Respond(
                        command,
                        "Unknown mode: '"@ + m@ + "'. Use 'simple' or 'vim'"@,
                    ),
                ]
            },
            SlashCommand::Mcp => seq![ActionView::ListMcpServers],
            SlashCommand::Workspace(None) => seq![ActionView::FetchSessionForWorkspace],
            SlashCommand::Workspace(Some(id)) => workspace_actions(Some(id@)),
            SlashCommand::New => seq![ActionView::StartNewSession],
            SlashCommand::Compact => seq![ActionView::CompactSession],
            SlashCommand::Agent(Some(id)) => seq![ActionView::SwitchAgent(id@)],
            SlashCommand::Agent(None) => seq![ActionView::ListAgents],
            SlashCommand::Model(Some(n)) => seq![ActionView::ResolveModel(n@)],
            SlashCommand::Model(None) => Seq::empty(),
        },
    }
}

/// The editing mode and input mode that `input` switches to, if any.
pub open spec fn slash_switch(input: SlashInput) -> Option<(EditingMode, InputMode)> {
    match input {
        SlashInput::Command(SlashCommand::EditingMode(Some(m))) => if m@ == "simple"@ {
            Some((EditingMode::Simple, InputMode::Simple))
        } else if m@ == "vim"@ {
            Some((EditingMode::Vim, InputMode::VimNormal))
        } else {
            None
        },
        _ => None,
    }
}

/// What to do with the workspace id found, if any: fetch its status when
/// it is not empty, else say that there is none.
pub open spec fn workspace_actions(id: Option<Seq<char>>) -> Seq<ActionView> {
    match id {
        Some(i) => if i.len() > 0 {
            seq![ActionView::FetchWorkspaceStatus(i)]
        } else {
            seq![
                ActionView::Notice(
                    NoticeLevel::Error,
                    "Workspace id not available for current session"@,
                ),
            ]
        },
        None => seq![
            ActionView::Notice(NoticeLevel::Error, "Workspace id not available for current session"@),
        ],
    }
}

fn text_of(s: &str) -> (r: String)
    ensures
        r@ == s@,
{
    let mut r = String::new();
    push_str(&mut r, s);
    r
}

fn respond(command: &str, text: String) -> (a: SlashAction)
    ensures
        action_view(a) == ActionView::Respond(command@, text@),
{
    SlashAction::Respond { command: text_of(command), text }
}

fn one(a: SlashAction) -> (v: Vec<SlashAction>)
    ensures
        actions_view(v@) == seq![action_view(a)],
{
    let mut v: Vec<SlashAction> = Vec::new();
    v.push(a);
    assert(actions_view(v@) =~= seq![action_view(a)]);
    v
}

fn two(a: SlashAction, b: SlashAction) -> (v: Vec<SlashAction>)
    ensures
        actions_view(v@) == seq![action_view(a), action_view(b)],
{
    let mut v: Vec<SlashAction> = Vec::new();
    v.push(a);
    v.push(b);
    assert(actions_view(v@) =~= seq![action_view(a), action_view(b)]);
    v
}

fn str_eq(a: &str, b: &str) -> (r: bool)
    ensures
        r == (a@ == b@),
{
    let x = crate::text::chars_of(a);
    let y = crate::text::chars_of(b);
    if x.len() != y.len() {
        return false;
    }
    let mut i: usize = 0;
    while i < x.len()
        invariant
            i <= x.len() == y.len(),
            x@ == a@,
            y@ == b@,
            forall|k: int| 0 <= k < i ==> x@[k] == y@[k],
        decreases x.len() - i,
    {
        if x[i] != y[i] {
            return false;
        }
        i = i + 1;
    }
    assert(x@ =~= y@);
    true
}

fn pad_to(s: &mut String, width: usize)
    ensures
        final(s)@ == padded(old(s)@, width as nat),
{
    let n = crate::text::chars_of(s.as_str()).len();
    if n < width {
        let mut k: usize = n;
        while k < width
            invariant
                n <= k <= width,
                n == old(s)@.len(),
                s@ == old(s)@ + Seq::new((k - n) as nat, |i: int| ' '),
            decreases width - k,
        {
            crate::text::push_char(s, ' ');
            assert(s@ =~= old(s)@ + Seq::new((k + 1 - n) as nat, |i: int| ' '));
            k = k + 1;
        }
    }
}

/// The help text for the command named `name`, or the list of commands.
pub fn help_text_for(commands: &[CommandInfo], name: Option<&str>) -> (r: String)
    ensures
        r@ == help_text(
            commands@,
            match name {
                Some(n) => Some(n@),
                None => None,
            },
        ),
{
    match name {
        Some(n) => {
            let mut i: usize = 0;
            while i < commands.len()
                invariant
                    i <= commands.len(),
                    name == Some(n),
                    command_named(commands@, n@, 0) == command_named(commands@, n@, i as int),
                decreases commands.len() - i,
            {
                if str_eq(commands[i].name.as_str(), n) {
                    assert(command_named(commands@, n@, i as int) == Some(commands@[i as int]));
                    let c = &commands[i];
                    let mut r = text_of("Command: ");
                    push_str(&mut r, c.name.as_str());
                    push_str(&mut r, "\n\nDescription: ");
                    push_str(&mut r, c.description.as_str());
                    push_str(&mut r, "\n\nUsage: ");
                    push_str(&mut r, c.usage.as_str());
                    assert(r@ =~= "Command: "@ + c.name@ + "\n\nDescription: "@ + c.description@
                        + "\n\nUsage: "@ + c.usage@);
                    return r;
                }
                i = i + 1;
            }
            let mut r = text_of("Unknown command: ");
            push_str(&mut r, n);
            r
        },
        None => {
            let mut r = text_of("Available commands:");
            let mut i: usize = 0;
            while i < commands.len()
                invariant
                    i <= commands.len(),
                    r@ == "Available commands:"@ + help_lines(commands@.take(i as int)),
                decreases commands.len() - i,
            {
                let ghost before = r@;
                push_str(&mut r, "\n  ");
                let mut usage = text_of(commands[i].usage.as_str());
                pad_to(&mut usage, 20);
                push_str(&mut r, usage.as_str());
                push_str(&mut r, " - ");
                push_str(&mut r, commands[i].description.as_str());
                assert(commands@.take(i + 1).drop_last() =~= commands@.take(i as int));
                assert(r@ =~= before + help_line(commands@[i as int]));
                i = i + 1;
            }
            assert(commands@.take(commands.len() as int) =~= commands@);
            r
        },
    }
}

fn workspace_step_for(id: Option<&String>) -> (v: Vec<SlashAction>)
    ensures
        actions_view(v@) == workspace_actions(
            match id {
                Some(i) => Some(i@),
                None => None,
            },
        ),
{
    match id {
        Some(i) => {
            if crate::text::chars_of(i.as_str()).len() > 0 {
                one(SlashAction::FetchWorkspaceStatus(i.clone()))
            } else {
                one(
                    SlashAction::Notice {
                        level: NoticeLevel::Error,
                        text: text_of("Workspace id not available for current session"),
                    },
                )
            }
        },
        None => one(
            SlashAction::Notice {
                level: NoticeLevel::Error,
                text: text_of("Workspace id not available for current session"),
            },
        ),
    }
}

/// Handles the slash command `input`: switches the editing mode where it
/// asks for it, and gives the work and answers that follow, answering under
/// the command's name `command` with `commands` as the registry.
pub fn slash_command_step(
    input: &SlashInput,
    modes: &mut ModeState,
    commands: &[CommandInfo],
    command: &str,
) -> (r: Vec<SlashAction>)
    ensures
        actions_view(r@) == slash_actions(*input, old(modes).editing_mode, commands@, command@),
        match slash_switch(*input) {
            Some((e, m)) => final(modes).editing_mode == e && final(modes).input_mode == m
                && final(modes).mode_stack@ == old(modes).mode_stack@,
            None => *final(modes) == *old(modes),
        },
{
    match input {
        SlashInput::CustomPrompt(p) => one(SlashAction::SendPrompt(p.clone())),
        SlashInput::Invalid(e) => one(SlashAction::Notice { level: NoticeLevel::Error, text: e.clone() }),
        SlashInput::Command(c) => match c {
            SlashCommand::ReloadFiles => two(
                SlashAction::ReloadFileCache,
                respond(command, text_of("File cache cleared. Files will be reloaded on next access.")),
            ),
            SlashCommand::Theme(Some(n)) => one(SlashAction::LoadTheme(n.clone())),
            SlashCommand::Theme(None) => one(SlashAction::ListThemes),
            SlashCommand::Help(n) => {
                let name = match n {
                    Some(x) => Some(x.as_str()),
                    None => None,
                };
                one(respond(command, help_text_for(commands, name)))
            },
            SlashCommand::Auth => one(SlashAction::FetchAuthProviders),
            SlashCommand::EditingMode(None) => {
                let mut text = text_of("Current editing mode: ");
                match modes.editing_mode {
                    EditingMode::Simple => push_str(&mut text, "simple"),
                    EditingMode::Vim => push_str(&mut text, "vim"),
                }
                one(respond(command, text))
            },
            SlashCommand::EditingMode(Some(m)) => {
                if str_eq(m.as_str(), "simple") {
                    modes.editing_mode = EditingMode::Simple;
                    modes.set_mode(InputMode::Simple);
                    two(SlashAction::SavePreferences, respond(command, text_of("Switched to Simple mode")))
                } else if str_eq(m.as_str(), "vim") {
                    modes.editing_mode = EditingMode::Vim;
                    modes.set_mode(InputMode::VimNormal);
                    two(
                        SlashAction::SavePreferences,
                        respond(command, text_of("Switched to Vim mode (Normal)")),
                    )
                } else {
                    let mut text = text_of("Unknown mode: '");
                    push_str(&mut text, m.as_str());
                    push_str(&mut text, "'. Use 'simple' or 'vim'");
                    one(respond(command, text))
                }
            },
            SlashCommand::Mcp => one(SlashAction::ListMcpServers),
            SlashCommand::Workspace(None) => one(SlashAction::FetchSessionForWorkspace),
            SlashCommand::Workspace(Some(id)) => workspace_step_for(Some(id)),
            SlashCommand::New => one(SlashAction::StartNewSession),
            SlashCommand::Compact => one(SlashAction::CompactSession),
            SlashCommand::Agent(Some(id)) => one(SlashAction::SwitchAgent(id.clone())),
            SlashCommand::Agent(None) => one(SlashAction::ListAgents),
            SlashCommand::Model(Some(n)) => one(SlashAction::ResolveModel(n.clone())),
            SlashCommand::Model(None) => Vec::new(),
        },
    }
}

/// What fetching the session for `/workspace` found.
pub enum SessionLookup {
    NotFound,
    NoConfig,
    /// The config's workspace id, and the id of its workspace reference.
    Config { workspace_id: Option<String>, ref_workspace_id: Option<String> },
}

/// The step after the session was fetched for `/workspace`: the config's
/// workspace id, else its reference's, decides what to fetch.
pub fn workspace_target_step(lookup: &SessionLookup) -> (r: Vec<SlashAction>)
    ensures
        actions_view(r@) == match *lookup {
            SessionLookup::NotFound => seq![
                ActionView::Notice(NoticeLevel::Error, "Session not found for workspace status"@),
            ],
            SessionLookup::NoConfig => seq![
                ActionView::Notice(NoticeLevel::Error, "Session config missing for workspace status"@),
            ],
            SessionLookup::Config { workspace_id, ref_workspace_id } => workspace_actions(
                match workspace_id {
                    Some(w) => Some(w@),
                    None => opt_view(ref_workspace_id),
                },
            ),
        },
{
    match lookup {
        SessionLookup::NotFound => one(
            SlashAction::Notice {
                level: NoticeLevel::Error,
                text: text_of("Session not found for workspace status"),
            },
        ),
        SessionLookup::NoConfig => one(
            SlashAction::Notice {
                level: NoticeLevel::Error,
                text: text_of("Session config missing for workspace status"),
            },
        ),
        SessionLookup::Config { workspace_id, ref_workspace_id } => match workspace_id {
            Some(w) => workspace_step_for(Some(w)),
            None => match ref_workspace_id {
                Some(w) => workspace_step_for(Some(w)),
                None => workspace_step_for(None),
            },
        },
    }
}

/// The step after `/auth` fetched the providers: enter setup directly, with
/// no mode to return to, and say so.
pub fn auth_setup_entered(modes: &mut ModeState, command: &str) -> (r: Vec<SlashAction>)
    ensures
        final(modes).input_mode == InputMode::Setup,
        final(modes).mode_stack@.len() == 0,
        final(modes).editing_mode == old(modes).editing_mode,
        actions_view(r@) == seq![ActionView::Respond(command@, "Entering authentication setup mode..."@)],
{
    modes.set_mode(InputMode::Setup);
    modes.mode_stack = Vec::new();
    one(respond(command, text_of("Entering authentication setup mode...")))
}

/// The answer to loading the theme `name`: the theme changed, or the error.
pub fn theme_loaded(name: &str, loaded: Result<(), String>) -> (a: SlashAction)
    ensures
        action_view(a) == match loaded {
            Ok(()) => ActionView::ThemeChanged(name@),
            Err(e) => ActionView::Notice(
                NoticeLevel::Error,
                "Failed to load theme '"@ + name@ + "': "@ + e@,
            ),
        },
{
    match loaded {
        Ok(()) => SlashAction::ThemeChanged(text_of(name)),
        Err(e) => {
            let mut text = text_of("Failed to load theme '");
            push_str(&mut text, name);
            push_str(&mut text, "': ");
            push_str(&mut text, e.as_str());
            SlashAction::Notice { level: NoticeLevel::Error, text }
        },
    }
}

/// `/new` asks only for a new session and `/compact` only for compacting
/// the current one; no other input asks for either.
pub proof fn law_session_commands_are_distinct(
    input: SlashInput,
    mode: EditingMode,
    cs: Seq<CommandInfo>,
    command: Seq<char>,
)
    ensures
        slash_actions(SlashInput::Command(SlashCommand::New), mode, cs, command) == seq![
            ActionView::StartNewSession,
        ],
        slash_actions(SlashInput::Command(SlashCommand::Compact), mode, cs, command) == seq![
            ActionView::CompactSession,
        ],
        slash_actions(input, mode, cs, command).contains(ActionView::StartNewSession) <==> input
            matches SlashInput::Command(SlashCommand::New),
        slash_actions(input, mode, cs, command).contains(ActionView::CompactSession) <==> input
            matches SlashInput::Command(SlashCommand::Compact),
{
    let acts = slash_actions(input, mode, cs, command);
    match input {
        SlashInput::Command(SlashCommand::New) => {
            assert(acts[0] == ActionView::StartNewSession);
        },
        SlashInput::Command(SlashCommand::Compact) => {
            assert(acts[0] == ActionView::CompactSession);
        },
        _ => {
            assert forall|i: int| 0 <= i < acts.len() implies acts[i] != ActionView::StartNewSession
                && acts[i] != ActionView::CompactSession by {}
        },
    }
}

} // verus!
