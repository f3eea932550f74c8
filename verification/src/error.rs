//! Error types of workspace operations, and the messages they print.

use vstd::prelude::*;
use crate::text::{decimal, push_str, u64_to_decimal};

verus! {

/// Where one of several matches of an edit's `old_string` lies.
#[derive(Debug, Clone)]
pub struct EditMatchPreview {
    pub line_number: usize,
    pub column_number: usize,
    pub snippet: String,
}

impl View for EditMatchPreview {
    type V = (nat, nat, Seq<char>);

    open spec fn view(&self) -> (nat, nat, Seq<char>) {
        (self.line_number as nat, self.column_number as nat, self.snippet@)
    }
}

/// The previews of a list, each by its view.
pub open spec fn previews_view(v: Seq<EditMatchPreview>) -> Seq<(nat, nat, Seq<char>)> {
    v.map_values(|p: EditMatchPreview| p@)
}

/// Why an edit could not be applied.
#[derive(Debug, Clone)]
pub enum EditFailure {
    FileNotFound { file_path: String },
    EmptyOldString { edit_index: usize },
    StringNotFound { file_path: String, edit_index: usize },
    InvalidMatchSelection { file_path: String, edit_index: usize, message: String },
    NonUniqueMatch {
        file_path: String,
        edit_index: usize,
        occurrences: usize,
        match_previews: Vec<EditMatchPreview>,
        omitted_matches: usize,
    },
}

/// The mathematical content of an [`EditFailure`].
pub enum EditFailureModel {
    FileNotFound { file_path: Seq<char> },
    EmptyOldString { edit_index: nat },
    StringNotFound { file_path: Seq<char>, edit_index: nat },
    InvalidMatchSelection { file_path: Seq<char>, edit_index: nat, message: Seq<char> },
    NonUniqueMatch {
        file_path: Seq<char>,
        edit_index: nat,
        occurrences: nat,
        match_previews: Seq<(nat, nat, Seq<char>)>,
        omitted_matches: nat,
    },
}

impl View for EditFailure {
    type V = EditFailureModel;

    open spec fn view(&self) -> EditFailureModel {
        match self {
            EditFailure::FileNotFound { file_path } => EditFailureModel::FileNotFound {
                file_path: file_path@,
            },
            EditFailure::EmptyOldString { edit_index } => EditFailureModel::EmptyOldString {
                edit_index: *edit_index as nat,
            },
            EditFailure::StringNotFound { file_path, edit_index } =>
                EditFailureModel::StringNotFound {
                file_path: file_path@,
                edit_index: *edit_index as nat,
            },
            EditFailure::InvalidMatchSelection { file_path, edit_index, message } =>
                EditFailureModel::InvalidMatchSelection {
                file_path: file_path@,
                edit_index: *edit_index as nat,
                message: message@,
            },
            EditFailure::NonUniqueMatch {
                file_path,
                edit_index,
                occurrences,
                match_previews,
                omitted_matches,
            } => EditFailureModel::NonUniqueMatch {
                file_path: file_path@,
                edit_index: *edit_index as nat,
                occurrences: *occurrences as nat,
                match_previews: previews_view(match_previews@),
                omitted_matches: *omitted_matches as nat,
            },
        }
    }
}

/// Errors of workspace operations.
#[derive(Debug, Clone)]
pub enum WorkspaceError {
    Io(String),
    ToolExecution(String),
    Edit(EditFailure),
    Transport(String),
    Status(String),
    NotSupported(String),
    InvalidConfiguration(String),
    Remote(String),
}

/// The mathematical content of a [`WorkspaceError`].
pub enum WorkspaceErrorModel {
    Io(Seq<char>),
    ToolExecution(Seq<char>),
    Edit(EditFailureModel),
    Transport(Seq<char>),
    Status(Seq<char>),
    NotSupported(Seq<char>),
    InvalidConfiguration(Seq<char>),
    Remote(Seq<char>),
}

impl View for WorkspaceError {
    type V = WorkspaceErrorModel;

    open spec fn view(&self) -> WorkspaceErrorModel {
        match self {
            WorkspaceError::Io(m) => WorkspaceErrorModel::Io(m@),
            WorkspaceError::ToolExecution(m) => WorkspaceErrorModel::ToolExecution(m@),
            WorkspaceError::Edit(e) => WorkspaceErrorModel::Edit(e@),
            WorkspaceError::Transport(m) => WorkspaceErrorModel::Transport(m@),
            WorkspaceError::Status(m) => WorkspaceErrorModel::Status(m@),
            WorkspaceError::NotSupported(m) => WorkspaceErrorModel::NotSupported(m@),
            WorkspaceError::InvalidConfiguration(m) => WorkspaceErrorModel::InvalidConfiguration(
                m@,
            ),
            WorkspaceError::Remote(m) => WorkspaceErrorModel::Remote(m@),
        }
    }
}

/// Errors of the environment manager.
#[derive(Debug, Clone)]
pub enum EnvironmentManagerError {
    NotFound(String),
    NotSupported(String),
    InvalidRequest(String),
    Io(String),
    Other(String),
}

/// Errors of the workspace manager.
#[derive(Debug, Clone)]
pub enum WorkspaceManagerError {
    NotFound(String),
    NotSupported(String),
    InvalidRequest(String),
    Io(String),
    Other(String),
}

/// `parts` joined by `sep`.
pub open spec fn join_seqs(parts: Seq<Seq<char>>, sep: Seq<char>) -> Seq<char>
    decreases parts.len(),
{
    if parts.len() == 0 {
        Seq::empty()
    } else if parts.len() == 1 {
        parts[0]
    } else {
        join_seqs(parts.drop_last(), sep) + sep + parts.last()
    }
}

/// "line L:C `snippet`"
pub open spec fn preview_text(p: (nat, nat, Seq<char>)) -> Seq<char> {
    "line "@ + decimal(p.0) + ":"@ + decimal(p.1) + " `"@ + p.2 + "`"@
}

/// The parts listed after "; matches: ".
pub open spec fn preview_parts(
    previews: Seq<(nat, nat, Seq<char>)>,
    omitted: nat,
) -> Seq<Seq<char>> {
    let shown = previews.map_values(|p: (nat, nat, Seq<char>)| preview_text(p));
    if omitted > 0 {
        shown.push("and "@ + decimal(omitted) + " more"@)
    } else {
        shown
    }
}

/// What [`non_unique_match_preview_suffix`] returns.
pub open spec fn preview_suffix(previews: Seq<(nat, nat, Seq<char>)>, omitted: nat) -> Seq<char> {
    if previews.len() == 0 {
        Seq::empty()
    } else {
        "; matches: "@ + join_seqs(preview_parts(previews, omitted), "; "@)
    }
}

fn preview_part_string(p: &EditMatchPreview) -> (s: String)
    ensures
        s@ == preview_text(p@),
{
    let mut s = String::new();
    push_str(&mut s, "line ");
    push_str(&mut s, u64_to_decimal(p.line_number as u64).as_str());
    push_str(&mut s, ":");
    push_str(&mut s, u64_to_decimal(p.column_number as u64).as_str());
    push_str(&mut s, " `");
    push_str(&mut s, p.snippet.as_str());
    push_str(&mut s, "`");
    s
}

proof fn lemma_join_push(parts: Seq<Seq<char>>, sep: Seq<char>, x: Seq<char>)
    requires
        parts.len() > 0,
    ensures
        join_seqs(parts.push(x), sep) == join_seqs(parts, sep) + sep + x,
{
    assert(parts.push(x).drop_last() =~= parts);
}

/// The text listing the previews of a non-unique match, as the error message prints it.
pub fn non_unique_match_preview_suffix(
    match_previews: &[EditMatchPreview],
    omitted_matches: usize,
) -> (s: String)
    ensures
        s@ == preview_suffix(previews_view(match_previews@), omitted_matches as nat),
{
    let ghost pv = previews_view(match_previews@);
    if match_previews.len() == 0 {
        return String::new();
    }
    let ghost shown = pv.map_values(|p: (nat, nat, Seq<char>)| preview_text(p));
    let mut body = String::new();
    let mut i: usize = 0;
    while i < match_previews.len()
        invariant
            0 < match_previews.len(),
            i <= match_previews.len(),
            pv == previews_view(match_previews@),
            shown == pv.map_values(|p: (nat, nat, Seq<char>)| preview_text(p)),
            i == 0 ==> body@ == Seq::<char>::empty(),
            i > 0 ==> body@ == join_seqs(shown.take(i as int), "; "@),
        decreases match_previews.len() - i,
    {
        let part = preview_part_string(&match_previews[i]);
        if i == 0 {
            push_str(&mut body, part.as_str());
            assert(shown.take(1) =~= seq![shown[0]]);
        } else {
            push_str(&mut body, "; ");
            push_str(&mut body, part.as_str());
            proof {
                lemma_join_push(shown.take(i as int), "; "@, shown[i as int]);
                assert(shown.take(i as int).push(shown[i as int]) =~= shown.take(i + 1));
            }
        }
        i = i + 1;
    }
    assert(shown.take(match_previews.len() as int) =~= shown);
    if omitted_matches > 0 {
        let mut tail = String::new();
        push_str(&mut tail, "and ");
        push_str(&mut tail, u64_to_decimal(omitted_matches as u64).as_str());
        push_str(&mut tail, " more");
        push_str(&mut body, "; ");
        push_str(&mut body, tail.as_str());
        proof {
            lemma_join_push(shown, "; "@, tail@);
        }
    }
    let mut s = String::new();
    push_str(&mut s, "; matches: ");
    push_str(&mut s, body.as_str());
    s
}

/// The message of an edit failure.
pub open spec fn edit_failure_text(f: EditFailureModel) -> Seq<char> {
    match f {
        EditFailureModel::FileNotFound { file_path } => "file not found: "@ + file_path,
        EditFailureModel::EmptyOldString { edit_index } => "edit #"@ + decimal(edit_index)
            + " has an empty old_string; use write_file to create or overwrite files"@,
        EditFailureModel::StringNotFound { file_path, edit_index } => "string not found for edit #"@
            + decimal(edit_index) + " in file "@ + file_path,
        EditFailureModel::InvalidMatchSelection { file_path, edit_index, message } =>
            "invalid match selection for edit #"@ + decimal(edit_index) + " in file "@ + file_path
            + ": "@ + message,
        EditFailureModel::NonUniqueMatch {
            file_path,
            edit_index,
            occurrences,
            match_previews,
            omitted_matches,
        } => "found "@ + decimal(occurrences) + " matches for edit #"@ + decimal(edit_index)
            + " in file "@ + file_path + "; old_string must match exactly once"@ + preview_suffix(
            match_previews,
            omitted_matches,
        ),
    }
}

fn decimal_string(n: usize) -> (s: String)
    ensures
        s@ == decimal(n as nat),
{
    u64_to_decimal(n as u64)
}

impl EditFailure {
    /// The failure's message.
    pub fn to_message(&self) -> (s: String)
        ensures
            s@ == edit_failure_text(self@),
    {
        let mut s = String::new();
        match self {
            EditFailure::FileNotFound { file_path } => {
                push_str(&mut s, "file not found: ");
                push_str(&mut s, file_path.as_str());
            },
            EditFailure::EmptyOldString { edit_index } => {
                push_str(&mut s, "edit #");
                push_str(&mut s, decimal_string(*edit_index).as_str());
                push_str(
                    &mut s,
                    " has an empty old_string; use write_file to create or overwrite files",
                );
            },
            EditFailure::StringNotFound { file_path, edit_index } => {
                push_str(&mut s, "string not found for edit #");
                push_str(&mut s, decimal_string(*edit_index).as_str());
                push_str(&mut s, " in file ");
                push_str(&mut s, file_path.as_str());
            },
            EditFailure::InvalidMatchSelection { file_path, edit_index, message } => {
                push_str(&mut s, "invalid match selection for edit #");
                push_str(&mut s, decimal_string(*edit_index).as_str());
                push_str(&mut s, " in file ");
                push_str(&mut s, file_path.as_str());
                push_str(&mut s, ": ");
                push_str(&mut s, message.as_str());
            },
            EditFailure::NonUniqueMatch {
                file_path,
                edit_index,
                occurrences,
                match_previews,
                omitted_matches,
            } => {
                push_str(&mut s, "found ");
                push_str(&mut s, decimal_string(*occurrences).as_str());
                push_str(&mut s, " matches for edit #");
                push_str(&mut s, decimal_string(*edit_index).as_str());
                push_str(&mut s, " in file ");
                push_str(&mut s, file_path.as_str());
                push_str(&mut s, "; old_string must match exactly once");
                push_str(
                    &mut s,
                    non_unique_match_preview_suffix(match_previews.as_slice(), *omitted_matches).as_str(),
                );
            },
        }
        s
    }
}

/// The message of a workspace error.
pub open spec fn workspace_error_text(e: WorkspaceErrorModel) -> Seq<char> {
    match e {
        WorkspaceErrorModel::Io(m) => "I/O error: "@ + m,
        WorkspaceErrorModel::ToolExecution(m) => "Tool execution failed: "@ + m,
        WorkspaceErrorModel::Edit(f) => "Edit failed: "@ + edit_failure_text(f),
        WorkspaceErrorModel::Transport(m) => "Transport error: "@ + m,
        WorkspaceErrorModel::Status(m) => "Status error: "@ + m,
        WorkspaceErrorModel::NotSupported(m) => "Not supported: "@ + m,
        WorkspaceErrorModel::InvalidConfiguration(m) => "Invalid configuration: "@ + m,
        WorkspaceErrorModel::Remote(m) => "Remote workspace error: "@ + m,
    }
}

fn prefixed(prefix: &str, m: &String) -> (s: String)
    ensures
        s@ == prefix@ + m@,
{
    let mut s = String::new();
    push_str(&mut s, prefix);
    push_str(&mut s, m.as_str());
    s
}

impl WorkspaceError {
    /// The error's message.
    pub fn to_message(&self) -> (s: String)
        ensures
            s@ == workspace_error_text(self@),
    {
        match self {
            WorkspaceError::Io(m) => prefixed("I/O error: ", m),
            WorkspaceError::ToolExecution(m) => prefixed("Tool execution failed: ", m),
            WorkspaceError::Edit(f) => prefixed("Edit failed: ", &f.to_message()),
            WorkspaceError::Transport(m) => prefixed("Transport error: ", m),
            WorkspaceError::Status(m) => prefixed("Status error: ", m),
            WorkspaceError::NotSupported(m) => prefixed("Not supported: ", m),
            WorkspaceError::InvalidConfiguration(m) => prefixed("Invalid configuration: ", m),
            WorkspaceError::Remote(m) => prefixed("Remote workspace error: ", m),
        }
    }
}

/// An environment manager error by its kind and text.
pub open spec fn env_error_view(e: EnvironmentManagerError) -> (int, Seq<char>) {
    match e {
        EnvironmentManagerError::NotFound(m) => (0, m@),
        EnvironmentManagerError::NotSupported(m) => (1, m@),
        EnvironmentManagerError::InvalidRequest(m) => (2, m@),
        EnvironmentManagerError::Io(m) => (3, m@),
        EnvironmentManagerError::Other(m) => (4, m@),
    }
}

/// A workspace manager error by its kind and text.
pub open spec fn manager_error_view(e: WorkspaceManagerError) -> (int, Seq<char>) {
    match e {
        WorkspaceManagerError::NotFound(m) => (0, m@),
        WorkspaceManagerError::NotSupported(m) => (1, m@),
        WorkspaceManagerError::InvalidRequest(m) => (2, m@),
        WorkspaceManagerError::Io(m) => (3, m@),
        WorkspaceManagerError::Other(m) => (4, m@),
    }
}

impl EnvironmentManagerError {
    /// The error's message.
    pub fn to_message(&self) -> (s: String)
        ensures
            s@ == match *self {
                EnvironmentManagerError::NotFound(m) => "Environment not found: "@ + m@,
                EnvironmentManagerError::NotSupported(m) => "Environment operation not supported: "@ + m@,
                EnvironmentManagerError::InvalidRequest(m) => "Invalid environment request: "@ + m@,
                EnvironmentManagerError::Io(m) => "I/O error: "@ + m@,
                EnvironmentManagerError::Other(m) => "Environment manager error: "@ + m@,
            },
    {
        match self {
            EnvironmentManagerError::NotFound(m) => prefixed("Environment not found: ", m),
            EnvironmentManagerError::NotSupported(m) => prefixed("Environment operation not supported: ", m),
            EnvironmentManagerError::InvalidRequest(m) => prefixed("Invalid environment request: ", m),
            EnvironmentManagerError::Io(m) => prefixed("I/O error: ", m),
            EnvironmentManagerError::Other(m) => prefixed("Environment manager error: ", m),
        }
    }

    /// A workspace error as an environment manager error: I/O errors stay
    /// I/O errors, every other error becomes `Other` with its message.
    pub fn from_workspace_error(err: WorkspaceError) -> (e: EnvironmentManagerError)
        ensures
            env_error_view(e) == match err@ {
                WorkspaceErrorModel::Io(m) => (3int, m),
                _ => (4int, workspace_error_text(err@)),
            },
    {
        match err {
            WorkspaceError::Io(message) => EnvironmentManagerError::Io(message),
            other => EnvironmentManagerError::Other(other.to_message()),
        }
    }
}

impl WorkspaceManagerError {
    /// The error's message.
    pub fn to_message(&self) -> (s: String)
        ensures
            s@ == match *self {
                WorkspaceManagerError::NotFound(m) => "Workspace not found: "@ + m@,
                WorkspaceManagerError::NotSupported(m) => "Workspace operation not supported: "@ + m@,
                WorkspaceManagerError::InvalidRequest(m) => "Invalid workspace request: "@ + m@,
                WorkspaceManagerError::Io(m) => "I/O error: "@ + m@,
                WorkspaceManagerError::Other(m) => "Workspace manager error: "@ + m@,
            },
    {
        match self {
            WorkspaceManagerError::NotFound(m) => prefixed("Workspace not found: ", m),
            WorkspaceManagerError::NotSupported(m) => prefixed("Workspace operation not supported: ", m),
            WorkspaceManagerError::InvalidRequest(m) => prefixed("Invalid workspace request: ", m),
            WorkspaceManagerError::Io(m) => prefixed("I/O error: ", m),
            WorkspaceManagerError::Other(m) => prefixed("Workspace manager error: ", m),
        }
    }

    /// A workspace error as a workspace manager error: I/O errors stay I/O
    /// errors, every other error becomes `Other` with its message.
    pub fn from_workspace_error(err: WorkspaceError) -> (e: WorkspaceManagerError)
        ensures
            manager_error_view(e) == match err@ {
                WorkspaceErrorModel::Io(m) => (3int, m),
                _ => (4int, workspace_error_text(err@)),
            },
    {
        match err {
            WorkspaceError::Io(message) => WorkspaceManagerError::Io(message),
            other => WorkspaceManagerError::Other(other.to_message()),
        }
    }
}

} // verus!
