//! What a workspace tells the model about itself: its kind, version
//! control status and the environment summary that opens a conversation.

use vstd::prelude::*;
use crate::text::{decimal, push_char, push_str, u64_to_decimal};

verus! {

/// Metadata about a workspace.
#[derive(Clone)]
pub struct WorkspaceMetadata {
    pub id: String,
    pub workspace_type: WorkspaceType,
    /// Local path, remote URL, or container ID.
    pub location: String,
}

impl WorkspaceMetadata {
    /// The metadata of a local workspace at `location` (its path as
    /// displayed): its id is `local:` followed by the path.
    pub fn local(location: &str) -> (m: WorkspaceMetadata)
        ensures
            m.id@ == "local:"@ + location@,
            m.workspace_type == WorkspaceType::Local,
            m.location@ == location@,
    {
        let mut id = String::new();
        push_str(&mut id, "local:");
        push_str(&mut id, location);
        let mut loc = String::new();
        push_str(&mut loc, location);
        WorkspaceMetadata { id, workspace_type: WorkspaceType::Local, location: loc }
    }
}

/// Type of workspace.
#[derive(Clone, Copy, PartialEq, Eq, Structural)]
pub enum WorkspaceType {
    Local,
    Remote,
}

pub open spec fn workspace_type_name(t: WorkspaceType) -> Seq<char> {
    match t {
        WorkspaceType::Local => "Local"@,
        WorkspaceType::Remote => "Remote"@,
    }
}

impl WorkspaceType {
    pub fn as_str(&self) -> (r: &'static str)
        ensures
            r@ == workspace_type_name(*self),
    {
        match self {
            WorkspaceType::Local => "Local",
            WorkspaceType::Remote => "Remote",
        }
    }
}

/// Supported version control systems.
#[derive(Clone, Copy, PartialEq, Eq, Structural)]
pub enum VcsKind {
    Git,
    Jj,
}

pub open spec fn vcs_kind_name(k: VcsKind) -> Seq<char> {
    match k {
        VcsKind::Git => "git"@,
        VcsKind::Jj => "jj"@,
    }
}

impl VcsKind {
    pub fn as_str(&self) -> (r: &'static str)
        ensures
            r@ == vcs_kind_name(*self),
    {
        match self {
            VcsKind::Git => "git",
            VcsKind::Jj => "jj",
        }
    }
}

/// Status types that can render a summary for the model.
pub trait LlmStatus {
    spec fn llm_text(&self) -> Seq<char>;

    fn as_llm_string(&self) -> (r: String)
        ensures
            r@ == self.llm_text(),
    ;
}

#[derive(Clone)]
pub enum GitHead {
    Branch(String),
    Detached,
    Unborn,
}

#[derive(Clone, Copy, PartialEq, Eq, Structural)]
pub enum GitStatusSummary {
    Added,
    Removed,
    Modified,
    TypeChange,
    Renamed,
    Copied,
    IntentToAdd,
    Conflict,
}

#[derive(Clone)]
pub struct GitStatusEntry {
    pub summary: GitStatusSummary,
    pub path: String,
}

#[derive(Clone)]
pub struct GitCommitSummary {
    pub id: String,
    pub summary: String,
}

#[derive(Clone)]
pub struct GitStatus {
    pub head: Option<GitHead>,
    pub entries: Vec<GitStatusEntry>,
    pub recent_commits: Vec<GitCommitSummary>,
    pub error: Option<String>,
}

impl GitStatus {
    pub fn new(
        head: GitHead,
        entries: Vec<GitStatusEntry>,
        recent_commits: Vec<GitCommitSummary>,
    ) -> (s: GitStatus)
        ensures
            s.head == Some(head),
            s.entries == entries,
            s.recent_commits == recent_commits,
            s.error is None,
    {
        GitStatus { head: Some(head), entries, recent_commits, error: None }
    }

    pub fn unavailable(message: String) -> (s: GitStatus)
        ensures
            s.head is None,
            s.entries@.len() == 0,
            s.recent_commits@.len() == 0,
            s.error == Some(message),
    {
        GitStatus { head: None, entries: Vec::new(), recent_commits: Vec::new(), error: Some(message) }
    }
}

/// The two status letters git shows for an entry (index, then work tree).
pub open spec fn git_status_marks(s: GitStatusSummary) -> (char, char) {
    match s {
        GitStatusSummary::Added => (' ', '?'),
        GitStatusSummary::Removed => ('D', ' '),
        GitStatusSummary::Modified => ('M', ' '),
        GitStatusSummary::TypeChange => ('T', ' '),
        GitStatusSummary::Renamed => ('R', ' '),
        GitStatusSummary::Copied => ('C', ' '),
        GitStatusSummary::IntentToAdd => ('A', ' '),
        GitStatusSummary::Conflict => ('U', 'U'),
    }
}

fn git_marks(s: GitStatusSummary) -> (m: (char, char))
    ensures
        m == git_status_marks(s),
{
    match s {
        GitStatusSummary::Added => (' ', '?'),
        GitStatusSummary::Removed => ('D', ' '),
        GitStatusSummary::Modified => ('M', ' '),
        GitStatusSummary::TypeChange => ('T', ' '),
        GitStatusSummary::Renamed => ('R', ' '),
        GitStatusSummary::Copied => ('C', ' '),
        GitStatusSummary::IntentToAdd => ('A', ' '),
        GitStatusSummary::Conflict => ('U', 'U'),
    }
}

/// The lines `f(x)` for each `x` of `v`, one after the other.
pub open spec fn concat_map<T>(v: Seq<T>, f: spec_fn(T) -> Seq<char>) -> Seq<char>
    decreases v.len(),
{
    if v.len() == 0 {
        Seq::empty()
    } else {
        concat_map(v.drop_last(), f) + f(v.last())
    }
}

pub open spec fn git_entry_line(e: GitStatusEntry) -> Seq<char> {
    let m = git_status_marks(e.summary);
    seq![m.0, m.1, ' '] + e.path@ + seq!['\n']
}

pub open spec fn git_commit_line(c: GitCommitSummary) -> Seq<char> {
    c.id@ + seq![' '] + c.summary@ + seq!['\n']
}

pub open spec fn git_head_line(h: GitHead) -> Seq<char> {
    match h {
        GitHead::Branch(branch) => "Current branch: "@ + branch@ + "\n\n"@,
        GitHead::Detached => "Current branch: HEAD (detached)\n\n"@,
        GitHead::Unborn => "Current branch: <unborn>\n\n"@,
    }
}

/// The git status summary shown to the model.
pub open spec fn git_status_text(g: GitStatus) -> Seq<char> {
    match g.error {
        Some(e) => "Status unavailable: "@ + e@,
        None => match g.head {
            None => "Status unavailable: missing git head"@,
            Some(h) => git_head_line(h) + "Status:\n"@ + (if g.entries@.len() == 0 {
                "Working tree clean\n"@
            } else {
                concat_map(g.entries@, |e: GitStatusEntry| git_entry_line(e))
            }) + "\nRecent commits:\n"@ + (if g.recent_commits@.len() == 0 {
                "<no commits>\n"@
            } else {
                concat_map(g.recent_commits@, |c: GitCommitSummary| git_commit_line(c))
            }),
        },
    }
}

fn push_git_entries(out: &mut String, entries: &Vec<GitStatusEntry>)
    ensures
        final(out)@ == old(out)@ + concat_map(entries@, |e: GitStatusEntry| git_entry_line(e)),
{
    let ghost f = |e: GitStatusEntry| git_entry_line(e);
    let ghost start = out@;
    let mut i: usize = 0;
    assert(entries@.take(0) =~= Seq::<GitStatusEntry>::empty());
    assert(start + concat_map(entries@.take(0), f) =~= start);
    while i < entries.len()
        invariant
            i <= entries.len(),
            f == (|e: GitStatusEntry| git_entry_line(e)),
            out@ == start + concat_map(entries@.take(i as int), f),
        decreases entries.len() - i,
    {
        let entry = &entries[i];
        let (a, b) = git_marks(entry.summary);
        push_char(out, a);
        push_char(out, b);
        push_char(out, ' ');
        push_str(out, entry.path.as_str());
        push_char(out, '\n');
        assert(entries@.take(i + 1).drop_last() =~= entries@.take(i as int));
        assert(out@ =~= start + concat_map(entries@.take(i + 1), f));
        i = i + 1;
    }
    assert(entries@.take(entries.len() as int) =~= entries@);
}

fn push_git_commits(out: &mut String, commits: &Vec<GitCommitSummary>)
    ensures
        final(out)@ == old(out)@ + concat_map(
            commits@,
            |c: GitCommitSummary| git_commit_line(c),
        ),
{
    let ghost f = |c: GitCommitSummary| git_commit_line(c);
    let ghost start = out@;
    let mut i: usize = 0;
    assert(commits@.take(0) =~= Seq::<GitCommitSummary>::empty());
    assert(start + concat_map(commits@.take(0), f) =~= start);
    while i < commits.len()
        invariant
            i <= commits.len(),
            f == (|c: GitCommitSummary| git_commit_line(c)),
            out@ == start + concat_map(commits@.take(i as int), f),
        decreases commits.len() - i,
    {
        let commit = &commits[i];
        push_str(out, commit.id.as_str());
        push_char(out, ' ');
        push_str(out, commit.summary.as_str());
        push_char(out, '\n');
        assert(commits@.take(i + 1).drop_last() =~= commits@.take(i as int));
        assert(out@ =~= start + concat_map(commits@.take(i + 1), f));
        i = i + 1;
    }
    assert(commits@.take(commits.len() as int) =~= commits@);
}

impl LlmStatus for GitStatus {
    open spec fn llm_text(&self) -> Seq<char> {
        git_status_text(*self)
    }

    fn as_llm_string(&self) -> (r: String) {
        if let Some(error) = &self.error {
            let mut r = String::new();
            push_str(&mut r, "Status unavailable: ");
            push_str(&mut r, error.as_str());
            return r;
        }
        let head = match &self.head {
            Some(head) => head,
            None => {
                let mut r = String::new();
                push_str(&mut r, "Status unavailable: missing git head");
                return r;
            },
        };
        let mut result = String::new();
        match head {
            GitHead::Branch(branch) => {
                push_str(&mut result, "Current branch: ");
                push_str(&mut result, branch.as_str());
                push_str(&mut result, "\n\n");
            },
            GitHead::Detached => {
                push_str(&mut result, "Current branch: HEAD (detached)\n\n");
            },
            GitHead::Unborn => {
                push_str(&mut result, "Current branch: <unborn>\n\n");
            },
        }
        push_str(&mut result, "Status:\n");
        if self.entries.len() == 0 {
            push_str(&mut result, "Working tree clean\n");
        } else {
            push_git_entries(&mut result, &self.entries);
        }
        push_str(&mut result, "\nRecent commits:\n");
        if self.recent_commits.len() == 0 {
            push_str(&mut result, "<no commits>\n");
        } else {
            push_git_commits(&mut result, &self.recent_commits);
        }
        result
    }
}

#[derive(Clone, Copy, PartialEq, Eq, Structural)]
pub enum JjChangeType {
    Added,
    Removed,
    Modified,
}

#[derive(Clone)]
pub struct JjChange {
    pub change_type: JjChangeType,
    pub path: String,
}

#[derive(Clone)]
pub struct JjCommitSummary {
    pub change_id: String,
    pub commit_id: String,
    pub description: String,
}

#[derive(Clone)]
pub struct JjStatus {
    pub changes: Vec<JjChange>,
    pub working_copy: Option<JjCommitSummary>,
    pub parents: Vec<JjCommitSummary>,
    pub error: Option<String>,
}

impl JjStatus {
    pub fn new(
        changes: Vec<JjChange>,
        working_copy: JjCommitSummary,
        parents: Vec<JjCommitSummary>,
    ) -> (s: JjStatus)
        ensures
            s.changes == changes,
            s.working_copy == Some(working_copy),
            s.parents == parents,
            s.error is None,
    {
        JjStatus { changes, working_copy: Some(working_copy), parents, error: None }
    }

    pub fn unavailable(message: String) -> (s: JjStatus)
        ensures
            s.changes@.len() == 0,
            s.working_copy is None,
            s.parents@.len() == 0,
            s.error == Some(message),
    {
        JjStatus { changes: Vec::new(), working_copy: None, parents: Vec::new(), error: Some(message) }
    }
}

pub open spec fn jj_change_mark(t: JjChangeType) -> char {
    match t {
        JjChangeType::Added => 'A',
        JjChangeType::Removed => 'D',
        JjChangeType::Modified => 'M',
    }
}

fn jj_mark(t: JjChangeType) -> (c: char)
    ensures
        c == jj_change_mark(t),
{
    match t {
        JjChangeType::Added => 'A',
        JjChangeType::Removed => 'D',
        JjChangeType::Modified => 'M',
    }
}

pub open spec fn jj_change_line(c: JjChange) -> Seq<char> {
    seq![jj_change_mark(c.change_type), ' '] + c.path@ + seq!['\n']
}

pub open spec fn jj_commit_fields(c: JjCommitSummary) -> Seq<char> {
    c.change_id@ + seq![' '] + c.commit_id@ + seq![' '] + c.description@
}

/// How the `i`-th parent is named: `(@-)`, then `(@-2)`, `(@-3)`, …
pub open spec fn parent_marker(i: nat) -> Seq<char> {
    if i == 0 {
        "(@-)"@
    } else {
        "(@-"@ + decimal(i + 1) + seq![')']
    }
}

/// The lines for the parents `ps`, the first of them at position `base`.
pub open spec fn jj_parent_lines(ps: Seq<JjCommitSummary>) -> Seq<char>
    decreases ps.len(),
{
    if ps.len() == 0 {
        Seq::empty()
    } else {
        jj_parent_lines(ps.drop_last()) + "Parent commit "@ + parent_marker((ps.len() - 1) as nat)
            + ": "@ + jj_commit_fields(ps.last()) + seq!['\n']
    }
}

/// The jj status summary shown to the model.
pub open spec fn jj_status_text(j: JjStatus) -> Seq<char> {
    match j.error {
        Some(e) => "Status unavailable: "@ + e@,
        None => match j.working_copy {
            None => "Status unavailable: missing jj working copy"@,
            Some(wc) => "Working copy changes:\n"@ + (if j.changes@.len() == 0 {
                "<none>\n"@
            } else {
                concat_map(j.changes@, |c: JjChange| jj_change_line(c))
            }) + "Working copy (@): "@ + jj_commit_fields(wc) + seq!['\n'] + (if j.parents@.len()
                == 0 {
                "Parent commit (@-): <none>\n"@
            } else {
                jj_parent_lines(j.parents@)
            }),
        },
    }
}

fn push_jj_changes(out: &mut String, changes: &Vec<JjChange>)
    ensures
        final(out)@ == old(out)@ + concat_map(changes@, |c: JjChange| jj_change_line(c)),
{
    let ghost f = |c: JjChange| jj_change_line(c);
    let ghost start = out@;
    let mut i: usize = 0;
    assert(changes@.take(0) =~= Seq::<JjChange>::empty());
    assert(start + concat_map(changes@.take(0), f) =~= start);
    while i < changes.len()
        invariant
            i <= changes.len(),
            f == (|c: JjChange| jj_change_line(c)),
            out@ == start + concat_map(changes@.take(i as int), f),
        decreases changes.len() - i,
    {
        let change = &changes[i];
        push_char(out, jj_mark(change.change_type));
        push_char(out, ' ');
        push_str(out, change.path.as_str());
        push_char(out, '\n');
        assert(changes@.take(i + 1).drop_last() =~= changes@.take(i as int));
        assert(out@ =~= start + concat_map(changes@.take(i + 1), f));
        i = i + 1;
    }
    assert(changes@.take(changes.len() as int) =~= changes@);
}

fn push_commit_fields(out: &mut String, c: &JjCommitSummary)
    ensures
        final(out)@ == old(out)@ + jj_commit_fields(*c),
{
    push_str(out, c.change_id.as_str());
    push_char(out, ' ');
    push_str(out, c.commit_id.as_str());
    push_char(out, ' ');
    push_str(out, c.description.as_str());
}

fn push_jj_parents(out: &mut String, parents: &Vec<JjCommitSummary>)
    ensures
        final(out)@ == old(out)@ + jj_parent_lines(parents@),
{
    let ghost start = out@;
    let mut i: usize = 0;
    assert(parents@.take(0) =~= Seq::<JjCommitSummary>::empty());
    assert(start + jj_parent_lines(parents@.take(0)) =~= start);
    while i < parents.len()
        invariant
            i <= parents.len(),
            out@ == start + jj_parent_lines(parents@.take(i as int)),
        decreases parents.len() - i,
    {
        push_str(out, "Parent commit ");
        if i == 0 {
            push_str(out, "(@-)");
        } else {
            push_str(out, "(@-");
            push_str(out, u64_to_decimal(i as u64 + 1).as_str());
            push_char(out, ')');
        }
        push_str(out, ": ");
        push_commit_fields(out, &parents[i]);
        push_char(out, '\n');
        assert(parents@.take(i + 1).drop_last() =~= parents@.take(i as int));
        assert(out@ =~= start + jj_parent_lines(parents@.take(i + 1)));
        i = i + 1;
    }
    assert(parents@.take(parents.len() as int) =~= parents@);
}

impl LlmStatus for JjStatus {
    open spec fn llm_text(&self) -> Seq<char> {
        jj_status_text(*self)
    }

    fn as_llm_string(&self) -> (r: String) {
        if let Some(error) = &self.error {
            let mut r = String::new();
            push_str(&mut r, "Status unavailable: ");
            push_str(&mut r, error.as_str());
            return r;
        }
        let working_copy = match &self.working_copy {
            Some(working_copy) => working_copy,
            None => {
                let mut r = String::new();
                push_str(&mut r, "Status unavailable: missing jj working copy");
                return r;
            },
        };
        let mut status = String::new();
        push_str(&mut status, "Working copy changes:\n");
        if self.changes.len() == 0 {
            push_str(&mut status, "<none>\n");
        } else {
            push_jj_changes(&mut status, &self.changes);
        }
        push_str(&mut status, "Working copy (@): ");
        push_commit_fields(&mut status, working_copy);
        push_char(&mut status, '\n');
        if self.parents.len() == 0 {
            push_str(&mut status, "Parent commit (@-): <none>\n");
        } else {
            push_jj_parents(&mut status, &self.parents);
        }
        status
    }
}

/// VCS-specific status data.
#[derive(Clone)]
pub enum VcsStatus {
    Git(GitStatus),
    Jj(JjStatus),
}

impl LlmStatus for VcsStatus {
    open spec fn llm_text(&self) -> Seq<char> {
        match *self {
            VcsStatus::Git(g) => git_status_text(g),
            VcsStatus::Jj(j) => jj_status_text(j),
        }
    }

    fn as_llm_string(&self) -> (r: String) {
        match self {
            VcsStatus::Git(status) => status.as_llm_string(),
            VcsStatus::Jj(status) => status.as_llm_string(),
        }
    }
}

/// Version control information for a workspace.
#[derive(Clone)]
pub struct VcsInfo {
    pub kind: VcsKind,
    /// The repository root, as displayed.
    pub root: String,
    pub status: VcsStatus,
}

/// Environment information for a workspace.
#[derive(Clone)]
pub struct EnvironmentInfo {
    /// The working directory, as displayed.
    pub working_directory: String,
    pub vcs: Option<VcsInfo>,
    pub platform: String,
    pub date: String,
    pub directory_structure: String,
    pub readme_content: Option<String>,
    pub memory_file_name: Option<String>,
    pub memory_file_content: Option<String>,
}

/// Default maximum depth for directory structure traversal.
pub const MAX_DIRECTORY_DEPTH: usize = 3;

/// Default maximum number of items to include in directory structure.
pub const MAX_DIRECTORY_ITEMS: usize = 1000;

pub open spec fn vcs_line(vcs: Option<VcsInfo>) -> Seq<char> {
    match vcs {
        Some(v) => "VCS: "@ + vcs_kind_name(v.kind) + " ("@ + v.root@ + ")"@,
        None => "VCS: none"@,
    }
}

pub open spec fn env_header(e: EnvironmentInfo) -> Seq<char> {
    "Here is useful information about the environment you are running in:\n<env>\nWorking directory: "@
        + e.working_directory@ + "\n"@ + vcs_line(e.vcs) + "\nPlatform: "@ + e.platform@
        + "\nToday's date: "@ + e.date@ + "\n</env>"@
}

pub open spec fn structure_section(e: EnvironmentInfo) -> Seq<char> {
    if e.directory_structure@.len() == 0 {
        Seq::empty()
    } else {
        "\n\n<file_structure>\nBelow is a snapshot of this project's file structure at the start of the conversation. The file structure may be filtered to omit `.gitignore`ed patterns. This snapshot will NOT update during the conversation.\n\n"@
            + e.directory_structure@ + "\n</file_structure>"@
    }
}

pub open spec fn vcs_section(e: EnvironmentInfo) -> Seq<char> {
    match e.vcs {
        Some(v) => "\n<vcs_status>\nThis is the VCS status at the start of the conversation. Note that this status is a snapshot in time, and will not update during the conversation.\n\nVCS: "@
            + vcs_kind_name(v.kind) + "\nRoot: "@ + v.root@ + "\n\n"@ + v.status.llm_text()
            + "\n</vcs_status>"@,
        None => Seq::empty(),
    }
}

pub open spec fn readme_section(e: EnvironmentInfo) -> Seq<char> {
    match e.readme_content {
        Some(readme) => "\n<file name=\"README.md\">\nThis is the README.md file at the start of the conversation. Note that this README is a snapshot in time, and will not update during the conversation.\n\n"@
            + readme@ + "\n</file>"@,
        None => Seq::empty(),
    }
}

pub open spec fn memory_section(e: EnvironmentInfo) -> Seq<char> {
    match (e.memory_file_name, e.memory_file_content) {
        (Some(name), Some(content)) => "\n<file name=\""@ + name@ + "\">\nThis is the "@ + name@
            + " file at the start of the conversation. Note that this file is a snapshot in time, and will not update during the conversation.\n\n"@
            + content@ + "\n</file>"@,
        _ => Seq::empty(),
    }
}

/// The environment summary given to the model as context.
pub open spec fn env_context(e: EnvironmentInfo) -> Seq<char> {
    env_header(e) + structure_section(e) + vcs_section(e) + readme_section(e) + memory_section(e)
}

impl EnvironmentInfo {
    fn push_header(&self, out: &mut String)
        ensures
            final(out)@ == old(out)@ + env_header(*self),
    {
        let ghost start = out@;
        push_str(
            out,
            "Here is useful information about the environment you are running in:\n<env>\nWorking directory: ",
        );
        push_str(out, self.working_directory.as_str());
        push_str(out, "\n");
        match &self.vcs {
            Some(vcs) => {
                push_str(out, "VCS: ");
                push_str(out, vcs.kind.as_str());
                push_str(out, " (");
                push_str(out, vcs.root.as_str());
                push_str(out, ")");
            },
            None => {
                push_str(out, "VCS: none");
            },
        }
        push_str(out, "\nPlatform: ");
        push_str(out, self.platform.as_str());
        push_str(out, "\nToday's date: ");
        push_str(out, self.date.as_str());
        push_str(out, "\n</env>");
        assert(out@ =~= start + env_header(*self));
    }

    fn push_structure(&self, out: &mut String)
        ensures
            final(out)@ == old(out)@ + structure_section(*self),
    {
        let ghost start = out@;
        if !self.directory_structure.as_str().is_empty() {
            push_str(
                out,
                "\n\n<file_structure>\nBelow is a snapshot of this project's file structure at the start of the conversation. The file structure may be filtered to omit `.gitignore`ed patterns. This snapshot will NOT update during the conversation.\n\n",
            );
            push_str(out, self.directory_structure.as_str());
            push_str(out, "\n</file_structure>");
        }
        assert(out@ =~= start + structure_section(*self));
    }

    fn push_vcs(&self, out: &mut String)
        ensures
            final(out)@ == old(out)@ + vcs_section(*self),
    {
        let ghost start = out@;
        if let Some(vcs) = &self.vcs {
            push_str(
                out,
                "\n<vcs_status>\nThis is the VCS status at the start of the conversation. Note that this status is a snapshot in time, and will not update during the conversation.\n\nVCS: ",
            );
            push_str(out, vcs.kind.as_str());
            push_str(out, "\nRoot: ");
            push_str(out, vcs.root.as_str());
            push_str(out, "\n\n");
            push_str(out, vcs.status.as_llm_string().as_str());
            push_str(out, "\n</vcs_status>");
        }
        assert(out@ =~= start + vcs_section(*self));
    }

    fn push_readme(&self, out: &mut String)
        ensures
            final(out)@ == old(out)@ + readme_section(*self),
    {
        let ghost start = out@;
        if let Some(readme) = &self.readme_content {
            push_str(
                out,
                "\n<file name=\"README.md\">\nThis is the README.md file at the start of the conversation. Note that this README is a snapshot in time, and will not update during the conversation.\n\n",
            );
            push_str(out, readme.as_str());
            push_str(out, "\n</file>");
        }
        assert(out@ =~= start + readme_section(*self));
    }

    fn push_memory(&self, out: &mut String)
        ensures
            final(out)@ == old(out)@ + memory_section(*self),
    {
        let ghost start = out@;
        if let (Some(name), Some(content)) = (&self.memory_file_name, &self.memory_file_content) {
            push_str(out, "\n<file name=\"");
            push_str(out, name.as_str());
            push_str(out, "\">\nThis is the ");
            push_str(out, name.as_str());
            push_str(
                out,
                " file at the start of the conversation. Note that this file is a snapshot in time, and will not update during the conversation.\n\n",
            );
            push_str(out, content.as_str());
            push_str(out, "\n</file>");
        }
        assert(out@ =~= start + memory_section(*self));
    }

    /// The environment information of the workspace at `working_directory`
    /// (its path as displayed), from what was found there: a memory file is
    /// given by its name and content together; an error in listing the
    /// directory structure is passed on unchanged.
    pub fn collect_for_path<E>(
        working_directory: String,
        vcs: Option<VcsInfo>,
        platform: String,
        date: String,
        directory_structure: Result<String, E>,
        readme_content: Option<String>,
        memory_file: Option<(String, String)>,
    ) -> (r: Result<EnvironmentInfo, E>)
        ensures
            match directory_structure {
                Err(e) => r == Err::<EnvironmentInfo, E>(e),
                Ok(d) => r == Ok::<EnvironmentInfo, E>(
                    (EnvironmentInfo {
                        working_directory,
                        vcs,
                        platform,
                        date,
                        directory_structure: d,
                        readme_content,
                        memory_file_name: match memory_file {
                            Some(m) => Some(m.0),
                            None => None,
                        },
                        memory_file_content: match memory_file {
                            Some(m) => Some(m.1),
                            None => None,
                        },
                    }),
                ),
            },
    {
        let directory_structure = match directory_structure {
            Ok(d) => d,
            Err(e) => return Err(e),
        };
        let (memory_file_name, memory_file_content) = match memory_file {
            Some((name, content)) => (Some(name), Some(content)),
            None => (None, None),
        };
        Ok(
            EnvironmentInfo {
                working_directory,
                vcs,
                platform,
                date,
                directory_structure,
                readme_content,
                memory_file_name,
                memory_file_content,
            },
        )
    }


    /// Format environment info as context for the system prompt.
    pub fn as_context(&self) -> (r: String)
        ensures
            r@ == env_context(*self),
    {
        let mut context = String::new();
        self.push_header(&mut context);
        self.push_structure(&mut context);
        self.push_vcs(&mut context);
        self.push_readme(&mut context);
        self.push_memory(&mut context);
        assert(context@ =~= env_context(*self));
        context
    }
}

#[verifier::external_type_specification]
#[verifier::external_body]
pub struct ExInstant(std::time::Instant);

/// The current instant (`Instant::now`); nothing is known of its value.
#[verifier::external_body]
fn instant_now() -> (t: std::time::Instant) {
    std::time::Instant::now()
}

/// Nanoseconds passed since `t` (`Instant::elapsed`, as
/// `Duration::as_nanos`); it depends on the clock, so nothing is stated of it.
#[verifier::external_body]
fn elapsed_nanos(t: &std::time::Instant) -> (e: u128) {
    t.elapsed().as_nanos()
}

/// Whether `elapsed_nanos` of elapsed time is longer than a time to live of
/// `ttl_nanos`.
pub fn expired(elapsed_nanos: u128, ttl_nanos: u128) -> (r: bool)
    ensures
        r == (elapsed_nanos > ttl_nanos),
{
    elapsed_nanos > ttl_nanos
}

/// Environment information remembered for a while: it expires once more
/// than `ttl_nanos` nanoseconds have passed since `cached_at`.
pub struct CachedEnvironment {
    pub info: EnvironmentInfo,
    pub cached_at: std::time::Instant,
    pub ttl_nanos: u128,
}

impl CachedEnvironment {
    /// Caches `info` now, for `ttl_nanos` nanoseconds.
    pub fn new(info: EnvironmentInfo, ttl_nanos: u128) -> (c: CachedEnvironment)
        ensures
            c.info == info,
            c.ttl_nanos == ttl_nanos,
    {
        CachedEnvironment { info, cached_at: instant_now(), ttl_nanos }
    }

    /// Whether more time than the time to live has passed since caching:
    /// [`expired`] of the time elapsed since `cached_at`, as read from the
    /// clock. Whatever the clock reads, an entry whose time to live is the
    /// longest one expressible never expires.
    pub fn is_expired(&self) -> (r: bool)
        ensures
            r ==> self.ttl_nanos < u128::MAX,
    {
        let elapsed = elapsed_nanos(&self.cached_at);
        expired(elapsed, self.ttl_nanos)
    }
}

/// How long collected environment information is served from the cache:
/// five minutes, in nanoseconds.
pub const ENVIRONMENT_TTL_NANOS: u128 = 300_000_000_000;

/// The environment information of a workspace, remembered between requests
/// until it expires or the cache is invalidated.
pub struct EnvironmentCache {
    pub entry: Option<CachedEnvironment>,
}

impl EnvironmentCache {
    /// A cache that holds nothing yet.
    pub fn new() -> (c: EnvironmentCache)
        ensures
            c.entry is None,
    {
        EnvironmentCache { entry: None }
    }

    /// The cached information, given that `elapsed_nanos` have passed since
    /// it was cached: served while that is no longer than its time to live;
    /// `None` when nothing is cached or it has expired, and fresh
    /// information is to be collected.
    pub fn info_if_fresh(&self, elapsed_nanos: u128) -> (r: Option<&EnvironmentInfo>)
        ensures
            match self.entry {
                Some(c) => if elapsed_nanos > c.ttl_nanos {
                    r is None
                } else {
                    r == Some(&c.info)
                },
                None => r is None,
            },
    {
        match &self.entry {
            Some(c) => {
                if expired(elapsed_nanos, c.ttl_nanos) {
                    None
                } else {
                    Some(&c.info)
                }
            },
            None => None,
        }
    }

    /// The cached information, unless it has expired by the clock; `None`
    /// when nothing is cached. What is served is always the cached entry,
    /// and an entry whose time to live is the longest one expressible is
    /// always served.
    pub fn fresh_info(&self) -> (r: Option<&EnvironmentInfo>)
        ensures
            self.entry is None ==> r is None,
            r matches Some(i) ==> (self.entry matches Some(c) && *i == c.info),
            (self.entry matches Some(c) && c.ttl_nanos == u128::MAX) ==> r is Some,
    {
        match &self.entry {
            Some(c) => {
                let elapsed = elapsed_nanos(&c.cached_at);
                self.info_if_fresh(elapsed)
            },
            None => None,
        }
    }

    /// Remembers freshly collected `info` for [`ENVIRONMENT_TTL_NANOS`].
    pub fn store(&mut self, info: EnvironmentInfo)
        ensures
            final(self).entry matches Some(c) && c.info == info && c.ttl_nanos
                == ENVIRONMENT_TTL_NANOS,
    {
        self.entry = Some(CachedEnvironment::new(info, ENVIRONMENT_TTL_NANOS));
    }

    /// Forgets the cached information, so that the next request collects it
    /// afresh.
    pub fn invalidate(&mut self)
        ensures
            final(self).entry is None,
    {
        self.entry = None;
    }
}

/// Workspace status for orchestration and display, with its identifiers
/// and path as displayed.
pub struct WorkspaceStatus {
    pub workspace_id: String,
    pub environment_id: String,
    pub repo_id: String,
    pub path: String,
    pub vcs: Option<VcsInfo>,
}

/// The status report shown for a workspace.
pub open spec fn workspace_status_text(st: WorkspaceStatus) -> Seq<char> {
    "Workspace: "@ + st.workspace_id@ + "\nEnvironment: "@ + st.environment_id@ + "\nRepo: "@
        + st.repo_id@ + "\nPath: "@ + st.path@ + "\n"@ + match st.vcs {
        Some(v) => "VCS: "@ + vcs_kind_name(v.kind) + " ("@ + v.root@ + ")\n\n"@
            + v.status.llm_text(),
        None => "VCS: <none>\n"@,
    }
}

/// Renders a workspace's status: its identifiers, path and version control state.
pub fn format_workspace_status(status: &WorkspaceStatus) -> (r: String)
    ensures
        r@ == workspace_status_text(*status),
{
    let mut output = String::new();
    push_str(&mut output, "Workspace: ");
    push_str(&mut output, status.workspace_id.as_str());
    push_str(&mut output, "\nEnvironment: ");
    push_str(&mut output, status.environment_id.as_str());
    push_str(&mut output, "\nRepo: ");
    push_str(&mut output, status.repo_id.as_str());
    push_str(&mut output, "\nPath: ");
    push_str(&mut output, status.path.as_str());
    push_str(&mut output, "\n");
    match &status.vcs {
        Some(vcs) => {
            push_str(&mut output, "VCS: ");
            push_str(&mut output, vcs.kind.as_str());
            push_str(&mut output, " (");
            push_str(&mut output, vcs.root.as_str());
            push_str(&mut output, ")\n\n");
            push_str(&mut output, vcs.status.as_llm_string().as_str());
        },
        None => {
            push_str(&mut output, "VCS: <none>\n");
        },
    }
    output
}

} // verus!
