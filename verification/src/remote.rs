//! Environment information as a remote workspace reports it, and its
//! conversion into the library's [`EnvironmentInfo`]: values the remote
//! side left unspecified (or sent with a code this side does not know) are
//! dropped, and a missing status becomes an "unavailable" status.

use vstd::prelude::*;
use crate::environment::{
    EnvironmentInfo, GitCommitSummary, GitHead, GitStatus, GitStatusEntry, GitStatusSummary,
    JjChange, JjChangeType, JjCommitSummary, JjStatus, VcsInfo, VcsKind, VcsStatus,
};
use crate::read_file::FileContentResult;
use crate::search::{matches_model, FileEntry, FileListResult, MatchModel, SearchMatch, SearchResult};
use crate::text::push_str;

verus! {

/// The kind of a git head as reported.
#[derive(Clone, Copy, PartialEq, Eq, Structural)]
pub enum WireHeadKind {
    Branch,
    Detached,
    Unborn,
}

/// A git head as reported; `kind` is `None` when unspecified or unknown.
pub struct WireGitHead {
    pub kind: Option<WireHeadKind>,
    pub branch: Option<String>,
}

/// A git status entry as reported; `summary` is `None` when unspecified
/// or unknown.
pub struct WireGitStatusEntry {
    pub summary: Option<GitStatusSummary>,
    pub path: String,
}

pub struct WireGitStatus {
    pub head: Option<WireGitHead>,
    pub entries: Vec<WireGitStatusEntry>,
    pub recent_commits: Vec<GitCommitSummary>,
    pub error: Option<String>,
}

/// A jj change as reported; `change_type` is `None` when unspecified or
/// unknown.
pub struct WireJjChange {
    pub change_type: Option<JjChangeType>,
    pub path: String,
}

pub struct WireJjStatus {
    pub changes: Vec<WireJjChange>,
    pub working_copy: Option<JjCommitSummary>,
    pub parents: Vec<JjCommitSummary>,
    pub error: Option<String>,
}

pub enum WireVcsStatus {
    Git(WireGitStatus),
    Jj(WireJjStatus),
}

/// Version control information as reported; `kind` is `None` when
/// unspecified or unknown.
pub struct WireVcsInfo {
    pub kind: Option<VcsKind>,
    pub root: String,
    pub status: Option<WireVcsStatus>,
}

/// The environment information a remote workspace reports.
pub struct EnvironmentResponse {
    pub working_directory: String,
    pub vcs: Option<WireVcsInfo>,
    pub platform: String,
    pub date: String,
    pub directory_structure: String,
    pub readme_content: Option<String>,
    pub memory_file_name: Option<String>,
    pub memory_file_content: Option<String>,
}

/// The entries whose summary is known, in order.
pub open spec fn known_entries(ws: Seq<WireGitStatusEntry>) -> Seq<GitStatusEntry>
    decreases ws.len(),
{
    if ws.len() == 0 {
        Seq::empty()
    } else {
        let rest = known_entries(ws.drop_last());
        match ws.last().summary {
            Some(s) => rest.push(GitStatusEntry { summary: s, path: ws.last().path }),
            None => rest,
        }
    }
}

/// The changes whose type is known, in order.
pub open spec fn known_changes(ws: Seq<WireJjChange>) -> Seq<JjChange>
    decreases ws.len(),
{
    if ws.len() == 0 {
        Seq::empty()
    } else {
        let rest = known_changes(ws.drop_last());
        match ws.last().change_type {
            Some(t) => rest.push(JjChange { change_type: t, path: ws.last().path }),
            None => rest,
        }
    }
}

/// `h` is the head reported as `w`: a branch without a name gets the
/// empty name, and a head of unknown kind is no head.
pub open spec fn head_converted(h: Option<GitHead>, w: Option<WireGitHead>) -> bool {
    match w {
        None => h is None,
        Some(wh) => match wh.kind {
            None => h is None,
            Some(WireHeadKind::Detached) => h matches Some(GitHead::Detached),
            Some(WireHeadKind::Unborn) => h matches Some(GitHead::Unborn),
            Some(WireHeadKind::Branch) => h matches Some(GitHead::Branch(b)) && b@ == match wh.branch {
                Some(name) => name@,
                None => Seq::empty(),
            },
        },
    }
}

/// `s` is the status reported as `w` for a repository of kind `kind`.
pub open spec fn status_converted(s: VcsStatus, kind: VcsKind, w: Option<WireVcsStatus>) -> bool {
    match w {
        Some(WireVcsStatus::Git(g)) => s matches VcsStatus::Git(gs) && {
            &&& head_converted(gs.head, g.head)
            &&& gs.entries@ == known_entries(g.entries@)
            &&& gs.recent_commits == g.recent_commits
            &&& gs.error == g.error
        },
        Some(WireVcsStatus::Jj(j)) => s matches VcsStatus::Jj(js) && {
            &&& js.changes@ == known_changes(j.changes@)
            &&& js.working_copy == j.working_copy
            &&& js.parents == j.parents
            &&& js.error == j.error
        },
        None => match kind {
            VcsKind::Git => s matches VcsStatus::Git(gs) && {
                &&& gs.head is None
                &&& gs.entries@.len() == 0
                &&& gs.recent_commits@.len() == 0
                &&& gs.error matches Some(e) && e@ == "missing git status"@
            },
            VcsKind::Jj => s matches VcsStatus::Jj(js) && {
                &&& js.changes@.len() == 0
                &&& js.working_copy is None
                &&& js.parents@.len() == 0
                &&& js.error matches Some(e) && e@ == "missing jj status"@
            },
        },
    }
}

/// `v` is the version control information reported as `w`: none when the
/// kind is unknown.
pub open spec fn vcs_converted(v: Option<VcsInfo>, w: Option<WireVcsInfo>) -> bool {
    match w {
        None => v is None,
        Some(wv) => match wv.kind {
            None => v is None,
            Some(kind) => v matches Some(info) && info.kind == kind && info.root == wv.root
                && status_converted(info.status, kind, wv.status),
        },
    }
}

fn convert_entries(ws: Vec<WireGitStatusEntry>) -> (r: Vec<GitStatusEntry>)
    ensures
        r@ == known_entries(ws@),
{
    let ghost orig = ws@;
    let mut rest = ws;
    let mut out: Vec<GitStatusEntry> = Vec::new();
    let ghost mut i: int = 0;
    assert(orig.take(0) =~= Seq::<WireGitStatusEntry>::empty());
    assert(orig.skip(0) =~= orig);
    while rest.len() > 0
        invariant
            0 <= i <= orig.len(),
            rest@ == orig.skip(i),
            out@ == known_entries(orig.take(i)),
        decreases rest.len(),
    {
        let w = rest.remove(0);
        assert(orig.take(i + 1).drop_last() =~= orig.take(i));
        assert(rest@ =~= orig.skip(i + 1));
        match w.summary {
            Some(summary) => {
                out.push(GitStatusEntry { summary, path: w.path });
            },
            None => {},
        }
        proof {
            i = i + 1;
        }
    }
    assert(orig.take(i) =~= orig);
    out
}

fn convert_changes(ws: Vec<WireJjChange>) -> (r: Vec<JjChange>)
    ensures
        r@ == known_changes(ws@),
{
    let ghost orig = ws@;
    let mut rest = ws;
    let mut out: Vec<JjChange> = Vec::new();
    let ghost mut i: int = 0;
    assert(orig.take(0) =~= Seq::<WireJjChange>::empty());
    assert(orig.skip(0) =~= orig);
    while rest.len() > 0
        invariant
            0 <= i <= orig.len(),
            rest@ == orig.skip(i),
            out@ == known_changes(orig.take(i)),
        decreases rest.len(),
    {
        let w = rest.remove(0);
        assert(orig.take(i + 1).drop_last() =~= orig.take(i));
        assert(rest@ =~= orig.skip(i + 1));
        match w.change_type {
            Some(change_type) => {
                out.push(JjChange { change_type, path: w.path });
            },
            None => {},
        }
        proof {
            i = i + 1;
        }
    }
    assert(orig.take(i) =~= orig);
    out
}

fn convert_head(w: Option<WireGitHead>) -> (h: Option<GitHead>)
    ensures
        head_converted(h, w),
{
    match w {
        None => None,
        Some(head) => match head.kind {
            None => None,
            Some(WireHeadKind::Detached) => Some(GitHead::Detached),
            Some(WireHeadKind::Unborn) => Some(GitHead::Unborn),
            Some(WireHeadKind::Branch) => {
                let name = match head.branch {
                    Some(b) => b,
                    None => String::new(),
                };
                Some(GitHead::Branch(name))
            },
        },
    }
}

fn text(s: &str) -> (r: String)
    ensures
        r@ == s@,
{
    let mut r = String::new();
    push_str(&mut r, s);
    r
}

fn convert_status(kind: VcsKind, w: Option<WireVcsStatus>) -> (s: VcsStatus)
    ensures
        status_converted(s, kind, w),
{
    match w {
        Some(WireVcsStatus::Git(g)) => VcsStatus::Git(
            GitStatus {
                head: convert_head(g.head),
                entries: convert_entries(g.entries),
                recent_commits: g.recent_commits,
                error: g.error,
            },
        ),
        Some(WireVcsStatus::Jj(j)) => VcsStatus::Jj(
            JjStatus {
                changes: convert_changes(j.changes),
                working_copy: j.working_copy,
                parents: j.parents,
                error: j.error,
            },
        ),
        None => match kind {
            VcsKind::Git => VcsStatus::Git(GitStatus::unavailable(text("missing git status"))),
            VcsKind::Jj => VcsStatus::Jj(JjStatus::unavailable(text("missing jj status"))),
        },
    }
}

/// Converts the reported environment information.
pub fn convert_environment_response(response: EnvironmentResponse) -> (e: EnvironmentInfo)
    ensures
        e.working_directory == response.working_directory,
        vcs_converted(e.vcs, response.vcs),
        e.platform == response.platform,
        e.date == response.date,
        e.directory_structure == response.directory_structure,
        e.readme_content == response.readme_content,
        e.memory_file_name == response.memory_file_name,
        e.memory_file_content == response.memory_file_content,
{
    let vcs = match response.vcs {
        None => None,
        Some(v) => match v.kind {
            None => None,
            Some(kind) => Some(VcsInfo { kind, root: v.root, status: convert_status(kind, v.status) }),
        },
    };
    EnvironmentInfo {
        working_directory: response.working_directory,
        vcs,
        platform: response.platform,
        date: response.date,
        directory_structure: response.directory_structure,
        readme_content: response.readme_content,
        memory_file_name: response.memory_file_name,
        memory_file_content: response.memory_file_content,
    }
}

/// A column range as reported.
pub struct WireColumnRange {
    pub start: u64,
    pub end: u64,
}

/// A search match as reported.
pub struct WireSearchMatch {
    pub file_path: String,
    pub line_number: u64,
    pub line_content: String,
    pub column_range: Option<WireColumnRange>,
}

/// A search result as reported.
pub struct WireSearchResult {
    pub matches: Vec<WireSearchMatch>,
    pub total_files_searched: u64,
    pub search_completed: bool,
}

/// The plain values of the match reported as `m`, counts taken as `usize`.
pub open spec fn wire_match_model(m: WireSearchMatch) -> MatchModel {
    MatchModel {
        file_path: m.file_path@,
        line_number: m.line_number as usize,
        line_content: m.line_content@,
        column_range: match m.column_range {
            Some(c) => Some((c.start as usize, c.end as usize)),
            None => None,
        },
    }
}

pub open spec fn wire_matches_model(v: Seq<WireSearchMatch>) -> Seq<MatchModel> {
    v.map_values(|m: WireSearchMatch| wire_match_model(m))
}

/// Converts a reported search result, match by match.
pub fn convert_search_result(proto_result: WireSearchResult) -> (r: SearchResult)
    ensures
        matches_model(r.matches@) == wire_matches_model(proto_result.matches@),
        r.total_files_searched == proto_result.total_files_searched as usize,
        r.search_completed == proto_result.search_completed,
{
    let ghost orig = proto_result.matches@;
    let mut rest = proto_result.matches;
    let mut out: Vec<SearchMatch> = Vec::new();
    let ghost mut i: int = 0;
    assert(orig.take(0) =~= Seq::<WireSearchMatch>::empty());
    assert(orig.skip(0) =~= orig);
    while rest.len() > 0
        invariant
            0 <= i <= orig.len(),
            rest@ == orig.skip(i),
            matches_model(out@) == wire_matches_model(orig.take(i)),
        decreases rest.len(),
    {
        let w = rest.remove(0);
        assert(orig.take(i + 1).drop_last() =~= orig.take(i));
        assert(rest@ =~= orig.skip(i + 1));
        let column_range = match w.column_range {
            Some(c) => Some((c.start as usize, c.end as usize)),
            None => None,
        };
        let m = SearchMatch {
            file_path: w.file_path,
            line_number: w.line_number as usize,
            line_content: w.line_content,
            column_range,
        };
        assert(w == orig[i]);
        assert(crate::search::match_model(m) == wire_match_model(w));
        assert(wire_matches_model(orig.take(i + 1)) =~= wire_matches_model(orig.take(i)).push(
            wire_match_model(w),
        ));
        out.push(m);
        proof {
            assert(matches_model(out@) =~= wire_matches_model(orig.take(i + 1)));
            i = i + 1;
        }
    }
    assert(orig.take(i) =~= orig);
    SearchResult {
        matches: out,
        total_files_searched: proto_result.total_files_searched as usize,
        search_completed: proto_result.search_completed,
    }
}

/// A directory entry as reported.
pub struct WireFileEntry {
    pub path: String,
    pub is_directory: bool,
    pub size: Option<u64>,
    pub permissions: Option<String>,
}

/// A directory listing as reported.
pub struct WireFileListResult {
    pub entries: Vec<WireFileEntry>,
    pub base_path: String,
}

pub open spec fn entry_of(e: WireFileEntry) -> FileEntry {
    FileEntry { path: e.path, is_directory: e.is_directory, size: e.size, permissions: e.permissions }
}

/// Converts a reported directory listing, entry by entry.
pub fn convert_file_list_result(proto_result: WireFileListResult) -> (r: FileListResult)
    ensures
        r.entries@ == proto_result.entries@.map_values(|e: WireFileEntry| entry_of(e)),
        r.base_path == proto_result.base_path,
{
    let ghost orig = proto_result.entries@;
    let mut rest = proto_result.entries;
    let mut out: Vec<FileEntry> = Vec::new();
    let ghost mut i: int = 0;
    assert(orig.take(0).map_values(|e: WireFileEntry| entry_of(e)) =~= Seq::<FileEntry>::empty());
    assert(orig.skip(0) =~= orig);
    while rest.len() > 0
        invariant
            0 <= i <= orig.len(),
            rest@ == orig.skip(i),
            out@ == orig.take(i).map_values(|e: WireFileEntry| entry_of(e)),
        decreases rest.len(),
    {
        let w = rest.remove(0);
        assert(rest@ =~= orig.skip(i + 1));
        out.push(
            FileEntry {
                path: w.path,
                is_directory: w.is_directory,
                size: w.size,
                permissions: w.permissions,
            },
        );
        proof {
            assert(out@ =~= orig.take(i + 1).map_values(|e: WireFileEntry| entry_of(e)));
            i = i + 1;
        }
    }
    assert(orig.take(i) =~= orig);
    FileListResult { entries: out, base_path: proto_result.base_path }
}

/// A file read as reported.
pub struct WireFileContentResult {
    pub content: String,
    pub file_path: String,
    pub line_count: u64,
    pub truncated: bool,
}

/// Converts a reported file read.
pub fn convert_file_content_result(proto_result: WireFileContentResult) -> (r: FileContentResult)
    ensures
        r.content == proto_result.content,
        r.file_path == proto_result.file_path,
        r.line_count == proto_result.line_count as usize,
        r.truncated == proto_result.truncated,
{
    FileContentResult {
        content: proto_result.content,
        file_path: proto_result.file_path,
        line_count: proto_result.line_count as usize,
        truncated: proto_result.truncated,
    }
}

/// What applying edits or writing a file returns.
pub struct EditResult {
    pub file_path: String,
    pub changes_made: usize,
    pub file_created: bool,
    pub old_content: Option<String>,
    pub new_content: Option<String>,
}

/// An edit result as reported.
pub struct WireEditResult {
    pub file_path: String,
    pub changes_made: u64,
    pub file_created: bool,
    pub old_content: Option<String>,
    pub new_content: Option<String>,
}

/// Converts a reported edit result.
pub fn convert_edit_result(proto_result: WireEditResult) -> (r: EditResult)
    ensures
        r.file_path == proto_result.file_path,
        r.changes_made == proto_result.changes_made as usize,
        r.file_created == proto_result.file_created,
        r.old_content == proto_result.old_content,
        r.new_content == proto_result.new_content,
{
    EditResult {
        file_path: proto_result.file_path,
        changes_made: proto_result.changes_made as usize,
        file_created: proto_result.file_created,
        old_content: proto_result.old_content,
        new_content: proto_result.new_content,
    }
}

/// What a glob search returns.
pub struct GlobResult {
    pub matches: Vec<String>,
    pub pattern: String,
}

/// A glob result as reported.
pub struct WireGlobResult {
    pub matches: Vec<String>,
    pub pattern: String,
}

/// Converts a reported glob result.
pub fn convert_glob_result(proto_result: WireGlobResult) -> (r: GlobResult)
    ensures
        r.matches == proto_result.matches,
        r.pattern == proto_result.pattern,
{
    GlobResult { matches: proto_result.matches, pattern: proto_result.pattern }
}

} // verus!
