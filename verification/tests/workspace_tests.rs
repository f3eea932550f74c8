use steer::environment::{expired, format_workspace_status, WorkspaceStatus};
use steer::error::{EditFailure, EnvironmentManagerError, WorkspaceError, WorkspaceManagerError};
use steer::attachments::UserContent;
use steer::headless::{HeadlessCommand, HistoryMessage};
use steer::search::{file_passes_glob, glob_pattern_for, sort_glob_matches};
use steer::environment::{
    CachedEnvironment, EnvironmentCache, EnvironmentInfo, ENVIRONMENT_TTL_NANOS, GitCommitSummary, GitHead, GitStatus, GitStatusEntry,
    GitStatusSummary, JjChange, JjChangeType, JjCommitSummary, JjStatus, LlmStatus, VcsInfo,
    VcsKind, VcsStatus, WorkspaceMetadata, WorkspaceType,
};
use steer::read_file::{
    join_numbered, render_whole_file, split_lines, LineWindow, ReadFileFormatter, ReadOutcome,
};
use steer::remote::{
    convert_environment_response, EnvironmentResponse, WireGitHead, WireGitStatus,
    WireGitStatusEntry, WireHeadKind, WireVcsInfo, WireVcsStatus,
};
use steer::search::{
    assemble_file_list, assemble_grep_result, check_include_glob, grep_matcher_pattern,
    keeps_file_matches, path_matches_glob, search_file_content, select_matcher_pattern, sort_search_matches, str_less,
    FileEntry, FileHits, FileSearchOutcome, SearchMatch,
};

fn s(x: &str) -> String {
    x.to_string()
}

fn env(vcs: Option<VcsInfo>) -> EnvironmentInfo {
    EnvironmentInfo {
        working_directory: s("/home/user/project"),
        vcs,
        platform: s("linux"),
        date: s("2025-06-17"),
        directory_structure: s(""),
        readme_content: None,
        memory_file_name: None,
        memory_file_content: None,
    }
}

#[test]
fn test_convert_environment_response() {
    let response = EnvironmentResponse {
        working_directory: s("/home/user/project"),
        vcs: Some(WireVcsInfo {
            kind: Some(VcsKind::Git),
            root: s("/home/user/project"),
            status: Some(WireVcsStatus::Git(WireGitStatus {
                head: Some(WireGitHead { kind: Some(WireHeadKind::Branch), branch: Some(s("main")) }),
                entries: Vec::new(),
                recent_commits: Vec::new(),
                error: None,
            })),
        }),
        platform: s("linux"),
        date: s("2025-06-17"),
        directory_structure: s("project/\nsrc/\nmain.rs\n"),
        readme_content: Some(s("# My Project")),
        memory_file_content: None,
        memory_file_name: None,
    };

    let env_info = convert_environment_response(response);

    assert_eq!(env_info.working_directory, "/home/user/project");
    assert!(matches!(env_info.vcs, Some(VcsInfo { kind: VcsKind::Git, .. })));
    assert_eq!(env_info.platform, "linux");
    assert_eq!(env_info.date, "2025-06-17");
    assert_eq!(env_info.directory_structure, "project/\nsrc/\nmain.rs\n");
    assert_eq!(
        env_info.vcs.as_ref().map(|vcs| vcs.status.as_llm_string()),
        Some(s("Current branch: main\n\nStatus:\nWorking tree clean\n\nRecent commits:\n<no commits>\n"))
    );
    assert_eq!(env_info.readme_content, Some(s("# My Project")));
    assert_eq!(env_info.memory_file_content, None);
    assert_eq!(env_info.memory_file_name, None);
}

#[test]
fn conversion_drops_unknown_entries_and_fills_missing_status() {
    let response = EnvironmentResponse {
        working_directory: s("/w"),
        vcs: Some(WireVcsInfo { kind: Some(VcsKind::Jj), root: s("/w"), status: None }),
        platform: s("p"),
        date: s("d"),
        directory_structure: s(""),
        readme_content: None,
        memory_file_name: None,
        memory_file_content: None,
    };
    let e = convert_environment_response(response);
    let text = e.vcs.unwrap().status.as_llm_string();
    assert_eq!(text, "Status unavailable: missing jj status");

    let unknown_kind = EnvironmentResponse {
        working_directory: s("/w"),
        vcs: Some(WireVcsInfo { kind: None, root: s("/w"), status: None }),
        platform: s("p"),
        date: s("d"),
        directory_structure: s(""),
        readme_content: None,
        memory_file_name: None,
        memory_file_content: None,
    };
    assert!(convert_environment_response(unknown_kind).vcs.is_none());

    let with_entries = EnvironmentResponse {
        working_directory: s("/w"),
        vcs: Some(WireVcsInfo {
            kind: Some(VcsKind::Git),
            root: s("/w"),
            status: Some(WireVcsStatus::Git(WireGitStatus {
                head: Some(WireGitHead { kind: Some(WireHeadKind::Branch), branch: None }),
                entries: vec![
                    WireGitStatusEntry { summary: None, path: s("x") },
                    WireGitStatusEntry { summary: Some(GitStatusSummary::Modified), path: s("y") },
                ],
                recent_commits: Vec::new(),
                error: None,
            })),
        }),
        platform: s("p"),
        date: s("d"),
        directory_structure: s(""),
        readme_content: None,
        memory_file_name: None,
        memory_file_content: None,
    };
    let text = convert_environment_response(with_entries).vcs.unwrap().status.as_llm_string();
    assert_eq!(text, "Current branch: \n\nStatus:\nM  y\n\nRecent commits:\n<no commits>\n");
}

#[test]
fn git_status_lists_entries_and_commits() {
    let status = GitStatus::new(
        GitHead::Detached,
        vec![
            GitStatusEntry { summary: GitStatusSummary::Added, path: s("new.rs") },
            GitStatusEntry { summary: GitStatusSummary::Conflict, path: s("both.rs") },
        ],
        vec![GitCommitSummary { id: s("abc123"), summary: s("First") }],
    );
    assert_eq!(
        status.as_llm_string(),
        "Current branch: HEAD (detached)\n\nStatus:\n ? new.rs\nUU both.rs\n\nRecent commits:\nabc123 First\n"
    );
    assert_eq!(GitStatus::unavailable(s("boom")).as_llm_string(), "Status unavailable: boom");
}

#[test]
fn jj_status_names_parents() {
    let status = JjStatus::new(
        vec![JjChange { change_type: JjChangeType::Removed, path: s("old.rs") }],
        JjCommitSummary { change_id: s("wc"), commit_id: s("c0"), description: s("work") },
        vec![
            JjCommitSummary { change_id: s("p1"), commit_id: s("c1"), description: s("one") },
            JjCommitSummary { change_id: s("p2"), commit_id: s("c2"), description: s("two") },
        ],
    );
    assert_eq!(
        status.as_llm_string(),
        "Working copy changes:\nD old.rs\nWorking copy (@): wc c0 work\nParent commit (@-): p1 c1 one\nParent commit (@-2): p2 c2 two\n"
    );
    let empty = JjStatus::new(
        Vec::new(),
        JjCommitSummary { change_id: s("a"), commit_id: s("b"), description: s("") },
        Vec::new(),
    );
    assert_eq!(
        empty.as_llm_string(),
        "Working copy changes:\n<none>\nWorking copy (@): a b \nParent commit (@-): <none>\n"
    );
    assert_eq!(
        JjStatus::unavailable(s("missing jj status")).as_llm_string(),
        "Status unavailable: missing jj status"
    );
}

#[test]
fn environment_context_without_extras() {
    let e = env(None);
    assert_eq!(
        e.as_context(),
        "Here is useful information about the environment you are running in:\n<env>\nWorking directory: /home/user/project\nVCS: none\nPlatform: linux\nToday's date: 2025-06-17\n</env>"
    );
}

#[test]
fn environment_context_with_vcs_and_files() {
    let mut e = env(Some(VcsInfo {
        kind: VcsKind::Git,
        root: s("/repo"),
        status: VcsStatus::Git(GitStatus::unavailable(s("x"))),
    }));
    e.readme_content = Some(s("# R"));
    e.memory_file_name = Some(s("AGENTS.md"));
    e.memory_file_content = Some(s("rules"));
    let c = e.as_context();
    assert!(c.contains("VCS: git (/repo)"));
    assert!(c.contains("<vcs_status>\n"));
    assert!(c.contains("VCS: git\nRoot: /repo\n\nStatus unavailable: x\n</vcs_status>"));
    assert!(c.contains("<file name=\"README.md\">"));
    assert!(c.contains("\n\n# R\n</file>"));
    assert!(c.contains("<file name=\"AGENTS.md\">\nThis is the AGENTS.md file"));
    assert!(c.ends_with("\n\nrules\n</file>"));
    assert!(!c.contains("<file_structure>"));
}

#[test]
fn workspace_and_vcs_kinds_have_names() {
    assert_eq!(WorkspaceType::Local.as_str(), "Local");
    assert_eq!(WorkspaceType::Remote.as_str(), "Remote");
    assert_eq!(VcsKind::Git.as_str(), "git");
    assert_eq!(VcsKind::Jj.as_str(), "jj");
    let m = WorkspaceMetadata {
        id: s("remote:addr"),
        workspace_type: WorkspaceType::Remote,
        location: s("addr"),
    };
    assert!(matches!(m.workspace_type, WorkspaceType::Remote));
    assert_eq!(m.location, "addr");
}

#[test]
fn expiry_compares_elapsed_time_with_the_ttl() {
    assert!(expired(11, 10));
    assert!(!expired(10, 10));
    assert!(!expired(0, 0));
    let forever = CachedEnvironment::new(env(None), u128::MAX);
    assert!(!forever.is_expired());
}

#[test]
fn cached_environment_expires_after_its_ttl() {
    let fresh = CachedEnvironment::new(env(None), 3_600_000_000_000);
    assert!(!fresh.is_expired());
    let stale = CachedEnvironment::new(env(None), 0);
    let mut acc = 0u64;
    for i in 0..2_000_000u64 {
        acc = std::hint::black_box(acc.wrapping_add(i));
    }
    assert!(acc > 0);
    assert!(stale.is_expired());
}

#[test]
fn split_lines_follows_str_lines() {
    let text = "a\r\nb\n\nc\r";
    let expected: Vec<String> = text.lines().map(|l| l.to_string()).collect();
    assert_eq!(split_lines(text), expected);
    assert!(split_lines("").is_empty());
    assert_eq!(split_lines("x\n"), vec![s("x")]);
}

#[test]
fn numbered_lines_are_padded_to_five() {
    let lines = vec![s("first"), s("second")];
    assert_eq!(join_numbered(&lines, 9), "    9\tfirst\n   10\tsecond");
    assert_eq!(join_numbered(&vec![s("x")], 123456), "123456\tx");
}

fn read_window(text: &str, offset: Option<u64>, limit: Option<u64>, raw: Option<bool>) -> (String, usize, bool) {
    let mut window = LineWindow::new(offset, limit, raw);
    for line in text.split_inclusive('\n') {
        if !window.accept_line(line.to_string()) {
            break;
        }
    }
    window.finish()
}

#[test]
fn test_read_file_raw_offset_limit_preserves_exact_content() {
    let text = "alpha  \nbeta\t \ngamma\n";
    let (content, line_count, truncated) = read_window(text, Some(1), Some(2), Some(true));
    assert_eq!(content, "alpha  \nbeta\t \n");
    assert_eq!(line_count, 2);
    assert!(truncated);
    assert!(!content.starts_with("    1\t"));

    let (formatted, _, _) = read_window(text, Some(1), Some(2), None);
    assert_eq!(formatted, "    1\talpha\n    2\tbeta");
}

#[test]
fn test_read_file_raw_offset_limit_disables_line_truncation_marker() {
    let long_line = "x".repeat(2000 + 20);
    let text = format!("{long_line}\nsecond\n");

    let (formatted, _, _) = read_window(&text, Some(1), Some(1), None);
    assert!(formatted.contains("... [line truncated]"));

    let (raw, _, _) = read_window(&text, Some(1), Some(1), Some(true));
    assert_eq!(raw, format!("{long_line}\n"));
    assert!(!raw.contains("... [line truncated]"));
}

#[test]
fn numbered_window_truncates_long_lines() {
    let long_line = format!("{}\n", "y".repeat(2500));
    let mut window = LineWindow::new(Some(1), Some(3), None);
    window.accept_line(long_line);
    window.accept_line(s("short   \n"));
    let (content, total, truncated) = window.finish();
    let expected = format!("    1\t{}... [line truncated]\n    2\tshort", "y".repeat(2000));
    assert_eq!(content, expected);
    assert_eq!(total, 2);
    assert!(!truncated);
}

#[test]
fn test_read_file_raw_full_file_disables_byte_limit_truncation() {
    let file_content = "x".repeat(51200 + 128);
    let shown = &file_content[..51200];
    let (_, _, truncated) = render_whole_file(shown, file_content.len() as u64, false);
    assert!(truncated);

    let (content, line_count, truncated) =
        render_whole_file(&file_content, file_content.len() as u64, true);
    assert!(!truncated);
    assert_eq!(content, file_content);
    assert_eq!(line_count, 1);
}

#[test]
fn whole_file_is_numbered_and_flags_large_files() {
    let (content, total, truncated) = render_whole_file("a\nb", 3, false);
    assert_eq!(content, "    1\ta\n    2\tb");
    assert_eq!(total, 2);
    assert!(!truncated);
    let (_, _, truncated) = render_whole_file("a", 60_000, false);
    assert!(truncated);
}

#[test]
fn read_file_formatter_summarises_the_call() {
    let f = ReadFileFormatter;
    assert_eq!(
        f.compact("main.rs", Some(9), Some(5), &ReadOutcome::FileContent(s("a\nb\nc"))),
        "main.rs [10-14] (3 lines)"
    );
    assert_eq!(f.compact("x", None, None, &ReadOutcome::Pending), "x (pending)");
    assert_eq!(f.compact("x", Some(0), None, &ReadOutcome::Error), "x [1+] (error)");
}

fn hits(path: &str, mtime: u128, lines: &[(usize, &str)]) -> FileHits {
    FileHits {
        display_path: s(path),
        mtime,
        matches: lines.iter().map(|(n, t)| (*n, s(t))).collect(),
    }
}

#[test]
fn test_grep_orders_matches_by_mtime_then_path() {
    // b.rs was written, then a.rs, then b.rs again: b.rs is the newest.
    let files = vec![
        hits("/root/a.rs", 2, &[(1, "needle from a")]),
        hits("/root/b.rs", 3, &[(1, "needle from b updated")]),
    ];
    let result = assemble_grep_result(files, 2, false);

    assert!(result.search_completed);
    assert_eq!(result.total_files_searched, 2);
    assert_eq!(result.matches.len(), 2);
    let first = std::path::Path::new(&result.matches[0].file_path)
        .file_name()
        .unwrap()
        .to_string_lossy()
        .to_string();
    let second = std::path::Path::new(&result.matches[1].file_path)
        .file_name()
        .unwrap()
        .to_string_lossy()
        .to_string();
    assert_eq!(first, "b.rs");
    assert_eq!(second, "a.rs");
}

#[test]
fn test_grep_pre_cancelled_returns_incomplete_result() {
    // Cancelled before the first file: nothing searched, nothing found.
    let result = assemble_grep_result(Vec::new(), 0, true);
    assert!(!result.search_completed);
    assert_eq!(result.total_files_searched, 0);
    assert!(result.matches.is_empty());
}

#[test]
fn grep_merges_files_shown_under_the_same_path() {
    let files = vec![
        hits("/p/x", 10, &[(1, "a")]),
        hits("/p/y", 20, &[(5, "b")]),
        hits("/p/x", 30, &[(2, "c")]),
    ];
    let result = assemble_grep_result(files, 3, false);
    let order: Vec<(String, usize, String)> = result
        .matches
        .iter()
        .map(|m| (m.file_path.clone(), m.line_number, m.line_content.clone()))
        .collect();
    assert_eq!(
        order,
        vec![(s("/p/x"), 1, s("a")), (s("/p/x"), 2, s("c")), (s("/p/y"), 5, s("b"))]
    );
}

#[test]
fn matcher_pattern_falls_back_to_the_escaped_pattern() {
    assert_eq!(grep_matcher_pattern("fn \\w+"), Ok(s("fn \\w+")));
    assert_eq!(grep_matcher_pattern("a(b"), Ok(s("a\\(b")));
    assert_eq!(
        select_matcher_pattern("x", Some(s("bad")), Some(s("worse"))),
        Err(s("Failed to create matcher: worse"))
    );
    assert_eq!(select_matcher_pattern("a.b", Some(s("bad")), None), Ok(s("a\\.b")));
}

#[test]
fn test_grep_include_filters_files() {
    let files = [
        ("/root/src/lib.rs", "src/lib.rs", "lib.rs", "needle in rust"),
        ("/root/src/readme.txt", "src/readme.txt", "readme.txt", "needle in text"),
        ("/root/docs/guide.md", "docs/guide.md", "guide.md", "needle in markdown"),
    ];
    assert!(check_include_glob(Some("*.rs"), "").is_ok());
    let mut searched = Vec::new();
    for (full, relative, name, line) in files {
        if file_passes_glob("*.rs", Some(full), Some(relative), Some(name)) == Some(true) {
            searched.push(hits(full, 1, &[(1, line)]));
        }
    }
    let count = searched.len();
    let result = assemble_grep_result(searched, count, false);

    assert!(result.search_completed);
    assert_eq!(result.total_files_searched, 1);
    assert_eq!(result.matches.len(), 1);
    let file_name = std::path::Path::new(&result.matches[0].file_path)
        .file_name()
        .unwrap()
        .to_string_lossy()
        .to_string();
    assert_eq!(file_name, "lib.rs");
}

#[test]
fn include_globs_are_checked_and_matched_against_paths() {
    assert!(check_include_glob(None, "").is_ok());
    let err = check_include_glob(Some("[abc"), "").unwrap_err();
    assert!(err.starts_with("Invalid glob pattern: "));
    assert!(path_matches_glob("*.rs", Some("/p/src/main.rs"), Some("src/main.rs"), Some("main.rs")));
    assert!(path_matches_glob("src/*.rs", Some("/p/src/main.rs"), Some("src/main.rs"), Some("main.rs")));
    assert!(!path_matches_glob("*.txt", Some("/p/src/main.rs"), Some("src/main.rs"), Some("main.rs")));
}

#[test]
fn file_matches_are_kept_unless_the_file_is_not_text() {
    assert!(keeps_file_matches(FileSearchOutcome::Finished));
    assert!(keeps_file_matches(FileSearchOutcome::Cancelled));
    assert!(keeps_file_matches(FileSearchOutcome::Failed));
    assert!(!keeps_file_matches(FileSearchOutcome::InvalidData));
}

#[test]
fn listings_put_directories_first_then_names() {
    let entry = |p: &str, d: bool| FileEntry { path: s(p), is_directory: d, size: None, permissions: None };
    let list = assemble_file_list(
        vec![entry("b.txt", false), entry("zdir", true), entry("a.txt", false), entry("adir", true)],
        s("/p"),
    );
    let names: Vec<String> = list.entries.iter().map(|e| e.path.clone()).collect();
    assert_eq!(names, vec![s("adir"), s("zdir"), s("a.txt"), s("b.txt")]);
    assert_eq!(list.base_path, "/p");
}

#[test]
fn ast_matches_sort_by_file_then_line() {
    let m = |f: &str, l: usize| SearchMatch {
        file_path: s(f),
        line_number: l,
        line_content: s(""),
        column_range: None,
    };
    let sorted = sort_search_matches(vec![m("b", 1), m("a", 5), m("a", 2), m("b", 0)]);
    let keys: Vec<(String, usize)> = sorted.iter().map(|m| (m.file_path.clone(), m.line_number)).collect();
    assert_eq!(keys, vec![(s("a"), 2), (s("a"), 5), (s("b"), 0), (s("b"), 1)]);
}

#[test]
fn text_order_is_by_code_point() {
    assert!(str_less("a", "b"));
    assert!(str_less("a", "ab"));
    assert!(!str_less("ab", "a"));
    assert!(!str_less("x", "x"));
    assert!(str_less("Z", "a"));
}

#[test]
fn workspace_status_lists_ids_and_vcs() {
    let status = WorkspaceStatus {
        workspace_id: s("w1"),
        environment_id: s("e1"),
        repo_id: s("r1"),
        path: s("/p"),
        vcs: None,
    };
    assert_eq!(
        format_workspace_status(&status),
        "Workspace: w1\nEnvironment: e1\nRepo: r1\nPath: /p\nVCS: <none>\n"
    );
    let with_vcs = WorkspaceStatus {
        workspace_id: s("w1"),
        environment_id: s("e1"),
        repo_id: s("r1"),
        path: s("/p"),
        vcs: Some(VcsInfo {
            kind: VcsKind::Jj,
            root: s("/p"),
            status: VcsStatus::Jj(JjStatus::unavailable(s("down"))),
        }),
    };
    assert_eq!(
        format_workspace_status(&with_vcs),
        "Workspace: w1\nEnvironment: e1\nRepo: r1\nPath: /p\nVCS: jj (/p)\n\nStatus unavailable: down"
    );
}

#[test]
fn errors_render_their_messages() {
    let e = WorkspaceError::Edit(EditFailure::StringNotFound { file_path: s("f.rs"), edit_index: 2 });
    assert_eq!(e.to_message(), "Edit failed: string not found for edit #2 in file f.rs");
    let e = WorkspaceError::Edit(EditFailure::EmptyOldString { edit_index: 1 });
    assert_eq!(
        e.to_message(),
        "Edit failed: edit #1 has an empty old_string; use write_file to create or overwrite files"
    );
    match EnvironmentManagerError::from_workspace_error(WorkspaceError::Io(s("disk"))) {
        EnvironmentManagerError::Io(m) => assert_eq!(m, "disk"),
        _ => panic!("expected an I/O error"),
    }
    let other = WorkspaceManagerError::from_workspace_error(WorkspaceError::Remote(s("x")));
    assert_eq!(other.to_message(), "Workspace manager error: Remote workspace error: x");
    assert_eq!(
        EnvironmentManagerError::NotFound(s("e")).to_message(),
        "Environment not found: e"
    );
}

#[test]
fn headless_message_comes_from_the_last_user_text() {
    let history = vec![
        HistoryMessage::Other,
        HistoryMessage::User(vec![UserContent::Text { text: s("hello") }]),
    ];
    assert_eq!(HeadlessCommand::message_from_history(&history), Ok(s("hello")));
    assert_eq!(
        HeadlessCommand::message_from_history(&vec![HistoryMessage::Other]),
        Err(s("Last message must be from User"))
    );
    assert_eq!(
        HeadlessCommand::message_from_history(&vec![HistoryMessage::User(Vec::new())]),
        Err(s("Last message must contain text content"))
    );
    assert_eq!(HeadlessCommand::message_from_history(&Vec::new()), Err(s("No messages in JSON file")));
    assert_eq!(HeadlessCommand::message_from_stdin(s("  \n")), Err(s("No input provided via stdin")));
    assert_eq!(HeadlessCommand::message_from_stdin(s(" hi \n")), Ok(s(" hi \n")));
    let cmd = HeadlessCommand {
        model: None,
        messages_json: None,
        global_model: s("g"),
        session: None,
        session_config: None,
        remote: None,
        directory: None,
        catalogs: vec![s("c.toml")],
    };
    assert_eq!(cmd.model_to_use(), "g");
    assert_eq!(HeadlessCommand::normalize_catalog_path(&s("c.toml"), true, Some(s("/abs/c.toml"))), "/abs/c.toml");
    assert_eq!(HeadlessCommand::normalize_catalog_path(&s("c.toml"), false, None), "c.toml");
}

#[test]
fn glob_matches_are_sorted() {
    assert_eq!(sort_glob_matches(vec![s("/b"), s("/a/z"), s("/a")]), vec![s("/a"), s("/a/z"), s("/b")]);
    assert_eq!(glob_pattern_for("/base", "**/*.rs"), "/base/**/*.rs");
}

#[test]
fn local_workspace_metadata_is_identified_by_its_path() {
    let m = WorkspaceMetadata::local("/tmp/project");
    assert_eq!(m.id, "local:/tmp/project");
    assert!(matches!(m.workspace_type, WorkspaceType::Local));
    assert_eq!(m.location, "/tmp/project");
}

#[test]
fn collecting_the_environment_pairs_the_memory_file_and_passes_errors_on() {
    let info = EnvironmentInfo::collect_for_path::<String>(
        s("/w"),
        None,
        s("linux"),
        s("2025-06-17"),
        Ok(s("/w/\n  src/\n")),
        Some(s("# readme")),
        Some((s("AGENTS.md"), s("be brief"))),
    )
    .unwrap();
    assert_eq!(info.working_directory, "/w");
    assert_eq!(info.directory_structure, "/w/\n  src/\n");
    assert_eq!(info.readme_content.as_deref(), Some("# readme"));
    assert_eq!(info.memory_file_name.as_deref(), Some("AGENTS.md"));
    assert_eq!(info.memory_file_content.as_deref(), Some("be brief"));

    let without = EnvironmentInfo::collect_for_path::<String>(
        s("/w"), None, s("linux"), s("d"), Ok(s("")), None, None,
    )
    .unwrap();
    assert!(without.memory_file_name.is_none() && without.memory_file_content.is_none());

    let failed = EnvironmentInfo::collect_for_path(
        s("/w"), None, s("linux"), s("d"), Err(s("cannot list")), None, None,
    );
    assert_eq!(failed.err(), Some(s("cannot list")));
}

#[test]
fn the_environment_cache_serves_until_expiry_or_invalidation() {
    let mut cache = EnvironmentCache::new();
    assert!(cache.fresh_info().is_none());
    assert!(cache.info_if_fresh(0).is_none());
    cache.store(env(None));
    assert_eq!(cache.entry.as_ref().unwrap().ttl_nanos, ENVIRONMENT_TTL_NANOS);
    assert_eq!(ENVIRONMENT_TTL_NANOS, 300_000_000_000);
    assert_eq!(cache.info_if_fresh(ENVIRONMENT_TTL_NANOS).unwrap().platform, "linux");
    assert!(cache.info_if_fresh(ENVIRONMENT_TTL_NANOS + 1).is_none());
    assert_eq!(cache.fresh_info().unwrap().working_directory, "/home/user/project");
    cache.invalidate();
    assert!(cache.fresh_info().is_none());
}

#[test]
fn searching_file_content_numbers_and_trims_matching_lines() {
    let content = b"alpha\nbeta  \nalphabet\t\n";
    let (outcome, lines) = search_file_content("alpha", content).unwrap();
    assert!(outcome == FileSearchOutcome::Finished);
    assert_eq!(lines, vec![(1, s("alpha")), (3, s("alphabet"))]);
    let (_, lines) = search_file_content("be.a", content).unwrap();
    assert_eq!(lines, vec![(2, s("beta"))]);
    let (outcome, lines) = search_file_content("gamma", content).unwrap();
    assert!(outcome == FileSearchOutcome::Finished);
    assert!(lines.is_empty());
}

#[test]
fn searching_file_content_stops_on_binary_and_invalid_text() {
    let (outcome, lines) = search_file_content("alpha", b"alpha\n\x00alpha\n").unwrap();
    assert!(outcome == FileSearchOutcome::Finished);
    assert!(lines.is_empty());
    let (outcome, lines) = search_file_content("alpha", b"alpha\n\xff alpha\nalpha2\n").unwrap();
    assert!(outcome == FileSearchOutcome::Failed);
    assert_eq!(lines, vec![(1, s("alpha"))]);
    let err = search_file_content("(", b"(\n").unwrap_err();
    assert!(err.starts_with("Failed to create matcher: "));
}
