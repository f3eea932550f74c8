use steer::remote::{
    convert_edit_result, convert_file_content_result, convert_file_list_result,
    convert_glob_result, convert_search_result, WireColumnRange, WireEditResult,
    WireFileContentResult, WireFileEntry, WireFileListResult, WireGlobResult, WireSearchMatch,
    WireSearchResult,
};

#[test]
fn reported_search_result_converts_match_by_match() {
    let reported = WireSearchResult {
        matches: vec![
            WireSearchMatch {
                file_path: "src/a.rs".to_string(),
                line_number: 7,
                line_content: "let x = 1;".to_string(),
                column_range: Some(WireColumnRange { start: 5, end: 15 }),
            },
            WireSearchMatch {
                file_path: "src/b.rs".to_string(),
                line_number: 2,
                line_content: "needle".to_string(),
                column_range: None,
            },
        ],
        total_files_searched: 3,
        search_completed: false,
    };
    let result = convert_search_result(reported);
    assert_eq!(result.matches.len(), 2);
    assert_eq!(result.matches[0].file_path, "src/a.rs");
    assert_eq!(result.matches[0].line_number, 7);
    assert_eq!(result.matches[0].line_content, "let x = 1;");
    assert_eq!(result.matches[0].column_range, Some((5, 15)));
    assert_eq!(result.matches[1].file_path, "src/b.rs");
    assert_eq!(result.matches[1].column_range, None);
    assert_eq!(result.total_files_searched, 3);
    assert!(!result.search_completed);
}

#[test]
fn reported_file_list_keeps_entries_in_order() {
    let reported = WireFileListResult {
        entries: vec![
            WireFileEntry {
                path: "src".to_string(),
                is_directory: true,
                size: None,
                permissions: None,
            },
            WireFileEntry {
                path: "Cargo.toml".to_string(),
                is_directory: false,
                size: Some(120),
                permissions: Some("rw-r--r--".to_string()),
            },
        ],
        base_path: "/work".to_string(),
    };
    let result = convert_file_list_result(reported);
    assert_eq!(result.base_path, "/work");
    assert_eq!(result.entries.len(), 2);
    assert_eq!(result.entries[0].path, "src");
    assert!(result.entries[0].is_directory);
    assert_eq!(result.entries[1].path, "Cargo.toml");
    assert_eq!(result.entries[1].size, Some(120));
    assert_eq!(result.entries[1].permissions.as_deref(), Some("rw-r--r--"));
}

#[test]
fn reported_file_content_edit_and_glob_results_convert() {
    let content = convert_file_content_result(WireFileContentResult {
        content: "a\nb\n".to_string(),
        file_path: "x.txt".to_string(),
        line_count: 2,
        truncated: true,
    });
    assert_eq!(content.content, "a\nb\n");
    assert_eq!(content.file_path, "x.txt");
    assert_eq!(content.line_count, 2);
    assert!(content.truncated);

    let edit = convert_edit_result(WireEditResult {
        file_path: "x.txt".to_string(),
        changes_made: 4,
        file_created: false,
        old_content: Some("old".to_string()),
        new_content: None,
    });
    assert_eq!(edit.file_path, "x.txt");
    assert_eq!(edit.changes_made, 4);
    assert!(!edit.file_created);
    assert_eq!(edit.old_content.as_deref(), Some("old"));
    assert_eq!(edit.new_content, None);

    let glob = convert_glob_result(WireGlobResult {
        matches: vec!["a.rs".to_string(), "b.rs".to_string()],
        pattern: "*.rs".to_string(),
    });
    assert_eq!(glob.matches, vec!["a.rs".to_string(), "b.rs".to_string()]);
    assert_eq!(glob.pattern, "*.rs");
}
