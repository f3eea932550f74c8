use steer::edit::{
    apply_selected_replacements, find_match_locations, line_bounds_for_index, line_number_for_index, perform_edit_operations,
    truncate_preview_snippet, FileReadError,
};
use steer::error::{EditFailure, WorkspaceError};
use steer::ops::{EditMatchSelection, EditOperation};

const PATH: &str = "sample.txt";

fn op(old: &str, new: &str, selection: Option<EditMatchSelection>) -> EditOperation {
    EditOperation {
        old_string: old.to_string(),
        new_string: new.to_string(),
        match_selection: selection,
    }
}

fn edit(content: &str, ops: &[EditOperation]) -> Result<(String, usize), WorkspaceError> {
    perform_edit_operations(PATH, ops, Ok(content.to_string()))
}

fn chars(s: &str) -> Vec<char> {
    s.chars().collect()
}

#[test]
fn test_apply_edits_rejects_empty_old_string_with_typed_error() {
    let err = match edit("hello world\n", &[op("", "replacement", None)]) {
        Ok(_) => panic!("empty old_string should fail"),
        Err(e) => e,
    };
    assert!(matches!(err, WorkspaceError::Edit(EditFailure::EmptyOldString { edit_index: 1 })));
}

#[test]
fn test_apply_edits_returns_typed_string_not_found_error() {
    let err = match edit("hello world\n", &[op("missing", "replacement", None)]) {
        Ok(_) => panic!("missing string should fail"),
        Err(e) => e,
    };
    assert!(matches!(
        err,
        WorkspaceError::Edit(EditFailure::StringNotFound { edit_index: 1, .. })
    ));
}

#[test]
fn test_apply_edits_returns_typed_non_unique_match_error() {
    let err = match edit("repeat\nrepeat\n", &[op("repeat", "done", None)]) {
        Ok(_) => panic!("non-unique string should fail"),
        Err(e) => e,
    };
    assert!(matches!(
        err,
        WorkspaceError::Edit(EditFailure::NonUniqueMatch {
            edit_index: 1,
            occurrences: 2,
            ref match_previews,
            omitted_matches: 0,
            ..
        }) if match_previews.len() == 2
            && match_previews[0].line_number == 1
            && match_previews[0].column_number == 1
            && match_previews[0].snippet == "repeat"
            && match_previews[1].line_number == 2
            && match_previews[1].column_number == 1
            && match_previews[1].snippet == "repeat"
    ));
}

#[test]
fn test_apply_edits_with_match_mode_first_replaces_first_match_only() {
    let (updated, changes) = edit(
        "repeat\nrepeat\n",
        &[op("repeat", "done", Some(EditMatchSelection::First))],
    )
    .ok()
    .expect("first match mode should succeed");
    assert_eq!(changes, 1);
    assert_eq!(updated, "done\nrepeat\n");
}

#[test]
fn test_apply_edits_with_match_mode_all_replaces_all_matches() {
    let (updated, changes) = edit(
        "repeat\nrepeat\n",
        &[op("repeat", "done", Some(EditMatchSelection::All))],
    )
    .ok()
    .expect("all match mode should succeed");
    assert_eq!(changes, 2);
    assert_eq!(updated, "done\ndone\n");
}

#[test]
fn test_apply_edits_with_match_mode_nth_replaces_requested_match() {
    let (updated, changes) = edit(
        "repeat\nrepeat\nrepeat\n",
        &[op("repeat", "done", Some(EditMatchSelection::Nth { match_index: Some(2) }))],
    )
    .ok()
    .expect("nth match mode should succeed");
    assert_eq!(changes, 1);
    assert_eq!(updated, "repeat\ndone\nrepeat\n");
}

#[test]
fn test_apply_edits_with_match_mode_exactly_one_explicit_matches_default_behavior() {
    let err = match edit(
        "repeat\nrepeat\n",
        &[op("repeat", "done", Some(EditMatchSelection::ExactlyOne))],
    ) {
        Ok(_) => panic!("explicit exactly_one should fail on non-unique matches"),
        Err(e) => e,
    };
    assert!(matches!(
        err,
        WorkspaceError::Edit(EditFailure::NonUniqueMatch { edit_index: 1, occurrences: 2, .. })
    ));
}

#[test]
fn test_apply_edits_rejects_invalid_nth_selection_without_match_index() {
    let err = match edit(
        "repeat\nrepeat\n",
        &[op("repeat", "done", Some(EditMatchSelection::Nth { match_index: None }))],
    ) {
        Ok(_) => panic!("nth without match_index should fail"),
        Err(e) => e,
    };
    assert!(matches!(
        err,
        WorkspaceError::Edit(EditFailure::InvalidMatchSelection { edit_index: 1, ref message, .. })
            if message.contains("match_index is required")
    ));
}

#[test]
fn test_apply_edits_rejects_out_of_range_nth_selection_index() {
    let err = match edit(
        "repeat\nrepeat\n",
        &[op("repeat", "done", Some(EditMatchSelection::Nth { match_index: Some(3) }))],
    ) {
        Ok(_) => panic!("nth out of range should fail"),
        Err(e) => e,
    };
    assert!(matches!(
        err,
        WorkspaceError::Edit(EditFailure::InvalidMatchSelection { edit_index: 1, ref message, .. })
            if message.contains("out of range")
    ));
}

#[test]
fn single_unique_edit_replaces_its_occurrence() {
    let (updated, changes) = edit("hello world\n", &[op("world", "there", None)]).ok().unwrap();
    assert_eq!(updated, "hello there\n");
    assert_eq!(changes, 1);
}

#[test]
fn edits_apply_in_order_to_the_edited_content() {
    let ops = [
        op("a", "b", Some(EditMatchSelection::All)),
        op("bb", "c", Some(EditMatchSelection::First)),
    ];
    let (updated, changes) = edit("aab a", &ops).ok().unwrap();
    assert_eq!(updated, "cb b");
    assert_eq!(changes, 4);
}

#[test]
fn a_failing_later_edit_fails_the_whole_request() {
    let ops = [op("hello", "bye", None), op("missing", "x", None)];
    let err = match edit("hello\n", &ops) {
        Ok(_) => panic!("the second edit should fail"),
        Err(e) => e,
    };
    assert!(matches!(
        err,
        WorkspaceError::Edit(EditFailure::StringNotFound { edit_index: 2, .. })
    ));
}

#[test]
fn missing_file_is_reported_as_not_found() {
    let err = match perform_edit_operations(PATH, &[op("a", "b", None)], Err(FileReadError::NotFound)) {
        Ok(_) => panic!("a missing file should fail"),
        Err(e) => e,
    };
    assert!(matches!(
        err,
        WorkspaceError::Edit(EditFailure::FileNotFound { ref file_path }) if file_path == PATH
    ));
}

#[test]
fn no_edits_leave_the_content_unchanged() {
    let (updated, changes) = edit("same\n", &[]).ok().unwrap();
    assert_eq!(updated, "same\n");
    assert_eq!(changes, 0);
}

#[test]
fn replacing_a_string_by_itself_changes_nothing() {
    let (updated, changes) =
        edit("ab ab ab", &[op("ab", "ab", Some(EditMatchSelection::All))]).ok().unwrap();
    assert_eq!(updated, "ab ab ab");
    assert_eq!(changes, 3);
}

#[test]
fn many_matches_show_five_previews_and_count_the_rest() {
    let content = "x\n".repeat(7);
    let err = match edit(&content, &[op("x", "y", None)]) {
        Ok(_) => panic!("non-unique string should fail"),
        Err(e) => e,
    };
    match err {
        WorkspaceError::Edit(EditFailure::NonUniqueMatch {
            occurrences,
            match_previews,
            omitted_matches,
            ..
        }) => {
            assert_eq!(occurrences, 7);
            assert_eq!(match_previews.len(), 5);
            assert_eq!(omitted_matches, 2);
            assert_eq!(match_previews[4].line_number, 5);
        }
        _ => panic!("expected a non-unique match"),
    }
}

#[test]
fn match_locations_do_not_overlap() {
    let locs = find_match_locations(&chars("aaaa"), &chars("aa"));
    let starts: Vec<usize> = locs.iter().map(|l| l.start).collect();
    assert_eq!(starts, vec![0, 2]);
    assert!(find_match_locations(&chars("abc"), &chars("x")).is_empty());
}

#[test]
fn line_helpers_find_bounds_and_numbers() {
    let text = chars("one\ntwo\nthree");
    assert_eq!(line_bounds_for_index(&text, 5), (4, 7));
    assert_eq!(line_bounds_for_index(&text, 0), (0, 3));
    assert_eq!(line_bounds_for_index(&text, 13), (8, 13));
    assert_eq!(line_number_for_index(&text, 0), 1);
    assert_eq!(line_number_for_index(&text, 9), 3);
}

#[test]
fn preview_snippets_are_cut_with_an_ellipsis() {
    assert_eq!(truncate_preview_snippet(&chars("short"), 10), "short");
    assert_eq!(truncate_preview_snippet(&chars("abcdefghij"), 4), "a...");
}

#[test]
fn selected_replacements_take_any_order_and_skip_missing_indices() {
    let content = chars("ab ab ab");
    let locs = find_match_locations(&content, &chars("ab"));
    let out = apply_selected_replacements(&content, &locs, &[2, 0, 9], &chars("X"));
    assert_eq!(out.iter().collect::<String>(), "X ab X");
    let same = apply_selected_replacements(&content, &locs, &[0, 2], &chars("X"));
    assert_eq!(out, same);
    let none = apply_selected_replacements(&content, &locs, &[], &chars("X"));
    assert_eq!(none, content);
    let all = apply_selected_replacements(&content, &locs, &[0, 1, 2], &chars("cd"));
    assert_eq!(all.iter().collect::<String>(), "cd cd cd");
}

#[test]
fn edit_results_report_changes_and_new_content() {
    let changed = steer::edit::edit_result("f.txt".to_string(), 2, "new".to_string());
    assert_eq!(changed.changes_made, 2);
    assert_eq!(changed.new_content.as_deref(), Some("new"));
    assert!(!changed.file_created);
    let unchanged = steer::edit::edit_result("f.txt".to_string(), 0, "same".to_string());
    assert_eq!(unchanged.changes_made, 0);
    assert_eq!(unchanged.new_content, None);
    let written = steer::edit::write_result("g.txt".to_string(), "x".to_string(), false);
    assert!(written.file_created);
    assert_eq!(written.changes_made, 1);
    assert_eq!(written.file_path, "g.txt");
}
