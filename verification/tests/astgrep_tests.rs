use steer::astgrep::{assemble_ast_result, detect_language, search_ast_content, LanguageId};
use steer::search::SearchMatch;

fn rust() -> LanguageId {
    detect_language(Some("rust"), "anything").expect("rust is a known language")
}

fn hit(path: &str, line: usize) -> SearchMatch {
    SearchMatch {
        file_path: path.to_string(),
        line_number: line,
        line_content: String::new(),
        column_range: None,
    }
}

#[test]
fn language_named_explicitly_ignores_case_and_extension() {
    assert!(detect_language(Some("rs"), "notes.txt").is_some());
    assert!(detect_language(Some("RUST"), "notes.txt").is_some());
    assert!(detect_language(Some("TypeScript"), "a.rs").is_some());
    assert!(detect_language(Some("klingon"), "main.rs").is_none());
}

#[test]
fn language_detected_from_extension() {
    assert!(detect_language(None, "src/main.rs").is_some());
    assert!(detect_language(None, "web/app.jsx").is_some());
    assert!(detect_language(None, "web/app.mjs").is_some());
    assert!(detect_language(None, "notes.txt").is_none());
    assert!(detect_language(None, "Makefile").is_none());
}

#[test]
fn ast_match_reports_line_column_and_trimmed_context() {
    let content = "fn main() {\n    let x = 1;\n}\n";
    let matches = search_ast_content(content, "let $A = 1;", &rust(), "src/main.rs").unwrap();
    assert_eq!(matches.len(), 1);
    assert_eq!(matches[0].file_path, "src/main.rs");
    assert_eq!(matches[0].line_number, 2);
    assert_eq!(matches[0].line_content, "let x = 1;");
    assert_eq!(matches[0].column_range, Some((5, 15)));
}

#[test]
fn ast_match_column_counts_characters_and_range_counts_bytes() {
    let content = "fn f() {\n    let s = \"éé\"; let t = 2;\n}\n";
    let matches = search_ast_content(content, "let t = 2;", &rust(), "f.rs").unwrap();
    assert_eq!(matches.len(), 1);
    assert_eq!(matches[0].line_number, 2);
    assert_eq!(matches[0].line_content, "let s = \"éé\"; let t = 2;");
    assert_eq!(matches[0].column_range, Some((19, 29)));
}

#[test]
fn ast_match_spanning_lines_keeps_all_its_lines() {
    let content = "fn main() {\n    let x = 1;\n}\n";
    let matches = search_ast_content(content, "fn $F() { $$$B }", &rust(), "m.rs").unwrap();
    assert_eq!(matches.len(), 1);
    assert_eq!(matches[0].line_number, 1);
    assert_eq!(matches[0].line_content, "fn main() {\n    let x = 1;\n}");
    assert_eq!(matches[0].column_range, Some((1, 1 + 28)));
}

#[test]
fn ast_matches_come_in_source_order() {
    let content = "fn a() { let x = 1; }\nfn b() { let y = 1; }\n";
    let matches = search_ast_content(content, "let $V = 1;", &rust(), "ab.rs").unwrap();
    assert_eq!(matches.len(), 2);
    assert_eq!(matches[0].line_number, 1);
    assert_eq!(matches[1].line_number, 2);
    assert_eq!(matches[1].column_range, Some((10, 20)));
}

#[test]
fn ast_search_without_matches_is_empty() {
    let content = "fn main() {}\n";
    let matches = search_ast_content(content, "let $A = 1;", &rust(), "m.rs").unwrap();
    assert!(matches.is_empty());
}

#[test]
fn ast_search_rejects_an_empty_pattern() {
    let err = match search_ast_content("fn main() {}\n", "", &rust(), "m.rs") {
        Ok(_) => panic!("an empty pattern should not compile"),
        Err(e) => e,
    };
    assert!(err.starts_with("Invalid pattern: "));
    assert!(err.len() > "Invalid pattern: ".len());
}

#[test]
fn completed_ast_result_is_ordered_by_path_then_line() {
    let found = vec![hit("b.rs", 3), hit("a.rs", 9), hit("b.rs", 1), hit("a.rs", 2)];
    let result = assemble_ast_result(found, 2, true);
    let order: Vec<(String, usize)> =
        result.matches.iter().map(|m| (m.file_path.clone(), m.line_number)).collect();
    assert_eq!(
        order,
        vec![
            ("a.rs".to_string(), 2),
            ("a.rs".to_string(), 9),
            ("b.rs".to_string(), 1),
            ("b.rs".to_string(), 3)
        ]
    );
    assert_eq!(result.total_files_searched, 2);
    assert!(result.search_completed);
}

#[test]
fn cancelled_ast_result_keeps_the_order_found() {
    let found = vec![hit("b.rs", 3), hit("a.rs", 9)];
    let result = assemble_ast_result(found, 1, false);
    assert_eq!(result.matches[0].file_path, "b.rs");
    assert_eq!(result.matches[1].file_path, "a.rs");
    assert!(!result.search_completed);
}

#[test]
fn detected_language_is_named_canonically() {
    assert_eq!(detect_language(Some("rs"), "x").unwrap().name(), "Rust");
    assert_eq!(detect_language(Some("TS"), "x").unwrap().name(), "TypeScript");
    assert_eq!(detect_language(None, "a/b.py").unwrap().name(), "Python");
    assert_eq!(detect_language(None, "web/app.mjs").unwrap().name(), "JavaScript");
    assert_eq!(detect_language(None, "main.go").unwrap().name(), "Go");
}
