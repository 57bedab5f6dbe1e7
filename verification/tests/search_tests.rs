use fff_tui::assemble::{assemble_search_output, highlight_query_for, FuzzyFile, GrepFile, GrepHit};
use fff_tui::picker::{selection_key, MatchKind, SearchMode, SearchOutput, SearchScope, UnifiedResult};

fn fuzzy(path: &str, score: i32, exact: bool) -> FuzzyFile {
    FuzzyFile {
        relative_path: path.into(),
        absolute_path: format!("/p/{path}"),
        score,
        exact_match: exact,
        git_status: None,
    }
}

fn grep_file(path: &str) -> GrepFile {
    GrepFile {
        relative_path: path.into(),
        absolute_path: format!("/p/{path}"),
        git_status: None,
    }
}

fn hit(file_index: usize, line: u64, content: &str, offsets: Vec<(u32, u32)>) -> GrepHit {
    GrepHit {
        file_index,
        line_number: line,
        line_content: content.into(),
        match_byte_offsets: offsets,
        is_definition: false,
    }
}

fn paths(out: &SearchOutput) -> Vec<(MatchKind, String)> {
    out.results.iter().map(|r| (r.kind, r.relative_path.clone())).collect()
}

#[test]
fn highlight_query_keeps_fuzzy_text_only() {
    assert_eq!(highlight_query_for("main"), "main");
    assert_eq!(highlight_query_for("main.rs:12"), "main.rs");
    assert_eq!(highlight_query_for("foo bar"), "foobar");
    assert_eq!(highlight_query_for(""), "");
}

#[test]
fn files_are_ordered_exact_first_then_by_score() {
    let fz = vec![fuzzy("b.rs", 10, false), fuzzy("a.rs", 30, false), fuzzy("x.rs", 5, true), fuzzy("c.rs", 10, false)];
    let out = assemble_search_output("".into(), fz, 4, vec![], vec![], SearchScope::Unified, SearchMode::default());
    assert_eq!(
        paths(&out),
        vec![
            (MatchKind::File, "x.rs".to_string()),
            (MatchKind::File, "a.rs".to_string()),
            (MatchKind::File, "b.rs".to_string()),
            (MatchKind::File, "c.rs".to_string()),
        ]
    );
    assert_eq!(out.fuzzy_total_matched, 4);
    assert_eq!(out.grep_page_matched, 0);
}

#[test]
fn weak_file_matches_are_dropped_beside_content_matches() {
    let fz = vec![fuzzy("weak.rs", 27, false), fuzzy("strong.rs", 28, false), fuzzy("exact.rs", 1, true)];
    let files = vec![grep_file("src/app.rs")];
    let hits = vec![hit(0, 3, "fn main() {}", vec![(3, 7)])];
    let out = assemble_search_output("main".into(), fz, 3, files, hits, SearchScope::Unified, SearchMode::default());
    assert_eq!(
        paths(&out),
        vec![
            (MatchKind::File, "exact.rs".to_string()),
            (MatchKind::Line, "src/app.rs".to_string()),
            (MatchKind::File, "strong.rs".to_string()),
        ]
    );
    let line = &out.results[1];
    assert_eq!(line.line_number, Some(3));
    assert_eq!(line.column, Some(4));
    assert_eq!(line.absolute_path, "/p/src/app.rs");
    assert_eq!(out.fuzzy_total_matched, 3);
    assert_eq!(out.grep_page_matched, 1);
}

#[test]
fn grouped_lines_get_file_headers() {
    let files = vec![grep_file("a.rs"), grep_file("b.rs")];
    let hits = vec![
        hit(0, 1, "x", vec![(0, 1)]),
        hit(0, 2, "x", vec![(0, 1)]),
        hit(1, 5, "x", vec![]),
        hit(7, 9, "lost", vec![(0, 1)]),
    ];
    let mut mode = SearchMode::default();
    mode.group_grep = true;
    let out = assemble_search_output("x".into(), vec![], 0, files, hits, SearchScope::GrepOnly, mode);
    assert_eq!(
        paths(&out),
        vec![
            (MatchKind::FileHeader, "a.rs".to_string()),
            (MatchKind::Line, "a.rs".to_string()),
            (MatchKind::Line, "a.rs".to_string()),
            (MatchKind::FileHeader, "b.rs".to_string()),
            (MatchKind::Line, "b.rs".to_string()),
        ]
    );
    assert_eq!(out.results[4].column, None);
    assert_eq!(out.grep_page_matched, 4);
    assert_eq!(out.fuzzy_total_matched, 0);
}

#[test]
fn file_scope_runs_no_content_search() {
    let files = vec![grep_file("a.rs")];
    let hits = vec![hit(0, 1, "x", vec![(0, 1)])];
    let out = assemble_search_output("x".into(), vec![fuzzy("a.rs", 1, false)], 1, files, hits, SearchScope::FileOnly, SearchMode::default());
    assert_eq!(paths(&out), vec![(MatchKind::File, "a.rs".to_string())]);
    assert_eq!(out.grep_page_matched, 0);
}

#[test]
fn empty_query_runs_no_content_search() {
    let files = vec![grep_file("a.rs")];
    let hits = vec![hit(0, 1, "x", vec![(0, 1)])];
    let out = assemble_search_output("".into(), vec![], 0, files, hits, SearchScope::Unified, SearchMode::default());
    assert!(out.results.is_empty());
    assert_eq!(out.grep_page_matched, 0);
}

#[test]
fn selection_keys_of_files_and_lines() {
    let f = UnifiedResult { absolute_path: "/p/a.rs".into(), ..Default::default() };
    assert_eq!(selection_key(&f), "/p/a.rs");
    let mut l = f.clone();
    l.line_number = Some(12);
    assert_eq!(selection_key(&l), "/p/a.rs:12:1");
    l.column = Some(4);
    assert_eq!(selection_key(&l), "/p/a.rs:12:4");
}

#[test]
fn empty_output_keeps_the_query() {
    let out = SearchOutput::empty("q");
    assert!(out.results.is_empty());
    assert_eq!(out.highlight_query, "q");
    assert_eq!(out.fuzzy_total_matched, 0);
}

#[test]
fn weak_matches_filtered_only_in_unified_scope() {
    // A six-character query keeps file matches scoring at least 42 beside
    // content matches; the fuzzy total still counts every file match.
    let make = || vec![fuzzy("src/git.rs", 35, false), fuzzy("src/structs.rs", 120, false)];
    let files = || vec![grep_file("src/types.rs")];
    let hits = || vec![hit(0, 10, "pub struct Score {", vec![(4, 10)])];
    let unified = assemble_search_output("struct".into(), make(), 12, files(), hits(), SearchScope::Unified, SearchMode::default());
    assert!(unified.grep_page_matched > 0);
    assert_eq!(unified.fuzzy_total_matched, 12);
    assert!(!unified.results.iter().any(|r| r.kind == MatchKind::File && r.relative_path.ends_with("git.rs")));
    let file_only = assemble_search_output("struct".into(), make(), 12, files(), hits(), SearchScope::FileOnly, SearchMode::default());
    assert!(file_only.results.iter().any(|r| r.kind == MatchKind::File && r.relative_path.ends_with("git.rs")));
    assert_eq!(file_only.grep_page_matched, 0);
}

#[test]
fn scopes_decide_the_kinds_of_results() {
    let files = || vec![grep_file("a.rs")];
    let hits = || vec![hit(0, 1, "x", vec![(0, 1)])];
    let mut fz = fuzzy("b.rs", 100, false);
    fz.git_status = Some("modified".into());
    let grep_only = assemble_search_output("x".into(), vec![fuzzy("b.rs", 1, false)], 1, files(), hits(), SearchScope::GrepOnly, SearchMode::default());
    assert!(grep_only.results.iter().all(|r| r.kind != MatchKind::File));
    assert_eq!(grep_only.fuzzy_total_matched, 0);
    let unified = assemble_search_output("x".into(), vec![fz], 1, files(), hits(), SearchScope::Unified, SearchMode::default());
    let file = unified.results.iter().find(|r| r.kind == MatchKind::File).unwrap();
    assert_eq!(file.git_status.as_deref(), Some("modified"));
    assert_eq!(file.line_number, None);
    let line = unified.results.iter().find(|r| r.kind == MatchKind::Line).unwrap();
    assert_eq!(line.score, 0);
    assert_eq!(line.column, Some(1));
}
