use fff_tui::app::App;
use fff_tui::assemble::{assemble_search_output, FuzzyFile, GrepFile, GrepHit};
use fff_tui::highlight::{find_match_indices, indices_to_ranges};
use fff_tui::picker::{MatchKind, SearchMode, SearchScope, UnifiedResult};

fn file_result(path: &str) -> UnifiedResult {
    UnifiedResult {
        kind: MatchKind::File,
        relative_path: path.into(),
        absolute_path: format!("/dev/null/{path}"),
        ..Default::default()
    }
}

#[test]
fn backspace_undoes_insert_on_values() {
    let mut app = App::new();
    app.query = "h\u{e9}llo".into();
    app.cursor_position = 3;
    app.insert_char('\u{1f600}');
    assert_eq!(app.query, "h\u{e9}\u{1f600}llo");
    assert_eq!(app.cursor_position, 7);
    app.backspace();
    assert_eq!(app.query, "h\u{e9}llo");
    assert_eq!(app.cursor_position, 3);
}

#[test]
fn left_and_right_undo_each_other_on_values() {
    let mut app = App::new();
    app.query = "a\u{e9}b".into();
    app.cursor_position = 1;
    app.move_cursor_right();
    assert_eq!(app.cursor_position, 3);
    app.move_cursor_left();
    assert_eq!(app.cursor_position, 1);
}

#[test]
fn delete_forward_and_kill_on_values() {
    let mut app = App::new();
    app.query = "abcdef".into();
    app.cursor_position = 2;
    app.delete_forward();
    assert_eq!(app.query, "abdef");
    app.kill_to_end();
    assert_eq!(app.query, "ab");
    assert_eq!(app.cursor_position, 2);
    app.cursor_to_start();
    assert_eq!(app.cursor_position, 0);
    app.cursor_to_end();
    assert_eq!(app.cursor_position, 2);
    app.clear_query();
    assert_eq!(app.query, "");
    assert_eq!(app.cursor_position, 0);
}

#[test]
fn grep_mode_cycle_returns_after_three_steps() {
    let mut app = App::new();
    let start = app.search_mode;
    app.cycle_grep_mode();
    assert!(app.search_mode.regex && !app.search_mode.fuzzy);
    app.cycle_grep_mode();
    assert!(!app.search_mode.regex && app.search_mode.fuzzy);
    app.cycle_grep_mode();
    assert_eq!(app.search_mode.regex, start.regex);
    assert_eq!(app.search_mode.fuzzy, start.fuzzy);
}

#[test]
fn scope_cycle_returns_after_three_steps() {
    let mut app = App::new();
    assert_eq!(app.search_scope, SearchScope::Unified);
    app.cycle_scope();
    assert_eq!(app.search_scope, SearchScope::GrepOnly);
    app.cycle_scope();
    assert_eq!(app.search_scope, SearchScope::FileOnly);
    app.cycle_scope();
    assert_eq!(app.search_scope, SearchScope::Unified);
}

#[test]
fn regex_and_fixed_strings_exclude_each_other() {
    let mut app = App::new();
    app.toggle_regex();
    assert!(app.search_mode.regex);
    app.toggle_fixed_strings();
    assert!(app.search_mode.fixed_strings && !app.search_mode.regex);
    app.toggle_regex();
    assert!(app.search_mode.regex && !app.search_mode.fixed_strings);
}

#[test]
fn moving_keeps_the_selection_visible() {
    let mut app = App::new();
    app.terminal_height = 10;
    app.results = (0..30).map(|i| file_result(&format!("f{i}.rs"))).collect();
    let visible = app.results_visible_count();
    for _ in 0..20 {
        app.move_selection(1);
        assert!(app.scroll_offset <= app.selected);
        assert!(app.selected < app.scroll_offset + visible);
    }
    app.move_selection(-15);
    assert!(app.scroll_offset <= app.selected);
    assert!(app.selected < app.scroll_offset + visible);
}

#[test]
fn ensure_visible_twice_is_ensure_visible_once() {
    let mut app = App::new();
    app.terminal_height = 10;
    app.results = (0..30).map(|i| file_result(&format!("f{i}.rs"))).collect();
    app.selected = 25;
    app.ensure_visible();
    let once = (app.selected, app.scroll_offset);
    app.ensure_visible();
    assert_eq!((app.selected, app.scroll_offset), once);
    assert_eq!(once, (25, 22));
}

#[test]
fn toggling_twice_restores_the_multi_selection() {
    let mut app = App::new();
    app.results = vec![file_result("a.rs"), file_result("b.rs")];
    app.selected = 1;
    app.toggle_selection();
    assert_eq!(app.selected_items.len(), 1);
    app.toggle_selection();
    assert!(app.selected_items.is_empty());
}

#[test]
fn select_all_adds_each_result_once() {
    let mut app = App::new();
    app.results = vec![file_result("a.rs"), file_result("b.rs")];
    app.toggle_selection();
    app.select_all_visible();
    assert_eq!(app.selected_items.len(), 2);
    app.select_all_visible();
    assert_eq!(app.selected_items.len(), 2);
    app.deselect_all();
    assert!(app.selected_items.is_empty());
}

#[test]
fn equal_scores_keep_their_order() {
    let fz: Vec<FuzzyFile> = ["p", "q", "r", "s"]
        .iter()
        .zip([3, 9, 3, 9])
        .map(|(p, s)| FuzzyFile {
            relative_path: p.to_string(),
            absolute_path: format!("/dev/null/{p}"),
            score: s,
            exact_match: false,
            git_status: None,
        })
        .collect();
    let out = assemble_search_output("".into(), fz, 4, vec![], vec![], SearchScope::Unified, SearchMode::default());
    let order: Vec<&str> = out.results.iter().map(|r| r.relative_path.as_str()).collect();
    assert_eq!(order, vec!["q", "s", "p", "r"]);
}

#[test]
fn grouping_only_adds_headers_on_values() {
    let files = vec![
        GrepFile { relative_path: "a.rs".into(), absolute_path: "/a.rs".into(), git_status: None },
        GrepFile { relative_path: "b.rs".into(), absolute_path: "/b.rs".into(), git_status: None },
    ];
    let hit = |f: usize, l: u64| GrepHit {
        file_index: f,
        line_number: l,
        line_content: "x".into(),
        match_byte_offsets: vec![(0, 1)],
        is_definition: false,
    };
    let hits = vec![hit(0, 1), hit(1, 2), hit(0, 3)];
    let mut mode = SearchMode::default();
    mode.group_grep = true;
    let out = assemble_search_output("x".into(), vec![], 0, files, hits, SearchScope::GrepOnly, mode);
    let lines: Vec<u64> = out
        .results
        .iter()
        .filter(|r| r.kind != MatchKind::FileHeader)
        .map(|r| r.line_number.unwrap())
        .collect();
    assert_eq!(lines, vec![1, 2, 3]);
    assert_eq!(out.results.len(), 6);
    for (i, r) in out.results.iter().enumerate() {
        if r.kind == MatchKind::FileHeader {
            assert_eq!(out.results[i + 1].relative_path, r.relative_path);
            assert_eq!(out.results[i + 1].kind, MatchKind::Line);
        }
    }
}

#[test]
fn greedy_match_finds_characters_in_order() {
    let text = "src/components/Button.tsx";
    let idx = find_match_indices("cbt", text);
    assert_eq!(idx, vec![2, 15, 17]);
    assert!(idx.windows(2).all(|w| w[0] < w[1]));
    assert_eq!(find_match_indices("xyz", text), Vec::<usize>::new());
    assert_eq!(find_match_indices("", text), Vec::<usize>::new());
}

#[test]
fn merged_ranges_are_apart() {
    let text = "alphabetical";
    let idx = find_match_indices("alpha", text);
    assert_eq!(idx, vec![0, 1, 2, 3, 4]);
    assert_eq!(indices_to_ranges(&idx, text), vec![(0, 5)]);
    let text2 = "h\u{e9}llo w\u{f6}rld";
    let idx2 = find_match_indices("\u{e9}l\u{f6}", text2);
    assert_eq!(idx2, vec![1, 3, 8]);
    let rs = indices_to_ranges(&idx2, text2);
    assert_eq!(rs, vec![(1, 4), (8, 10)]);
    assert!(rs.windows(2).all(|w| w[0].1 < w[1].0));
}

#[test]
fn toggling_a_marked_row_twice_restores_its_keys() {
    let mut app = App::new();
    app.results = vec![file_result("a.rs"), file_result("b.rs")];
    app.selected_items = vec![file_result("a.rs"), file_result("b.rs")];
    app.selected = 0;
    app.toggle_selection();
    let keys: Vec<&str> = app.selected_items.iter().map(|r| r.relative_path.as_str()).collect();
    assert_eq!(keys, vec!["b.rs"]);
    app.toggle_selection();
    let keys: Vec<&str> = app.selected_items.iter().map(|r| r.relative_path.as_str()).collect();
    assert_eq!(keys, vec!["b.rs", "a.rs"]);
}
