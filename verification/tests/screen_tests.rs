use fff_tui::app::App;
use fff_tui::picker::{MatchKind, SearchMode, SearchScope, UnifiedResult};
use fff_tui::screen::{
    frame_text, idle_frames, preview_lines, preview_title, counter_text, counter_width, files_text, gutter_text, gutter_width, input_title,
    placeholder_text, preview_window, result_rows, status_labels, status_right_text,
    visible_window, window_lines, UiState,
};

fn file_result(path: &str) -> UnifiedResult {
    UnifiedResult {
        kind: MatchKind::File,
        relative_path: path.into(),
        absolute_path: format!("/dev/null/{path}"),
        ..Default::default()
    }
}

fn make_state(is_scanning: bool, files: usize, matches: usize, results: Vec<UnifiedResult>) -> UiState {
    UiState {
        query: String::new(),
        highlight_query: String::new(),
        results,
        selected: 0,
        scroll_offset: 0,
        total_files: files,
        total_matched: matches,
        selected_keys: Vec::new(),
        is_scanning,
        spinner_frame: 0,
        terminal_width: 120,
        preview_enabled: true,
        search_mode: SearchMode::default(),
        search_scope: SearchScope::default(),
        group_grep: false,
        path_shorten_strategy: "middle_number".into(),
    }
}

#[test]
fn scanning_title_and_placeholder() {
    let state = make_state(true, 0, 0, vec![]);
    assert_eq!(input_title(true), " fff \u{2022} scanning\u{2026} ");
    assert_eq!(input_title(false), " fff ");
    assert_eq!(placeholder_text(&state), "Scanning files\u{2026}");
}

#[test]
fn placeholder_without_results() {
    let mut state = make_state(false, 0, 0, vec![]);
    assert_eq!(placeholder_text(&state), "No files found");
    state.query = "zzz".into();
    assert_eq!(placeholder_text(&state), "No matches found");
}

#[test]
fn counter_texts_and_width() {
    let mut state = make_state(false, 3, 3, vec![file_result("a"), file_result("b"), file_result("c")]);
    state.selected = 1;
    assert_eq!(counter_text(&state), " 2 / 3 ");
    let empty = make_state(false, 0, 0, vec![]);
    assert_eq!(counter_text(&empty), " 0 / 0 ");
    assert_eq!(counter_width(0), 6);
    assert_eq!(counter_width(9), 6);
    assert_eq!(counter_width(123), 12);
}

#[test]
fn preview_needs_width_and_selection() {
    let mut state = make_state(false, 1, 1, vec![file_result("src/main.rs")]);
    assert!(state.shows_preview());
    state.terminal_width = 60;
    assert!(!state.shows_preview());
    state.terminal_width = 70;
    assert!(state.shows_preview());
    state.selected = 1;
    assert!(!state.shows_preview());
    state.selected = 0;
    state.preview_enabled = false;
    assert!(!state.shows_preview());
}

#[test]
fn window_clamps_scroll_and_selection() {
    assert_eq!(visible_window(10, 8, 9, 5), (5, 10, 9));
    assert_eq!(visible_window(3, 0, 7, 5), (0, 3, 2));
    assert_eq!(visible_window(10, 2, 4, 5), (2, 7, 4));
    assert_eq!(visible_window(0, 4, 4, 5), (0, 0, 0));
}

#[test]
fn rows_mark_pointer_and_selection() {
    let mut state = make_state(false, 10, 2, vec![file_result("src/main.rs"), file_result("src/lib.rs")]);
    state.selected_keys.push("/dev/null/src/lib.rs".into());
    let rows = result_rows(&state, 8, 40, " ").unwrap();
    assert_eq!(rows.len(), 2);
    assert_eq!(rows[0][0].text, ">");
    assert_eq!(rows[0][1].text, " ");
    assert_eq!(rows[1][0].text, " ");
    assert_eq!(rows[1][1].text, "\u{258a}");
}

#[test]
fn rows_follow_the_scroll_window() {
    let results: Vec<UnifiedResult> = (0..6).map(|i| file_result(&format!("f{i}.rs"))).collect();
    let mut state = make_state(false, 6, 6, results);
    state.scroll_offset = 4;
    state.selected = 5;
    let rows = result_rows(&state, 3, 30, " ").unwrap();
    assert_eq!(rows.len(), 3);
    assert_eq!(rows[0][4].text, "f3.rs");
    assert_eq!(rows[2][4].text, "f5.rs");
    assert_eq!(rows[2][0].text, ">");
    assert_eq!(rows[0][0].text, " ");
}

#[test]
fn from_app_copies_the_picker_state() {
    let mut app = App::new();
    app.query = "main".into();
    app.results = vec![file_result("src/main.rs")];
    app.selected_items = vec![file_result("src/main.rs")];
    app.search_mode.group_grep = true;
    let state = UiState::from_app(&app, true);
    assert_eq!(state.query, "main");
    assert_eq!(state.results.len(), 1);
    assert_eq!(state.selected_keys, vec!["/dev/null/src/main.rs".to_string()]);
    assert!(state.is_scanning);
    assert!(state.group_grep);
}

#[test]
fn preview_window_centres_the_line() {
    let mut r = file_result("a.rs");
    assert_eq!(preview_window(&r, 20), (1, None, 20));
    r.kind = MatchKind::Line;
    r.line_number = Some(50);
    assert_eq!(preview_window(&r, 21), (40, Some(50), 21));
    r.line_number = Some(3);
    assert_eq!(preview_window(&r, 21), (1, Some(3), 21));
    r.line_number = None;
    assert_eq!(preview_window(&r, 0), (1, Some(1), 0));
}

#[test]
fn window_lines_numbers_from_one() {
    let lines: Vec<String> = vec!["a".into(), "b".into(), "c".into(), "d".into()];
    assert_eq!(window_lines(&lines, 2, 2), vec![(2, "b".to_string()), (3, "c".to_string())]);
    assert_eq!(window_lines(&lines, 4, 5), vec![(4, "d".to_string())]);
    assert_eq!(window_lines(&lines, 1, 0), vec![]);
}

#[test]
fn gutter_is_at_least_four_wide() {
    assert_eq!(gutter_width(&vec![]), 4);
    assert_eq!(gutter_width(&vec![(9, String::new()), (10, String::new())]), 4);
    assert_eq!(gutter_width(&vec![(1234, String::new())]), 5);
    assert_eq!(gutter_text(7, 4), "  7 ");
    assert_eq!(gutter_text(12345, 4), "12345 ");
}

#[test]
fn status_bar_texts() {
    assert_eq!(files_text(42), "  42 files");
    assert_eq!(status_labels(SearchScope::Unified, true), vec!["  [grouped]".to_string()]);
    assert_eq!(status_labels(SearchScope::FileOnly, false), vec!["  [files]".to_string()]);
    assert_eq!(
        status_labels(SearchScope::GrepOnly, true),
        vec!["  [grep]".to_string(), "  [grouped]".to_string()]
    );
    let mut mode = SearchMode::default();
    mode.regex = true;
    assert_eq!(status_right_text(0, SearchScope::Unified, mode), "0 matches regex  v0.1.0 ");
    mode.regex = false;
    mode.fuzzy = true;
    assert_eq!(status_right_text(7, SearchScope::GrepOnly, mode), "7 matches fuzzy  v0.1.0 ");
    assert_eq!(status_right_text(7, SearchScope::FileOnly, mode), "7 matches  v0.1.0 ");
    assert_eq!(
        status_right_text(12, SearchScope::Unified, SearchMode::default()),
        "12 matches plain  v0.1.0 "
    );
}

#[test]
fn frame_text_joins_rows() {
    let rows: Vec<Vec<String>> = vec![
        vec!["a".into(), "".into(), "\u{65e5}".into()],
        vec!["".into(), "b".into(), "c".into()],
    ];
    assert_eq!(frame_text(&rows), "a \u{65e5}\n bc\n");
    assert_eq!(frame_text(&vec![]), "\n");
    assert_eq!(frame_text(&vec![vec![]]), "\n");
}

#[test]
fn preview_rows_cut_and_mark_lines() {
    let lines = vec![(9, "short".to_string()), (10, "a rather long line".to_string()), (11, "z".to_string())];
    let rows = preview_lines(&lines, Some(10), 12, 2);
    assert_eq!(rows.len(), 2);
    assert_eq!(rows[0].gutter, "  9 ");
    assert_eq!(rows[0].text, "short");
    assert!(!rows[0].marked);
    assert_eq!(rows[1].gutter, " 10 ");
    assert_eq!(rows[1].text, "a rather");
    assert!(rows[1].marked);
    assert_eq!(preview_lines(&lines, None, 2, 5).len(), 3);
    assert_eq!(preview_lines(&lines, None, 2, 5)[0].text, "");
    assert_eq!(preview_title(&file_result("src/a.rs")), " src/a.rs ");
}

#[test]
fn idle_frames_fill_the_budget_up_to_ten() {
    assert_eq!(idle_frames(30, 0), 10);
    assert_eq!(idle_frames(30, 25), 5);
    assert_eq!(idle_frames(30, 40), 0);
}
