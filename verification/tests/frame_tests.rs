use fff_tui::picker::{MatchKind, SearchMode, SearchScope, UnifiedResult};
use fff_tui::screen::{
    counter_text, files_text, input_title, placeholder_text, result_rows, status_labels,
    status_right_text, UiState,
};

fn make_state(is_scanning: bool, files: usize, matches: usize, results: Vec<UnifiedResult>) -> UiState {
    UiState {
        query: String::new(),
        highlight_query: String::new(),
        results,
        selected: 0,
        scroll_offset: 0,
        total_files: files,
        total_matched: matches,
        selected_keys: Vec::new(),
        is_scanning,
        spinner_frame: 0,
        terminal_width: 120,
        preview_enabled: true,
        search_mode: SearchMode::default(),
        search_scope: SearchScope::default(),
        group_grep: false,
        path_shorten_strategy: "middle_number".into(),
    }
}

/// The texts of a frame of an 80x10 terminal, one line each: the input box
/// title and counter, the list title, the result rows (or the
/// placeholder), and the status bar. With the preview pane beside it, the list is 38 columns wide and 4
/// rows high.
fn frame_text(state: &UiState) -> String {
    let mut lines = vec![input_title(state.is_scanning), counter_text(state), " Results ".to_string()];
    if state.results.is_empty() {
        lines.push(placeholder_text(state));
    } else {
        for row in result_rows(state, 4, 38, " ").unwrap() {
            lines.push(row.iter().map(|s| s.text.as_str()).collect());
        }
    }
    let mut status = files_text(state.total_files);
    for label in status_labels(state.search_scope, state.group_grep) {
        status.push_str(&label);
    }
    status.push_str(&status_right_text(state.total_matched, state.search_scope, state.search_mode));
    lines.push(status);
    lines.join("\n") + "\n"
}

fn main_rs() -> UnifiedResult {
    UnifiedResult {
        kind: MatchKind::File,
        relative_path: "src/main.rs".into(),
        absolute_path: "/dev/null/src/main.rs".into(),
        score: 0,
        exact_match: false,
        line_number: None,
        column: None,
        line_content: None,
        match_byte_offsets: None,
        is_definition: None,
        git_status: None,
    }
}

fn cargo_line() -> UnifiedResult {
    UnifiedResult {
        kind: MatchKind::Line,
        relative_path: "Cargo.toml".into(),
        absolute_path: "/dev/null/Cargo.toml".into(),
        score: 0,
        exact_match: false,
        line_number: Some(83),
        column: Some(1),
        line_content: Some(r#"path = "television/main.rs""#.into()),
        match_byte_offsets: Some(vec![(0, 4)]),
        is_definition: Some(false),
        git_status: None,
    }
}

#[test]
fn test_scanning_placeholder() {
    let state = make_state(true, 0, 0, vec![]);
    let text = frame_text(&state);
    assert!(text.contains("scanning…"), "expected 'scanning…' in title:\n{text}");
    assert!(
        text.contains("Scanning files…"),
        "expected 'Scanning files…' placeholder in:\n{text}"
    );
}

#[test]
fn test_selection_pointer_rendered() {
    let state = make_state(false, 10, 1, vec![main_rs()]);
    let text = frame_text(&state);
    assert!(text.contains("> "), "expected selection pointer in:\n{text}");
}

#[test]
fn test_line_result_and_meta_rendered() {
    let state = make_state(false, 10, 1, vec![cargo_line()]);
    let text = frame_text(&state);
    // Non-grouped mode shows filename:line on the right
    assert!(
        text.contains("Cargo.toml:83"),
        "expected right-side meta in non-grouped mode:\n{text}"
    );
}

#[test]
fn test_grouped_line_result_left_gutter() {
    let mut state = make_state(false, 10, 1, vec![cargo_line()]);
    state.group_grep = true;
    let text = frame_text(&state);
    // Grouped mode shows :line:col on the left
    assert!(text.contains(":83:1"), "expected left gutter :line:col in grouped mode:\n{text}");
    // Right-side meta should not appear
    assert!(
        !text.contains("Cargo.toml:83"),
        "expected no right-side meta in grouped mode:\n{text}"
    );
}

#[test]
fn test_file_header_rendered() {
    let results = vec![UnifiedResult {
        kind: MatchKind::FileHeader,
        relative_path: "src/app.rs".into(),
        absolute_path: "/dev/null/src/app.rs".into(),
        ..Default::default()
    }];
    let state = make_state(false, 10, 1, results);
    let text = frame_text(&state);
    assert!(text.contains("app.rs"), "expected file header filename in:\n{text}");
}

#[test]
fn test_grouped_grep_renders_short_meta() {
    let results = vec![
        UnifiedResult {
            kind: MatchKind::FileHeader,
            relative_path: "src/app.rs".into(),
            absolute_path: "/dev/null/src/app.rs".into(),
            git_status: Some("modified".into()),
            ..Default::default()
        },
        UnifiedResult {
            kind: MatchKind::Line,
            relative_path: "src/app.rs".into(),
            absolute_path: "/dev/null/src/app.rs".into(),
            line_number: Some(42),
            column: Some(5),
            line_content: Some("pub struct App {}".into()),
            match_byte_offsets: Some(vec![(4, 7)]),
            is_definition: Some(true),
            git_status: Some("modified".into()),
            ..Default::default()
        },
    ];
    let mut state = make_state(false, 10, 2, results);
    state.group_grep = true;
    let text = frame_text(&state);
    assert!(text.contains("app.rs"), "expected file header in:\n{text}");
    assert!(text.contains(":42:5"), "expected left gutter :line:col in:\n{text}");
    assert!(text.contains("pub struct"), "expected line content in:\n{text}");
    // Old right-side combined meta should not appear
    assert!(!text.contains("app.rs:42"), "expected no right-side combined meta:\n{text}");
    // FileHeader should show git badge, but line should not
    let lines: Vec<&str> = text.lines().collect();
    let header_line = lines
        .iter()
        .find(|l| l.contains("app.rs") && l.contains('M'))
        .expect("header with M");
    let line_row = lines.iter().find(|l| l.contains(":42:5")).expect("line row");
    assert!(header_line.contains('M'), "expected FileHeader to show git badge:\n{text}");
    assert!(!line_row.contains('M'), "expected Line result to NOT show git badge:\n{text}");
}

#[test]
fn test_grouped_indicator_in_status_bar() {
    let mut state = make_state(false, 10, 0, vec![]);
    state.group_grep = true;
    let text = frame_text(&state);
    assert!(text.contains("[grouped]"), "expected [grouped] indicator in status bar:\n{text}");
}

#[test]
fn test_multi_select_marker_rendered() {
    let mut lib = main_rs();
    lib.relative_path = "src/lib.rs".into();
    lib.absolute_path = "/dev/null/src/lib.rs".into();
    let mut state = make_state(false, 10, 2, vec![main_rs(), lib]);
    state.selected_keys.push("/dev/null/src/lib.rs".into());
    let text = frame_text(&state);
    // First row is cursor, should have pointer
    assert!(text.contains("> "), "expected selection pointer in:\n{text}");
    // Second row should have marker but no pointer
    assert!(text.contains("▊"), "expected multi-select marker in:\n{text}");
}

#[test]
fn test_grep_mode_indicator_in_status_bar() {
    let mut state = make_state(false, 10, 0, vec![]);
    state.search_mode.regex = true;
    let text = frame_text(&state);
    assert!(text.contains("regex"), "expected regex mode indicator in status bar:\n{text}");
}

#[test]
fn test_git_badge_rendered() {
    let mut r = main_rs();
    r.git_status = Some("modified".into());
    let state = make_state(false, 10, 1, vec![r]);
    let text = frame_text(&state);
    assert!(text.contains('M'), "expected git modified badge 'M' in:\n{text}");
}

#[test]
fn test_ready_with_results() {
    let state = make_state(false, 42, 1, vec![main_rs()]);
    let text = frame_text(&state);
    assert!(text.contains("Results"), "expected results title in:\n{text}");
    assert!(text.contains("main.rs"), "expected result row in:\n{text}");
}

#[test]
fn test_preview_pane_hidden_for_narrow_terminal() {
    let results = vec![UnifiedResult {
        kind: MatchKind::Line,
        relative_path: "src/main.rs".into(),
        absolute_path: "/dev/null/src/main.rs".into(),
        score: 0,
        exact_match: false,
        line_number: Some(10),
        column: Some(1),
        line_content: Some("fn main() {}".into()),
        match_byte_offsets: None,
        is_definition: Some(true),
        git_status: None,
    }];
    let mut state = make_state(false, 10, 1, results);
    state.terminal_width = 60;
    // Preview should be hidden; result list spans full width
    assert!(!state.shows_preview());
    let text = frame_text(&state);
    assert!(text.contains("Results"), "expected Results title in:\n{text}");
}
