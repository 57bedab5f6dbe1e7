use fff_tui::app::{visible_rows, App, HistoryStep, Key, KeyInput, KeyMods, KeyOutcome};
use fff_tui::cli::{initial_query, output_lines, parse_scope};
use fff_tui::picker::{MatchKind, SearchOutput, SearchScope, UnifiedResult};

const NONE: KeyMods = KeyMods { control: false, alt: false, super_key: false, shift: false };
const CTRL: KeyMods = KeyMods { control: true, alt: false, super_key: false, shift: false };
const ALT: KeyMods = KeyMods { control: false, alt: true, super_key: false, shift: false };
const SUPER: KeyMods = KeyMods { control: false, alt: false, super_key: true, shift: false };

fn press(app: &mut App, code: Key, modifiers: KeyMods) -> KeyOutcome {
    app.handle_key(KeyInput { code, modifiers })
}

fn file_result(path: &str) -> UnifiedResult {
    UnifiedResult {
        kind: MatchKind::File,
        relative_path: path.into(),
        absolute_path: format!("/r/{path}"),
        ..Default::default()
    }
}

#[test]
fn typing_inserts_and_asks_for_a_search() {
    let mut app = App::new();
    assert_eq!(press(&mut app, Key::Char('a'), NONE), KeyOutcome::Refresh);
    assert_eq!(press(&mut app, Key::Char('\u{e9}'), NONE), KeyOutcome::Refresh);
    assert_eq!(app.query, "a\u{e9}");
    assert_eq!(app.cursor_position, 3);
    assert_eq!(press(&mut app, Key::Left, NONE), KeyOutcome::Idle);
    assert_eq!(app.cursor_position, 1);
    assert_eq!(press(&mut app, Key::Backspace, NONE), KeyOutcome::Refresh);
    assert_eq!(app.query, "\u{e9}");
    assert_eq!(app.cursor_position, 0);
    assert_eq!(press(&mut app, Key::Backspace, NONE), KeyOutcome::Idle);
}

#[test]
fn control_keys_edit_the_query() {
    let mut app = App::new();
    app.set_initial_query("foo bar".into());
    assert_eq!(press(&mut app, Key::Char('w'), CTRL), KeyOutcome::Refresh);
    assert_eq!(app.query, "foo ");
    assert_eq!(press(&mut app, Key::Char('a'), CTRL), KeyOutcome::Idle);
    assert_eq!(app.cursor_position, 0);
    assert_eq!(press(&mut app, Key::Char('d'), CTRL), KeyOutcome::Refresh);
    assert_eq!(app.query, "oo ");
    assert_eq!(press(&mut app, Key::Char('k'), CTRL), KeyOutcome::Refresh);
    assert_eq!(app.query, "");
    assert_eq!(press(&mut app, Key::Char('k'), CTRL), KeyOutcome::Idle);
    app.set_initial_query("xyz".into());
    assert_eq!(press(&mut app, Key::Char('u'), CTRL), KeyOutcome::Refresh);
    assert_eq!(app.query, "");
    assert_eq!(press(&mut app, Key::Char('c'), CTRL), KeyOutcome::Idle);
    assert!(app.should_quit);
}

#[test]
fn alt_keys_toggle_modes() {
    let mut app = App::new();
    assert_eq!(press(&mut app, Key::Char('C'), ALT), KeyOutcome::Refresh);
    assert!(app.search_mode.case_sensitive);
    assert_eq!(press(&mut app, Key::Char('r'), ALT), KeyOutcome::Refresh);
    assert!(app.search_mode.regex);
    assert_eq!(press(&mut app, Key::Char('f'), ALT), KeyOutcome::Refresh);
    assert!(app.search_mode.fixed_strings && !app.search_mode.regex);
    assert_eq!(press(&mut app, Key::Char('g'), CTRL), KeyOutcome::Refresh);
    assert!(app.search_mode.group_grep);
    assert_eq!(press(&mut app, Key::Char('t'), CTRL), KeyOutcome::Refresh);
    assert_eq!(app.search_scope, SearchScope::GrepOnly);
    assert_eq!(press(&mut app, Key::BackTab, NONE), KeyOutcome::Refresh);
    assert!(app.search_mode.regex);
}

#[test]
fn navigation_and_selection_keys() {
    let mut app = App::new();
    app.terminal_height = 20;
    app.results = (0..5).map(|i| file_result(&format!("f{i}"))).collect();
    assert_eq!(press(&mut app, Key::Down, NONE), KeyOutcome::Idle);
    assert_eq!(app.selected, 1);
    assert_eq!(press(&mut app, Key::End, CTRL), KeyOutcome::Idle);
    assert_eq!(app.selected, 4);
    assert_eq!(press(&mut app, Key::Home, CTRL), KeyOutcome::Idle);
    assert_eq!(app.selected, 0);
    assert_eq!(press(&mut app, Key::Tab, NONE), KeyOutcome::Idle);
    assert_eq!(app.selected_items.len(), 1);
    assert_eq!(press(&mut app, Key::Enter, NONE), KeyOutcome::Idle);
    assert!(app.should_select);
    let picked = app.final_selection().unwrap();
    assert_eq!(picked.len(), 1);
    assert_eq!(picked[0].relative_path, "f0");
}

#[test]
fn enter_without_results_does_nothing() {
    let mut app = App::new();
    assert_eq!(press(&mut app, Key::Enter, NONE), KeyOutcome::Idle);
    assert!(!app.should_select);
    assert!(app.final_selection().is_none());
}

#[test]
fn escape_quits_without_a_pick() {
    let mut app = App::new();
    app.results = vec![file_result("a")];
    assert_eq!(press(&mut app, Key::Esc, NONE), KeyOutcome::Idle);
    assert!(app.should_quit);
    assert!(app.final_selection().is_none());
}

#[test]
fn super_backspace_clears_the_query() {
    let mut app = App::new();
    app.set_initial_query("hello".into());
    assert_eq!(press(&mut app, Key::Backspace, SUPER), KeyOutcome::Refresh);
    assert_eq!(app.query, "");
    app.set_initial_query("hello".into());
    assert_eq!(press(&mut app, Key::Left, SUPER), KeyOutcome::Idle);
    assert_eq!(app.cursor_position, 0);
    assert_eq!(press(&mut app, Key::Right, SUPER), KeyOutcome::Idle);
    assert_eq!(app.cursor_position, 5);
}

#[test]
fn history_steps_ask_for_lookups() {
    let mut app = App::new();
    assert_eq!(
        press(&mut app, Key::Up, ALT),
        KeyOutcome::HistoryLookup { offset: 1, grep: false }
    );
    assert!(app.finish_history_cycle(1, Some("older".into())));
    assert_eq!(app.query, "older");
    assert_eq!(app.cursor_position, 5);
    assert!(app.force_combo_boost);
    assert_eq!(app.query_history_offset, 1);
    assert_eq!(
        press(&mut app, Key::Down, ALT),
        KeyOutcome::HistoryLookup { offset: 0, grep: false }
    );
    assert!(!app.finish_history_cycle(0, None));
    assert_eq!(app.query, "older");
    app.query_history_offset = 0;
    assert_eq!(press(&mut app, Key::Down, ALT), KeyOutcome::Refresh);
    assert_eq!(app.query, "");
    assert!(!app.force_combo_boost);
    app.search_scope = SearchScope::GrepOnly;
    assert_eq!(app.begin_history_cycle(-1), HistoryStep::Lookup { offset: 1, grep: true });
}

#[test]
fn refresh_installs_a_search_output() {
    let mut app = App::new();
    app.selected = 3;
    app.scroll_offset = 2;
    let out = SearchOutput {
        results: vec![file_result("a"), file_result("b")],
        highlight_query: "q".into(),
        fuzzy_total_matched: 7,
        grep_page_matched: 2,
    };
    app.apply_refresh(out, 99);
    assert_eq!(app.selected, 0);
    assert_eq!(app.scroll_offset, 0);
    assert_eq!(app.total_matched, 9);
    assert_eq!(app.total_files, 99);
    assert_eq!(app.highlight_query, "q");
    assert!(!app.needs_refresh(false));
    assert!(app.needs_refresh(true));
}

#[test]
fn background_output_for_an_old_query_is_dropped() {
    let mut app = App::new();
    app.set_initial_query("new".into());
    app.terminal_height = 10;
    let out = SearchOutput {
        results: vec![file_result("a")],
        highlight_query: "old".into(),
        fuzzy_total_matched: 1,
        grep_page_matched: 0,
    };
    app.apply_background_output(&"old".to_string(), out);
    assert!(app.results.is_empty());
    let out = SearchOutput {
        results: vec![file_result("a"), file_result("b")],
        highlight_query: "new".into(),
        fuzzy_total_matched: 2,
        grep_page_matched: 0,
    };
    app.selected = 5;
    app.apply_background_output(&"new".to_string(), out);
    assert_eq!(app.results.len(), 2);
    assert_eq!(app.selected, 1);
    assert_eq!(app.total_matched, 2);
}

#[test]
fn resize_keeps_the_selection_on_screen() {
    let mut app = App::new();
    app.results = (0..50).map(|i| file_result(&format!("f{i}"))).collect();
    app.terminal_height = 40;
    app.selected = 30;
    app.resize(80, 10);
    assert_eq!(app.terminal_width, 80);
    assert_eq!(app.terminal_height, 10);
    assert!(app.scroll_offset <= 30 && 30 < app.scroll_offset + visible_rows(10));
    assert_eq!(visible_rows(10), 4);
    assert_eq!(visible_rows(3), 1);
}

#[test]
fn exit_on_single_needs_one_result_and_a_query() {
    let mut app = App::new();
    app.exit_on_single = true;
    app.results = vec![file_result("a")];
    assert!(!app.exits_on_single());
    app.set_initial_query("a".into());
    assert!(app.exits_on_single());
    app.results.push(file_result("b"));
    assert!(!app.exits_on_single());
}

#[test]
fn spinner_ticks_by_one() {
    let mut app = App::new();
    app.tick_spinner();
    app.tick_spinner();
    assert_eq!(app.spinner_frame, 2);
}

#[test]
fn scope_names() {
    assert_eq!(parse_scope("file"), Some(SearchScope::FileOnly));
    assert_eq!(parse_scope("grep"), Some(SearchScope::GrepOnly));
    assert_eq!(parse_scope("unified"), Some(SearchScope::Unified));
    assert_eq!(parse_scope("files"), None);
}

#[test]
fn initial_query_prefers_the_query() {
    assert_eq!(initial_query(Some("x".into()), &Some("fn y".into())), Some("x".to_string()));
    assert_eq!(initial_query(None, &Some("mod a > fn b".into())), Some("b".to_string()));
    assert_eq!(initial_query(None, &None), None);
}

#[test]
fn output_lines_join_only_several_picks() {
    let mut l = file_result("a.rs");
    l.kind = MatchKind::Line;
    l.line_number = Some(4);
    let rs = vec![file_result("b.rs"), l];
    assert_eq!(output_lines(&rs, true, false, false), vec!["/r/b.rs".to_string(), "/r/a.rs:4".to_string()]);
    assert_eq!(output_lines(&rs, false, true, true), vec!["/r/b.rs /r/a.rs:4:1".to_string()]);
    let one = vec![file_result("b.rs")];
    assert_eq!(output_lines(&one, false, false, true), vec!["/r/b.rs".to_string()]);
}
