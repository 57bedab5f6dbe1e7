use fff_tui::app::App;
use fff_tui::picker::{MatchKind, UnifiedResult};

fn make_file_result(path: &str) -> UnifiedResult {
    UnifiedResult {
        kind: MatchKind::File,
        relative_path: path.into(),
        absolute_path: path.into(),
        ..Default::default()
    }
}

#[test]
fn test_move_selection_raw_within_page() {
    let mut app = App::new();
    app.results = vec![
        make_file_result("a.rs"),
        make_file_result("b.rs"),
        make_file_result("c.rs"),
    ];
    app.selected = 1;
    app.move_selection_raw(1);
    assert_eq!(app.selected, 2);

    app.move_selection_raw(-1);
    assert_eq!(app.selected, 1);
}

#[test]
fn test_delete_word_backward_basic() {
    let mut app = App::new();
    app.query = "hello world".into();
    app.cursor_position = app.query.len();
    app.delete_word_backward();
    assert_eq!(app.query, "hello ");

    app.delete_word_backward();
    assert_eq!(app.query, "");
}

#[test]
fn test_delete_word_backward_trailing_space() {
    let mut app = App::new();
    app.query = "foo bar  ".into();
    app.cursor_position = app.query.len();
    app.delete_word_backward();
    assert_eq!(app.query, "foo ");
}

#[test]
fn test_delete_word_backward_empty() {
    let mut app = App::new();
    app.query = "".into();
    app.cursor_position = 0;
    app.delete_word_backward();
    assert_eq!(app.query, "");
}

#[test]
fn test_move_cursor_left_right() {
    let mut app = App::new();
    app.query = "abc".into();
    app.cursor_position = 3;
    app.move_cursor_left();
    assert_eq!(app.cursor_position, 2);
    app.move_cursor_right();
    assert_eq!(app.cursor_position, 3);
}

#[test]
fn test_move_cursor_word_backward() {
    let mut app = App::new();
    app.query = "hello world".into();
    app.cursor_position = app.query.len();
    app.move_cursor_word_backward();
    assert_eq!(app.cursor_position, "hello ".len());
    app.move_cursor_word_backward();
    assert_eq!(app.cursor_position, 0);
}

#[test]
fn test_move_cursor_word_forward() {
    let mut app = App::new();
    app.query = "hello world".into();
    app.cursor_position = 0;
    app.move_cursor_word_forward();
    // Skips "hello" and the trailing space
    assert_eq!(app.cursor_position, "hello ".len());
    app.move_cursor_word_forward();
    assert_eq!(app.cursor_position, app.query.len());
}

#[test]
fn test_insert_at_cursor() {
    let mut app = App::new();
    app.query = "ac".into();
    app.cursor_position = 1;
    app.query.insert(app.cursor_position, 'b');
    app.cursor_position += 'b'.len_utf8();
    assert_eq!(app.query, "abc");
    assert_eq!(app.cursor_position, 2);
}

#[test]
fn test_backspace_at_cursor() {
    let mut app = App::new();
    app.query = "abc".into();
    app.cursor_position = 2;
    let ch = app.query[..app.cursor_position].chars().last().unwrap();
    let len = ch.len_utf8();
    app.query.replace_range(app.cursor_position - len..app.cursor_position, "");
    app.cursor_position -= len;
    assert_eq!(app.query, "ac");
    assert_eq!(app.cursor_position, 1);
}
