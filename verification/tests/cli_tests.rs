use fff_tui::cli::{format_result, parse_symbol};
use fff_tui::picker::{MatchKind, UnifiedResult};

fn make_file_result() -> UnifiedResult {
    UnifiedResult {
        kind: MatchKind::File,
        relative_path: "src/main.rs".into(),
        absolute_path: "/dev/null/src/main.rs".into(),
        ..Default::default()
    }
}

fn make_line_result() -> UnifiedResult {
    UnifiedResult {
        kind: MatchKind::Line,
        relative_path: "Cargo.toml".into(),
        absolute_path: "/dev/null/Cargo.toml".into(),
        line_number: Some(817),
        column: Some(1),
        line_content: Some(r#"path = "television/main.rs""#.into()),
        match_byte_offsets: Some(vec![(0, 4)]),
        is_definition: Some(false),
        ..Default::default()
    }
}

#[test]
fn test_parse_symbol_simple() {
    assert_eq!(parse_symbol("fn test_foo"), "test_foo");
}

#[test]
fn test_parse_symbol_breadcrumb() {
    assert_eq!(parse_symbol("mod tests > fn test_task_contexts"), "test_task_contexts");
}

#[test]
fn test_parse_symbol_with_pub_async() {
    assert_eq!(parse_symbol("pub async fn my_func"), "my_func");
}

#[test]
fn test_parse_symbol_no_prefix() {
    assert_eq!(parse_symbol("MyClass > my_method"), "my_method");
}

#[test]
fn test_parse_symbol_struct() {
    assert_eq!(parse_symbol("mod foo > struct Bar"), "Bar");
}

#[test]
fn format_file_no_flags() {
    let r = make_file_result();
    assert_eq!(format_result(&r, false, false), "/dev/null/src/main.rs");
}

#[test]
fn format_file_with_line_flag() {
    let r = make_file_result();
    assert_eq!(format_result(&r, true, false), "/dev/null/src/main.rs");
}

#[test]
fn format_file_with_column_flag() {
    let r = make_file_result();
    assert_eq!(format_result(&r, false, true), "/dev/null/src/main.rs");
}

#[test]
fn format_line_no_flags() {
    let r = make_line_result();
    assert_eq!(format_result(&r, false, false), "/dev/null/Cargo.toml");
}

#[test]
fn format_line_with_line_flag() {
    let r = make_line_result();
    assert_eq!(format_result(&r, true, false), "/dev/null/Cargo.toml:817");
}

#[test]
fn format_line_with_column_flag() {
    let r = make_line_result();
    assert_eq!(format_result(&r, false, true), "/dev/null/Cargo.toml:817:1");
}

#[test]
fn format_line_with_both_flags() {
    let r = make_line_result();
    assert_eq!(format_result(&r, true, true), "/dev/null/Cargo.toml:817:1");
}
