use fff_tui::picker::{MatchKind, UnifiedResult};
use fff_tui::row::{build_result_row, git_badge, GitBadge, SegStyle, Segment};

fn joined(row: &[Segment]) -> String {
    row.iter().map(|s| s.text.as_str()).collect()
}

fn file_result(path: &str) -> UnifiedResult {
    UnifiedResult {
        kind: MatchKind::File,
        relative_path: path.into(),
        absolute_path: format!("/dev/null/{path}"),
        ..Default::default()
    }
}

fn cargo_line() -> UnifiedResult {
    UnifiedResult {
        kind: MatchKind::Line,
        relative_path: "Cargo.toml".into(),
        absolute_path: "/dev/null/Cargo.toml".into(),
        line_number: Some(83),
        column: Some(1),
        line_content: Some(r#"path = "television/main.rs""#.into()),
        match_byte_offsets: Some(vec![(0, 4)]),
        is_definition: Some(false),
        ..Default::default()
    }
}

#[test]
fn file_row_pads_to_the_width() {
    let r = file_result("src/main.rs");
    let row = build_result_row(&r, "", 40, true, false, false, "middle_number", " ").unwrap();
    assert_eq!(joined(&row), format!(">{}main.rs src{}", " ".repeat(5), " ".repeat(23)));
    assert_eq!(row[0].style, SegStyle::Emph);
    assert_eq!(row[1].style, SegStyle::Base);
    assert_eq!(row[2].style, SegStyle::Git(GitBadge::Clean));
    assert_eq!(row[3].style, SegStyle::Icon);
    assert_eq!(row[4].text, "main.rs");
    assert_eq!(row[5].text, " src");
    assert_eq!(row[5].style, SegStyle::DimSel);
}

#[test]
fn file_row_highlights_query_characters() {
    let r = file_result("src/main.rs");
    let row = build_result_row(&r, "mn", 30, false, false, false, "middle_number", " ").unwrap();
    let texts: Vec<(&str, SegStyle)> = row[4..].iter().map(|s| (s.text.as_str(), s.style)).collect();
    assert_eq!(texts[0], ("m", SegStyle::Match));
    assert_eq!(texts[1], ("ai", SegStyle::Base));
    assert_eq!(texts[2], ("n", SegStyle::Match));
    assert_eq!(texts[3], (".rs", SegStyle::Base));
    assert_eq!(row[0].text, " ");
}

#[test]
fn exact_file_match_gets_a_star() {
    let mut r = file_result("main.rs");
    r.exact_match = true;
    let row = build_result_row(&r, "", 20, false, false, false, "middle_number", " ").unwrap();
    let last = row.last().unwrap();
    assert_eq!(last.text, "\u{2726}");
    assert_eq!(last.style, SegStyle::Match);
}

#[test]
fn git_badge_letters() {
    assert_eq!(git_badge(&Some("modified".into())), ('M', GitBadge::Modified));
    assert_eq!(git_badge(&Some("staged_new".into())), ('A', GitBadge::Added));
    assert_eq!(git_badge(&Some("staged_modified".into())), ('A', GitBadge::Added));
    assert_eq!(git_badge(&Some("untracked".into())), ('?', GitBadge::Untracked));
    assert_eq!(git_badge(&Some("deleted".into())), ('D', GitBadge::Deleted));
    assert_eq!(git_badge(&Some("renamed".into())), ('R', GitBadge::Renamed));
    assert_eq!(git_badge(&Some("ignored".into())), ('I', GitBadge::Ignored));
    assert_eq!(git_badge(&Some("clean".into())), (' ', GitBadge::Clean));
    assert_eq!(git_badge(&None), (' ', GitBadge::Clean));
}

#[test]
fn file_row_shows_git_badge() {
    let mut r = file_result("src/main.rs");
    r.git_status = Some("modified".into());
    let row = build_result_row(&r, "", 40, false, false, false, "middle_number", " ").unwrap();
    assert_eq!(row[2].text, "M ");
    assert_eq!(row[2].style, SegStyle::Git(GitBadge::Modified));
}

#[test]
fn line_row_has_no_git_badge() {
    let mut r = cargo_line();
    r.git_status = Some("modified".into());
    let row = build_result_row(&r, "", 60, false, false, true, "middle_number", " ").unwrap();
    assert_eq!(row[2].text, "  ");
    assert_eq!(row[2].style, SegStyle::Git(GitBadge::Clean));
}

#[test]
fn line_row_shows_location_on_the_right() {
    let r = cargo_line();
    let row = build_result_row(&r, "", 60, true, false, false, "middle_number", " ").unwrap();
    assert_eq!(
        joined(&row),
        format!(">   path = \"television/main.rs\"{}Cargo.toml:83", " ".repeat(14))
    );
    assert_eq!(row[3].text, "path");
    assert_eq!(row[3].style, SegStyle::Match);
    assert_eq!(row.last().unwrap().style, SegStyle::DimSel);
}

#[test]
fn line_row_is_cut_before_the_location() {
    let r = cargo_line();
    let row = build_result_row(&r, "", 30, false, false, false, "middle_number", " ").unwrap();
    assert_eq!(joined(&row), "    path = \"te\u{2026}  Cargo.toml:83");
}

#[test]
fn grouped_line_row_has_a_gutter() {
    let r = cargo_line();
    let row = build_result_row(&r, "", 60, false, false, true, "middle_number", " ").unwrap();
    assert_eq!(joined(&row), "      :83:1 path = \"television/main.rs\"");
    assert_eq!(row[3].text, "  :83:1 ");
    assert_eq!(row[3].style, SegStyle::Dim);
}

#[test]
fn grouped_line_row_is_cut_with_an_ellipsis() {
    let r = cargo_line();
    let row = build_result_row(&r, "", 20, false, false, true, "middle_number", " ").unwrap();
    assert_eq!(joined(&row), "      :83:1 path = \u{2026}");
}

#[test]
fn line_row_strips_indentation_and_moves_ranges() {
    let r = UnifiedResult {
        kind: MatchKind::Line,
        relative_path: "src/app.rs".into(),
        absolute_path: "/dev/null/src/app.rs".into(),
        line_number: Some(42),
        column: Some(5),
        line_content: Some("    pub struct App {}".into()),
        match_byte_offsets: Some(vec![(8, 14)]),
        is_definition: Some(true),
        ..Default::default()
    };
    let row = build_result_row(&r, "", 60, false, false, true, "middle_number", " ").unwrap();
    let texts: Vec<&str> = row.iter().map(|s| s.text.as_str()).collect();
    assert_eq!(texts[4], "pub ");
    assert_eq!(texts[5], "struct");
    assert_eq!(row[5].style, SegStyle::Match);
    assert_eq!(texts[6], " App {}");
    assert_eq!(texts[7], "  \u{a7}");
}

#[test]
fn header_row_is_bold_and_keeps_its_badge() {
    let r = UnifiedResult {
        kind: MatchKind::FileHeader,
        relative_path: "src/app.rs".into(),
        absolute_path: "/dev/null/src/app.rs".into(),
        git_status: Some("modified".into()),
        ..Default::default()
    };
    let row = build_result_row(&r, "", 30, false, false, true, "middle_number", " ").unwrap();
    assert_eq!(row[2].text, "M ");
    assert_eq!(row[3].style, SegStyle::IconBold);
    assert_eq!(row[4].text, "app.rs");
    assert_eq!(row[4].style, SegStyle::HeaderBase);
    assert_eq!(row[5].text, " src");
    assert_eq!(row[5].style, SegStyle::DimSelBold);
}

#[test]
fn marked_row_shows_the_marker() {
    let r = file_result("src/lib.rs");
    let row = build_result_row(&r, "", 40, false, true, false, "middle_number", " ").unwrap();
    assert_eq!(row[0].text, " ");
    assert_eq!(row[1].text, "\u{258a}");
    assert_eq!(row[1].style, SegStyle::Emph);
}

#[test]
fn long_directory_is_shortened() {
    let r = file_result("a/b/c/d/e/file.rs");
    let row = build_result_row(&r, "", 22, false, false, false, "middle_number", " ").unwrap();
    assert_eq!(row[5].text, " a/.../e");
}

#[test]
fn ranges_off_character_boundaries_are_refused() {
    let mut r = cargo_line();
    r.line_content = Some("h\u{e9}llo".into());
    r.match_byte_offsets = Some(vec![(2, 3)]);
    assert!(build_result_row(&r, "", 60, false, false, false, "middle_number", " ").is_none());
}
