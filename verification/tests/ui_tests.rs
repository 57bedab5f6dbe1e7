use fff_tui::paths::shorten_dir_path;

#[test]
fn test_shorten_dir_path_middle_number() {
    // 5 components, 3 hidden -> "..." because hidden <= 3
    assert_eq!(shorten_dir_path("a/b/c/d/e", 8, "middle_number"), "a/.../e");
    // 6 components, 4 hidden -> ".4." because hidden > 3
    assert_eq!(shorten_dir_path("a/b/c/d/e/f", 8, "middle_number"), "a/.4./f");
    // Short path that already fits
    assert_eq!(shorten_dir_path("a/b", 10, "middle_number"), "a/b");
}

#[test]
fn test_shorten_dir_path_middle() {
    assert_eq!(shorten_dir_path("a/b/c/d/e", 8, "middle"), "a/.../e");
}

#[test]
fn test_shorten_dir_path_end() {
    let result = shorten_dir_path("very/long/path/name", 10, "end");
    assert!(result.ends_with('…'), "expected truncation with ellipsis: {result}");
}
