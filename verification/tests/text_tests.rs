use fff_tui::highlight::{char_at_byte_len, find_match_indices, indices_to_ranges};
use fff_tui::numfmt::decimal_string;
use fff_tui::paths::shorten_dir_path;
use fff_tui::width::{strip_leading_whitespace, truncate_line_to_width, truncate_to_width};

#[test]
fn matching_ignores_case() {
    assert_eq!(find_match_indices("MAIN", "src/Main.rs"), vec![4, 5, 6, 7]);
    assert_eq!(find_match_indices("ms", "main.rs"), vec![0, 6]);
    assert_eq!(find_match_indices("main", "src/Mai.rs"), Vec::<usize>::new());
}

#[test]
fn positions_are_offsets_in_the_text_itself() {
    // 'ẞ' takes 3 bytes but lower-cases to 'ß', which takes 2.
    assert_eq!(find_match_indices("a", "\u{1E9E}a"), vec![3]);
    assert_eq!(find_match_indices("\u{df}a", "\u{1E9E}a"), vec![0, 3]);
    assert_eq!(indices_to_ranges(&[0, 3], "\u{1E9E}a"), vec![(0, 4)]);
    // 'İ' lower-cases to two characters; a match on either highlights 'İ' once.
    assert_eq!(find_match_indices("i", "x\u{130}y"), vec![1]);
    assert_eq!(find_match_indices("iy", "x\u{130}y"), vec![1, 3]);
}

#[test]
fn the_text_is_lower_cased_as_a_whole() {
    // A capital sigma ending a word lowers to a final sigma.
    assert_eq!(find_match_indices("\u{3c3}", "\u{391}\u{3a3}"), Vec::<usize>::new());
    assert_eq!(find_match_indices("\u{3c2}", "\u{391}\u{3a3}"), vec![2]);
    assert_eq!(find_match_indices("\u{3c3}", "\u{3a3}\u{391}"), vec![0]);
}

#[test]
fn character_lengths_at_byte_positions() {
    assert_eq!(char_at_byte_len("a\u{e9}", 0), 1);
    assert_eq!(char_at_byte_len("a\u{e9}", 1), 2);
    assert_eq!(char_at_byte_len("a\u{e9}", 3), 1);
    assert_eq!(char_at_byte_len("\u{1f600}", 0), 4);
}

#[test]
fn truncation_counts_display_columns() {
    assert_eq!(truncate_to_width("\u{65e5}\u{672c}\u{8a9e}", 4), ("\u{65e5}\u{672c}", 4));
    assert_eq!(truncate_to_width("\u{65e5}\u{672c}\u{8a9e}", 5), ("\u{65e5}\u{672c}", 4));
    assert_eq!(truncate_to_width("hello", 10), ("hello", 5));
    assert_eq!(truncate_to_width("hello", 0), ("", 0));
    assert_eq!(truncate_line_to_width("a\u{65e5}b", 2), "a");
    assert_eq!(truncate_line_to_width("a\u{65e5}b", 3), "a\u{65e5}");
}

#[test]
fn leading_whitespace_is_counted_in_bytes() {
    assert_eq!(strip_leading_whitespace("\t  x y"), ("x y", 3));
    assert_eq!(strip_leading_whitespace("\u{3000}z"), ("z", 3));
    assert_eq!(strip_leading_whitespace("   "), ("", 3));
    assert_eq!(strip_leading_whitespace("q"), ("q", 0));
}

#[test]
fn decimal_rendering() {
    assert_eq!(decimal_string(0), "0");
    assert_eq!(decimal_string(1234), "1234");
    assert_eq!(decimal_string(u64::MAX), "18446744073709551615");
}

#[test]
fn directory_shortening_edge_cases() {
    assert_eq!(shorten_dir_path("", 0, "middle"), "");
    assert_eq!(shorten_dir_path("ab/cdefgh", 5, "middle"), "ab/c\u{2026}");
    assert_eq!(shorten_dir_path("a/b/c/d/e", 5, "middle"), ".../e");
    assert_eq!(shorten_dir_path("a/b/c/d/e", 7, "end"), "a/b/c/\u{2026}");
    assert_eq!(shorten_dir_path("a/b/c/d/e", 7, "other"), "a/b/c/\u{2026}");
    assert_eq!(shorten_dir_path("abc/def", 0, "end"), "abc/def");
    assert_eq!(shorten_dir_path("alpha/beta/gamma/delta", 12, "middle_number"), ".../delta");
}

#[test]
fn shortened_ascii_paths_fit() {
    for strategy in ["middle", "middle_number", "end", "other"] {
        for max in 2..12 {
            for dir in ["a/b/c/d/e", "alpha/beta/gamma/delta", "ab/cdefgh", "abcdefghijkl"] {
                let r = shorten_dir_path(dir, max, strategy);
                assert!(!r.is_empty());
                assert!(r.chars().count() <= max, "{dir} {max} {strategy} -> {r}");
            }
        }
    }
}
