use fff_tui::highlight::{find_match_indices, indices_to_ranges};

#[test]
fn test_find_match_indices() {
    assert_eq!(find_match_indices("abc", "alphabetical"), vec![0, 5, 9]);
    assert_eq!(find_match_indices("lib", "library.rs"), vec![0, 1, 2]);
    assert_eq!(find_match_indices("sr", "src/main.rs"), vec![0, 1]);
    assert_eq!(find_match_indices("main", "src/main.rs"), vec![4, 5, 6, 7]);
}

#[test]
fn test_indices_to_ranges() {
    assert_eq!(indices_to_ranges(&[0, 1, 2], "abc"), vec![(0, 3)]);
    assert_eq!(
        indices_to_ranges(&[0, 5, 7], "alphabetical"),
        vec![(0, 1), (5, 6), (7, 8)]
    );
}
