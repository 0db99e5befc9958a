use dusty::text::{joined, decimal_string, truncate_text};

#[test]
fn truncate_keeps_short_text() {
    assert_eq!(truncate_text("notes.txt", 20), "notes.txt");
}

#[test]
fn truncate_keeps_text_of_exact_width() {
    assert_eq!(truncate_text("abcdef", 6), "abcdef");
}

#[test]
fn truncate_cuts_long_text() {
    assert_eq!(truncate_text("a_very_long_file_name.txt", 10), "a_very_l...");
}

#[test]
fn truncate_leaves_text_when_column_too_narrow() {
    assert_eq!(truncate_text("abcdefgh", 3), "abcdefgh");
    assert_eq!(truncate_text("abcdefgh", 0), "abcdefgh");
}

#[test]
fn truncate_smallest_cut() {
    assert_eq!(truncate_text("abcdefgh", 4), "ab...");
    assert_eq!(truncate_text("abcdefgh", 7).len(), 8);
}

#[test]
fn truncate_counts_bytes_not_characters() {
    // "éééé" takes eight bytes; a width of 4 keeps its first two bytes.
    assert_eq!(truncate_text("éééé", 4), "é...");
}

#[test]
fn decimal_of_numbers() {
    assert_eq!(decimal_string(0), "0");
    assert_eq!(decimal_string(7), "7");
    assert_eq!(decimal_string(10), "10");
    assert_eq!(decimal_string(420), "420");
    assert_eq!(decimal_string(u64::MAX), u64::MAX.to_string());
}

#[test]
fn joined_texts() {
    assert_eq!(joined("Size: ", "4 KB"), "Size: 4 KB");
    assert_eq!(joined("", ""), "");
}

#[test]
fn truncating_twice_changes_nothing() {
    for (t, w) in [("a_very_long_file_name.txt", 10usize), ("short", 10), ("éééé", 4), ("abcdefgh", 4)] {
        let once = truncate_text(t, w);
        assert_eq!(truncate_text(&once, w), once);
    }
}
