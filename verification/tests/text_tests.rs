use harnas_monitor::display::summarize_map;
use harnas_monitor::display::usize_to_string;
use harnas_monitor::text::normalize_label;
use harnas_monitor::text::normalize_status;
use harnas_monitor::text::truncate;

#[test]
fn status_variants_collapse() {
    assert_eq!(normalize_status("In-Progress"), "in_progress");
    assert_eq!(normalize_status("in_progress"), "in_progress");
    assert_eq!(normalize_status(" IN_PROGRESS "), "in_progress");
}

#[test]
fn status_normalization_is_idempotent_on_samples() {
    for raw in ["  Done ", "To-Do", "blocked", "", " - ", "A-B-C"] {
        let once = normalize_status(raw);
        assert_eq!(normalize_status(&once), once);
    }
}

#[test]
fn status_trims_and_lowercases() {
    assert_eq!(normalize_status("  Done\t"), "done");
    assert_eq!(normalize_status(""), "");
    assert_eq!(normalize_status("   "), "");
}

#[test]
fn unicode_whitespace_is_trimmed() {
    assert_eq!(normalize_status("\u{00A0}Done\u{2003}"), "done");
    assert_eq!(normalize_label("\u{2028}x\u{3000}"), "x");
    assert_eq!(normalize_status("\u{00A0}"), "");
}

#[test]
fn non_ascii_letters_are_lowercased() {
    assert_eq!(normalize_label("\u{C0}"), "\u{E0}");
    assert_eq!(normalize_status("M\u{C9}TA-Donn\u{E9}es"), "m\u{E9}ta_donn\u{E9}es");
    assert_eq!(normalize_label("Stra\u{DF}e"), "stra\u{DF}e");
}

#[test]
fn non_ascii_normalization_is_stable_on_samples() {
    for raw in ["\u{C0}-B", " M\u{C9}TA ", "\u{00A0}Caf\u{E9}\u{00A0}"] {
        let once = normalize_status(raw);
        assert_eq!(normalize_status(&once), once);
    }
}

#[test]
fn label_normalization() {
    assert_eq!(normalize_label(" HIGH "), "high");
    assert_eq!(normalize_label("Core"), "core");
    assert_eq!(normalize_label("  "), "");
}

#[test]
fn truncate_short_strings_untouched() {
    assert_eq!(truncate("hello", 10), "hello");
    assert_eq!(truncate("hello", 5), "hello");
}

#[test]
fn truncate_long_strings_get_ellipsis() {
    assert_eq!(truncate("hello world", 5), "hell…");
    assert_eq!(truncate("abc", 2), "a…");
}

#[test]
fn truncate_zero_is_empty() {
    assert_eq!(truncate("hello", 0), "");
}

#[test]
fn decimal_rendering() {
    assert_eq!(usize_to_string(0), "0");
    assert_eq!(usize_to_string(7), "7");
    assert_eq!(usize_to_string(10), "10");
    assert_eq!(usize_to_string(12345), "12345");
}

#[test]
fn summarize_small_map_shows_all() {
    let m = vec![("done".to_string(), 2usize), ("todo".to_string(), 1usize)];
    assert_eq!(summarize_map(&m, 3), "done:2  todo:1");
}

#[test]
fn summarize_large_map_folds_rest() {
    let m = vec![
        ("done".to_string(), 2usize),
        ("todo".to_string(), 1usize),
        ("blocked".to_string(), 4usize),
    ];
    assert_eq!(summarize_map(&m, 2), "done:2  todo:1  +1");
    assert_eq!(summarize_map(&m, 0), "+3");
}

#[test]
fn summarize_empty_map() {
    let m: Vec<(String, usize)> = Vec::new();
    assert_eq!(summarize_map(&m, 3), "");
}
