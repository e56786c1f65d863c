use harnas_monitor::view::compute_table_offset;
use harnas_monitor::view::ViewState;

#[test]
fn clamp_selection_cases() {
    let mut v = ViewState::new();
    v.selected_idx = 4;
    v.clamp_selection(2);
    assert_eq!(v.selected_idx, 1);
    v.clamp_selection(0);
    assert_eq!(v.selected_idx, 0);
    v.selected_idx = 1;
    v.clamp_selection(5);
    assert_eq!(v.selected_idx, 1);
}

#[test]
fn clamp_leaves_scroll_and_modal() {
    let mut v = ViewState::new();
    v.details_scroll = 7;
    v.selected_idx = 9;
    v.clamp_selection(3);
    assert_eq!(v.details_scroll, 7);
    assert!(v.modal.is_none());
}

#[test]
fn table_offset_fits_everything() {
    assert_eq!(compute_table_offset(0, 10, 20), 0);
    assert_eq!(compute_table_offset(9, 10, 10), 0);
    assert_eq!(compute_table_offset(5, 10, 0), 0);
}

#[test]
fn table_offset_centers_selection() {
    // viewport 10 rows, midpoint 5: selection 10 scrolls 5 rows down.
    assert_eq!(compute_table_offset(10, 30, 10), 5);
    assert_eq!(compute_table_offset(4, 30, 10), 0);
}

#[test]
fn table_offset_stops_at_the_bottom() {
    assert_eq!(compute_table_offset(29, 30, 10), 20);
    assert_eq!(compute_table_offset(25, 30, 10), 20);
}
