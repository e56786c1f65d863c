use harnas_monitor::monitor::Key;
use harnas_monitor::monitor::MonitorState;
use harnas_monitor::monitor::AUTO_REFRESH_MS;
use harnas_monitor::monitor::DEBOUNCE_MS;
use harnas_monitor::tasks::build_snapshot;
use harnas_monitor::tasks::LoadedTasks;
use harnas_monitor::tasks::Task;
use harnas_monitor::tasks::TaskFile;
use harnas_monitor::view::Modal;

fn task(id: &str) -> Task {
    Task {
        id: id.to_string(),
        title: format!("task {id}"),
        component: None,
        priority: None,
        status: Some("todo".to_string()),
        spec_refs: Vec::new(),
        depends_on: Vec::new(),
        summary: None,
        deliverables: Vec::new(),
        estimate_centidays: None,
        dod: Vec::new(),
        notes: None,
    }
}

fn snapshot_of(raw: &[u8], n: usize) -> LoadedTasks {
    let tasks: Vec<Task> = (0..n).map(|i| task(&format!("T{i}"))).collect();
    build_snapshot(
        "TASKS.toml".to_string(),
        None,
        0,
        raw,
        TaskFile { meta: None, tasks },
    )
}

#[test]
fn no_chime_on_first_load() {
    let mut st = MonitorState::new(0);
    let chime = st.apply_load_result(Ok(snapshot_of(b"one", 1)));
    assert!(!chime);
    assert!(st.snapshot.is_some());
    assert!(st.last_error.is_none());
}

#[test]
fn chime_exactly_once_on_content_change() {
    let mut st = MonitorState::new(0);
    let a = snapshot_of(b"content a", 1);
    let b = snapshot_of(b"content b", 1);
    assert_ne!(a.content_hash, b.content_hash);
    assert!(!st.apply_load_result(Ok(a)));
    let b2 = snapshot_of(b"content b", 1);
    assert!(st.apply_load_result(Ok(b)));
    // The same content again stays silent.
    assert!(!st.apply_load_result(Ok(b2)));
}

#[test]
fn failed_load_keeps_snapshot_and_records_error() {
    let mut st = MonitorState::new(0);
    st.apply_load_result(Ok(snapshot_of(b"good", 3)));
    let fp = st.last_fingerprint;
    let chime = st.apply_load_result(Err("parsing TOML: expected a table".to_string()));
    assert!(!chime);
    let snap = st.snapshot.as_ref().expect("snapshot retained");
    assert_eq!(snap.stats.total, 3);
    assert_eq!(st.last_fingerprint, fp);
    assert_eq!(
        st.last_error.as_deref(),
        Some("parsing TOML: expected a table")
    );
    // The same content after the error still gives no chime.
    assert!(!st.apply_load_result(Ok(snapshot_of(b"good", 3))));
    assert!(st.last_error.is_none());
}

#[test]
fn reload_clamps_selection_to_shorter_list() {
    let mut st = MonitorState::new(0);
    st.apply_load_result(Ok(snapshot_of(b"five", 5)));
    st.view.selected_idx = 4;
    st.apply_load_result(Ok(snapshot_of(b"two", 2)));
    assert_eq!(st.view.selected_idx, 1);
    st.apply_load_result(Ok(snapshot_of(b"none", 0)));
    assert_eq!(st.view.selected_idx, 0);
}

#[test]
fn reload_leaves_scroll_alone() {
    let mut st = MonitorState::new(0);
    st.view.details_scroll = 9;
    st.apply_load_result(Ok(snapshot_of(b"five", 5)));
    assert_eq!(st.view.details_scroll, 9);
}

#[test]
fn debounce_holds_the_reload_back() {
    let mut st = MonitorState::new(1000);
    assert!(!st.reload_due(1000 + DEBOUNCE_MS - 1));
    assert!(st.reload_due(1000 + DEBOUNCE_MS));
    assert_eq!(st.pending_since, None);
    assert_eq!(st.last_attempt_at, 1000 + DEBOUNCE_MS);
    assert!(!st.reload_due(1000 + 10 * DEBOUNCE_MS));
}

#[test]
fn change_events_coalesce() {
    let mut st = MonitorState::new(0);
    st.reload_due(DEBOUNCE_MS);
    st.note_change(500);
    st.note_change(600);
    assert_eq!(st.pending_since, Some(600));
    assert!(!st.reload_due(600 + DEBOUNCE_MS - 1));
    assert!(st.reload_due(600 + DEBOUNCE_MS));
}

#[test]
fn periodic_fallback_schedules_after_quiet_interval() {
    let mut st = MonitorState::new(0);
    assert!(st.reload_due(DEBOUNCE_MS));
    let attempt = st.last_attempt_at;
    st.poll_auto_refresh(attempt + AUTO_REFRESH_MS - 1);
    assert_eq!(st.pending_since, None);
    st.poll_auto_refresh(attempt + AUTO_REFRESH_MS);
    assert_eq!(st.pending_since, Some(attempt + AUTO_REFRESH_MS));
}

#[test]
fn fallback_does_not_override_pending() {
    let mut st = MonitorState::new(0);
    st.reload_due(DEBOUNCE_MS);
    st.note_change(300);
    st.poll_auto_refresh(300 + AUTO_REFRESH_MS);
    assert_eq!(st.pending_since, Some(300));
}

#[test]
fn watch_error_is_recorded_and_watch_goes_on() {
    let mut st = MonitorState::new(0);
    st.apply_load_result(Ok(snapshot_of(b"good", 1)));
    st.note_watch_error("watcher error: file removed".to_string());
    assert_eq!(st.last_error.as_deref(), Some("watcher error: file removed"));
    assert!(st.snapshot.is_some());
}

#[test]
fn quit_key_stops_the_loop() {
    let mut st = MonitorState::new(0);
    assert!(st.handle_key(Key::Quit, 0));
    assert!(!st.handle_key(Key::Other, 0));
}

#[test]
fn navigation_keys() {
    let mut st = MonitorState::new(0);
    st.apply_load_result(Ok(snapshot_of(b"three", 3)));
    assert!(!st.handle_key(Key::Down, 0));
    assert_eq!(st.view.selected_idx, 1);
    st.handle_key(Key::Down, 0);
    st.handle_key(Key::Down, 0);
    // Saturates at the last row.
    assert_eq!(st.view.selected_idx, 2);
    st.handle_key(Key::Up, 0);
    assert_eq!(st.view.selected_idx, 1);
    st.handle_key(Key::Home, 0);
    assert_eq!(st.view.selected_idx, 0);
    st.handle_key(Key::Up, 0);
    assert_eq!(st.view.selected_idx, 0);
    st.handle_key(Key::End, 0);
    assert_eq!(st.view.selected_idx, 2);
}

#[test]
fn navigation_resets_details_scroll() {
    let mut st = MonitorState::new(0);
    st.apply_load_result(Ok(snapshot_of(b"three", 3)));
    st.handle_key(Key::PageDown, 0);
    st.handle_key(Key::PageDown, 0);
    assert_eq!(st.view.details_scroll, 8);
    st.handle_key(Key::PageUp, 0);
    assert_eq!(st.view.details_scroll, 4);
    st.handle_key(Key::Down, 0);
    assert_eq!(st.view.details_scroll, 0);
}

#[test]
fn page_up_saturates_at_zero() {
    let mut st = MonitorState::new(0);
    st.handle_key(Key::PageUp, 0);
    assert_eq!(st.view.details_scroll, 0);
}

#[test]
fn help_modal_toggles() {
    let mut st = MonitorState::new(0);
    st.handle_key(Key::Help, 0);
    assert!(matches!(st.view.modal, Some(Modal::Help)));
    st.handle_key(Key::Help, 0);
    assert!(st.view.modal.is_none());
}

#[test]
fn navigation_still_applies_behind_the_modal() {
    let mut st = MonitorState::new(0);
    st.apply_load_result(Ok(snapshot_of(b"three", 3)));
    st.handle_key(Key::Help, 0);
    st.handle_key(Key::Down, 0);
    assert_eq!(st.view.selected_idx, 1);
}

#[test]
fn reload_key_sets_pending_marker() {
    let mut st = MonitorState::new(0);
    st.reload_due(DEBOUNCE_MS);
    assert_eq!(st.pending_since, None);
    st.handle_key(Key::Reload, 4242);
    assert_eq!(st.pending_since, Some(4242));
}

#[test]
fn empty_snapshot_keeps_cursor_at_zero() {
    let mut st = MonitorState::new(0);
    st.apply_load_result(Ok(snapshot_of(b"none", 0)));
    st.handle_key(Key::Down, 0);
    assert_eq!(st.view.selected_idx, 0);
    st.handle_key(Key::End, 0);
    assert_eq!(st.view.selected_idx, 0);
}
