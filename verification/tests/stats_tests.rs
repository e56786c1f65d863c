use harnas_monitor::fingerprint::fnv1a_64;
use harnas_monitor::tasks::build_snapshot;
use harnas_monitor::tasks::compute_stats;
use harnas_monitor::tasks::Task;
use harnas_monitor::tasks::TaskFile;

fn task(id: &str, status: Option<&str>, deps: &[&str]) -> Task {
    Task {
        id: id.to_string(),
        title: format!("task {id}"),
        component: None,
        priority: None,
        status: status.map(|s| s.to_string()),
        spec_refs: Vec::new(),
        depends_on: deps.iter().map(|d| d.to_string()).collect(),
        summary: None,
        deliverables: Vec::new(),
        estimate_centidays: None,
        dod: Vec::new(),
        notes: None,
    }
}

fn file_of(tasks: Vec<Task>) -> TaskFile {
    TaskFile { meta: None, tasks }
}

fn lookup(map: &[(String, usize)], key: &str) -> Option<usize> {
    map.iter().find(|(k, _)| k == key).map(|(_, v)| *v)
}

#[test]
fn done_dependency_does_not_block_and_missing_is_counted() {
    let file = file_of(vec![
        task("A", Some("done"), &[]),
        task("B", Some("todo"), &["A"]),
        task("C", Some("todo"), &["Z"]),
    ]);
    let s = compute_stats(&file);
    assert_eq!(s.total, 3);
    assert_eq!(s.done, 1);
    assert_eq!(s.blocked_by_deps, 0);
    assert_eq!(s.missing_deps, 1);
}

#[test]
fn non_done_dependency_blocks() {
    let file = file_of(vec![
        task("A", Some("todo"), &[]),
        task("B", Some("todo"), &["A"]),
    ]);
    let s = compute_stats(&file);
    assert_eq!(s.blocked_by_deps, 1);
    assert_eq!(s.missing_deps, 0);
    assert_eq!(lookup(&s.by_status, "todo"), Some(2));
    assert_eq!(lookup(&s.by_priority, "unknown"), Some(2));
}

#[test]
fn done_task_is_not_blocked_even_with_open_deps() {
    let file = file_of(vec![
        task("A", Some("todo"), &[]),
        task("B", Some("done"), &["A"]),
    ]);
    let s = compute_stats(&file);
    assert_eq!(s.blocked_by_deps, 0);
}

#[test]
fn missing_deps_are_distinct_identifiers() {
    let file = file_of(vec![
        task("A", Some("todo"), &["Z", "Q"]),
        task("B", Some("todo"), &["Z"]),
    ]);
    let s = compute_stats(&file);
    assert_eq!(s.missing_deps, 2);
}

#[test]
fn duplicate_ids_let_the_last_one_win() {
    let file = file_of(vec![
        task("X", Some("done"), &[]),
        task("X", Some("todo"), &[]),
        task("Y", Some("todo"), &["X"]),
    ]);
    let s = compute_stats(&file);
    // X resolves to the later, non-done record, so Y is blocked.
    assert_eq!(s.blocked_by_deps, 1);
    assert_eq!(s.missing_deps, 0);
}

#[test]
fn status_variants_share_a_bucket_and_counts_add_up() {
    let file = file_of(vec![
        task("A", Some("In-Progress"), &[]),
        task("B", Some(" in_progress "), &[]),
        task("C", Some("done"), &[]),
        task("D", None, &[]),
        task("E", Some("   "), &[]),
    ]);
    let s = compute_stats(&file);
    assert_eq!(s.total, 5);
    assert_eq!(s.done, 1);
    assert_eq!(lookup(&s.by_status, "in_progress"), Some(2));
    assert_eq!(lookup(&s.by_status, "done"), Some(1));
    // Absent and all-blank statuses land in the unknown bucket.
    assert_eq!(lookup(&s.by_status, "unknown"), Some(2));
    let sum: usize = s.by_status.iter().map(|(_, v)| v).sum();
    assert_eq!(sum, s.total);
    let psum: usize = s.by_priority.iter().map(|(_, v)| v).sum();
    assert_eq!(psum, s.total);
    let csum: usize = s.by_component.iter().map(|(_, v)| v).sum();
    assert_eq!(csum, s.total);
}

#[test]
fn priority_and_component_buckets() {
    let mut a = task("A", Some("todo"), &[]);
    a.priority = Some(" HIGH ".to_string());
    a.component = Some("Core".to_string());
    let mut b = task("B", Some("todo"), &[]);
    b.priority = Some("high".to_string());
    b.component = Some("".to_string());
    let file = file_of(vec![a, b]);
    let s = compute_stats(&file);
    assert_eq!(lookup(&s.by_priority, "high"), Some(2));
    assert_eq!(lookup(&s.by_component, "core"), Some(1));
    assert_eq!(lookup(&s.by_component, "unknown"), Some(1));
}

#[test]
fn empty_collection() {
    let s = compute_stats(&file_of(Vec::new()));
    assert_eq!(s.total, 0);
    assert_eq!(s.done, 0);
    assert_eq!(s.blocked_by_deps, 0);
    assert_eq!(s.missing_deps, 0);
    assert!(s.by_status.is_empty());
}

#[test]
fn map_keys_in_first_appearance_order() {
    let file = file_of(vec![
        task("A", Some("todo"), &[]),
        task("B", Some("done"), &[]),
        task("C", Some("todo"), &[]),
    ]);
    let s = compute_stats(&file);
    let keys: Vec<&str> = s.by_status.iter().map(|(k, _)| k.as_str()).collect();
    assert_eq!(keys, vec!["todo", "done"]);
}

#[test]
fn snapshot_carries_fingerprint_and_stats() {
    let raw = b"[[tasks]]\nid = \"A\"\ntitle = \"t\"\n";
    let file = file_of(vec![task("A", None, &[])]);
    let snap = build_snapshot("TASKS.toml".to_string(), Some(17), 23, raw, file);
    assert_eq!(snap.path, "TASKS.toml");
    assert_eq!(snap.file_mtime, Some(17));
    assert_eq!(snap.loaded_at, 23);
    assert_eq!(snap.content_hash, fnv1a_64(raw));
    assert_eq!(snap.stats.total, 1);
    assert_eq!(snap.tasks.tasks.len(), 1);
}
