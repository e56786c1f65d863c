//! The task collection and its derived statistics.
//!
//! A `TaskFile` is the validated in-memory form of the task list; `Stats`
//! is recomputed from scratch on every load.  The statistics contract pins
//! every field: the totals, the done count, which tasks count as blocked,
//! how many distinct dependency identifiers are missing, and the three
//! frequency maps with their counts and key order.

use vstd::prelude::*;
use vstd::seq_lib::*;
use vstd::string::StrSliceExecFns;
use crate::text::normalize_label_spec;
use crate::text::normalize_status_spec;
use crate::text::normalize_label;
use crate::text::normalize_status;

verus! {

/// Free-form metadata block at the head of a task file.
#[derive(Debug, Clone)]
pub struct Meta {
    pub spec_file: Option<String>,
    pub spec_version: Option<String>,
    pub output_file: Option<String>,
    pub generated_utc: Option<String>,
}

/// One task record.  Every field but `id` and `title` is optional or
/// defaults to empty.  The work estimate is held in hundredths of a day,
/// which is exactly the precision the display uses.
#[derive(Debug, Clone)]
pub struct Task {
    pub id: String,
    pub title: String,
    pub component: Option<String>,
    pub priority: Option<String>,
    pub status: Option<String>,
    pub spec_refs: Vec<String>,
    pub depends_on: Vec<String>,
    pub summary: Option<String>,
    pub deliverables: Vec<String>,
    pub estimate_centidays: Option<u64>,
    pub dod: Vec<String>,
    pub notes: Option<String>,
}

/// A parsed task file: optional metadata plus the tasks in file order.
#[derive(Debug, Clone)]
pub struct TaskFile {
    pub meta: Option<Meta>,
    pub tasks: Vec<Task>,
}

/// Derived statistics over one task collection.  The frequency maps hold
/// `(normalized key, count)` pairs, keyed in order of first appearance.
#[derive(Debug, Clone)]
pub struct Stats {
    pub total: usize,
    pub done: usize,
    pub blocked_by_deps: usize,
    pub missing_deps: usize,
    pub by_status: Vec<(String, usize)>,
    pub by_priority: Vec<(String, usize)>,
    pub by_component: Vec<(String, usize)>,
}

/// The status bucket a task is counted under: its normalized status, or
/// `unknown` when the status is absent or normalizes to nothing.
pub open spec fn status_key_of(t: Task) -> Seq<char> {
    match t.status {
        Some(s) => if normalize_status_spec(s@).len() == 0 {
            "unknown"@
        } else {
            normalize_status_spec(s@)
        },
        None => "unknown"@,
    }
}

/// The bucket for a priority or component label: trimmed and lowercased,
/// or `unknown` when absent or empty.
pub open spec fn label_key_of(o: Option<String>) -> Seq<char> {
    match o {
        Some(s) => if normalize_label_spec(s@).len() == 0 {
            "unknown"@
        } else {
            normalize_label_spec(s@)
        },
        None => "unknown"@,
    }
}

pub open spec fn status_keys(tasks: Seq<Task>) -> Seq<Seq<char>> {
    tasks.map_values(|t: Task| status_key_of(t))
}

pub open spec fn priority_keys(tasks: Seq<Task>) -> Seq<Seq<char>> {
    tasks.map_values(|t: Task| label_key_of(t.priority))
}

pub open spec fn component_keys(tasks: Seq<Task>) -> Seq<Seq<char>> {
    tasks.map_values(|t: Task| label_key_of(t.component))
}

pub open spec fn is_done(t: Task) -> bool {
    status_key_of(t) == "done"@
}

/// Whether some task in the collection carries this identifier.
pub open spec fn has_task_id(tasks: Seq<Task>, id: Seq<char>) -> bool {
    exists|i: int| 0 <= i < tasks.len() && tasks[i].id@ == id
}

/// The status bucket that dependency resolution sees for an identifier:
/// the one of the last task with that id (duplicate ids let the last one
/// win), or nothing when no task carries it.
pub open spec fn dep_status(tasks: Seq<Task>, id: Seq<char>) -> Option<Seq<char>>
    decreases tasks.len(),
{
    if tasks.len() == 0 {
        None
    } else if tasks.last().id@ == id {
        Some(status_key_of(tasks.last()))
    } else {
        dep_status(tasks.drop_last(), id)
    }
}

/// A dependency entry blocks its owner when it resolves to a task whose
/// status bucket is not `done`.  An identifier that resolves to nothing
/// never blocks.
pub open spec fn dep_blocks(tasks: Seq<Task>, id: Seq<char>) -> bool {
    match dep_status(tasks, id) {
        Some(st) => st != "done"@,
        None => false,
    }
}

/// A task is dependency-blocked when it is not itself done and at least
/// one entry of its dependency list blocks it.
pub open spec fn is_blocked(tasks: Seq<Task>, t: Task) -> bool {
    &&& !is_done(t)
    &&& exists|j: int| 0 <= j < t.depends_on@.len() && dep_blocks(tasks, t.depends_on@[j]@)
}

/// An identifier is a missing dependency when some task depends on it and
/// no task carries it.
pub open spec fn is_missing_dep(tasks: Seq<Task>, d: Seq<char>) -> bool {
    &&& exists|a: int, b: int|
        0 <= a < tasks.len() && 0 <= b < tasks[a].depends_on@.len()
            && tasks[a].depends_on@[b]@ == d
    &&& !has_task_id(tasks, d)
}

/// The distinct missing dependency identifiers, each counted once however
/// many tasks reference it.
pub open spec fn missing_dep_set(tasks: Seq<Task>) -> Set<Seq<char>> {
    Set::new(|d: Seq<char>| is_missing_dep(tasks, d))
}

/// How many of the first `n` keys equal `key`.
pub open spec fn count_key(keys: Seq<Seq<char>>, key: Seq<char>, n: int) -> nat
    decreases n,
{
    if n <= 0 {
        0
    } else {
        count_key(keys, key, n - 1) + if keys[n - 1] == key {
            1nat
        } else {
            0nat
        }
    }
}

/// How many of the first `n` tasks are dependency-blocked.
pub open spec fn count_blocked(tasks: Seq<Task>, n: int) -> nat
    decreases n,
{
    if n <= 0 {
        0
    } else {
        count_blocked(tasks, n - 1) + if is_blocked(tasks, tasks[n - 1]) {
            1nat
        } else {
            0nat
        }
    }
}

/// The first `n` keys with duplicates dropped, in order of first
/// appearance: the key order of a frequency map.
pub open spec fn distinct_upto(keys: Seq<Seq<char>>, n: int) -> Seq<Seq<char>>
    decreases n,
{
    if n <= 0 {
        Seq::<Seq<char>>::empty()
    } else {
        distinct_upto(keys, n - 1) + if keys.take(n - 1).contains(keys[n - 1]) {
            Seq::<Seq<char>>::empty()
        } else {
            seq![keys[n - 1]]
        }
    }
}

/// The counts of the first `k` entries of a frequency map, added up.
pub open spec fn sum_counts(m: Seq<(String, usize)>, k: int) -> nat
    decreases k,
{
    if k <= 0 {
        0
    } else {
        sum_counts(m, k - 1) + m[k - 1].1 as nat
    }
}

/// What makes `m` the frequency map of the first `i` of `keys`: its keys
/// are the distinct keys in first-appearance order, each count is exact,
/// and the counts add up to `i`.
pub open spec fn freq_map_ok(m: Seq<(String, usize)>, keys: Seq<Seq<char>>, i: int) -> bool {
    &&& m.map_values(|p: (String, usize)| p.0@) == distinct_upto(keys, i)
    &&& forall|a: int| 0 <= a < m.len() ==> m[a].1 as nat == count_key(keys, #[trigger] m[a].0@, i)
    &&& sum_counts(m, m.len() as int) == i
    &&& forall|j: int|
        0 <= j < i ==> exists|a: int| 0 <= a < m.len() && #[trigger] m[a].0@ == #[trigger] keys[j]
    &&& forall|a: int, b: int| 0 <= a < b < m.len() ==> m[a].0@ != m[b].0@
}

/// The status bucket of one task, as the statistics use it.
pub fn status_key_exec(t: &Task) -> (r: String)
    ensures
        r@ == status_key_of(*t),
{
    match &t.status {
        Some(s) => {
            let k = normalize_status(s.as_str());
            if k.as_str().unicode_len() == 0 {
                "unknown".to_owned()
            } else {
                k
            }
        },
        None => "unknown".to_owned(),
    }
}

/// The bucket of one priority or component label.
pub fn label_key_exec(o: &Option<String>) -> (r: String)
    ensures
        r@ == label_key_of(*o),
{
    match o {
        Some(s) => {
            let k = normalize_label(s.as_str());
            if k.as_str().unicode_len() == 0 {
                "unknown".to_owned()
            } else {
                k
            }
        },
        None => "unknown".to_owned(),
    }
}

/// The status bucket the identifier resolves to, last occurrence winning.
fn find_dep_status(tasks: &Vec<Task>, dep: &String) -> (r: Option<String>)
    ensures
        r is Some <==> dep_status(tasks@, dep@) is Some,
        r is Some ==> r->0@ == dep_status(tasks@, dep@)->0,
{
    let n: usize = tasks.len();
    let mut k: usize = n;
    proof {
        assert(tasks@.take(n as int) =~= tasks@);
    }
    while k > 0
        invariant
            k <= n == tasks@.len(),
            dep_status(tasks@, dep@) == dep_status(tasks@.take(k as int), dep@),
        decreases k,
    {
        proof {
            assert(tasks@.take(k as int).last() == tasks@[k - 1]);
            assert(tasks@.take(k as int).drop_last() =~= tasks@.take(k - 1));
        }
        if tasks[k - 1].id.eq(dep) {
            return Some(status_key_exec(&tasks[k - 1]));
        }
        k = k - 1;
    }
    proof {
        assert(tasks@.take(0).len() == 0);
    }
    None
}

/// Whether the vector already holds a string with this view.
fn contains_string(v: &Vec<String>, x: &String) -> (r: bool)
    ensures
        r == v@.map_values(|s: String| s@).contains(x@),
{
    let n: usize = v.len();
    let mut i: usize = 0;
    while i < n
        invariant
            i <= n == v@.len(),
            forall|a: int| 0 <= a < i ==> #[trigger] v@[a]@ != x@,
        decreases n - i,
    {
        if v[i].eq(x) {
            proof {
                assert(v@.map_values(|s: String| s@)[i as int] == x@);
            }
            return true;
        }
        i = i + 1;
    }
    proof {
        let mv = v@.map_values(|s: String| s@);
        assert(forall|a: int| 0 <= a < mv.len() ==> #[trigger] mv[a] == v@[a]@);
    }
    false
}

proof fn lemma_sum_agree(m1: Seq<(String, usize)>, m2: Seq<(String, usize)>, k: int)
    requires
        forall|b: int| 0 <= b < k ==> #[trigger] m1[b] == m2[b],
    ensures
        sum_counts(m1, k) == sum_counts(m2, k),
    decreases k,
{
    if k > 0 {
        lemma_sum_agree(m1, m2, k - 1);
    }
}

proof fn lemma_sum_update(m: Seq<(String, usize)>, a: int, p: (String, usize), k: int)
    requires
        0 <= a < k <= m.len(),
    ensures
        sum_counts(m.update(a, p), k) == sum_counts(m, k) - m[a].1 + p.1,
    decreases k,
{
    if a == k - 1 {
        lemma_sum_agree(m.update(a, p), m, k - 1);
    } else {
        lemma_sum_update(m, a, p, k - 1);
    }
}

proof fn lemma_sum_push(m: Seq<(String, usize)>, p: (String, usize))
    ensures
        sum_counts(m.push(p), m.len() as int + 1) == sum_counts(m, m.len() as int) + p.1,
{
    lemma_sum_agree(m.push(p), m, m.len() as int);
}

proof fn lemma_sum_bound(m: Seq<(String, usize)>, a: int, k: int)
    requires
        0 <= a < k <= m.len(),
    ensures
        m[a].1 <= sum_counts(m, k),
    decreases k,
{
    if a < k - 1 {
        lemma_sum_bound(m, a, k - 1);
    }
}

proof fn lemma_count_le(keys: Seq<Seq<char>>, key: Seq<char>, i: int)
    ensures
        count_key(keys, key, i) <= if i >= 0 {
            i
        } else {
            0
        },
    decreases i,
{
    if i > 0 {
        lemma_count_le(keys, key, i - 1);
    }
}

proof fn lemma_count_zero(keys: Seq<Seq<char>>, key: Seq<char>, i: int)
    requires
        i <= keys.len(),
        !keys.take(i).contains(key),
    ensures
        count_key(keys, key, i) == 0,
    decreases i,
{
    if i > 0 {
        assert(keys.take(i)[i - 1] == keys[i - 1]);
        assert(keys[i - 1] != key);
        assert(!keys.take(i - 1).contains(key)) by {
            if keys.take(i - 1).contains(key) {
                let w = choose|w: int| 0 <= w < i - 1 && #[trigger] keys.take(i - 1)[w] == key;
                assert(keys.take(i)[w] == key);
            }
        }
        lemma_count_zero(keys, key, i - 1);
    }
}

proof fn lemma_distinct_membership(keys: Seq<Seq<char>>, i: int, d: Seq<char>)
    requires
        0 <= i <= keys.len(),
    ensures
        distinct_upto(keys, i).contains(d) <==> keys.take(i).contains(d),
    decreases i,
{
    if i > 0 {
        lemma_distinct_membership(keys, i - 1, d);
        assert(keys.take(i)[i - 1] == keys[i - 1]);
        if keys.take(i - 1).contains(d) {
            let w = choose|w: int| 0 <= w < i - 1 && #[trigger] keys.take(i - 1)[w] == d;
            assert(keys.take(i)[w] == d);
        }
        if keys.take(i).contains(d) && d != keys[i - 1] {
            let w = choose|w: int| 0 <= w < i && #[trigger] keys.take(i)[w] == d;
            assert(keys.take(i - 1)[w] == d);
        }
        let prev = distinct_upto(keys, i - 1);
        let cur = distinct_upto(keys, i);
        if keys.take(i - 1).contains(keys[i - 1]) {
            assert(cur =~= prev);
            if keys.take(i).contains(d) {
                if d == keys[i - 1] {
                    assert(keys.take(i - 1).contains(d));
                }
                assert(prev.contains(d));
                let w = choose|w: int| 0 <= w < prev.len() && #[trigger] prev[w] == d;
                assert(cur[w] == d);
            }
            if cur.contains(d) {
                let w = choose|w: int| 0 <= w < cur.len() && #[trigger] cur[w] == d;
                assert(prev[w] == d);
            }
        } else {
            assert(cur == prev + seq![keys[i - 1]]);
            assert(cur[prev.len() as int] == keys[i - 1]);
            if keys.take(i).contains(d) {
                if d == keys[i - 1] {
                    assert(cur.contains(d));
                } else {
                    let w = choose|w: int| 0 <= w < prev.len() && #[trigger] prev[w] == d;
                    assert(cur[w] == d);
                }
            }
            if cur.contains(d) {
                let w = choose|w: int| 0 <= w < cur.len() && #[trigger] cur[w] == d;
                if w < prev.len() {
                    assert(prev[w] == d);
                    assert(keys.take(i - 1).contains(d));
                } else {
                    assert(d == keys[i - 1]);
                }
            }
        }
    }
}

/// Count one more occurrence of `key` in a frequency map: bump its entry,
/// or append a fresh entry with count one.
fn bump_key(m: &mut Vec<(String, usize)>, key: String, Ghost(keys): Ghost<Seq<Seq<char>>>, Ghost(
    i,
): Ghost<int>)
    requires
        0 <= i < keys.len(),
        keys.len() <= usize::MAX,
        key@ == keys[i],
        freq_map_ok(old(m)@, keys, i),
    ensures
        freq_map_ok(final(m)@, keys, i + 1),
{
    let ghost old_m = m@;
    let ghost kv = key@;
    let n: usize = m.len();
    let mut a: usize = 0;
    while a < n
        invariant
            m@ == old_m,
            a <= n == m@.len(),
            0 <= i < keys.len(),
            keys.len() <= usize::MAX,
            kv == key@ && kv == keys[i],
            freq_map_ok(old_m, keys, i),
            forall|b: int| 0 <= b < a ==> #[trigger] old_m[b].0@ != kv,
        decreases n - a,
    {
        if m[a].0.eq(&key) {
            let c: usize = m[a].1;
            proof {
                lemma_count_le(keys, old_m[a as int].0@, i);
                lemma_sum_bound(old_m, a as int, old_m.len() as int);
            }
            m[a] = (key, c + 1);
            proof {
                let new_m = m@;
                let f = |p: (String, usize)| p.0@;
                assert(new_m == old_m.update(a as int, (key, (c + 1) as usize)));
                assert(new_m.map_values(f) =~= distinct_upto(keys, i));
                assert(distinct_upto(keys, i)[a as int] == kv);
                lemma_distinct_membership(keys, i, kv);
                assert(keys.take(i).contains(keys[i]));
                assert(distinct_upto(keys, i + 1) =~= distinct_upto(keys, i));
                lemma_sum_update(old_m, a as int, (key, (c + 1) as usize), old_m.len() as int);
                assert(sum_counts(new_m, new_m.len() as int) == i + 1);
                assert forall|b: int| 0 <= b < new_m.len() implies new_m[b].1 as nat == count_key(
                    keys,
                    #[trigger] new_m[b].0@,
                    i + 1,
                ) by {
                    if b == a {
                        assert(new_m[b].0@ == kv);
                    } else {
                        assert(new_m[b] == old_m[b]);
                        assert(old_m[b].0@ != kv);
                    }
                }
                assert forall|j: int| 0 <= j < i + 1 implies exists|w: int|
                    0 <= w < new_m.len() && #[trigger] new_m[w].0@ == #[trigger] keys[j] by {
                    if j == i {
                        assert(new_m[a as int].0@ == keys[i]);
                    } else {
                        let w = choose|w: int|
                            0 <= w < old_m.len() && #[trigger] old_m[w].0@ == keys[j];
                        assert(new_m[w].0@ == keys[j]);
                    }
                }
                assert forall|x: int, y: int| 0 <= x < y < new_m.len() implies new_m[x].0@
                    != new_m[y].0@ by {
                    assert(new_m[x].0@ == old_m[x].0@);
                    assert(new_m[y].0@ == old_m[y].0@);
                }
            }
            return ;
        }
        a = a + 1;
    }
    m.push((key, 1));
    proof {
        let new_m = m@;
        let f = |p: (String, usize)| p.0@;
        assert(!keys.take(i).contains(kv)) by {
            if keys.take(i).contains(kv) {
                let j = choose|j: int| 0 <= j < i && #[trigger] keys.take(i)[j] == kv;
                assert(keys[j] == kv);
                let w = choose|w: int| 0 <= w < old_m.len() && #[trigger] old_m[w].0@ == keys[j];
                assert(old_m[w].0@ == kv);
            }
        }
        assert(distinct_upto(keys, i + 1) == distinct_upto(keys, i) + seq![keys[i]]);
        assert(new_m.map_values(f) =~= distinct_upto(keys, i + 1));
        lemma_sum_push(old_m, (key, 1usize));
        assert(sum_counts(new_m, new_m.len() as int) == i + 1);
        lemma_count_zero(keys, kv, i);
        assert forall|b: int| 0 <= b < new_m.len() implies new_m[b].1 as nat == count_key(
            keys,
            #[trigger] new_m[b].0@,
            i + 1,
        ) by {
            if b == old_m.len() {
                assert(new_m[b].0@ == kv);
                assert(count_key(keys, kv, i + 1) == count_key(keys, kv, i) + 1);
            } else {
                assert(new_m[b] == old_m[b]);
                assert(old_m[b].0@ != kv);
            }
        }
        assert forall|j: int| 0 <= j < i + 1 implies exists|w: int|
            0 <= w < new_m.len() && #[trigger] new_m[w].0@ == #[trigger] keys[j] by {
            if j == i {
                assert(new_m[old_m.len() as int].0@ == keys[i]);
            } else {
                let w = choose|w: int| 0 <= w < old_m.len() && #[trigger] old_m[w].0@ == keys[j];
                assert(new_m[w].0@ == keys[j]);
            }
        }
        assert forall|x: int, y: int| 0 <= x < y < new_m.len() implies new_m[x].0@ != new_m[y].0@
        by {
            if y < old_m.len() {
                assert(new_m[x].0@ == old_m[x].0@ && new_m[y].0@ == old_m[y].0@);
            } else {
                assert(new_m[x].0@ == old_m[x].0@ && new_m[y].0@ == kv);
            }
        }
    }
}

/// The views of a vector of strings.
pub open spec fn views_of(v: Seq<String>) -> Seq<Seq<char>> {
    v.map_values(|s: String| s@)
}

/// Whether `d` occurs as a dependency entry strictly before position
/// `(i, j)` in the walk over tasks and their dependency lists.
spec fn dep_seen(tasks: Seq<Task>, i: int, j: int, d: Seq<char>) -> bool {
    exists|a: int, b: int|
        0 <= a < tasks.len() && 0 <= b < tasks[a].depends_on@.len() && (a < i || (a == i && b < j))
            && #[trigger] tasks[a].depends_on@[b]@ == d
}

spec fn missing_upto(tasks: Seq<Task>, i: int, j: int) -> Set<Seq<char>> {
    Set::new(|d: Seq<char>| dep_seen(tasks, i, j, d) && !has_task_id(tasks, d))
}

proof fn lemma_dep_seen_next(tasks: Seq<Task>, i: int, j: int, d: Seq<char>)
    requires
        dep_seen(tasks, i, j, d),
    ensures
        dep_seen(tasks, i, j + 1, d),
{
    let (a, b) = choose|a: int, b: int|
        0 <= a < tasks.len() && 0 <= b < tasks[a].depends_on@.len() && (a < i || (a == i && b < j))
            && #[trigger] tasks[a].depends_on@[b]@ == d;
    assert(a < i || (a == i && b < j + 1));
}

/// One step of the dependency walk: the set of missing identifiers seen
/// grows by the current entry exactly when it resolves to no task.
proof fn lemma_missing_upto_step(tasks: Seq<Task>, i: int, j: int)
    requires
        0 <= i < tasks.len(),
        0 <= j < tasks[i].depends_on@.len(),
    ensures
        has_task_id(tasks, tasks[i].depends_on@[j]@) ==> missing_upto(tasks, i, j + 1)
            == missing_upto(tasks, i, j),
        !has_task_id(tasks, tasks[i].depends_on@[j]@) ==> missing_upto(tasks, i, j + 1)
            == missing_upto(tasks, i, j).insert(tasks[i].depends_on@[j]@),
{
    let d0 = tasks[i].depends_on@[j]@;
    assert(dep_seen(tasks, i, j + 1, d0));
    assert forall|d: Seq<char>| dep_seen(tasks, i, j + 1, d) && d != d0 implies dep_seen(
        tasks,
        i,
        j,
        d,
    ) by {
        let (a, b) = choose|a: int, b: int|
            0 <= a < tasks.len() && 0 <= b < tasks[a].depends_on@.len() && (a < i || (a == i && b
                < j + 1)) && #[trigger] tasks[a].depends_on@[b]@ == d;
        assert(!(a == i && b == j));
    }
    assert forall|d: Seq<char>| dep_seen(tasks, i, j, d) implies dep_seen(tasks, i, j + 1, d) by {
        lemma_dep_seen_next(tasks, i, j, d);
    }
    if has_task_id(tasks, d0) {
        assert(missing_upto(tasks, i, j + 1) =~= missing_upto(tasks, i, j));
    } else {
        assert(missing_upto(tasks, i, j + 1) =~= missing_upto(tasks, i, j).insert(d0));
    }
}

/// Dependency resolution finds a status exactly for the identifiers some
/// task carries: a dependency entry can block only by resolving to a task
/// of the collection.
pub proof fn lemma_dep_status_some(tasks: Seq<Task>, id: Seq<char>)
    ensures
        dep_status(tasks, id) is Some <==> has_task_id(tasks, id),
    decreases tasks.len(),
{
    if tasks.len() > 0 {
        if tasks.last().id@ == id {
            assert(tasks[tasks.len() - 1].id@ == id);
        } else {
            lemma_dep_status_some(tasks.drop_last(), id);
            if has_task_id(tasks, id) {
                let w = choose|w: int| 0 <= w < tasks.len() && tasks[w].id@ == id;
                assert(tasks.drop_last()[w] == tasks[w]);
            }
            if has_task_id(tasks.drop_last(), id) {
                let w = choose|w: int|
                    0 <= w < tasks.len() - 1 && tasks.drop_last()[w].id@ == id;
                assert(tasks[w].id@ == id);
            }
        }
    }
}

/// What makes `s` the statistics of a task collection: `total` is the
/// number of tasks; `done` counts the tasks whose status bucket is `done`;
/// `blocked_by_deps` counts the dependency-blocked tasks; `missing_deps`
/// is the number of distinct unresolved dependency identifiers; and each
/// frequency map holds the exact per-bucket counts, keyed in
/// first-appearance order, its counts adding up to the total.
pub open spec fn stats_ok(s: Stats, tasks: Seq<Task>) -> bool {
    &&& s.total == tasks.len()
    &&& s.done as nat == count_key(status_keys(tasks), "done"@, tasks.len() as int)
    &&& s.blocked_by_deps as nat == count_blocked(tasks, tasks.len() as int)
    &&& s.missing_deps as nat == missing_dep_set(tasks).len()
    &&& freq_map_ok(s.by_status@, status_keys(tasks), tasks.len() as int)
    &&& freq_map_ok(s.by_priority@, priority_keys(tasks), tasks.len() as int)
    &&& freq_map_ok(s.by_component@, component_keys(tasks), tasks.len() as int)
}

/// Recompute every statistic of a task collection from scratch.
///
/// The contract pins each field: `total` is the number of tasks; `done`
/// counts the tasks whose status bucket is `done`; `blocked_by_deps`
/// counts the dependency-blocked tasks; `missing_deps` is the number of
/// distinct unresolved dependency identifiers; and each frequency map
/// holds the exact per-bucket counts, keyed in first-appearance order,
/// its counts adding up to the total.
pub fn compute_stats(file: &TaskFile) -> (s: Stats)
    ensures
        stats_ok(s, file.tasks@),
{
    let ghost tseq = file.tasks@;
    let ghost skeys = status_keys(tseq);
    let ghost pkeys = priority_keys(tseq);
    let ghost ckeys = component_keys(tseq);
    let n: usize = file.tasks.len();
    let done_str: String = "done".to_owned();
    let mut by_status: Vec<(String, usize)> = Vec::new();
    let mut by_priority: Vec<(String, usize)> = Vec::new();
    let mut by_component: Vec<(String, usize)> = Vec::new();
    let mut done: usize = 0;
    let mut blocked: usize = 0;
    let mut missing: Vec<String> = Vec::new();
    proof {
        let f = |p: (String, usize)| p.0@;
        assert(by_status@.map_values(f) =~= distinct_upto(skeys, 0));
        assert(by_priority@.map_values(f) =~= distinct_upto(pkeys, 0));
        assert(by_component@.map_values(f) =~= distinct_upto(ckeys, 0));
        assert(views_of(missing@).to_set() =~= missing_upto(tseq, 0, 0));
    }
    let mut i: usize = 0;
    while i < n
        invariant
            tseq == file.tasks@,
            i <= n == tseq.len(),
            skeys == status_keys(tseq),
            pkeys == priority_keys(tseq),
            ckeys == component_keys(tseq),
            done_str@ == "done"@,
            freq_map_ok(by_status@, skeys, i as int),
            freq_map_ok(by_priority@, pkeys, i as int),
            freq_map_ok(by_component@, ckeys, i as int),
            done as nat == count_key(skeys, "done"@, i as int),
            done <= i,
            blocked as nat == count_blocked(tseq, i as int),
            blocked <= i,
            views_of(missing@).no_duplicates(),
            views_of(missing@).to_set() == missing_upto(tseq, i as int, 0),
        decreases n - i,
    {
        proof {
            assert(skeys[i as int] == status_key_of(tseq[i as int]));
            assert(pkeys[i as int] == label_key_of(tseq[i as int].priority));
            assert(ckeys[i as int] == label_key_of(tseq[i as int].component));
        }
        let skey = status_key_exec(&file.tasks[i]);
        let ghost skv = skey@;
        let task_done: bool = skey.eq(&done_str);
        if task_done {
            done = done + 1;
        }
        bump_key(&mut by_status, skey, Ghost(skeys), Ghost(i as int));
        let pkey = label_key_exec(&file.tasks[i].priority);
        bump_key(&mut by_priority, pkey, Ghost(pkeys), Ghost(i as int));
        let ckey = label_key_exec(&file.tasks[i].component);
        bump_key(&mut by_component, ckey, Ghost(ckeys), Ghost(i as int));

        let dn: usize = file.tasks[i].depends_on.len();
        let mut j: usize = 0;
        let mut flag: bool = false;
        while j < dn
            invariant
                tseq == file.tasks@,
                i < n == tseq.len(),
                done_str@ == "done"@,
                dn == tseq[i as int].depends_on@.len(),
                j <= dn,
                flag == exists|b: int|
                    0 <= b < j && #[trigger] dep_blocks(tseq, tseq[i as int].depends_on@[b]@),
                views_of(missing@).no_duplicates(),
                views_of(missing@).to_set() == missing_upto(tseq, i as int, j as int),
            decreases dn - j,
        {
            let dep = &file.tasks[i].depends_on[j];
            let ghost dv = dep@;
            proof {
                lemma_dep_status_some(tseq, dv);
            }
            proof {
                assert(tseq[i as int].depends_on@[j as int]@ == dv);
                lemma_missing_upto_step(tseq, i as int, j as int);
            }
            let found = find_dep_status(&file.tasks, dep);
            match found {
                Some(st) => {
                    if !st.eq(&done_str) {
                        proof {
                            assert(dep_blocks(tseq, tseq[i as int].depends_on@[j as int]@));
                        }
                        flag = true;
                    }
                    proof {
                        assert(has_task_id(tseq, dv));
                    }
                },
                None => {
                    proof {
                        assert(!has_task_id(tseq, dv));
                    }
                    if !contains_string(&missing, dep) {
                        let ghost old_views = views_of(missing@);
                        missing.push(dep.clone());
                        proof {
                            assert(views_of(missing@) =~= old_views.push(dv));
                            assert(old_views.push(dv).no_duplicates());
                            old_views.lemma_push_to_set_commute(dv);
                            assert(views_of(missing@).to_set() == old_views.to_set().insert(dv));
                        }
                    } else {
                        proof {
                            assert(views_of(missing@).to_set().contains(dv));
                            assert(views_of(missing@).to_set().insert(dv) =~= views_of(
                                missing@,
                            ).to_set());
                        }
                    }
                },
            }
            j = j + 1;
        }
        if flag && !task_done {
            blocked = blocked + 1;
        }
        proof {
            assert(is_done(tseq[i as int]) <==> skv == "done"@);
            assert(is_blocked(tseq, tseq[i as int]) <==> (flag && !task_done));
            assert(count_blocked(tseq, i + 1 as int) == count_blocked(tseq, i as int) + if is_blocked(
                tseq,
                tseq[i as int],
            ) {
                1nat
            } else {
                0nat
            });
            assert(count_key(skeys, "done"@, i + 1 as int) == count_key(skeys, "done"@, i as int)
                + if skeys[i as int] == "done"@ {
                1nat
            } else {
                0nat
            });
            assert(missing_upto(tseq, i as int, dn as int) =~= missing_upto(tseq, i + 1 as int, 0))
                by {
                assert forall|d: Seq<char>| dep_seen(tseq, i + 1, 0, d) implies dep_seen(
                    tseq,
                    i as int,
                    dn as int,
                    d,
                ) by {
                    let (a, b) = choose|a: int, b: int|
                        0 <= a < tseq.len() && 0 <= b < tseq[a].depends_on@.len() && (a < i + 1 || (
                        a == i + 1 && b < 0)) && #[trigger] tseq[a].depends_on@[b]@ == d;
                    assert(a < i || (a == i && b < dn));
                }
                assert forall|d: Seq<char>| dep_seen(tseq, i as int, dn as int, d) implies dep_seen(
                    tseq,
                    i + 1,
                    0,
                    d,
                ) by {
                    let (a, b) = choose|a: int, b: int|
                        0 <= a < tseq.len() && 0 <= b < tseq[a].depends_on@.len() && (a < i || (a
                            == i && b < dn)) && #[trigger] tseq[a].depends_on@[b]@ == d;
                    assert(a < i + 1);
                }
            }
        }
        i = i + 1;
    }
    proof {
        assert(views_of(missing@).to_set() =~= missing_dep_set(tseq)) by {
            assert forall|d: Seq<char>| missing_dep_set(tseq).contains(d) implies missing_upto(
                tseq,
                n as int,
                0,
            ).contains(d) by {
                let (a, b) = choose|a: int, b: int|
                    0 <= a < tseq.len() && 0 <= b < tseq[a].depends_on@.len()
                        && #[trigger] tseq[a].depends_on@[b]@ == d;
                assert(dep_seen(tseq, n as int, 0, d));
            }
            assert forall|d: Seq<char>| missing_upto(tseq, n as int, 0).contains(d)
                implies missing_dep_set(tseq).contains(d) by {
                let (a, b) = choose|a: int, b: int|
                    0 <= a < tseq.len() && 0 <= b < tseq[a].depends_on@.len() && (a < n || (a == n
                        && b < 0)) && #[trigger] tseq[a].depends_on@[b]@ == d;
                assert(is_missing_dep(tseq, d));
            }
        }
        views_of(missing@).unique_seq_to_set();
    }
    Stats {
        total: n,
        done,
        blocked_by_deps: blocked,
        missing_deps: missing.len(),
        by_status,
        by_priority,
        by_component,
    }
}

/// One successful load: the parsed collection, where and when it was
/// read (times in milliseconds since an epoch the caller picks), the
/// content fingerprint of the raw bytes, and the derived statistics.
#[derive(Debug, Clone)]
pub struct LoadedTasks {
    pub path: String,
    pub file_mtime: Option<u64>,
    pub loaded_at: u64,
    pub content_hash: u64,
    pub tasks: TaskFile,
    pub stats: Stats,
}

/// Assemble the snapshot of one successful load: fingerprint the raw
/// bytes and derive the statistics, leaving the collection itself as it
/// was parsed.
pub fn build_snapshot(
    path: String,
    file_mtime: Option<u64>,
    loaded_at: u64,
    raw: &[u8],
    tasks: TaskFile,
) -> (r: LoadedTasks)
    ensures
        r.path == path,
        r.file_mtime == file_mtime,
        r.loaded_at == loaded_at,
        r.content_hash == crate::fingerprint::fnv1a_spec(raw@),
        r.tasks == tasks,
        stats_ok(r.stats, tasks.tasks@),
{
    let content_hash = crate::fingerprint::fnv1a_64(raw);
    let stats = compute_stats(&tasks);
    LoadedTasks { path, file_mtime, loaded_at, content_hash, tasks, stats }
}

} // verus!
