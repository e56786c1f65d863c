//! Character-level text helpers: status/label normalization, display
//! truncation.
//!
//! Normalization is `trim`, `lowercase`, and (for statuses) dashes to
//! underscores.  Trimming is specified and proved over the full Unicode
//! white-space set, exactly as `str::trim` removes it.  Lowercasing is
//! proved character by character for ASCII values; for input holding any
//! other character it is the standard library's Unicode mapping, carried
//! under the name `unicode_lower_of`.

use vstd::prelude::*;
use vstd::string::StrSliceExecFns;

verus! {

/// The Unicode White_Space set, the characters `str::trim` removes from
/// both ends of a value.
pub open spec fn is_space(c: char) -> bool {
    let u = c as u32;
    ||| u == 9
    ||| u == 10
    ||| u == 11
    ||| u == 12
    ||| u == 13
    ||| u == 32
    ||| u == 0x85
    ||| u == 0xA0
    ||| u == 0x1680
    ||| (0x2000 <= u && u <= 0x200A)
    ||| u == 0x2028
    ||| u == 0x2029
    ||| u == 0x202F
    ||| u == 0x205F
    ||| u == 0x3000
}

/// Whether one character is ASCII.
pub open spec fn is_ascii_char(c: char) -> bool {
    (c as u32) < 128
}

/// Whether every character of the sequence is ASCII.
pub open spec fn ascii_seq(s: Seq<char>) -> bool {
    forall|i: int| 0 <= i < s.len() ==> is_ascii_char(#[trigger] s[i])
}

/// ASCII lowercasing of one character; everything else is unchanged.
/// On ASCII values this is exactly what Unicode lowercasing does.
pub open spec fn lower_char(c: char) -> char {
    if 65 <= c as u32 && c as u32 <= 90 {
        (((c as u32) + 32) as u8) as char
    } else {
        c
    }
}

/// A dash becomes an underscore; everything else is unchanged.
pub open spec fn dash_char(c: char) -> char {
    if c == '-' {
        '_'
    } else {
        c
    }
}

/// One character of ASCII status normalization: lowercase, then dash to
/// underscore.
pub open spec fn norm_char(c: char) -> char {
    if c == '-' {
        '_'
    } else {
        lower_char(c)
    }
}

pub open spec fn trim_front(s: Seq<char>) -> Seq<char>
    decreases s.len(),
{
    if s.len() > 0 && is_space(s[0]) {
        trim_front(s.subrange(1, s.len() as int))
    } else {
        s
    }
}

pub open spec fn trim_back(s: Seq<char>) -> Seq<char>
    decreases s.len(),
{
    if s.len() > 0 && is_space(s.last()) {
        trim_back(s.drop_last())
    } else {
        s
    }
}

/// White space trimmed from both ends, the way `str::trim` does.
pub open spec fn trim_spec(s: Seq<char>) -> Seq<char> {
    trim_back(trim_front(s))
}

/// What `str::to_lowercase` returns for a string with these characters:
/// the Unicode lowercase mapping, a function of the characters alone.
pub uninterp spec fn unicode_lower_of(s: Seq<char>) -> Seq<char>;

/// Relies on `str::to_lowercase`: the Unicode lowercase mapping of the
/// string, depending on its characters alone.
#[verifier::external_body]
fn unicode_lowercase(s: &str) -> (r: String)
    ensures
        r@ == unicode_lower_of(s@),
{
    s.to_lowercase()
}

/// The lowercase mapping normalization uses: the per-character ASCII
/// mapping on all-ASCII values — where the Unicode mapping agrees with
/// it — and the Unicode mapping itself everywhere else.
pub open spec fn lower_spec(s: Seq<char>) -> Seq<char> {
    if ascii_seq(s) {
        s.map_values(|c: char| lower_char(c))
    } else {
        unicode_lower_of(s)
    }
}

/// Every dash replaced by an underscore.
pub open spec fn dash_to_underscore(s: Seq<char>) -> Seq<char> {
    s.map_values(|c: char| dash_char(c))
}

/// Status normalization: trim, lowercase, dashes to underscores.
pub open spec fn normalize_status_spec(s: Seq<char>) -> Seq<char> {
    dash_to_underscore(lower_spec(trim_spec(s)))
}

/// Label normalization for priorities and components: trim and lowercase.
pub open spec fn normalize_label_spec(s: Seq<char>) -> Seq<char> {
    lower_spec(trim_spec(s))
}

fn is_space_x(c: char) -> (r: bool)
    ensures
        r == is_space(c),
{
    let u: u32 = c as u32;
    u == 9 || u == 10 || u == 11 || u == 12 || u == 13 || u == 32 || u == 0x85 || u == 0xA0 || u
        == 0x1680 || (0x2000 <= u && u <= 0x200A) || u == 0x2028 || u == 0x2029 || u == 0x202F || u
        == 0x205F || u == 0x3000
}

fn lower_char_x(c: char) -> (r: char)
    ensures
        r == lower_char(c),
{
    let u: u32 = c as u32;
    if 65 <= u && u <= 90 {
        ((u + 32) as u8) as char
    } else {
        c
    }
}

fn norm_char_x(c: char) -> (r: char)
    ensures
        r == norm_char(c),
{
    if c == '-' {
        '_'
    } else {
        lower_char_x(c)
    }
}

fn dash_char_x(c: char) -> (r: char)
    ensures
        r == dash_char(c),
{
    if c == '-' {
        '_'
    } else {
        c
    }
}

/// Relies on `String::push`: appends exactly the one character.
#[verifier::external_body]
pub(crate) fn push_char(s: &mut String, c: char)
    ensures
        final(s)@ == old(s)@.push(c),
{
    s.push(c);
}

/// The characters of a string, in order.
fn chars_of(s: &str) -> (v: Vec<char>)
    ensures
        v@ == s@,
{
    let n: usize = s.unicode_len();
    let mut v: Vec<char> = Vec::new();
    let mut i: usize = 0;
    while i < n
        invariant
            n == s@.len(),
            i <= n,
            v@ == s@.take(i as int),
        decreases n - i,
    {
        v.push(s.get_char(i));
        proof {
            assert(s@.take(i + 1 as int) =~= s@.take(i as int).push(s@[i as int]));
        }
        i = i + 1;
    }
    proof {
        assert(s@.take(n as int) =~= s@);
    }
    v
}

proof fn lemma_trim_front_skip(s: Seq<char>, k: int)
    requires
        0 <= k <= s.len(),
        forall|i: int| 0 <= i < k ==> is_space(s[i]),
        k == s.len() || !is_space(s[k]),
    ensures
        trim_front(s) == s.skip(k),
    decreases k,
{
    if k == 0 {
        assert(s.skip(0) =~= s);
    } else {
        let t = s.subrange(1, s.len() as int);
        assert(forall|i: int| 0 <= i < k - 1 ==> is_space(t[i]));
        lemma_trim_front_skip(t, k - 1);
        assert(t.skip(k - 1) =~= s.skip(k));
    }
}

proof fn lemma_trim_back_take(s: Seq<char>, k: int)
    requires
        0 <= k <= s.len(),
        forall|i: int| k <= i < s.len() ==> is_space(s[i]),
        k == 0 || !is_space(s[k - 1]),
    ensures
        trim_back(s) == s.take(k),
    decreases s.len(),
{
    if k == s.len() {
        assert(s.take(k) =~= s);
        if s.len() > 0 {
            assert(!is_space(s.last()));
        }
    } else {
        assert(is_space(s.last()));
        lemma_trim_back_take(s.drop_last(), k);
    }
}

/// Trim bounds of a character vector: the least index range holding every
/// non-space character, so that the trimmed value is `v@.subrange(start, end)`.
fn trim_bounds(v: &Vec<char>) -> (r: (usize, usize))
    ensures
        r.0 <= r.1 <= v@.len(),
        trim_spec(v@) == v@.subrange(r.0 as int, r.1 as int),
{
    let n: usize = v.len();
    let mut start: usize = 0;
    while start < n && is_space_x(v[start])
        invariant
            n == v@.len(),
            start <= n,
            forall|i: int| 0 <= i < start ==> is_space(v@[i]),
        decreases n - start,
    {
        start = start + 1;
    }
    proof {
        lemma_trim_front_skip(v@, start as int);
    }
    let mut end: usize = n;
    while end > start && is_space_x(v[end - 1])
        invariant
            start <= end <= n,
            n == v@.len(),
            forall|i: int| end <= i < n ==> is_space(v@[i]),
        decreases end,
    {
        end = end - 1;
    }
    proof {
        let t = v@.skip(start as int);
        assert(forall|i: int| end - start <= i < t.len() ==> is_space(t[i]));
        if end > start {
            assert(!is_space(t[end - start - 1]));
        }
        lemma_trim_back_take(t, end - start);
        assert(t.take(end - start) =~= v@.subrange(start as int, end as int));
    }
    (start, end)
}

/// Whether every character of `v[start..end]` is ASCII.
fn range_is_ascii(v: &Vec<char>, start: usize, end: usize) -> (r: bool)
    requires
        start <= end <= v@.len(),
    ensures
        r == ascii_seq(v@.subrange(start as int, end as int)),
{
    let ghost sub = v@.subrange(start as int, end as int);
    let mut i: usize = start;
    while i < end
        invariant
            start <= i <= end <= v@.len(),
            sub == v@.subrange(start as int, end as int),
            forall|a: int| start <= a < i ==> is_ascii_char(#[trigger] v@[a]),
        decreases end - i,
    {
        if (v[i] as u32) >= 128 {
            proof {
                assert(sub[i - start] == v@[i as int]);
            }
            return false;
        }
        i = i + 1;
    }
    proof {
        assert forall|a: int| 0 <= a < sub.len() implies is_ascii_char(#[trigger] sub[a]) by {
            assert(sub[a] == v@[start + a]);
        }
    }
    true
}

/// The characters of `v[start..end]`, as a string.
fn string_of_range(v: &Vec<char>, start: usize, end: usize) -> (r: String)
    requires
        start <= end <= v@.len(),
    ensures
        r@ == v@.subrange(start as int, end as int),
{
    let mut out = String::new();
    let mut i: usize = start;
    while i < end
        invariant
            start <= i <= end <= v@.len(),
            out@ == v@.subrange(start as int, i as int),
        decreases end - i,
    {
        push_char(&mut out, v[i]);
        proof {
            assert(v@.subrange(start as int, i + 1 as int) =~= v@.subrange(
                start as int,
                i as int,
            ).push(v@[i as int]));
        }
        i = i + 1;
    }
    out
}

/// Every dash of the string replaced by an underscore.
fn replace_dashes(s: &str) -> (r: String)
    ensures
        r@ == dash_to_underscore(s@),
{
    let v = chars_of(s);
    let n: usize = v.len();
    let mut out = String::new();
    let mut i: usize = 0;
    while i < n
        invariant
            i <= n == v@.len(),
            v@ == s@,
            out@ == v@.take(i as int).map_values(|c: char| dash_char(c)),
        decreases n - i,
    {
        let c = dash_char_x(v[i]);
        push_char(&mut out, c);
        proof {
            assert(v@.take(i + 1 as int).map_values(|c: char| dash_char(c)) =~= v@.take(
                i as int,
            ).map_values(|c: char| dash_char(c)).push(dash_char(v@[i as int])));
        }
        i = i + 1;
    }
    proof {
        assert(v@.take(n as int) =~= v@);
    }
    out
}

/// Normalize a status value: trim white space, lowercase, and replace
/// each dash by an underscore, so that case and dash variants of one
/// status collapse to the same key.
pub fn normalize_status(raw: &str) -> (r: String)
    ensures
        r@ == normalize_status_spec(raw@),
{
    let v = chars_of(raw);
    let (start, end) = trim_bounds(&v);
    let ghost t = trim_spec(raw@);
    if range_is_ascii(&v, start, end) {
        let mut out = String::new();
        let mut i: usize = start;
        while i < end
            invariant
                start <= i <= end <= v@.len(),
                out@ == v@.subrange(start as int, i as int).map_values(|c: char| norm_char(c)),
            decreases end - i,
        {
            let c = norm_char_x(v[i]);
            push_char(&mut out, c);
            proof {
                assert(v@.subrange(start as int, i + 1 as int).map_values(|c: char| norm_char(c))
                    =~= v@.subrange(start as int, i as int).map_values(|c: char| norm_char(c)).push(
                    norm_char(v@[i as int])));
            }
            i = i + 1;
        }
        proof {
            assert(lower_spec(t) == t.map_values(|c: char| lower_char(c)));
            assert(out@ =~= dash_to_underscore(lower_spec(t))) by {
                assert forall|a: int| 0 <= a < t.len() implies #[trigger] dash_char(
                    lower_char(t[a]),
                ) == norm_char(t[a]) by {
                    lemma_norm_char_facts(t[a]);
                }
            }
        }
        out
    } else {
        let trimmed = string_of_range(&v, start, end);
        let low = unicode_lowercase(trimmed.as_str());
        proof {
            assert(lower_spec(t) == unicode_lower_of(t));
        }
        replace_dashes(low.as_str())
    }
}

/// Normalize a priority or component label: trim white space and
/// lowercase.
pub fn normalize_label(raw: &str) -> (r: String)
    ensures
        r@ == normalize_label_spec(raw@),
{
    let v = chars_of(raw);
    let (start, end) = trim_bounds(&v);
    let ghost t = trim_spec(raw@);
    if range_is_ascii(&v, start, end) {
        let mut out = String::new();
        let mut i: usize = start;
        while i < end
            invariant
                start <= i <= end <= v@.len(),
                out@ == v@.subrange(start as int, i as int).map_values(|c: char| lower_char(c)),
            decreases end - i,
        {
            let c = lower_char_x(v[i]);
            push_char(&mut out, c);
            proof {
                assert(v@.subrange(start as int, i + 1 as int).map_values(|c: char| lower_char(c))
                    =~= v@.subrange(start as int, i as int).map_values(
                    |c: char| lower_char(c),
                ).push(lower_char(v@[i as int])));
            }
            i = i + 1;
        }
        proof {
            assert(lower_spec(t) == t.map_values(|c: char| lower_char(c)));
        }
        out
    } else {
        let trimmed = string_of_range(&v, start, end);
        proof {
            assert(lower_spec(t) == unicode_lower_of(t));
        }
        unicode_lowercase(trimmed.as_str())
    }
}

proof fn lemma_norm_char_facts(c: char)
    ensures
        dash_char(lower_char(c)) == norm_char(c),
        norm_char(norm_char(c)) == norm_char(c),
        lower_char(lower_char(c)) == lower_char(c),
        is_space(norm_char(c)) ==> is_space(c),
        is_space(lower_char(c)) ==> is_space(c),
        is_ascii_char(c) ==> is_ascii_char(norm_char(c)),
        is_ascii_char(c) ==> is_ascii_char(lower_char(c)),
{
    if 65 <= c as u32 && c as u32 <= 90 {
        let d = (((c as u32) + 32) as u8) as char;
        assert(d as u32 == (c as u32) + 32);
    }
}

proof fn lemma_trim_back_prefix(s: Seq<char>)
    ensures
        trim_back(s).len() <= s.len(),
        forall|i: int| 0 <= i < trim_back(s).len() ==> trim_back(s)[i] == s[i],
        trim_back(s).len() > 0 ==> !is_space(trim_back(s).last()),
    decreases s.len(),
{
    if s.len() > 0 && is_space(s.last()) {
        lemma_trim_back_prefix(s.drop_last());
        assert forall|i: int| 0 <= i < trim_back(s).len() implies trim_back(s)[i] == s[i] by {
            assert(trim_back(s)[i] == s.drop_last()[i]);
        }
    }
}

proof fn lemma_trim_front_nospace_head(s: Seq<char>)
    ensures
        trim_front(s).len() > 0 ==> !is_space(trim_front(s)[0]),
    decreases s.len(),
{
    if s.len() > 0 && is_space(s[0]) {
        lemma_trim_front_nospace_head(s.subrange(1, s.len() as int));
    }
}

/// The trimmed value starts and ends with a non-space character.
proof fn lemma_trim_spec_ends(s: Seq<char>)
    ensures
        trim_spec(s).len() > 0 ==> !is_space(trim_spec(s)[0]),
        trim_spec(s).len() > 0 ==> !is_space(trim_spec(s).last()),
{
    lemma_trim_front_nospace_head(s);
    lemma_trim_back_prefix(trim_front(s));
}

proof fn lemma_trim_noop(s: Seq<char>)
    requires
        s.len() > 0 ==> !is_space(s[0]),
        s.len() > 0 ==> !is_space(s.last()),
    ensures
        trim_spec(s) == s,
{
}

proof fn lemma_trim_front_ascii(s: Seq<char>)
    requires
        ascii_seq(s),
    ensures
        ascii_seq(trim_front(s)),
    decreases s.len(),
{
    if s.len() > 0 && is_space(s[0]) {
        let t = s.subrange(1, s.len() as int);
        assert(ascii_seq(t)) by {
            assert forall|i: int| 0 <= i < t.len() implies is_ascii_char(#[trigger] t[i]) by {
                assert(t[i] == s[i + 1]);
            }
        }
        lemma_trim_front_ascii(t);
    }
}

proof fn lemma_trim_back_ascii(s: Seq<char>)
    requires
        ascii_seq(s),
    ensures
        ascii_seq(trim_back(s)),
    decreases s.len(),
{
    if s.len() > 0 && is_space(s.last()) {
        assert(ascii_seq(s.drop_last())) by {
            assert forall|i: int| 0 <= i < s.len() - 1 implies is_ascii_char(
                #[trigger] s.drop_last()[i],
            ) by {
                assert(s.drop_last()[i] == s[i]);
            }
        }
        lemma_trim_back_ascii(s.drop_last());
    }
}

/// Status normalization is idempotent on ASCII values: normalizing an
/// already-normalized status changes nothing, so case and dash variants
/// of one status collapse to a single stable key.  For input holding a
/// non-ASCII character the lowercase step is the Unicode mapping
/// `unicode_lower_of`, of which the library assumes nothing, so no
/// idempotence is stated there.
pub proof fn lemma_normalize_status_idempotent(s: Seq<char>)
    requires
        ascii_seq(s),
    ensures
        normalize_status_spec(normalize_status_spec(s)) == normalize_status_spec(s),
{
    let t = trim_spec(s);
    lemma_trim_front_ascii(s);
    lemma_trim_back_ascii(trim_front(s));
    assert(lower_spec(t) == t.map_values(|c: char| lower_char(c)));
    let m = t.map_values(|c: char| norm_char(c));
    assert(normalize_status_spec(s) == m) by {
        assert(dash_to_underscore(t.map_values(|c: char| lower_char(c))) =~= m) by {
            assert forall|i: int| 0 <= i < t.len() implies #[trigger] dash_char(lower_char(t[i]))
                == norm_char(t[i]) by {
                lemma_norm_char_facts(t[i]);
            }
        }
    }
    assert(ascii_seq(m)) by {
        assert forall|i: int| 0 <= i < m.len() implies is_ascii_char(#[trigger] m[i]) by {
            lemma_norm_char_facts(t[i]);
        }
    }
    lemma_trim_spec_ends(s);
    if m.len() > 0 {
        lemma_norm_char_facts(t[0]);
        lemma_norm_char_facts(t[t.len() - 1]);
        assert(m[0] == norm_char(t[0]));
        assert(m.last() == norm_char(t.last()));
    }
    lemma_trim_noop(m);
    assert(lower_spec(m) == m.map_values(|c: char| lower_char(c)));
    assert(dash_to_underscore(m.map_values(|c: char| lower_char(c))) =~= m) by {
        assert forall|i: int| 0 <= i < m.len() implies #[trigger] dash_char(lower_char(m[i]))
            == m[i] by {
            lemma_norm_char_facts(t[i]);
            lemma_norm_char_facts(m[i]);
            assert(m[i] == norm_char(t[i]));
        }
    }
}

/// Label normalization is idempotent on ASCII values, in the same way.
pub proof fn lemma_normalize_label_idempotent(s: Seq<char>)
    requires
        ascii_seq(s),
    ensures
        normalize_label_spec(normalize_label_spec(s)) == normalize_label_spec(s),
{
    let t = trim_spec(s);
    lemma_trim_front_ascii(s);
    lemma_trim_back_ascii(trim_front(s));
    assert(lower_spec(t) == t.map_values(|c: char| lower_char(c)));
    let m = t.map_values(|c: char| lower_char(c));
    assert(ascii_seq(m)) by {
        assert forall|i: int| 0 <= i < m.len() implies is_ascii_char(#[trigger] m[i]) by {
            lemma_norm_char_facts(t[i]);
        }
    }
    lemma_trim_spec_ends(s);
    if m.len() > 0 {
        lemma_norm_char_facts(t[0]);
        lemma_norm_char_facts(t[t.len() - 1]);
        assert(m[0] == lower_char(t[0]));
        assert(m.last() == lower_char(t.last()));
    }
    lemma_trim_noop(m);
    assert(lower_spec(m) == m.map_values(|c: char| lower_char(c)));
    assert(m.map_values(|c: char| lower_char(c)) =~= m) by {
        assert forall|i: int| 0 <= i < m.len() implies lower_char(m[i]) == m[i] by {
            lemma_norm_char_facts(t[i]);
        }
    }
}

/// What `truncate` returns: the string itself when it fits, else one
/// character short of the limit with an ellipsis appended.
pub open spec fn truncate_spec(s: Seq<char>, max: nat) -> Seq<char> {
    if max == 0 {
        Seq::<char>::empty()
    } else if s.len() <= max {
        s
    } else {
        s.take(max - 1).push('…')
    }
}

/// Cut a string down to at most `max` characters for display, marking the
/// cut with an ellipsis.
pub fn truncate(s: &str, max: usize) -> (r: String)
    ensures
        r@ == truncate_spec(s@, max as nat),
{
    if max == 0 {
        return String::new();
    }
    let v = chars_of(s);
    if v.len() <= max {
        return s.to_owned();
    }
    let mut out = String::new();
    let mut i: usize = 0;
    while i < max - 1
        invariant
            max >= 1,
            max - 1 <= v@.len(),
            i <= max - 1,
            v@ == s@,
            out@ == v@.take(i as int),
        decreases max - i,
    {
        push_char(&mut out, v[i]);
        proof {
            assert(v@.take(i + 1 as int) =~= v@.take(i as int).push(v@[i as int]));
        }
        i = i + 1;
    }
    push_char(&mut out, '…');
    out
}

} // verus!
