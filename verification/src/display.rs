//! Plain-text rendering of counters and frequency maps for the footer:
//! decimal numbers and the `key:count` summary line.

use vstd::prelude::*;
use vstd::string::StringExecFns;

verus! {

/// The decimal digit character for one digit value.
pub open spec fn digit_char(d: nat) -> char {
    ((48 + (d % 10)) as u8) as char
}

/// The usual decimal rendering of a number, most significant digit first,
/// with no leading zeros (a lone zero for zero).
pub open spec fn dec_spec(n: nat) -> Seq<char>
    decreases n,
{
    if n < 10 {
        seq![digit_char(n)]
    } else {
        dec_spec(n / 10).push(digit_char(n % 10))
    }
}

/// Render a count in decimal.
pub fn usize_to_string(n: usize) -> (r: String)
    ensures
        r@ == dec_spec(n as nat),
{
    let mut digits: Vec<char> = Vec::new();
    let mut m: usize = n;
    while m >= 10
        invariant
            dec_spec(n as nat) == dec_spec(m as nat) + digits@.reverse(),
        decreases m,
    {
        let d: usize = m % 10;
        digits.push(digit_char_x(d));
        proof {
            assert(digits@.push(digit_char(d as nat)).reverse() =~= seq![
                digit_char(d as nat),
            ] + digits@.reverse());
            assert(dec_spec(m as nat) == dec_spec((m as nat) / 10).push(
                digit_char((m as nat) % 10),
            ));
            assert(dec_spec((m as nat) / 10).push(digit_char((m as nat) % 10))
                + digits@.reverse() =~= dec_spec((m as nat) / 10) + (seq![
                digit_char(d as nat),
            ] + digits@.reverse()));
        }
        m = m / 10;
    }
    digits.push(digit_char_x(m));
    proof {
        assert(digits@.push(digit_char(m as nat)).reverse() =~= seq![digit_char(m as nat)]
            + digits@.reverse());
        assert(dec_spec(m as nat) =~= seq![digit_char(m as nat)]);
    }
    let mut out = String::new();
    let k: usize = digits.len();
    let mut i: usize = 0;
    while i < k
        invariant
            k == digits@.len(),
            i <= k,
            dec_spec(n as nat) == digits@.reverse(),
            out@ == digits@.reverse().take(i as int),
        decreases k - i,
    {
        let c = digits[k - 1 - i];
        crate::text::push_char(&mut out, c);
        proof {
            assert(digits@.reverse().take(i + 1 as int) =~= digits@.reverse().take(i as int).push(
                digits@[k - 1 - i as int]));
        }
        i = i + 1;
    }
    proof {
        assert(digits@.reverse().take(k as int) =~= digits@.reverse());
    }
    out
}

fn digit_char_x(d: usize) -> (r: char)
    requires
        d < 10,
    ensures
        r == digit_char(d as nat),
{
    ((48 + d as u8)) as char
}

/// One `key:count` cell of the footer summary.
pub open spec fn summary_part(k: Seq<char>, v: nat) -> Seq<char> {
    k + seq![':'] + dec_spec(v)
}

/// The first `k` cells joined with two spaces.
pub open spec fn join_parts(m: Seq<(String, usize)>, k: int) -> Seq<char>
    decreases k,
{
    if k <= 0 {
        Seq::<char>::empty()
    } else if k == 1 {
        summary_part(m[0].0@, m[0].1 as nat)
    } else {
        join_parts(m, k - 1) + "  "@ + summary_part(m[k - 1].0@, m[k - 1].1 as nat)
    }
}

/// What the footer summary shows: every cell when the map is small enough,
/// else the first `max_items` cells and a `+n` cell for the rest.
pub open spec fn summarize_spec(m: Seq<(String, usize)>, max_items: nat) -> Seq<char> {
    if m.len() <= max_items {
        join_parts(m, m.len() as int)
    } else if max_items == 0 {
        seq!['+'] + dec_spec((m.len() - max_items) as nat)
    } else {
        join_parts(m, max_items as int) + "  "@ + (seq!['+'] + dec_spec(
            (m.len() - max_items) as nat,
        ))
    }
}

/// Render a frequency map as `key:count` cells joined by two spaces,
/// keeping at most `max_items` cells and folding the rest into `+n`.
pub fn summarize_map(map: &Vec<(String, usize)>, max_items: usize) -> (r: String)
    ensures
        r@ == summarize_spec(map@, max_items as nat),
{
    let n: usize = map.len();
    let shown: usize = if n <= max_items {
        n
    } else {
        max_items
    };
    let mut out = String::new();
    let mut i: usize = 0;
    while i < shown
        invariant
            shown <= n == map@.len(),
            i <= shown,
            out@ == join_parts(map@, i as int),
        decreases shown - i,
    {
        if i > 0 {
            out.append("  ");
        }
        let pair = &map[i];
        out.append(pair.0.as_str());
        crate::text::push_char(&mut out, ':');
        let count = usize_to_string(pair.1);
        out.append(count.as_str());
        proof {
            if i == 0 {
                assert(out@ =~= join_parts(map@, 1));
            } else {
                assert(out@ =~= join_parts(map@, i + 1 as int));
            }
        }
        i = i + 1;
    }
    if n > max_items {
        if shown > 0 {
            out.append("  ");
        }
        crate::text::push_char(&mut out, '+');
        let extra = usize_to_string(n - max_items);
        out.append(extra.as_str());
        proof {
            assert(out@ =~= summarize_spec(map@, max_items as nat));
        }
    }
    out
}

} // verus!
