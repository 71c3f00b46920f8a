//! Natural ordering for scraped filenames.
//!
//! Chapter folders in the wild are inconsistent: `01.jpg.jpeg` in one chapter,
//! `01_14.jpg.jpeg` in the next. Plain lexicographic order puts `10` before `2`,
//! so runs of digits are compared numerically and everything else by character,
//! ignoring ASCII case.
use vstd::prelude::*;

use crate::text::{chars_of, is_digit, lower, to_lower};
use core::cmp::Ordering;

verus! {

/// The numeric value of a run of decimal digits.
pub open spec fn digits_value(s: Seq<char>) -> nat
    decreases s.len(),
{
    if s.len() == 0 {
        0
    } else {
        digits_value(s.drop_last()) * 10 + ((s.last() as int) - ('0' as int)) as nat
    }
}

/// A digit run's value, capped at the largest `u128` rather than overflowing.
pub open spec fn saturated(v: nat) -> nat {
    if v > u128::MAX { u128::MAX as nat } else { v }
}

/// How many digits the sequence starts with.
pub open spec fn leading_digits(s: Seq<char>) -> nat
    decreases s.len(),
{
    if s.len() > 0 && is_digit(s[0]) {
        1 + leading_digits(s.drop_first())
    } else {
        0
    }
}

/// How many digits the sequence ends with.
pub open spec fn trailing_digits(s: Seq<char>) -> nat
    decreases s.len(),
{
    if s.len() > 0 && is_digit(s.last()) {
        1 + trailing_digits(s.drop_last())
    } else {
        0
    }
}

/// Natural order of two names: negative, zero or positive.
///
/// At each step, when both names continue with a digit the two digit runs are
/// compared by (saturated) value and then skipped; otherwise one character of
/// each is compared after ASCII lowercasing.
pub open spec fn natural_order(a: Seq<char>, b: Seq<char>) -> int
    decreases a.len() + b.len(),
{
    if a.len() == 0 && b.len() == 0 {
        0
    } else if a.len() == 0 {
        -1
    } else if b.len() == 0 {
        1
    } else if is_digit(a[0]) && is_digit(b[0]) {
        let la = leading_digits(a);
        let lb = leading_digits(b);
        let va = saturated(digits_value(a.take(la as int)));
        let vb = saturated(digits_value(b.take(lb as int)));
        if va < vb {
            -1
        } else if va > vb {
            1
        } else if la > 0 && lb > 0 {
            proof {
                lemma_leading_digits_bound(a);
                lemma_leading_digits_bound(b);
            }
            natural_order(a.skip(la as int), b.skip(lb as int))
        } else {
            0
        }
    } else if lower(a[0]) < lower(b[0]) {
        -1
    } else if lower(a[0]) > lower(b[0]) {
        1
    } else {
        natural_order(a.skip(1), b.skip(1))
    }
}

/// The first digit run's value, saturated; `None` when there is no digit.
pub open spec fn leading_number_of(s: Seq<char>) -> Option<nat>
    decreases s.len(),
{
    if s.len() == 0 {
        None
    } else if is_digit(s[0]) {
        Some(saturated(digits_value(s.take(leading_digits(s) as int))))
    } else {
        leading_number_of(s.drop_first())
    }
}

/// The last digit run's value, or `None` when there is no digit or the run
/// does not fit a `u128`.
pub open spec fn trailing_number_of(s: Seq<char>) -> Option<nat>
    decreases s.len(),
{
    if s.len() == 0 {
        None
    } else if is_digit(s.last()) {
        let v = digits_value(s.skip(s.len() - trailing_digits(s)));
        if v <= u128::MAX { Some(v) } else { None }
    } else {
        trailing_number_of(s.drop_last())
    }
}

pub proof fn lemma_leading_digits_bound(s: Seq<char>)
    ensures
        leading_digits(s) <= s.len(),
        forall|k: int| 0 <= k < leading_digits(s) ==> #[trigger] is_digit(s[k]),
        leading_digits(s) < s.len() ==> !is_digit(s[leading_digits(s) as int]),
    decreases s.len(),
{
    if s.len() > 0 && is_digit(s[0]) {
        lemma_leading_digits_bound(s.drop_first());
        assert forall|k: int| 0 <= k < leading_digits(s) implies #[trigger] is_digit(s[k]) by {
            if k > 0 {
                assert(s[k] == s.drop_first()[k - 1]);
            }
        }
    }
}

/// A digit run found by scanning is exactly what `leading_digits` counts.
proof fn lemma_leading_digits_scan(s: Seq<char>, n: int)
    requires
        0 <= n <= s.len(),
        forall|k: int| 0 <= k < n ==> #[trigger] is_digit(s[k]),
        n == s.len() || !is_digit(s[n]),
    ensures
        leading_digits(s) == n,
    decreases n,
{
    if n > 0 {
        let t = s.drop_first();
        assert forall|k: int| 0 <= k < n - 1 implies #[trigger] is_digit(t[k]) by {
            assert(t[k] == s[k + 1]);
        }
        if n - 1 < t.len() {
            assert(t[n - 1] == s[n]);
        }
        lemma_leading_digits_scan(t, n - 1);
    }
}

proof fn lemma_trailing_digits_scan(s: Seq<char>, start: int)
    requires
        0 <= start <= s.len(),
        forall|k: int| start <= k < s.len() ==> #[trigger] is_digit(s[k]),
        start == 0 || !is_digit(s[start - 1]),
    ensures
        trailing_digits(s) == s.len() - start,
    decreases s.len() - start,
{
    if start < s.len() {
        let t = s.drop_last();
        assert forall|k: int| start <= k < t.len() implies #[trigger] is_digit(t[k]) by {
            assert(t[k] == s[k]);
        }
        if start > 0 {
            assert(t[start - 1] == s[start - 1]);
        }
        lemma_trailing_digits_scan(t, start);
    }
}

proof fn lemma_value_grows(s: Seq<char>, c: char)
    requires
        is_digit(c),
    ensures
        digits_value(s.push(c)) >= digits_value(s),
        digits_value(s.push(c)) == digits_value(s) * 10 + ((c as int) - ('0' as int)),
{
    assert(s.push(c).drop_last() =~= s);
}

/// Read the digit run starting at `start`: its value, saturated at the largest
/// `u128`, and the index just past it.
fn take_number(s: &Vec<char>, start: usize) -> (r: (u128, usize))
    requires
        start < s@.len(),
        is_digit(s@[start as int]),
    ensures
        r.1 == start + leading_digits(s@.skip(start as int)),
        start < r.1 <= s@.len(),
        r.0 == saturated(digits_value(s@.subrange(start as int, r.1 as int))),
{
    let mut end = start;
    let mut value: u128 = 0;
    let mut over = false;
    while end < s.len() && '0' <= s[end] && s[end] <= '9'
        invariant
            start <= end <= s@.len(),
            forall|k: int| start <= k < end ==> #[trigger] is_digit(s@[k]),
            !over ==> value == digits_value(s@.subrange(start as int, end as int)),
            over ==> digits_value(s@.subrange(start as int, end as int)) > u128::MAX,
        decreases s@.len() - end,
    {
        let c = s[end];
        let digit = ((c as u32) - ('0' as u32)) as u128;
        proof {
            lemma_value_grows(s@.subrange(start as int, end as int), c);
            assert(s@.subrange(start as int, end as int).push(c) =~= s@.subrange(
                start as int,
                end + 1,
            ));
        }
        if !over {
            match value.checked_mul(10) {
                Some(m) => match m.checked_add(digit) {
                    Some(v) => {
                        value = v;
                    },
                    None => {
                        over = true;
                    },
                },
                None => {
                    over = true;
                },
            }
        }
        end = end + 1;
    }
    proof {
        let t = s@.skip(start as int);
        assert forall|k: int| 0 <= k < end - start implies #[trigger] is_digit(t[k]) by {
            assert(t[k] == s@[start + k]);
        }
        if end < s@.len() {
            assert(t[end - start] == s@[end as int]);
        }
        lemma_leading_digits_scan(t, end - start);
    }
    if over {
        (u128::MAX, end)
    } else {
        (value, end)
    }
}

/// Natural order of two strings as a sign: -1, 0 or 1.
pub fn natural_sign(a: &str, b: &str) -> (r: i8)
    ensures
        r as int == natural_order(a@, b@),
{
    let x = chars_of(a);
    let y = chars_of(b);
    let mut i: usize = 0;
    let mut j: usize = 0;
    proof {
        assert(x@.skip(0) =~= x@);
        assert(y@.skip(0) =~= y@);
    }
    loop
        invariant
            i <= x@.len(),
            j <= y@.len(),
            x@ == a@,
            y@ == b@,
            natural_order(a@, b@) == natural_order(x@.skip(i as int), y@.skip(j as int)),
        decreases x@.len() + y@.len() - i - j,
    {
        let ghost xs = x@.skip(i as int);
        let ghost ys = y@.skip(j as int);
        if i == x.len() && j == y.len() {
            return 0;
        }
        if i == x.len() {
            return -1;
        }
        if j == y.len() {
            return 1;
        }
        let c = x[i];
        let d = y[j];
        assert(xs[0] == c);
        assert(ys[0] == d);
        if '0' <= c && c <= '9' && '0' <= d && d <= '9' {
            let (va, ie) = take_number(&x, i);
            let (vb, je) = take_number(&y, j);
            proof {
                assert(xs.take(ie - i) =~= x@.subrange(i as int, ie as int));
                assert(ys.take(je - j) =~= y@.subrange(j as int, je as int));
                assert(xs.skip(ie - i) =~= x@.skip(ie as int));
                assert(ys.skip(je - j) =~= y@.skip(je as int));
            }
            if va < vb {
                return -1;
            }
            if va > vb {
                return 1;
            }
            i = ie;
            j = je;
        } else {
            let lc = to_lower(c);
            let ld = to_lower(d);
            if lc < ld {
                return -1;
            }
            if lc > ld {
                return 1;
            }
            proof {
                assert(xs.skip(1) =~= x@.skip(i + 1));
                assert(ys.skip(1) =~= y@.skip(j + 1));
            }
            i = i + 1;
            j = j + 1;
        }
    }
}

/// Compare two strings treating embedded digit runs as numbers.
pub fn natural_cmp(a: &str, b: &str) -> (r: Ordering)
    ensures
        (r == Ordering::Less) <==> natural_order(a@, b@) < 0,
        (r == Ordering::Equal) <==> natural_order(a@, b@) == 0,
        (r == Ordering::Greater) <==> natural_order(a@, b@) > 0,
{
    let s = natural_sign(a, b);
    if s < 0 {
        Ordering::Less
    } else if s == 0 {
        Ordering::Equal
    } else {
        Ordering::Greater
    }
}

/// The value of `s[start..end]`, or `None` when it does not fit a `u128`.
pub fn digits_in(s: &Vec<char>, start: usize, end: usize) -> (r: Option<u128>)
    requires
        start <= end <= s@.len(),
        forall|k: int| start <= k < end ==> #[trigger] is_digit(s@[k]),
    ensures
        match r {
            Some(v) => v as nat == digits_value(s@.subrange(start as int, end as int)),
            None => digits_value(s@.subrange(start as int, end as int)) > u128::MAX,
        },
{
    let mut i = start;
    let mut value: u128 = 0;
    while i < end
        invariant
            start <= i <= end <= s@.len(),
            forall|k: int| start <= k < end ==> #[trigger] is_digit(s@[k]),
            value == digits_value(s@.subrange(start as int, i as int)),
        decreases end - i,
    {
        let c = s[i];
        assert(is_digit(s@[i as int]));
        let digit = ((c as u32) - ('0' as u32)) as u128;
        proof {
            lemma_value_grows(s@.subrange(start as int, i as int), c);
            assert(s@.subrange(start as int, i as int).push(c) =~= s@.subrange(
                start as int,
                i + 1,
            ));
        }
        let m = match value.checked_mul(10) {
            Some(m) => m,
            None => {
                proof {
                    lemma_value_prefix_bound(s@.subrange(start as int, end as int), i - start + 1);
                    assert(s@.subrange(start as int, end as int).take(i - start + 1) =~= s@.subrange(
                        start as int,
                        i + 1,
                    ));
                }
                return None;
            },
        };
        value = match m.checked_add(digit) {
            Some(v) => v,
            None => {
                proof {
                    lemma_value_prefix_bound(s@.subrange(start as int, end as int), i - start + 1);
                    assert(s@.subrange(start as int, end as int).take(i - start + 1) =~= s@.subrange(
                        start as int,
                        i + 1,
                    ));
                }
                return None;
            },
        };
        i = i + 1;
    }
    Some(value)
}

/// A digit run is worth at least any of its prefixes.
proof fn lemma_value_prefix_bound(s: Seq<char>, n: int)
    requires
        0 <= n <= s.len(),
        forall|k: int| 0 <= k < s.len() ==> #[trigger] is_digit(s[k]),
    ensures
        digits_value(s) >= digits_value(s.take(n)),
    decreases s.len(),
{
    if n < s.len() {
        let t = s.drop_last();
        assert forall|k: int| 0 <= k < t.len() implies #[trigger] is_digit(t[k]) by {
            assert(t[k] == s[k]);
        }
        lemma_value_prefix_bound(t, n);
        assert(t.take(n) =~= s.take(n));
        assert(t.push(s.last()) =~= s);
        lemma_value_grows(t, s.last());
    } else {
        assert(s.take(n) =~= s);
    }
}

/// The first digit run in a string, used to order chapter folders like
/// `itch-the-witch-ch7`. An oversized run saturates rather than failing.
pub fn leading_number(s: &str) -> (r: Option<u128>)
    ensures
        match r {
            Some(v) => leading_number_of(s@) == Some(v as nat),
            None => leading_number_of(s@) is None,
        },
{
    let x = chars_of(s);
    let mut i: usize = 0;
    proof {
        assert(x@.skip(0) =~= x@);
    }
    while i < x.len() && !('0' <= x[i] && x[i] <= '9')
        invariant
            i <= x@.len(),
            x@ == s@,
            leading_number_of(s@) == leading_number_of(x@.skip(i as int)),
        decreases x@.len() - i,
    {
        proof {
            assert(x@.skip(i as int).drop_first() =~= x@.skip(i + 1));
        }
        i = i + 1;
    }
    if i == x.len() {
        return None;
    }
    let (v, end) = take_number(&x, i);
    proof {
        let t = x@.skip(i as int);
        assert(t[0] == x@[i as int]);
        assert(t.take(end - i) =~= x@.subrange(i as int, end as int));
    }
    Some(v)
}

/// The last digit run in a string. Chapter folders put the chapter number at
/// the end (`itch-the-witch-ch7`), and any earlier digits usually belong to the
/// series name or a date. `None` when there is no digit, or the run is too
/// large for a `u128`.
pub fn trailing_number(s: &str) -> (r: Option<u128>)
    ensures
        match r {
            Some(v) => trailing_number_of(s@) == Some(v as nat),
            None => trailing_number_of(s@) is None,
        },
{
    let x = chars_of(s);
    let mut end: usize = x.len();
    proof {
        assert(x@.take(x@.len() as int) =~= x@);
    }
    while end > 0 && !('0' <= x[end - 1] && x[end - 1] <= '9')
        invariant
            end <= x@.len(),
            x@ == s@,
            trailing_number_of(s@) == trailing_number_of(x@.take(end as int)),
        decreases end,
    {
        proof {
            assert(x@.take(end as int).drop_last() =~= x@.take(end - 1));
        }
        end = end - 1;
    }
    if end == 0 {
        return None;
    }
    let mut start = end;
    while start > 0 && '0' <= x[start - 1] && x[start - 1] <= '9'
        invariant
            start <= end <= x@.len(),
            end > 0,
            is_digit(x@[end - 1]),
            forall|k: int| start <= k < end ==> #[trigger] is_digit(x@[k]),
        decreases start,
    {
        start = start - 1;
    }
    proof {
        let t = x@.take(end as int);
        assert(t.last() == x@[end - 1]);
        assert forall|k: int| start <= k < t.len() implies #[trigger] is_digit(t[k]) by {
            assert(t[k] == x@[k]);
        }
        if start > 0 {
            assert(t[start - 1] == x@[start - 1]);
        }
        lemma_trailing_digits_scan(t, start as int);
        assert(t.skip(start as int) =~= x@.subrange(start as int, end as int));
    }
    digits_in(&x, start, end)
}

/// Natural order is antisymmetric: swapping the names flips the answer.
pub proof fn natural_order_antisymmetric(a: Seq<char>, b: Seq<char>)
    ensures
        natural_order(a, b) == -natural_order(b, a),
    decreases a.len() + b.len(),
{
    if a.len() > 0 && b.len() > 0 {
        lemma_leading_digits_bound(a);
        lemma_leading_digits_bound(b);
        if is_digit(a[0]) && is_digit(b[0]) {
            let la = leading_digits(a);
            let lb = leading_digits(b);
            natural_order_antisymmetric(a.skip(la as int), b.skip(lb as int));
        } else {
            natural_order_antisymmetric(a.skip(1), b.skip(1));
        }
    }
}

/// Every name is in natural order with itself.
pub proof fn natural_order_reflexive(a: Seq<char>)
    ensures
        natural_order(a, a) == 0,
    decreases a.len(),
{
    if a.len() > 0 {
        lemma_leading_digits_bound(a);
        if is_digit(a[0]) {
            natural_order_reflexive(a.skip(leading_digits(a) as int));
        } else {
            natural_order_reflexive(a.skip(1));
        }
    }
}

} // verus!
