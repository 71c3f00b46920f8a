//! Working out where a series' other chapters live, from one URL.
//!
//! Chapter URLs on a reader site are almost always the same string with one
//! number changed: find the number in the URL you were given, and you can both
//! recognise sibling chapter links on the page and construct the URL of a
//! chapter you have not seen. A constructed URL is only ever a candidate.
use vstd::prelude::*;

use crate::fetch::extract::{attr_spec, tags, tags_are, tags_spec};
use crate::fetch::url::{
    authority_end, is_alnum, lemma_query_start, origin_of, origin_text, path_bounds, path_range,
    resolve, resolved,
};
use crate::natsort::digits_value;
use crate::text::{
    find_str, find_from, lemma_find_from, lower_seq, lowered,
    chars_of, find_char, find_char_from, is_digit, lemma_find_char_from, push_all, push_str,
    slice_of, string_of, trim, trimmed,
};

verus! {

/// Whether every character is an ASCII digit.
pub open spec fn all_digits(s: Seq<char>) -> bool {
    forall|k: int| 0 <= k < s.len() ==> is_digit(#[trigger] s[k])
}

/// The whole and fractional digits of a plain decimal numeral: an optional
/// `+`, digits, and at most one `.` with digits after it; at least one digit in
/// all. `None` for anything else.
pub open spec fn decimal_parts(t: Seq<char>) -> Option<(Seq<char>, Seq<char>)> {
    let b = if t.len() > 0 && t[0] == '+' { t.skip(1) } else { t };
    let d = find_char_from(b, '.', 0);
    let whole = if d < 0 { b } else { b.take(d) };
    let fraction = if d < 0 { Seq::empty() } else { b.skip(d + 1) };
    if all_digits(whole) && all_digits(fraction) && whole.len() + fraction.len() > 0 {
        Some((whole, fraction))
    } else {
        None
    }
}

/// `s` without leading `0`s.
pub open spec fn strip_leading_zeros(s: Seq<char>) -> Seq<char>
    decreases s.len(),
{
    if s.len() > 0 && s[0] == '0' {
        strip_leading_zeros(s.skip(1))
    } else {
        s
    }
}

/// `s` without trailing `0`s.
pub open spec fn strip_trailing_zeros(s: Seq<char>) -> Seq<char>
    decreases s.len(),
{
    if s.len() > 0 && s.last() == '0' {
        strip_trailing_zeros(s.drop_last())
    } else {
        s
    }
}

/// Canonical form of a chapter number: a plain decimal numeral is written with
/// no leading zeros in its whole part (`0` when that is empty), no trailing
/// zeros in its fraction, and no `.` when the fraction is zero; anything else
/// is only trimmed.
pub open spec fn normalised(number: Seq<char>) -> Seq<char> {
    let t = trim(number);
    match decimal_parts(t) {
        Some((whole, fraction)) => {
            let w = strip_leading_zeros(whole);
            let w = if w.len() == 0 { "0"@ } else { w };
            let f = strip_trailing_zeros(fraction);
            if f.len() == 0 { w } else { w + "."@ + f }
        },
        None => t,
    }
}

fn digits_only(v: &Vec<char>, start: usize, end: usize) -> (r: bool)
    requires
        start <= end <= v@.len(),
    ensures
        r == all_digits(v@.subrange(start as int, end as int)),
{
    let mut k = start;
    while k < end
        invariant
            start <= k <= end <= v@.len(),
            forall|j: int| start <= j < k ==> is_digit(#[trigger] v@[j]),
        decreases end - k,
    {
        if !('0' <= v[k] && v[k] <= '9') {
            assert(v@.subrange(start as int, end as int)[k - start] == v@[k as int]);
            return false;
        }
        k = k + 1;
    }
    assert forall|j: int| 0 <= j < end - start implies is_digit(
        #[trigger] v@.subrange(start as int, end as int)[j],
    ) by {
        assert(v@.subrange(start as int, end as int)[j] == v@[start + j]);
    }
    true
}

/// Canonical form of a chapter number, so `"07"`, `"7"` and `"7.0"` all match.
pub fn normalise(number: &str) -> (r: String)
    ensures
        r@ == normalised(number@),
{
    let t = trimmed(&chars_of(number));
    let (whole, fraction) = match parts_of_text(&t) {
        Some(p) => p,
        None => return string_of(t.as_slice()),
    };
    let w = without_leading_zeros(&whole);
    let f = without_trailing_zeros(&fraction);
    let mut out: Vec<char> = Vec::new();
    if w.len() == 0 {
        push_str(&mut out, "0");
    } else {
        push_all(&mut out, &w);
    }
    if f.len() > 0 {
        push_str(&mut out, ".");
        push_all(&mut out, &f);
    }
    proof {
        reveal_strlit("0");
        reveal_strlit(".");
    }
    assert(out@ =~= normalised(number@));
    string_of(out.as_slice())
}

/// Index just past the run of ASCII digits starting at `i`.
pub open spec fn digits_end(s: Seq<char>, i: int) -> int
    decreases s.len() - i,
{
    if i < 0 || i >= s.len() || !is_digit(s[i]) {
        i
    } else {
        digits_end(s, i + 1)
    }
}

pub proof fn lemma_digits_end(s: Seq<char>, i: int)
    requires
        0 <= i <= s.len(),
    ensures
        i <= digits_end(s, i) <= s.len(),
        forall|k: int| i <= k < digits_end(s, i) ==> is_digit(#[trigger] s[k]),
        digits_end(s, i) < s.len() ==> !is_digit(s[digits_end(s, i)]),
    decreases s.len() - i,
{
    if i < s.len() && is_digit(s[i]) {
        lemma_digits_end(s, i + 1);
    }
}

/// A number read at `start`: its offset, its length, its normalised value and
/// the separator a decimal used. A second digit group of one or two digits
/// joined by `-` or `.` is the fraction (`chapter-7-5` is chapter 7.5); a
/// longer one is a date or an id, not a fraction.
pub open spec fn read_number_spec(s: Seq<char>, start: int) -> Option<(int, int, Seq<char>, char)> {
    if start < 0 || start >= s.len() || !is_digit(s[start]) {
        None
    } else {
        let end = digits_end(s, start);
        let whole = s.subrange(start, end);
        let fe = digits_end(s, end + 1);
        if end < s.len() && (s[end] == '-' || s[end] == '.') && fe > end + 1 && fe - end - 1 <= 2 {
            Some((start, fe - start, normalised(whole + "."@ + s.subrange(end + 1, fe)), s[end]))
        } else {
            Some((start, end - start, normalised(whole), '.'))
        }
    }
}

pub proof fn lemma_read_number(s: Seq<char>, start: int)
    requires
        0 <= start,
    ensures
        read_number_spec(s, start) matches Some(f) ==> f.0 == start && f.1 > 0 && f.0 + f.1
            <= s.len(),
{
    if start < s.len() && is_digit(s[start]) {
        lemma_digits_end(s, start);
        let end = digits_end(s, start);
        if end < s.len() {
            lemma_digits_end(s, end + 1);
        }
    }
}

/// Read a number run at `start`, including a decimal part when one follows.
fn read_number(s: &Vec<char>, start: usize) -> (r: Option<(usize, usize, String, char)>)
    ensures
        match r {
            Some(f) => read_number_spec(s@, start as int) == Some(
                (f.0 as int, f.1 as int, f.2@, f.3),
            ),
            None => read_number_spec(s@, start as int) is None,
        },
{
    if start >= s.len() || !('0' <= s[start] && s[start] <= '9') {
        return None;
    }
    let mut end = start;
    while end < s.len() && '0' <= s[end] && s[end] <= '9'
        invariant
            start <= end <= s@.len(),
            digits_end(s@, start as int) == digits_end(s@, end as int),
        decreases s@.len() - end,
    {
        end = end + 1;
    }
    let whole = slice_of(s, start, end);
    if end < s.len() && (s[end] == '-' || s[end] == '.') {
        let sep = s[end];
        let mut fe = end + 1;
        while fe < s.len() && '0' <= s[fe] && s[fe] <= '9'
            invariant
                end + 1 <= fe <= s@.len(),
                digits_end(s@, end + 1) == digits_end(s@, fe as int),
            decreases s@.len() - fe,
        {
            fe = fe + 1;
        }
        if fe > end + 1 && fe - end - 1 <= 2 {
            let mut text = whole;
            push_str(&mut text, ".");
            push_all(&mut text, &slice_of(s, end + 1, fe));
            let n = normalise(string_of(text.as_slice()).as_str());
            return Some((start, fe - start, n, sep));
        }
    }
    Some((start, end - start, normalise(string_of(whole.as_slice()).as_str()), '.'))
}

/// The markers that introduce a chapter number, longest first so `chapter` is
/// preferred over the `ch` inside it.
pub open spec fn marker_name(k: int) -> Seq<char> {
    if k == 0 {
        "chapter"@
    } else if k == 1 {
        "chap"@
    } else if k == 2 {
        "cap"@
    } else {
        "ch"@
    }
}

/// How many markers there are.
pub const MARKER_COUNT: usize = 4;

/// Whether a character may separate a marker from its number.
pub open spec fn is_separator(c: char) -> bool {
    c == '-' || c == '_' || c == '/' || c == '.' || c == ' '
}

/// Index of the first non-separator at or after `i`.
pub open spec fn skip_separators(s: Seq<char>, i: int) -> int
    decreases s.len() - i,
{
    if i < 0 || i >= s.len() || !is_separator(s[i]) {
        i
    } else {
        skip_separators(s, i + 1)
    }
}

/// The number after the first occurrence of `marker`, from `from` on, that
/// starts a word and is followed (past separators) by digits.
pub open spec fn marker_scan(lower: Seq<char>, marker: Seq<char>, from: int) -> Option<
    (int, int, Seq<char>, char),
>
    decreases lower.len() + 1 - from,
{
    let at = find_from(lower, marker, from);
    if from < 0 || at < 0 || marker.len() == 0 {
        None
    } else {
        let nf = at + marker.len();
        proof {
            lemma_find_from(lower, marker, from);
        }
        let starts_word = at == 0 || !is_alnum(lower[at - 1]);
        if starts_word {
            match read_number_spec(lower, skip_separators(lower, nf)) {
                Some(f) => Some(f),
                None => marker_scan(lower, marker, nf),
            }
        } else {
            marker_scan(lower, marker, nf)
        }
    }
}

/// The number introduced by the first marker, from the `k`-th on, that finds one.
pub open spec fn markers_from(lower: Seq<char>, k: int) -> Option<(int, int, Seq<char>, char)>
    decreases MARKER_COUNT - k,
{
    if k < 0 || k >= MARKER_COUNT {
        None
    } else {
        match marker_scan(lower, marker_name(k), 0) {
            Some(f) => Some(f),
            None => markers_from(lower, k + 1),
        }
    }
}

/// The last number run at or after `i` (skipping each run whole), or `last`.
pub open spec fn last_run(lower: Seq<char>, i: int, last: Option<(int, int, Seq<char>, char)>) -> Option<
    (int, int, Seq<char>, char),
>
    decreases lower.len() - i,
{
    if i < 0 || i >= lower.len() {
        last
    } else if is_digit(lower[i]) {
        let f = read_number_spec(lower, i).unwrap();
        proof {
            lemma_read_number(lower, i);
        }
        last_run(lower, f.0 + f.1, Some(f))
    } else {
        last_run(lower, i + 1, last)
    }
}

/// The chapter number inside a path: its offset, length, normalised value and
/// decimal separator. A number introduced by a marker wins; failing that, the
/// last run of digits is taken (`/read/one-piece/1105`).
pub open spec fn locate_spec(path: Seq<char>) -> Option<(int, int, Seq<char>, char)> {
    let lower = lower_seq(path);
    match markers_from(lower, 0) {
        Some(f) => Some(f),
        None => last_run(lower, 0, None),
    }
}

fn marker(k: usize) -> (r: &'static str)
    requires
        k < MARKER_COUNT,
    ensures
        r@ == marker_name(k as int),
        r@.len() > 0,
{
    proof {
        reveal_strlit("chapter");
        reveal_strlit("chap");
        reveal_strlit("cap");
        reveal_strlit("ch");
    }
    if k == 0 {
        "chapter"
    } else if k == 1 {
        "chap"
    } else if k == 2 {
        "cap"
    } else {
        "ch"
    }
}

fn scan_marker(lower: &Vec<char>, k: usize) -> (r: Option<(usize, usize, String, char)>)
    requires
        k < MARKER_COUNT,
    ensures
        match r {
            Some(f) => marker_scan(lower@, marker_name(k as int), 0) == Some(
                (f.0 as int, f.1 as int, f.2@, f.3),
            ),
            None => marker_scan(lower@, marker_name(k as int), 0) is None,
        },
{
    let m = marker(k);
    let mv = chars_of(m);
    let mut from: usize = 0;
    loop
        invariant
            mv@ == marker_name(k as int),
            m@ == mv@,
            mv@.len() > 0,
            from <= lower@.len(),
            marker_scan(lower@, mv@, 0) == marker_scan(lower@, mv@, from as int),
        decreases lower@.len() + 1 - from,
    {
        let at = match find_str(lower, m, from) {
            Some(a) => a,
            None => return None,
        };
        proof {
            lemma_find_from(lower@, mv@, from as int);
            assert(find_from(lower@, mv@, from as int) == at);
            assert(at + mv@.len() <= lower@.len());
        }
        let n = lower.len();
        let nf = at + mv.len();
        let starts_word = at == 0 || !(('a' <= lower[at - 1] && lower[at - 1] <= 'z') || ('A'
            <= lower[at - 1] && lower[at - 1] <= 'Z') || ('0' <= lower[at - 1] && lower[at - 1]
            <= '9'));
        if starts_word {
            let mut i = nf;
            while i < n && (lower[i] == '-' || lower[i] == '_' || lower[i] == '/' || lower[i]
                == '.' || lower[i] == ' ')
                invariant
                    n == lower@.len(),
                    nf <= i <= lower@.len(),
                    skip_separators(lower@, nf as int) == skip_separators(lower@, i as int),
                decreases lower@.len() - i,
            {
                i = i + 1;
            }
            match read_number(lower, i) {
                Some(f) => return Some(f),
                None => {},
            }
        }
        from = nf;
    }
}

/// Find the chapter number inside a path.
fn locate_number(path: &Vec<char>) -> (r: Option<(usize, usize, String, char)>)
    ensures
        match r {
            Some(f) => locate_spec(path@) == Some((f.0 as int, f.1 as int, f.2@, f.3)),
            None => locate_spec(path@) is None,
        },
{
    let lower = lowered(path);
    let mut k: usize = 0;
    while k < MARKER_COUNT
        invariant
            lower@ == lower_seq(path@),
            k <= MARKER_COUNT,
            markers_from(lower@, 0) == markers_from(lower@, k as int),
        decreases MARKER_COUNT - k,
    {
        match scan_marker(&lower, k) {
            Some(f) => return Some(f),
            None => {},
        }
        k = k + 1;
    }
    let mut last: Option<(usize, usize, String, char)> = None;
    let ghost glast: Option<(int, int, Seq<char>, char)> = None;
    let mut i: usize = 0;
    while i < lower.len()
        invariant
            lower@ == lower_seq(path@),
            i <= lower@.len(),
            locate_spec(path@) == last_run(lower@, i as int, glast),
            match last {
                Some(f) => glast == Some((f.0 as int, f.1 as int, f.2@, f.3)),
                None => glast is None,
            },
        decreases lower@.len() - i,
    {
        if '0' <= lower[i] && lower[i] <= '9' {
            let found = match read_number(&lower, i) {
                Some(f) => f,
                None => return None,
            };
            proof {
                lemma_read_number(lower@, i as int);
                glast = Some((found.0 as int, found.1 as int, found.2@, found.3));
            }
            i = found.0 + found.1;
            last = Some(found);
        } else {
            i = i + 1;
        }
    }
    last
}

/// A chapter URL with the number factored out: `prefix` and `suffix` are the
/// parts either side of it, so rebuilding the URL for another chapter is a
/// concatenation.
#[derive(Debug, Clone, PartialEq, Eq)]
pub struct UrlTemplate {
    pub prefix: String,
    pub suffix: String,
    /// What separated a decimal chapter's parts, e.g. `-` in `chapter-7-5`.
    pub decimal: char,
}

/// A chapter URL split into (prefix, suffix, decimal separator, number).
/// Only the path is considered: a `?page=2` is not a chapter number.
pub open spec fn split_spec(url: Seq<char>) -> Option<(Seq<char>, Seq<char>, char, Seq<char>)> {
    let (ps, pe) = path_range(url);
    let path = if ps <= pe && pe <= url.len() { url.subrange(ps, pe) } else { Seq::empty() };
    match locate_spec(path) {
        Some((offset, len, number, decimal)) => Some(
            (url.take(ps + offset), url.skip(ps + offset + len), decimal, number),
        ),
        None => None,
    }
}

proof fn lemma_locate_bounds(path: Seq<char>)
    ensures
        locate_spec(path) matches Some(f) ==> 0 <= f.0 && f.1 > 0 && f.0 + f.1 <= path.len(),
{
    let lower = lower_seq(path);
    lemma_markers_bounds(lower, 0);
    lemma_last_run_bounds(lower, 0, None);
}

proof fn lemma_marker_scan_bounds(lower: Seq<char>, m: Seq<char>, from: int)
    ensures
        marker_scan(lower, m, from) matches Some(f) ==> 0 <= f.0 && f.1 > 0 && f.0 + f.1
            <= lower.len(),
    decreases lower.len() + 1 - from,
{
    let at = find_from(lower, m, from);
    if from >= 0 && at >= 0 && m.len() > 0 {
        lemma_find_from(lower, m, from);
        let nf = at + m.len();
        if 0 <= nf {
            let i = skip_separators(lower, nf);
            lemma_skip_separators(lower, nf);
            lemma_read_number(lower, i);
        }
        lemma_marker_scan_bounds(lower, m, nf);
    }
}

proof fn lemma_skip_separators(s: Seq<char>, i: int)
    requires
        0 <= i,
    ensures
        skip_separators(s, i) >= i,
    decreases s.len() - i,
{
    if i < s.len() && is_separator(s[i]) {
        lemma_skip_separators(s, i + 1);
    }
}

proof fn lemma_markers_bounds(lower: Seq<char>, k: int)
    ensures
        markers_from(lower, k) matches Some(f) ==> 0 <= f.0 && f.1 > 0 && f.0 + f.1 <= lower.len(),
    decreases MARKER_COUNT - k,
{
    if 0 <= k < MARKER_COUNT {
        lemma_marker_scan_bounds(lower, marker_name(k), 0);
        lemma_markers_bounds(lower, k + 1);
    }
}

proof fn lemma_last_run_bounds(lower: Seq<char>, i: int, last: Option<(int, int, Seq<char>, char)>)
    requires
        last matches Some(f) ==> 0 <= f.0 && f.1 > 0 && f.0 + f.1 <= lower.len(),
    ensures
        last_run(lower, i, last) matches Some(f) ==> 0 <= f.0 && f.1 > 0 && f.0 + f.1
            <= lower.len(),
    decreases lower.len() - i,
{
    if 0 <= i < lower.len() {
        if is_digit(lower[i]) {
            lemma_read_number(lower, i);
            let f = read_number_spec(lower, i).unwrap();
            lemma_last_run_bounds(lower, f.0 + f.1, Some(f));
        } else {
            lemma_last_run_bounds(lower, i + 1, last);
        }
    }
}

/// Split a chapter URL into a template plus the number it currently holds.
pub fn split(url_str: &str) -> (r: Option<(UrlTemplate, String)>)
    ensures
        match r {
            Some((t, n)) => split_spec(url_str@) == Some((t.prefix@, t.suffix@, t.decimal, n@)),
            None => split_spec(url_str@) is None,
        },
{
    let u = chars_of(url_str);
    let (ps, pe) = path_bounds(&u);
    let path = if ps <= pe {
        slice_of(&u, ps, pe)
    } else {
        Vec::new()
    };
    assert(path@ =~= (if ps <= pe && pe <= u@.len() {
        u@.subrange(ps as int, pe as int)
    } else {
        Seq::<char>::empty()
    }));
    proof {
        lemma_locate_bounds(path@);
    }
    match locate_number(&path) {
        Some((offset, len, number, decimal)) => {
            let cut = ps + offset;
            let prefix = slice_of(&u, 0, cut);
            let suffix = slice_of(&u, cut + len, u.len());
            assert(prefix@ =~= u@.take(cut as int));
            assert(suffix@ =~= u@.skip(cut + len));
            Some(
                (
                    UrlTemplate {
                        prefix: string_of(prefix.as_slice()),
                        suffix: string_of(suffix.as_slice()),
                        decimal,
                    },
                    number,
                ),
            )
        },
        None => None,
    }
}

/// Strict lexicographic order on character sequences, by code point: the
/// order `String`'s comparison gives.
pub open spec fn lex_less(a: Seq<char>, b: Seq<char>) -> bool
    decreases a.len(),
{
    if a.len() == 0 {
        b.len() > 0
    } else if b.len() == 0 {
        false
    } else if a[0] != b[0] {
        a[0] < b[0]
    } else {
        lex_less(a.skip(1), b.skip(1))
    }
}

/// `lex_less` never holds both ways round, nor of a sequence and itself.
pub proof fn lex_less_asymmetric(a: Seq<char>, b: Seq<char>)
    ensures
        !(lex_less(a, b) && lex_less(b, a)),
        !lex_less(a, a),
    decreases a.len(),
{
    if a.len() > 0 && b.len() > 0 && a[0] == b[0] {
        lex_less_asymmetric(a.skip(1), b.skip(1));
    }
    if a.len() > 0 {
        lex_less_asymmetric(a.skip(1), a.skip(1));
    }
}

/// `lex_less` is transitive.
pub proof fn lex_less_transitive(a: Seq<char>, b: Seq<char>, c: Seq<char>)
    requires
        lex_less(a, b),
        lex_less(b, c),
    ensures
        lex_less(a, c),
    decreases a.len(),
{
    if a.len() > 0 && b.len() > 0 && c.len() > 0 && a[0] == b[0] && b[0] == c[0] {
        lex_less_transitive(a.skip(1), b.skip(1), c.skip(1));
    }
}

/// Two different sequences are ordered one way or the other.
pub proof fn lex_less_total(a: Seq<char>, b: Seq<char>)
    ensures
        a == b || lex_less(a, b) || lex_less(b, a),
    decreases a.len(),
{
    if a.len() > 0 && b.len() > 0 && a[0] == b[0] {
        lex_less_total(a.skip(1), b.skip(1));
        if a.skip(1) == b.skip(1) {
            assert(a =~= seq![a[0]] + a.skip(1));
            assert(b =~= seq![b[0]] + b.skip(1));
        }
    }
}

/// Exec form of `lex_less`.
pub fn lex_before(a: &Vec<char>, b: &Vec<char>) -> (r: bool)
    ensures
        r == lex_less(a@, b@),
{
    let mut i: usize = 0;
    assert(a@.skip(0) =~= a@);
    assert(b@.skip(0) =~= b@);
    while i < a.len() && i < b.len() && a[i] == b[i]
        invariant
            i <= a@.len(),
            i <= b@.len(),
            lex_less(a@, b@) == lex_less(a@.skip(i as int), b@.skip(i as int)),
        decreases a@.len() - i,
    {
        assert(a@.skip(i as int).skip(1) =~= a@.skip(i + 1));
        assert(b@.skip(i as int).skip(1) =~= b@.skip(i + 1));
        i = i + 1;
    }
    if i == a.len() {
        return i < b.len();
    }
    if i == b.len() {
        return false;
    }
    assert(a@.skip(i as int)[0] == a@[i as int]);
    assert(b@.skip(i as int)[0] == b@[i as int]);
    a[i] < b[i]
}

/// Ten to the power `n`.
pub open spec fn ten_pow(n: nat) -> nat
    decreases n,
{
    if n == 0 {
        1
    } else {
        10 * ten_pow((n - 1) as nat)
    }
}

proof fn lemma_ten_pow_grows(m: nat, n: nat)
    requires
        m <= n,
    ensures
        1 <= ten_pow(m) <= ten_pow(n),
    decreases n,
{
    if n > m {
        lemma_ten_pow_grows(m, (n - 1) as nat);
    } else if n > 0 {
        lemma_ten_pow_grows(0, (n - 1) as nat);
    }
}

proof fn lemma_digit_value(c: char)
    requires
        is_digit(c),
    ensures
        0 <= (c as int) - ('0' as int) <= 9,
{
}

/// The value of digits followed by more digits.
proof fn lemma_value_append(a: Seq<char>, b: Seq<char>)
    requires
        all_digits(b),
    ensures
        digits_value(a + b) == digits_value(a) * ten_pow(b.len()) + digits_value(b),
    decreases b.len(),
{
    if b.len() == 0 {
        assert(a + b =~= a);
        assert(digits_value(a) * 1 == digits_value(a));
    } else {
        let b1 = b.drop_last();
        assert((a + b).drop_last() =~= a + b1);
        assert((a + b).last() == b.last());
        lemma_value_append(a, b1);
        let x = digits_value(a);
        let p = ten_pow(b1.len());
        let y = digits_value(b1);
        let d = (b.last() as int) - ('0' as int);
        assert(digits_value(a + b) == digits_value(a + b1) * 10 + d);
        assert(digits_value(b) == y * 10 + d);
        assert(ten_pow(b.len()) == 10 * p);
        assert((x * p + y) * 10 == x * (10 * p) + y * 10) by (nonlinear_arith);
        assert(digits_value(a + b) == x * ten_pow(b.len()) + digits_value(b));
    }
}

/// A run of `n` digits is worth less than ten to the `n`.
proof fn lemma_value_below(s: Seq<char>)
    requires
        all_digits(s),
    ensures
        digits_value(s) < ten_pow(s.len()),
    decreases s.len(),
{
    if s.len() > 0 {
        let t = s.drop_last();
        lemma_value_below(t);
        lemma_digit_value(s.last());
        let v = digits_value(t);
        let p = ten_pow(t.len());
        assert(v * 10 + 9 < p * 10) by (nonlinear_arith)
            requires
                v < p,
        ;
    }
}

/// A run of digits that does not start with `0` is worth at least ten to its
/// length less one.
proof fn lemma_value_above(s: Seq<char>)
    requires
        all_digits(s),
        s.len() > 0,
        s[0] != '0',
    ensures
        digits_value(s) >= ten_pow((s.len() - 1) as nat),
{
    let head = s.take(1);
    let rest = s.skip(1);
    assert(head + rest =~= s);
    assert forall|k: int| 0 <= k < rest.len() implies is_digit(#[trigger] rest[k]) by {
        assert(rest[k] == s[k + 1]);
    }
    lemma_value_append(head, rest);
    assert(head.drop_last() =~= Seq::<char>::empty());
    assert(is_digit(s[0]));
    assert(digits_value(head) >= 1);
    let p = ten_pow(rest.len());
    assert(digits_value(head) * p >= p) by (nonlinear_arith)
        requires
            digits_value(head) >= 1,
    ;
}

/// Equal-length digit runs compare by value as they compare as text.
proof fn lemma_value_lex(a: Seq<char>, b: Seq<char>)
    requires
        all_digits(a),
        all_digits(b),
        a.len() == b.len(),
        lex_less(a, b),
    ensures
        digits_value(a) < digits_value(b),
    decreases a.len(),
{
    let ha = a.take(1);
    let hb = b.take(1);
    let ra = a.skip(1);
    let rb = b.skip(1);
    assert(ha + ra =~= a);
    assert(hb + rb =~= b);
    assert forall|k: int| 0 <= k < ra.len() implies is_digit(#[trigger] ra[k]) by {
        assert(ra[k] == a[k + 1]);
    }
    assert forall|k: int| 0 <= k < rb.len() implies is_digit(#[trigger] rb[k]) by {
        assert(rb[k] == b[k + 1]);
    }
    lemma_value_append(ha, ra);
    lemma_value_append(hb, rb);
    assert(ha.drop_last() =~= Seq::<char>::empty());
    assert(hb.drop_last() =~= Seq::<char>::empty());
    assert(is_digit(a[0]) && is_digit(b[0]));
    let p = ten_pow(ra.len());
    let da = digits_value(ha);
    let db = digits_value(hb);
    lemma_value_below(ra);
    lemma_value_below(rb);
    if a[0] == b[0] {
        lemma_value_lex(ra, rb);
    } else {
        assert(da < db);
        let va = digits_value(ra);
        assert(da * p + va < db * p) by (nonlinear_arith)
            requires
                da < db,
                va < p,
        ;
    }
}

/// The value of a digit run is unchanged by stripping its leading zeros.
proof fn lemma_value_strip(s: Seq<char>)
    requires
        all_digits(s),
    ensures
        digits_value(strip_leading_zeros(s)) == digits_value(s),
        all_digits(strip_leading_zeros(s)),
        strip_leading_zeros(s).len() > 0 ==> strip_leading_zeros(s)[0] != '0',
    decreases s.len(),
{
    if s.len() > 0 && s[0] == '0' {
        let rest = s.skip(1);
        assert forall|k: int| 0 <= k < rest.len() implies is_digit(#[trigger] rest[k]) by {
            assert(rest[k] == s[k + 1]);
        }
        lemma_value_strip(rest);
        let head = s.take(1);
        assert(head + rest =~= s);
        lemma_value_append(head, rest);
        assert(head.drop_last() =~= Seq::<char>::empty());
        assert(head.last() == '0');
        assert(digits_value(head.drop_last()) == 0);
        assert(digits_value(head) == 0);
        let p = ten_pow(rest.len());
        assert(0 * p == 0) by (nonlinear_arith);
    }
}

/// Digit runs without leading zeros: fewer digits is less, and equal lengths
/// compare as text.
proof fn lemma_value_order(a: Seq<char>, b: Seq<char>)
    requires
        all_digits(a),
        all_digits(b),
        a.len() > 0 ==> a[0] != '0',
        b.len() > 0 ==> b[0] != '0',
    ensures
        digits_value(a) < digits_value(b) <==> (a.len() < b.len() || (a.len() == b.len()
            && lex_less(a, b))),
        digits_value(a) == digits_value(b) <==> a == b,
{
    lemma_value_below(a);
    lemma_value_below(b);
    if a.len() < b.len() {
        lemma_value_above(b);
        lemma_ten_pow_grows(a.len(), (b.len() - 1) as nat);
    } else if b.len() < a.len() {
        lemma_value_above(a);
        lemma_ten_pow_grows(b.len(), (a.len() - 1) as nat);
    } else {
        lex_less_total(a, b);
        lex_less_asymmetric(a, b);
        if lex_less(a, b) {
            lemma_value_lex(a, b);
        } else if lex_less(b, a) {
            lemma_value_lex(b, a);
        }
    }
}

/// Numeric order of two chapter numbers. Plain decimals come first, ordered
/// by their whole part's value and then by their fraction digit by digit (the
/// numeric order once trailing zeros are gone); anything that is not a number
/// comes after, in text order.
pub open spec fn number_less(a: Seq<char>, b: Seq<char>) -> bool {
    match (decimal_parts(trim(a)), decimal_parts(trim(b))) {
        (Some((wa, fa)), Some((wb, fb))) => digits_value(wa) < digits_value(wb) || (
        digits_value(wa) == digits_value(wb) && lex_less(
            strip_trailing_zeros(fa),
            strip_trailing_zeros(fb),
        )),
        (Some(_), None) => true,
        (None, Some(_)) => false,
        (None, None) => lex_less(a, b),
    }
}

/// `number_less` never holds both ways round.
pub proof fn number_less_asymmetric(a: Seq<char>, b: Seq<char>)
    ensures
        !(number_less(a, b) && number_less(b, a)),
{
    match (decimal_parts(trim(a)), decimal_parts(trim(b))) {
        (Some((wa, fa)), Some((wb, fb))) => {
            lex_less_asymmetric(strip_trailing_zeros(fa), strip_trailing_zeros(fb));
        },
        _ => {
            lex_less_asymmetric(a, b);
        },
    }
}

/// `number_less` is transitive.
pub proof fn number_less_transitive(a: Seq<char>, b: Seq<char>, c: Seq<char>)
    requires
        number_less(a, b),
        number_less(b, c),
    ensures
        number_less(a, c),
{
    match (decimal_parts(trim(a)), decimal_parts(trim(b)), decimal_parts(trim(c))) {
        (Some((wa, fa)), Some((wb, fb)), Some((wc, fc))) => {
            if digits_value(wa) == digits_value(wb) && digits_value(wb) == digits_value(wc) {
                lex_less_transitive(
                    strip_trailing_zeros(fa),
                    strip_trailing_zeros(fb),
                    strip_trailing_zeros(fc),
                );
            }
        },
        (None, None, None) => {
            lex_less_transitive(a, b, c);
        },
        _ => {},
    }
}

/// The whole and fraction digits of a plain decimal numeral.
pub fn parts_of_text(t: &Vec<char>) -> (r: Option<(Vec<char>, Vec<char>)>)
    ensures
        match r {
            Some((w, f)) => decimal_parts(t@) == Some((w@, f@)),
            None => decimal_parts(t@) is None,
        },
{
    let plus = t.len() > 0 && t[0] == '+';
    let bs: usize = if plus { 1 } else { 0 };
    let b = slice_of(t, bs, t.len());
    let ghost gb = if t@.len() > 0 && t@[0] == '+' { t@.skip(1) } else { t@ };
    assert(b@ =~= gb);
    let dot = find_char(&b, '.', 0);
    proof {
        lemma_find_char_from(b@, '.', 0);
    }
    let (we, fs): (usize, usize) = match dot {
        Some(d) => (d, d + 1),
        None => (b.len(), b.len()),
    };
    let whole_ok = digits_only(&b, 0, we);
    let fraction_ok = digits_only(&b, fs, b.len());
    assert(b@.subrange(0, we as int) =~= (if dot is None { b@ } else { b@.take(we as int) }));
    assert(b@.subrange(fs as int, b@.len() as int) =~= (if dot is None {
        Seq::empty()
    } else {
        b@.skip(fs as int)
    }));
    if !(whole_ok && fraction_ok && we + (b.len() - fs) > 0) {
        return None;
    }
    Some((slice_of(&b, 0, we), slice_of(&b, fs, b.len())))
}

/// `w` without leading zeros.
pub fn without_leading_zeros(w: &Vec<char>) -> (r: Vec<char>)
    ensures
        r@ == strip_leading_zeros(w@),
{
    let mut ws: usize = 0;
    let n = w.len();
    assert(w@.subrange(0, n as int) =~= w@);
    while ws < n && w[ws] == '0'
        invariant
            n == w@.len(),
            ws <= n,
            strip_leading_zeros(w@) == strip_leading_zeros(w@.subrange(ws as int, n as int)),
        decreases n - ws,
    {
        assert(w@.subrange(ws as int, n as int).skip(1) =~= w@.subrange(ws + 1, n as int));
        ws = ws + 1;
    }
    slice_of(w, ws, n)
}

/// `f` without trailing zeros.
pub fn without_trailing_zeros(f: &Vec<char>) -> (r: Vec<char>)
    ensures
        r@ == strip_trailing_zeros(f@),
{
    let mut fe: usize = f.len();
    assert(f@.subrange(0, fe as int) =~= f@);
    while fe > 0 && f[fe - 1] == '0'
        invariant
            fe <= f@.len(),
            strip_trailing_zeros(f@) == strip_trailing_zeros(f@.subrange(0, fe as int)),
        decreases fe,
    {
        assert(f@.subrange(0, fe as int).drop_last() =~= f@.subrange(0, fe - 1));
        fe = fe - 1;
    }
    slice_of(f, 0, fe)
}

/// Whether chapter number `a` sorts before `b` in numeric order.
pub fn number_before(a: &str, b: &str) -> (r: bool)
    ensures
        r == number_less(a@, b@),
{
    let ta = trimmed(&chars_of(a));
    let tb = trimmed(&chars_of(b));
    match (parts_of_text(&ta), parts_of_text(&tb)) {
        (Some((wa, fa)), Some((wb, fb))) => {
            let sa = without_leading_zeros(&wa);
            let sb = without_leading_zeros(&wb);
            proof {
                lemma_value_strip(wa@);
                lemma_value_strip(wb@);
                lemma_value_order(sa@, sb@);
            }
            if sa.len() != sb.len() {
                return sa.len() < sb.len();
            }
            if lex_before(&sa, &sb) {
                return true;
            }
            if lex_before(&sb, &sa) {
                return false;
            }
            proof {
                lex_less_total(sa@, sb@);
            }
            lex_before(&without_trailing_zeros(&fa), &without_trailing_zeros(&fb))
        },
        (Some(_), None) => true,
        (None, Some(_)) => false,
        (None, None) => lex_before(&chars_of(a), &chars_of(b)),
    }
}

/// `number` as a template writes it: a `.` in it becomes the site's own
/// decimal separator.
pub open spec fn rendered(number: Seq<char>, decimal: char) -> Seq<char> {
    let d = find_char_from(number, '.', 0);
    if d < 0 {
        number
    } else {
        number.take(d) + seq![decimal] + number.skip(d + 1)
    }
}

/// `find_char_from` finds the first occurrence from where it starts.
pub proof fn lemma_find_char_first(s: Seq<char>, c: char, from: int, k: int)
    requires
        0 <= from <= k < s.len(),
        s[k] == c,
        forall|j: int| from <= j < k ==> s[j] != c,
    ensures
        find_char_from(s, c, from) == k,
    decreases k - from,
{
    if from < k {
        lemma_find_char_first(s, c, from + 1, k);
    }
}

/// A template puts a chapter number between its prefix and suffix: a whole
/// number as it is, and a decimal one with the site's own separator in place
/// of the dot, so the number found in a URL with a separator rebuilds that
/// URL's spelling (`7.5` as `7-5`).
pub proof fn a_template_writes_the_number_in_the_sites_spelling(
    whole: Seq<char>,
    fraction: Seq<char>,
    decimal: char,
)
    requires
        forall|k: int| 0 <= k < whole.len() ==> #[trigger] whole[k] != '.',
    ensures
        rendered(whole, decimal) == whole,
        rendered(whole + "."@ + fraction, decimal) == whole + seq![decimal] + fraction,
{
    reveal_strlit(".");
    lemma_find_char_from(whole, '.', 0);
    let n = whole + "."@ + fraction;
    assert(n[whole.len() as int] == '.');
    assert forall|j: int| 0 <= j < whole.len() implies n[j] != '.' by {
        assert(n[j] == whole[j]);
    }
    lemma_find_char_first(n, '.', 0, whole.len() as int);
    assert(n.take(whole.len() as int) =~= whole);
    assert(n.skip(whole.len() as int + 1) =~= fraction);
}

/// The number a scan finds is the one read at its own start.
proof fn lemma_scan_reads(lower: Seq<char>, m: Seq<char>, from: int)
    ensures
        marker_scan(lower, m, from) matches Some(f) ==> read_number_spec(lower, f.0) == Some(f),
    decreases lower.len() + 1 - from,
{
    let at = find_from(lower, m, from);
    if from >= 0 && at >= 0 && m.len() > 0 {
        lemma_find_from(lower, m, from);
        let nf = at + m.len();
        if 0 <= nf {
            let i = skip_separators(lower, nf);
            lemma_skip_separators(lower, nf);
            lemma_read_number(lower, i);
        }
        lemma_scan_reads(lower, m, nf);
    }
}

proof fn lemma_markers_read(lower: Seq<char>, k: int)
    ensures
        markers_from(lower, k) matches Some(f) ==> read_number_spec(lower, f.0) == Some(f),
    decreases MARKER_COUNT - k,
{
    if 0 <= k < MARKER_COUNT {
        lemma_scan_reads(lower, marker_name(k), 0);
        lemma_markers_read(lower, k + 1);
    }
}

proof fn lemma_last_run_reads(lower: Seq<char>, i: int, last: Option<(int, int, Seq<char>, char)>)
    requires
        last matches Some(g) ==> read_number_spec(lower, g.0) == Some(g),
    ensures
        last_run(lower, i, last) matches Some(f) ==> read_number_spec(lower, f.0) == Some(f),
    decreases lower.len() - i,
{
    if 0 <= i < lower.len() {
        if is_digit(lower[i]) {
            lemma_read_number(lower, i);
            let f = read_number_spec(lower, i).unwrap();
            lemma_last_run_reads(lower, f.0 + f.1, Some(f));
        } else {
            lemma_last_run_reads(lower, i + 1, last);
        }
    }
}

/// The number located in a path is the one read where it starts.
proof fn lemma_locate_reads(path: Seq<char>)
    ensures
        locate_spec(path) matches Some(f) ==> read_number_spec(lower_seq(path), f.0) == Some(f),
{
    let lower = lower_seq(path);
    lemma_markers_read(lower, 0);
    lemma_last_run_reads(lower, 0, None);
}

/// Where a URL's path lies.
proof fn lemma_path_range_bounds(u: Seq<char>)
    ensures
        0 <= path_range(u).0 <= u.len(),
        path_range(u).1 <= u.len(),
        path_range(u).0 <= path_range(u).1 || path_range(u).0 == u.len(),
{
    reveal_strlit("://");
    lemma_find_from(u, "://"@, 0);
    let sep = find_from(u, "://"@, 0);
    let after = if sep < 0 { 0 } else { sep + 3 };
    assert(0 <= after <= u.len());
    let rest = u.skip(after);
    lemma_find_char_from(rest, '/', 0);
    let start = after + authority_end(rest);
    assert(start <= u.len());
    lemma_query_start(u, start);
}

/// Whether the written number has the canonical spelling: no leading zero
/// before another whole digit, and, when it has a fraction, no trailing zero.
pub open spec fn canonical_spelling(w: Seq<char>) -> bool {
    &&& !(w.len() > 1 && w[0] == '0' && is_digit(w[1]))
    &&& (all_digits(w) || w.last() != '0')
}

/// What a number reads as, when its spelling is canonical: the number itself,
/// with the separator as a dot.
proof fn lemma_read_canonical(s: Seq<char>, i: int)
    requires
        read_number_spec(s, i) is Some,
        canonical_spelling(s.subrange(i, i + read_number_spec(s, i).unwrap().1)),
    ensures
        ({
            let f = read_number_spec(s, i).unwrap();
            rendered(f.2, f.3) == s.subrange(i, i + f.1)
        }),
{
    reveal_strlit(".");
    reveal_strlit("0");
    lemma_read_number(s, i);
    let end = digits_end(s, i);
    lemma_digits_end(s, i);
    let whole = s.subrange(i, end);
    assert(all_digits(whole));
    let f = read_number_spec(s, i).unwrap();
    let w = s.subrange(i, i + f.1);
    assert(whole.len() >= 1);
    // the whole part keeps its spelling
    if whole.len() > 1 {
        assert(w[0] == whole[0] && w[1] == whole[1]);
        assert(is_digit(whole[1]));
        assert(whole[0] != '0');
    }
    assert(strip_leading_zeros(whole) == whole || whole =~= "0"@) by {
        if whole[0] != '0' {
        } else {
            assert(whole.len() == 1);
            assert(whole =~= "0"@);
        }
    }
    let fe = digits_end(s, end + 1);
    if end < s.len() && (s[end] == '-' || s[end] == '.') && fe > end + 1 && fe - end - 1 <= 2 {
        lemma_digits_end(s, end + 1);
        let frac = s.subrange(end + 1, fe);
        assert(all_digits(frac));
        assert(w =~= whole + seq![s[end]] + frac);
        assert(!all_digits(w)) by {
            assert(w[whole.len() as int] == s[end]);
        }
        assert(w.last() == frac.last());
        assert(frac.last() != '0');
        assert(strip_trailing_zeros(frac) == frac);
        let dotted = whole + "."@ + frac;
        lemma_digits_and_dot(whole, frac);
        assert(normalised(dotted) == dotted) by {
            if whole[0] == '0' {
                assert(strip_leading_zeros(whole) =~= Seq::<char>::empty()) by {
                    reveal_with_fuel(strip_leading_zeros, 2);
                    assert(whole.len() == 1);
                    assert(whole.skip(1) =~= Seq::<char>::empty());
                }
            }
        }
        a_template_writes_the_number_in_the_sites_spelling(whole, frac, s[end]);
        assert forall|k: int| 0 <= k < whole.len() implies #[trigger] whole[k] != '.' by {
            assert(is_digit(whole[k]));
        }
    } else {
        assert(w =~= whole);
        lemma_digits_only(whole);
        assert(normalised(whole) == whole) by {
            if whole[0] == '0' {
                assert(strip_leading_zeros(whole) =~= Seq::<char>::empty()) by {
                    reveal_with_fuel(strip_leading_zeros, 2);
                    assert(whole.len() == 1);
                    assert(whole.skip(1) =~= Seq::<char>::empty());
                }
            }
        }
        assert forall|k: int| 0 <= k < whole.len() implies #[trigger] whole[k] != '.' by {
            assert(is_digit(whole[k]));
        }
        a_template_writes_the_number_in_the_sites_spelling(whole, Seq::empty(), '.');
    }
}

/// Digits with a dot and more digits read back as those parts.
proof fn lemma_digits_and_dot(whole: Seq<char>, frac: Seq<char>)
    requires
        whole.len() >= 1,
        frac.len() >= 1,
        all_digits(whole),
        all_digits(frac),
    ensures
        trim(whole + "."@ + frac) == whole + "."@ + frac,
        decimal_parts(whole + "."@ + frac) == Some((whole, frac)),
{
    reveal_strlit(".");
    let l = whole + "."@ + frac;
    assert(is_digit(whole[0]));
    assert(l[0] == whole[0]);
    assert(l.last() == frac.last());
    assert(is_digit(frac[frac.len() - 1]));
    assert(crate::text::skip_space(l, 0) == 0);
    assert(crate::text::trim_start(l) =~= l);
    assert(crate::text::back_space(l, l.len() as int) == l.len());
    assert(trim(l) =~= l);
    assert(l[whole.len() as int] == '.');
    assert forall|j: int| 0 <= j < whole.len() implies l[j] != '.' by {
        assert(is_digit(whole[j]));
    }
    lemma_find_char_first(l, '.', 0, whole.len() as int);
    assert(l.take(whole.len() as int) =~= whole);
    assert(l.skip(whole.len() as int + 1) =~= frac);
}

/// Digits alone read back as a whole part with no fraction.
proof fn lemma_digits_only(whole: Seq<char>)
    requires
        whole.len() >= 1,
        all_digits(whole),
    ensures
        trim(whole) == whole,
        decimal_parts(whole) == Some((whole, Seq::<char>::empty())),
{
    assert(is_digit(whole[0]));
    assert(is_digit(whole[whole.len() - 1]));
    assert(crate::text::skip_space(whole, 0) == 0);
    assert(crate::text::trim_start(whole) =~= whole);
    assert(crate::text::back_space(whole, whole.len() as int) == whole.len());
    assert(trim(whole) =~= whole);
    lemma_find_char_from(whole, '.', 0);
    assert forall|j: int| 0 <= j < whole.len() implies whole[j] != '.' by {
        assert(is_digit(whole[j]));
    }
}

/// Re-applying the number found in a chapter URL rebuilds that URL, with the
/// site's own decimal separator, whenever the number is spelled canonically
/// there (no leading zero, no trailing zero in a fraction).
pub proof fn applying_the_found_number_rebuilds_the_url(
    u: Seq<char>,
    prefix: Seq<char>,
    suffix: Seq<char>,
    decimal: char,
    number: Seq<char>,
)
    requires
        split_spec(u) == Some((prefix, suffix, decimal, number)),
        canonical_spelling(u.subrange(prefix.len() as int, u.len() - suffix.len())),
    ensures
        prefix + rendered(number, decimal) + suffix == u,
{
    lemma_path_range_bounds(u);
    let (ps, pe) = path_range(u);
    let path = if ps <= pe && pe <= u.len() { u.subrange(ps, pe) } else { Seq::empty() };
    lemma_locate_bounds(path);
    lemma_locate_reads(path);
    let f = locate_spec(path).unwrap();
    let lower = lower_seq(path);
    let (off, len) = (f.0, f.1);
    assert(prefix == u.take(ps + off));
    assert(suffix == u.skip(ps + off + len));
    assert(path.len() > 0);
    assert(ps + off + len <= u.len());
    let w = u.subrange(ps + off, ps + off + len);
    assert(lower.subrange(off, off + len) =~= w) by {
        assert forall|k: int| 0 <= k < len implies lower.subrange(off, off + len)[k] == w[k] by {
            lemma_read_text(lower, off, k);
            assert(path[off + k] == u[ps + off + k]);
        }
    }
    assert(u.subrange(prefix.len() as int, u.len() - suffix.len()) =~= w);
    lemma_read_canonical(lower, off);
    assert(u =~= u.take(ps + off) + w + u.skip(ps + off + len));
}

/// Every character of a number read is a digit, a `-` or a `.`, which
/// lowercasing leaves as it is.
proof fn lemma_read_text(s: Seq<char>, i: int, k: int)
    requires
        read_number_spec(s, i) is Some,
        0 <= k < read_number_spec(s, i).unwrap().1,
    ensures
        is_digit(s[i + k]) || s[i + k] == '-' || s[i + k] == '.',
{
    lemma_read_number(s, i);
    lemma_digits_end(s, i);
    let end = digits_end(s, i);
    if end < s.len() {
        lemma_digits_end(s, end + 1);
    }
}

impl UrlTemplate {
    /// The URL this template gives for `number`, e.g. `"7"` or `"7.5"`.
    pub fn apply(&self, number: &str) -> (r: String)
        ensures
            r@ == self.prefix@ + rendered(number@, self.decimal) + self.suffix@,
    {
        let n = chars_of(number);
        let nl = n.len();
        let mut out = chars_of(self.prefix.as_str());
        match find_char(&n, '.', 0) {
            Some(d) => {
                proof {
                    lemma_find_char_from(n@, '.', 0);
                }
                push_all(&mut out, &slice_of(&n, 0, d));
                out.push(self.decimal);
                push_all(&mut out, &slice_of(&n, d + 1, nl));
            },
            None => {
                push_all(&mut out, &n);
            },
        }
        push_str(&mut out, self.suffix.as_str());
        assert(out@ =~= self.prefix@ + rendered(number@, self.decimal) + self.suffix@);
        string_of(out.as_slice())
    }

    /// A display form, for telling the user what pattern was recognised.
    pub fn pattern(&self) -> (r: String)
        ensures
            r@ == self.prefix@ + "{n}"@ + self.suffix@,
    {
        let mut out = chars_of(self.prefix.as_str());
        push_str(&mut out, "{n}");
        push_str(&mut out, self.suffix.as_str());
        string_of(out.as_slice())
    }
}

/// A chapter we know how to reach.
#[derive(Debug, Clone, PartialEq, Eq)]
pub struct ChapterLink {
    /// Normalised chapter number, e.g. `"7"` or `"7.5"`.
    pub number: String,
    pub url: String,
}

/// Links as (number, url) pairs.
pub open spec fn links_view(v: Seq<ChapterLink>) -> Seq<(Seq<char>, Seq<char>)> {
    v.map_values(|l: ChapterLink| (l.number@, l.url@))
}

/// The links whose number did not occur earlier, in order.
pub open spec fn first_per_number(ls: Seq<(Seq<char>, Seq<char>)>) -> Seq<(Seq<char>, Seq<char>)>
    decreases ls.len(),
{
    if ls.len() == 0 {
        Seq::empty()
    } else {
        let prev = first_per_number(ls.drop_last());
        if exists|k: int| 0 <= k < ls.len() - 1 && (#[trigger] ls[k]).0 == ls.last().0 {
            prev
        } else {
            prev.push(ls.last())
        }
    }
}

/// Whether links are in numeric order of their numbers.
pub open spec fn in_number_order(ls: Seq<(Seq<char>, Seq<char>)>) -> bool {
    forall|i: int, j: int| 0 <= i < j < ls.len() ==> !number_less(ls[j].0, ls[i].0)
}

/// `r` holds exactly the links of `d`, in numeric order.
pub open spec fn sorted_from(r: Seq<(Seq<char>, Seq<char>)>, d: Seq<(Seq<char>, Seq<char>)>) -> bool {
    &&& r.len() == d.len()
    &&& forall|x: (Seq<char>, Seq<char>)| r.contains(x) <==> d.contains(x)
    &&& in_number_order(r)
}

fn number_seen(links: &Vec<ChapterLink>, i: usize) -> (r: bool)
    requires
        i < links@.len(),
    ensures
        r == exists|k: int|
            0 <= k < i && (#[trigger] links_view(links@)[k]).0 == links_view(links@)[i as int].0,
{
    let mut k: usize = 0;
    while k < i
        invariant
            k <= i < links@.len(),
            forall|j: int|
                0 <= j < k ==> (#[trigger] links_view(links@)[j]).0 != links_view(
                    links@,
                )[i as int].0,
        decreases i - k,
    {
        if links[k].number == links[i].number {
            assert(links_view(links@)[k as int].0 == links_view(links@)[i as int].0);
            return true;
        }
        k = k + 1;
    }
    false
}

/// Keep the first link for each number, then order them numerically.
pub fn dedupe_and_sort(links: Vec<ChapterLink>) -> (r: Vec<ChapterLink>)
    ensures
        sorted_from(links_view(r@), first_per_number(links_view(links@))),
{
    let ghost lv = links_view(links@);
    let mut out: Vec<ChapterLink> = Vec::new();
    let ghost mut d: Seq<(Seq<char>, Seq<char>)> = Seq::empty();
    let mut i: usize = 0;
    assert(lv.take(0) =~= Seq::<(Seq<char>, Seq<char>)>::empty());
    while i < links.len()
        invariant
            lv == links_view(links@),
            i <= links@.len(),
            d == first_per_number(lv.take(i as int)),
            sorted_from(links_view(out@), d),
        decreases links@.len() - i,
    {
        let seen = number_seen(&links, i);
        proof {
            assert(lv.take(i + 1).drop_last() =~= lv.take(i as int));
            assert(lv.take(i + 1).last() == lv[i as int]);
            assert((exists|k: int|
                0 <= k < lv.take(i + 1).len() - 1 && (#[trigger] lv.take(i + 1)[k]).0 == lv.take(
                    i + 1,
                ).last().0) == seen) by {
                if seen {
                    let k = choose|k: int| 0 <= k < i && (#[trigger] lv[k]).0 == lv[i as int].0;
                    assert(lv.take(i + 1)[k] == lv[k]);
                }
                if exists|k: int|
                    0 <= k < lv.take(i + 1).len() - 1 && (#[trigger] lv.take(i + 1)[k]).0
                        == lv.take(i + 1).last().0 {
                    let k = choose|k: int|
                        0 <= k < lv.take(i + 1).len() - 1 && (#[trigger] lv.take(i + 1)[k]).0
                            == lv.take(i + 1).last().0;
                    assert(lv.take(i + 1)[k] == lv[k]);
                }
            }
        }
        if !seen {
            let x = ChapterLink { number: links[i].number.clone(), url: links[i].url.clone() };
            let ghost xv = (x.number@, x.url@);
            assert(xv == lv[i as int]);
            let ghost ov = links_view(out@);
            let mut k: usize = 0;
            while k < out.len() && !number_before(x.number.as_str(), out[k].number.as_str())
                invariant
                    k <= out@.len(),
                    ov == links_view(out@),
                    xv == (x.number@, x.url@),
                    forall|j: int| 0 <= j < k ==> !number_less(xv.0, #[trigger] ov[j].0),
                decreases out@.len() - k,
            {
                k = k + 1;
            }
            out.insert(k, x);
            proof {
                let nv = links_view(out@);
                assert(nv =~= ov.insert(k as int, xv));
                assert forall|a: int, b: int| 0 <= a < b < nv.len() implies !number_less(
                    nv[b].0,
                    nv[a].0,
                ) by {
                    number_less_asymmetric(nv[a].0, nv[b].0);
                    if a < k && b == k {
                    } else if a == k && b > k {
                        if k < ov.len() {
                            assert(number_less(xv.0, ov[k as int].0));
                            if number_less(nv[b].0, xv.0) {
                                number_less_transitive(nv[b].0, xv.0, ov[k as int].0);
                                number_less_asymmetric(ov[k as int].0, ov[k as int].0);
                            }
                        }
                    } else if a < k && b > k {
                        assert(nv[a] == ov[a]);
                        assert(nv[b] == ov[b - 1]);
                    } else if a > k {
                        assert(nv[a] == ov[a - 1]);
                        assert(nv[b] == ov[b - 1]);
                    } else {
                        assert(nv[a] == ov[a]);
                        assert(nv[b] == ov[b]);
                    }
                }
                assert forall|y: (Seq<char>, Seq<char>)| nv.contains(y) <==> d.push(xv).contains(
                    y,
                ) by {
                    if nv.contains(y) {
                        let m = choose|m: int| 0 <= m < nv.len() && nv[m] == y;
                        if m < k {
                            assert(ov[m] == y);
                            assert(ov.contains(y));
                        } else if m > k {
                            assert(ov[m - 1] == y);
                            assert(ov.contains(y));
                        }
                        if y != xv {
                            assert(d.contains(y));
                            let m2 = choose|m2: int| 0 <= m2 < d.len() && d[m2] == y;
                            assert(d.push(xv)[m2] == y);
                        } else {
                            assert(d.push(xv)[d.len() as int] == y);
                        }
                    }
                    if d.push(xv).contains(y) {
                        let m = choose|m: int| 0 <= m < d.push(xv).len() && d.push(xv)[m] == y;
                        if m == d.len() {
                            assert(nv[k as int] == y);
                        } else {
                            assert(d[m] == y);
                            assert(d.contains(y));
                            assert(ov.contains(y));
                            let m2 = choose|m2: int| 0 <= m2 < ov.len() && ov[m2] == y;
                            if m2 < k {
                                assert(nv[m2] == y);
                            } else {
                                assert(nv[m2 + 1] == y);
                            }
                        }
                    }
                }
                d = d.push(xv);
            }
        }
        i = i + 1;
    }
    assert(lv.take(i as int) =~= lv);
    out
}

/// The chapter link an `<a>` tag offers a page at `page`, as (pattern,
/// number, url): its `href`, resolved, on the page's own origin, with a
/// number to split out.
pub open spec fn link_of(page: Seq<char>, tag: (Seq<char>, Seq<char>)) -> Option<
    (Seq<char>, Seq<char>, Seq<char>),
> {
    if tag.0 != "a"@ {
        None
    } else {
        match attr_spec(tag.1, "href"@) {
            None => None,
            Some(h) => match resolved(page, h) {
                None => None,
                Some(u) => if origin_text(u) != origin_text(page) {
                    None
                } else {
                    match split_spec(u) {
                        None => None,
                        Some((prefix, suffix, _decimal, number)) => Some(
                            (prefix + "{n}"@ + suffix, number, u),
                        ),
                    }
                },
            },
        }
    }
}

/// The chapter links a run of tags offers, in document order.
pub open spec fn links_of(page: Seq<char>, tags: Seq<(Seq<char>, Seq<char>)>) -> Seq<
    (Seq<char>, Seq<char>, Seq<char>),
>
    decreases tags.len(),
{
    if tags.len() == 0 {
        Seq::empty()
    } else {
        links_of(page, tags.drop_last()) + match link_of(page, tags.last()) {
            Some(l) => seq![l],
            None => Seq::empty(),
        }
    }
}

/// How many links have URL shape `p`.
pub open spec fn shape_count(ls: Seq<(Seq<char>, Seq<char>, Seq<char>)>, p: Seq<char>) -> nat
    decreases ls.len(),
{
    if ls.len() == 0 {
        0
    } else {
        shape_count(ls.drop_last(), p) + if ls.last().0 == p {
            1nat
        } else {
            0nat
        }
    }
}

/// Whether shape `p` beats shape `q`: more links, or as many and first in
/// text order.
pub open spec fn beats(ls: Seq<(Seq<char>, Seq<char>, Seq<char>)>, p: Seq<char>, q: Seq<char>) -> bool {
    shape_count(ls, p) > shape_count(ls, q) || (shape_count(ls, p) == shape_count(ls, q)
        && lex_less(p, q))
}

/// Whether `p` is the page's dominant shape: some link has it and no link's
/// shape beats it.
pub open spec fn is_dominant(ls: Seq<(Seq<char>, Seq<char>, Seq<char>)>, p: Seq<char>) -> bool {
    &&& exists|i: int| 0 <= i < ls.len() && (#[trigger] ls[i]).0 == p
    &&& forall|i: int| 0 <= i < ls.len() ==> !beats(ls, (#[trigger] ls[i]).0, p)
}

/// The (number, url) of the links with shape `p`, in order.
pub open spec fn shape_links(ls: Seq<(Seq<char>, Seq<char>, Seq<char>)>, p: Seq<char>) -> Seq<
    (Seq<char>, Seq<char>),
>
    decreases ls.len(),
{
    if ls.len() == 0 {
        Seq::empty()
    } else {
        shape_links(ls.drop_last(), p) + if ls.last().0 == p {
            seq![(ls.last().1, ls.last().2)]
        } else {
            Seq::empty()
        }
    }
}

/// A page has at most one dominant shape.
pub proof fn dominant_shape_is_unique(
    ls: Seq<(Seq<char>, Seq<char>, Seq<char>)>,
    p: Seq<char>,
    q: Seq<char>,
)
    requires
        is_dominant(ls, p),
        is_dominant(ls, q),
    ensures
        p == q,
{
    let i = choose|i: int| 0 <= i < ls.len() && (#[trigger] ls[i]).0 == p;
    let j = choose|j: int| 0 <= j < ls.len() && (#[trigger] ls[j]).0 == q;
    assert(!beats(ls, ls[i].0, q));
    assert(!beats(ls, ls[j].0, p));
    lex_less_total(p, q);
}

proof fn beats_transitive(
    ls: Seq<(Seq<char>, Seq<char>, Seq<char>)>,
    p: Seq<char>,
    q: Seq<char>,
    r: Seq<char>,
)
    requires
        beats(ls, p, q),
        beats(ls, q, r),
    ensures
        beats(ls, p, r),
{
    if shape_count(ls, p) == shape_count(ls, q) && shape_count(ls, q) == shape_count(ls, r) {
        lex_less_transitive(p, q, r);
    }
}

/// A (pattern, link) pair viewed as the spec's (pattern, number, url).
pub open spec fn entry_view(e: (String, ChapterLink)) -> (Seq<char>, Seq<char>, Seq<char>) {
    (e.0@, e.1.number@, e.1.url@)
}

fn same_origin(a: &Option<String>, b: &Option<String>) -> (r: bool)
    ensures
        r == (match (a, b) {
            (Some(x), Some(y)) => x@ == y@,
            (None, None) => true,
            _ => false,
        }),
{
    match (a, b) {
        (Some(x), Some(y)) => *x == *y,
        (None, None) => true,
        _ => false,
    }
}

fn link_from(page: &str, host: &Option<String>, tag: &crate::fetch::extract::Tag) -> (r: Option<
    (String, ChapterLink),
>)
    requires
        match host {
            Some(h) => origin_text(page@) == Some(h@),
            None => origin_text(page@) is None,
        },
    ensures
        match r {
            Some(e) => link_of(page@, (tag.name@, tag.body@)) == Some(entry_view(e)),
            None => link_of(page@, (tag.name@, tag.body@)) is None,
        },
{
    proof {
        reveal_strlit("href");
        reveal_strlit("{n}");
    }
    let name = chars_of(tag.name.as_str());
    if !crate::text::eq_str(&name, "a") {
        return None;
    }
    let href = match tag.attr("href") {
        Some(h) => h,
        None => return None,
    };
    let u = match resolve(page, href.as_str()) {
        Some(u) => u,
        None => return None,
    };
    let o = origin_of(u.as_str());
    if !same_origin(&o, host) {
        return None;
    }
    match split(u.as_str()) {
        Some((t, number)) => {
            let p = t.pattern();
            Some((p, ChapterLink { number, url: u }))
        },
        None => None,
    }
}

fn count_shape(es: &Vec<(String, ChapterLink)>, p: &String) -> (r: usize)
    ensures
        r as nat == shape_count(es@.map_values(|e: (String, ChapterLink)| entry_view(e)), p@),
{
    let ghost ls = es@.map_values(|e: (String, ChapterLink)| entry_view(e));
    let mut n: usize = 0;
    let mut i: usize = 0;
    assert(ls.take(0) =~= Seq::<(Seq<char>, Seq<char>, Seq<char>)>::empty());
    while i < es.len()
        invariant
            ls == es@.map_values(|e: (String, ChapterLink)| entry_view(e)),
            i <= es@.len(),
            n as nat == shape_count(ls.take(i as int), p@),
            n <= i,
        decreases es@.len() - i,
    {
        assert(ls.take(i + 1).drop_last() =~= ls.take(i as int));
        assert(ls.take(i + 1).last() == entry_view(es@[i as int]));
        if es[i].0 == *p {
            n = n + 1;
        }
        i = i + 1;
    }
    assert(ls.take(i as int) =~= ls);
    n
}

/// The chapter links a page offers, in numeric order. Links are kept only
/// when they share the page's dominant URL shape, which is what separates the
/// chapter list from navigation, related-series boxes and adverts; a chapter
/// linked twice is listed once.
pub fn chapter_links(page_url: &str, html: &str) -> (r: Vec<ChapterLink>)
    ensures
        ({
            let ls = links_of(page_url@, tags_spec(html@));
            &&& ls.len() == 0 ==> r@.len() == 0
            &&& ls.len() > 0 ==> exists|p: Seq<char>|
                is_dominant(ls, p) && sorted_from(
                    links_view(r@),
                    first_per_number(#[trigger] shape_links(ls, p)),
                )
        }),
{
    let host = origin_of(page_url);
    let ts = tags(html);
    let ghost t = tags_spec(html@);
    let mut es: Vec<(String, ChapterLink)> = Vec::new();
    let mut i: usize = 0;
    assert(t.take(0) =~= Seq::<(Seq<char>, Seq<char>)>::empty());
    while i < ts.len()
        invariant
            tags_are(ts@, t),
            t == tags_spec(html@),
            i <= ts@.len(),
            match host {
                Some(h) => origin_text(page_url@) == Some(h@),
                None => origin_text(page_url@) is None,
            },
            es@.map_values(|e: (String, ChapterLink)| entry_view(e)) == links_of(
                page_url@,
                t.take(i as int),
            ),
        decreases ts@.len() - i,
    {
        let ghost before = es@;
        match link_from(page_url, &host, &ts[i]) {
            Some(e) => {
                es.push(e);
            },
            None => {},
        }
        proof {
            assert(t.take(i + 1).drop_last() =~= t.take(i as int));
            assert(t.take(i + 1).last() == t[i as int]);
            assert(es@.map_values(|e: (String, ChapterLink)| entry_view(e)) =~= links_of(
                page_url@,
                t.take(i + 1),
            ));
        }
        i = i + 1;
    }
    assert(t.take(i as int) =~= t);
    let ghost ls = links_of(page_url@, t);
    if es.len() == 0 {
        return Vec::new();
    }
    let mut best: usize = 0;
    let mut best_count = count_shape(&es, &es[0].0);
    let mut k: usize = 1;
    proof {
        lex_less_asymmetric(ls[0].0, ls[0].0);
    }
    while k < es.len()
        invariant
            ls == es@.map_values(|e: (String, ChapterLink)| entry_view(e)),
            0 <= best < es@.len(),
            1 <= k <= es@.len(),
            best_count as nat == shape_count(ls, ls[best as int].0),
            forall|j: int| 0 <= j < k ==> !beats(ls, (#[trigger] ls[j]).0, ls[best as int].0),
        decreases es@.len() - k,
    {
        let c = count_shape(&es, &es[k].0);
        let better = c > best_count || (c == best_count && lex_before(
            &chars_of(es[k].0.as_str()),
            &chars_of(es[best].0.as_str()),
        ));
        proof {
            lex_less_asymmetric(ls[k as int].0, ls[k as int].0);
            if better {
                assert forall|j: int| 0 <= j < k + 1 implies !beats(
                    ls,
                    (#[trigger] ls[j]).0,
                    ls[k as int].0,
                ) by {
                    if j < k && beats(ls, ls[j].0, ls[k as int].0) {
                        beats_transitive(ls, ls[j].0, ls[k as int].0, ls[best as int].0);
                    }
                }
            }
        }
        if better {
            best = k;
            best_count = c;
        }
        k = k + 1;
    }
    assert(is_dominant(ls, ls[best as int].0));
    let ghost p = ls[best as int].0;
    let shape = es[best].0.clone();
    let mut group: Vec<ChapterLink> = Vec::new();
    let mut m: usize = 0;
    assert(ls.take(0) =~= Seq::<(Seq<char>, Seq<char>, Seq<char>)>::empty());
    while m < es.len()
        invariant
            ls == es@.map_values(|e: (String, ChapterLink)| entry_view(e)),
            shape@ == p,
            m <= es@.len(),
            links_view(group@) == shape_links(ls.take(m as int), p),
        decreases es@.len() - m,
    {
        assert(ls.take(m + 1).drop_last() =~= ls.take(m as int));
        assert(ls.take(m + 1).last() == entry_view(es@[m as int]));
        if es[m].0 == shape {
            group.push(
                ChapterLink { number: es[m].1.number.clone(), url: es[m].1.url.clone() },
            );
        }
        assert(links_view(group@) =~= shape_links(ls.take(m + 1), p));
        m = m + 1;
    }
    assert(ls.take(m as int) =~= ls);
    dedupe_and_sort(group)
}

} // verus!
