//! Deciding whether a published release is an update worth offering.
use vstd::prelude::*;

use crate::text::{chars_of, is_digit, push_str, slice_of, string_of};

verus! {

/// Whether a character separates version fields.
pub open spec fn is_field_sep(c: char) -> bool {
    c == '.' || c == '-' || c == '+'
}

/// Index of the first separator at or after `i`, or the length.
pub open spec fn next_sep(s: Seq<char>, i: int) -> int
    decreases s.len() - i,
{
    if i < 0 || i >= s.len() {
        s.len() as int
    } else if is_field_sep(s[i]) {
        i
    } else {
        next_sep(s, i + 1)
    }
}

pub proof fn lemma_next_sep(s: Seq<char>, i: int)
    requires
        0 <= i <= s.len(),
    ensures
        i <= next_sep(s, i) <= s.len(),
        next_sep(s, i) < s.len() ==> is_field_sep(s[next_sep(s, i)]),
    decreases s.len() - i,
{
    if i < s.len() && !is_field_sep(s[i]) {
        lemma_next_sep(s, i + 1);
    }
}

/// The pieces of a version between separators, in order.
pub open spec fn fields_from(s: Seq<char>, i: int) -> Seq<Seq<char>>
    decreases s.len() + 1 - i,
{
    if i < 0 || i > s.len() {
        Seq::empty()
    } else {
        let e = next_sep(s, i);
        proof {
            lemma_next_sep(s, i);
        }
        seq![s.subrange(i, e)] + fields_from(s, e + 1)
    }
}

/// The value of a digit run.
pub open spec fn digits_value(s: Seq<char>) -> nat {
    crate::natsort::digits_value(s)
}

/// A field without its leading `+`, if it has one.
pub open spec fn unsigned_part(f: Seq<char>) -> Seq<char> {
    if f.len() > 0 && f[0] == '+' {
        f.skip(1)
    } else {
        f
    }
}

/// Whether a text is a non-empty run of digits.
pub open spec fn is_numeral(d: Seq<char>) -> bool {
    d.len() > 0 && forall|k: int| 0 <= k < d.len() ==> is_digit(#[trigger] d[k])
}

/// A field's number as `u32` parsing reads it (an optional `+`, then digits,
/// fitting a `u32`); zero when it does not parse.
pub open spec fn field_number(f: Seq<char>) -> nat {
    let d = unsigned_part(f);
    if is_numeral(d) && digits_value(d) <= u32::MAX {
        digits_value(d)
    } else {
        0
    }
}

/// The numbers of a version's fields.
pub open spec fn version_numbers(v: Seq<char>) -> Seq<nat> {
    fields_from(v, 0).map_values(|f: Seq<char>| field_number(f))
}

/// Field `i` of a version, zero past its end.
pub open spec fn field_at(ns: Seq<nat>, i: int) -> nat {
    if 0 <= i < ns.len() {
        ns[i]
    } else {
        0
    }
}

/// Whether `a` is later than `b` from field `i` on: at the first field where
/// they differ, `a`'s is larger.
pub open spec fn later_from(a: Seq<nat>, b: Seq<nat>, i: int) -> bool
    decreases (if a.len() > b.len() { a.len() } else { b.len() }) - i,
{
    if i < 0 || (i >= a.len() && i >= b.len()) {
        false
    } else if field_at(a, i) != field_at(b, i) {
        field_at(a, i) > field_at(b, i)
    } else {
        later_from(a, b, i + 1)
    }
}

/// Whether version `candidate` is later than `current`, compared field by
/// field as numbers (a missing field counts as zero): a string compare would
/// call 1.10.0 older than 1.9.0.
pub open spec fn newer_spec(candidate: Seq<char>, current: Seq<char>) -> bool {
    later_from(version_numbers(candidate), version_numbers(current), 0)
}

fn field_value(s: &Vec<char>, start: usize, end: usize) -> (r: u32)
    requires
        start <= end <= s@.len(),
    ensures
        r as nat == field_number(s@.subrange(start as int, end as int)),
{
    let f = slice_of(s, start, end);
    let ds: usize = if f.len() > 0 && f[0] == '+' { 1 } else { 0 };
    let ghost d = unsigned_part(f@);
    assert(f@.subrange(ds as int, f@.len() as int) =~= d);
    if ds == f.len() {
        return 0;
    }
    let mut k = ds;
    while k < f.len()
        invariant
            ds <= k <= f@.len(),
            f@ == s@.subrange(start as int, end as int),
            f@.subrange(ds as int, f@.len() as int) == d,
            d == unsigned_part(f@),
            forall|j: int| ds <= j < k ==> is_digit(#[trigger] f@[j]),
        decreases f@.len() - k,
    {
        if !('0' <= f[k] && f[k] <= '9') {
            assert(d[k - ds] == f@[k as int]);
            assert(!is_digit(d[k - ds]));
            assert(!is_numeral(d));
            return 0;
        }
        k = k + 1;
    }
    assert forall|j: int| 0 <= j < d.len() implies is_digit(#[trigger] d[j]) by {
        assert(d[j] == f@[ds + j]);
    }
    match crate::natsort::digits_in(&f, ds, f.len()) {
        Some(v) => {
            if v > 0xffff_ffffu128 {
                0
            } else {
                v as u32
            }
        },
        None => 0,
    }
}

fn numbers(v: &str) -> (r: Vec<u32>)
    ensures
        r@.len() == version_numbers(v@).len(),
        forall|k: int| 0 <= k < r@.len() ==> r@[k] as nat == version_numbers(v@)[k],
{
    let s = chars_of(v);
    let n = s.len();
    let mut out: Vec<u32> = Vec::new();
    let mut i: usize = 0;
    let ghost mut seen: Seq<Seq<char>> = Seq::empty();
    assert(Seq::<Seq<char>>::empty() + fields_from(s@, 0) =~= fields_from(s@, 0));
    loop
        invariant
            n == s@.len(),
            s@ == v@,
            i <= n,
            fields_from(s@, 0) == seen + fields_from(s@, i as int),
            out@.len() == seen.len(),
            forall|k: int| 0 <= k < out@.len() ==> out@[k] as nat == field_number(seen[k]),
        decreases n + 1 - i,
    {
        let mut e = i;
        while e < n && !(s[e] == '.' || s[e] == '-' || s[e] == '+')
            invariant
                i <= e <= n,
                n == s@.len(),
                next_sep(s@, i as int) == next_sep(s@, e as int),
            decreases n - e,
        {
            e = e + 1;
        }
        let value = field_value(&s, i, e);
        out.push(value);
        proof {
            assert(fields_from(s@, i as int) == seq![s@.subrange(i as int, e as int)] + fields_from(
                s@,
                e + 1,
            ));
            seen = seen.push(s@.subrange(i as int, e as int));
            assert(fields_from(s@, 0) =~= seen + fields_from(s@, e + 1));
        }
        if e == n {
            assert(fields_from(s@, e + 1) =~= Seq::<Seq<char>>::empty());
            assert(seen =~= fields_from(s@, 0));
            return out;
        }
        i = e + 1;
    }
}

/// Is `candidate` a later version than `current`?
pub fn newer(candidate: &str, current: &str) -> (r: bool)
    ensures
        r == newer_spec(candidate@, current@),
{
    let a = numbers(candidate);
    let b = numbers(current);
    let ghost na = version_numbers(candidate@);
    let ghost nb = version_numbers(current@);
    let len = if a.len() > b.len() { a.len() } else { b.len() };
    let mut i: usize = 0;
    while i < len
        invariant
            i <= len,
            len == (if a@.len() > b@.len() { a@.len() } else { b@.len() }),
            a@.len() == na.len(),
            b@.len() == nb.len(),
            forall|k: int| 0 <= k < a@.len() ==> a@[k] as nat == na[k],
            forall|k: int| 0 <= k < b@.len() ==> b@[k] as nat == nb[k],
            newer_spec(candidate@, current@) == later_from(na, nb, i as int),
        decreases len - i,
    {
        let x: u32 = if i < a.len() { a[i] } else { 0 };
        let y: u32 = if i < b.len() { b[i] } else { 0 };
        assert(x as nat == field_at(na, i as int));
        assert(y as nat == field_at(nb, i as int));
        if x != y {
            return x > y;
        }
        i = i + 1;
    }
    false
}

/// What a newer release offers: its version, notes, the APK's address and size.
#[derive(Debug, Clone)]
pub struct AndroidUpdate {
    pub version: String,
    pub notes: String,
    pub url: String,
    pub bytes: u64,
}

/// An asset of a published release, as the release listing gives it.
#[derive(Debug, Clone)]
pub struct ReleaseAsset {
    pub name: Option<String>,
    pub url: Option<String>,
    pub size: Option<u64>,
}

/// `s` without its leading `v`s.
pub open spec fn without_vs(s: Seq<char>) -> Seq<char>
    decreases s.len(),
{
    if s.len() > 0 && s[0] == 'v' {
        without_vs(s.skip(1))
    } else {
        s
    }
}

/// Whether an asset is the APK: its name ends in `.apk`. Matching on the
/// extension rather than the full name means a rename does not silently stop
/// updates.
pub open spec fn is_apk(a: ReleaseAsset) -> bool {
    match a.name {
        Some(n) => n@.len() >= 4 && n@.skip(n@.len() - 4) == ".apk"@,
        None => false,
    }
}

/// Index of the first APK asset, or -1.
pub open spec fn first_apk(assets: Seq<ReleaseAsset>, from: int) -> int
    decreases assets.len() - from,
{
    if from < 0 || from >= assets.len() {
        -1
    } else if is_apk(assets[from]) {
        from
    } else {
        first_apk(assets, from + 1)
    }
}

/// Why a release cannot be offered, or `None` when it can (or need not be).
pub open spec fn offer_problem(tag: Seq<char>, current: Seq<char>, assets: Seq<ReleaseAsset>) -> Option<
    Seq<char>,
> {
    let version = without_vs(tag);
    if version.len() == 0 {
        Some("the latest release has no version tag"@)
    } else if !newer_spec(version, current) {
        None
    } else {
        let i = first_apk(assets, 0);
        if i < 0 {
            Some("release "@ + tag + " has no APK to install"@)
        } else if assets[i].url is None {
            Some("that APK has no download URL"@)
        } else {
            None
        }
    }
}

fn ends_with_apk(n: &String) -> (r: bool)
    ensures
        r == (n@.len() >= 4 && n@.skip(n@.len() - 4) == ".apk"@),
{
    proof {
        reveal_strlit(".apk");
    }
    let c = chars_of(n.as_str());
    if c.len() < 4 {
        return false;
    }
    let tail = slice_of(&c, c.len() - 4, c.len());
    assert(tail@ =~= c@.skip(c@.len() - 4));
    crate::text::eq_str(&tail, ".apk")
}

/// Decide whether a release (its tag, notes and assets) is an update to offer
/// over version `current`: `None` when it is not newer; the version, notes,
/// APK address and size when it is.
pub fn offer(tag: &str, current: &str, notes: Option<String>, assets: &Vec<ReleaseAsset>) -> (r: Result<
    Option<AndroidUpdate>,
    String,
>)
    ensures
        match r {
            Err(e) => offer_problem(tag@, current@, assets@) == Some(e@),
            Ok(None) => offer_problem(tag@, current@, assets@) is None && (without_vs(tag@).len()
                > 0 && !newer_spec(without_vs(tag@), current@)),
            Ok(Some(u)) => offer_problem(tag@, current@, assets@) is None && without_vs(tag@).len() > 0
                && newer_spec(without_vs(tag@), current@) && u.version@ == without_vs(tag@) && u.url@
                == assets@[first_apk(assets@, 0)].url->0@ && u.bytes == match assets@[first_apk(
                assets@,
                0,
            )].size {
                Some(b) => b,
                None => 0,
            } && u.notes@ == match notes {
                Some(n) => n@,
                None => Seq::<char>::empty(),
            },
        },
{
    proof {
        reveal_strlit("the latest release has no version tag");
        reveal_strlit("that APK has no download URL");
    }
    let t = chars_of(tag);
    let mut i: usize = 0;
    assert(t@.skip(0) =~= t@);
    while i < t.len() && t[i] == 'v'
        invariant
            i <= t@.len(),
            t@ == tag@,
            without_vs(tag@) == without_vs(t@.skip(i as int)),
        decreases t@.len() - i,
    {
        assert(t@.skip(i as int).skip(1) =~= t@.skip(i + 1));
        i = i + 1;
    }
    let version = string_of(slice_of(&t, i, t.len()).as_slice());
    assert(version@ =~= t@.skip(i as int));
    if version.as_str().is_empty() {
        return Err(String::from_str("the latest release has no version tag"));
    }
    if !newer(version.as_str(), current) {
        return Ok(None);
    }
    let mut k: usize = 0;
    while k < assets.len()
        invariant
            k <= assets@.len(),
            first_apk(assets@, 0) == first_apk(assets@, k as int),
            version@ == without_vs(tag@),
            version@.len() > 0,
            newer_spec(version@, current@),
        decreases assets@.len() - k,
    {
        let apk = match &assets[k].name {
            Some(n) => ends_with_apk(n),
            None => false,
        };
        if apk {
            proof {
                reveal_strlit("that APK has no download URL");
            }
            let url = match &assets[k].url {
                Some(u) => u.clone(),
                None => return Err(String::from_str("that APK has no download URL")),
            };
            let bytes = match assets[k].size {
                Some(b) => b,
                None => 0,
            };
            let notes = match notes {
                Some(n) => n,
                None => String::new(),
            };
            return Ok(Some(AndroidUpdate { version, notes, url, bytes }));
        }
        k = k + 1;
    }
    let mut e = chars_of("release ");
    push_str(&mut e, tag);
    push_str(&mut e, " has no APK to install");
    Err(string_of(e.as_slice()))
}

} // verus!
