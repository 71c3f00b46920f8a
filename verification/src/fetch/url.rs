//! Just enough URL handling to turn what a page says into something fetchable:
//! resolving a reference against the page it was found on, and reading the
//! pieces of a URL the rest of the crate cares about.
use vstd::prelude::*;

use crate::text::{
    begins_with, chars_of, eq_str, find_char, find_char_from, find_from, find_str, is_digit,
    lemma_find_char_from, lemma_find_from, lower_seq, lowered, push_all, push_str, slice_of, starts_with, string_of,
    trim, trimmed,
};

verus! {

/// An ASCII letter.
pub open spec fn is_alpha(c: char) -> bool {
    ('a' <= c && c <= 'z') || ('A' <= c && c <= 'Z')
}

/// An ASCII letter or digit.
pub open spec fn is_alnum(c: char) -> bool {
    is_alpha(c) || is_digit(c)
}

/// A character allowed after the first in a URL scheme.
pub open spec fn is_scheme_char(c: char) -> bool {
    is_alnum(c) || c == '+' || c == '-' || c == '.'
}

/// Where a scheme's `:` is, if the string starts with a scheme. Only letters,
/// digits and `+-.` may appear in one, which keeps a relative `chapter:1` or a
/// Windows `C:\x`-style path from counting.
pub open spec fn scheme_end(s: Seq<char>) -> Option<int> {
    let colon = find_char_from(s, ':', 0);
    if colon <= 0 {
        None
    } else if is_alpha(s[0]) && forall|k: int| 1 <= k < colon ==> is_scheme_char(#[trigger] s[k]) {
        Some(colon)
    } else {
        None
    }
}

/// Index of the first `?` or `#` at or after `from`, else the length.
pub open spec fn query_start(s: Seq<char>, from: int) -> int
    decreases s.len() - from,
{
    if from < 0 || from >= s.len() {
        s.len() as int
    } else if s[from] == '?' || s[from] == '#' {
        from
    } else {
        query_start(s, from + 1)
    }
}

/// Index of the last `c` in `s`, or -1.
pub open spec fn last_index(s: Seq<char>, c: char) -> int
    decreases s.len(),
{
    if s.len() == 0 {
        -1
    } else if s.last() == c {
        s.len() - 1
    } else {
        last_index(s.drop_last(), c)
    }
}

/// Index of the first `/` in `s`, else its length.
pub open spec fn authority_end(s: Seq<char>) -> int {
    let slash = find_char_from(s, '/', 0);
    if slash < 0 { s.len() as int } else { slash }
}

/// What a reference resolves to on a page, or `None` when it cannot become an
/// HTTP(S) request (`data:`, `javascript:`, a bare fragment, or a page URL with
/// no scheme to resolve against).
pub open spec fn resolved(base: Seq<char>, reference: Seq<char>) -> Option<Seq<char>> {
    let r = trim(reference);
    if r.len() == 0 {
        None
    } else {
        match scheme_end(r) {
            Some(e) => if lower_seq(r.take(e)) == "http"@ || lower_seq(r.take(e)) == "https"@ {
                Some(r)
            } else {
                None
            },
            None => {
                let sep = find_from(base, "://"@, 0);
                if sep < 0 {
                    None
                } else {
                    let scheme = base.take(sep);
                    let rest = base.skip(sep + 3);
                    let ae = authority_end(rest);
                    let origin = scheme + "://"@ + rest.take(ae);
                    if starts_with(r, "//"@) {
                        Some(scheme + "://"@ + r.skip(2))
                    } else if starts_with(r, "/"@) {
                        Some(origin + r)
                    } else if starts_with(r, "#"@) {
                        None
                    } else {
                        let path = rest.skip(ae);
                        let path = path.take(query_start(path, 0));
                        let slash = last_index(path, '/');
                        let dir = if slash < 0 { "/"@ } else { path.take(slash + 1) };
                        Some(origin + dir + r)
                    }
                }
            },
        }
    }
}

/// Where the path of a URL starts and ends: after the authority (or at the
/// start when there is no `://`), up to the query or fragment.
pub open spec fn path_range(url: Seq<char>) -> (int, int) {
    let sep = find_from(url, "://"@, 0);
    let after = if sep < 0 { 0 } else { sep + 3 };
    let start = after + authority_end(url.skip(after));
    (start, query_start(url, start))
}

/// The path component of a URL, with query and fragment removed; `/` when the
/// URL names only a host.
pub open spec fn path_text(url: Seq<char>) -> Seq<char> {
    let (start, end) = path_range(url);
    if start >= url.len() { "/"@ } else { url.subrange(start, end) }
}

/// `scheme://authority` of a URL.
pub open spec fn origin_text(url: Seq<char>) -> Option<Seq<char>> {
    let sep = find_from(url, "://"@, 0);
    if sep < 0 {
        None
    } else {
        let rest = url.skip(sep + 3);
        Some(url.take(sep) + "://"@ + rest.take(authority_end(rest)))
    }
}

/// The lowercase extension of a URL's last path segment: what follows its last
/// `.`, when that is one to five ASCII letters or digits.
pub open spec fn url_extension(url: Seq<char>) -> Option<Seq<char>> {
    let path = path_text(url);
    let last = path.skip(last_index(path, '/') + 1);
    let dot = last_index(last, '.');
    if dot < 0 {
        None
    } else {
        let ext = last.skip(dot + 1);
        if ext.len() == 0 || ext.len() > 5 || !(forall|k: int| 0 <= k < ext.len() ==> is_alnum(#[trigger] ext[k])) {
            None
        } else {
            Some(lower_seq(ext))
        }
    }
}

pub proof fn lemma_last_index(s: Seq<char>, c: char)
    ensures
        -1 <= last_index(s, c) < s.len(),
        last_index(s, c) >= 0 ==> s[last_index(s, c)] == c,
        forall|k: int| last_index(s, c) < k < s.len() ==> s[k] != c,
    decreases s.len(),
{
    if s.len() > 0 && s.last() != c {
        lemma_last_index(s.drop_last(), c);
        assert forall|k: int| last_index(s, c) < k < s.len() implies s[k] != c by {
            if k < s.len() - 1 {
                assert(s[k] == s.drop_last()[k]);
            }
        }
    }
}

pub proof fn lemma_query_start(s: Seq<char>, from: int)
    requires
        0 <= from,
    ensures
        query_start(s, from) == s.len() || (from <= query_start(s, from) < s.len()),
        query_start(s, from) >= from || from > s.len(),
    decreases s.len() - from,
{
    if from < s.len() && s[from] != '?' && s[from] != '#' {
        lemma_query_start(s, from + 1);
    }
}

/// Index of the last `c` in `s`.
pub fn last_index_of(s: &Vec<char>, c: char) -> (r: Option<usize>)
    ensures
        match r {
            Some(i) => i as int == last_index(s@, c) && i < s@.len(),
            None => last_index(s@, c) == -1,
        },
{
    let mut i = s.len();
    proof {
        assert(s@.take(i as int) =~= s@);
    }
    while i > 0 && s[i - 1] != c
        invariant
            i <= s@.len(),
            last_index(s@, c) == last_index(s@.take(i as int), c),
        decreases i,
    {
        proof {
            let w = s@.take(i as int);
            assert(w.drop_last() =~= s@.take(i - 1));
            assert(w.last() == s@[i - 1]);
        }
        i = i - 1;
    }
    if i == 0 {
        None
    } else {
        proof {
            assert(s@.take(i as int).last() == s@[i - 1]);
        }
        Some(i - 1)
    }
}

/// Index of the first `?` or `#` at or after `from`, else the length.
pub fn query_start_of(s: &Vec<char>, from: usize) -> (r: usize)
    ensures
        r as int == query_start(s@, from as int),
{
    let mut i = from;
    if i > s.len() {
        return s.len();
    }
    while i < s.len() && s[i] != '?' && s[i] != '#'
        invariant
            from <= i <= s@.len(),
            query_start(s@, from as int) == query_start(s@, i as int),
        decreases s@.len() - i,
    {
        i = i + 1;
    }
    i
}

/// Index of the first `/` in `s`, else its length.
pub fn authority_end_of(s: &Vec<char>) -> (r: usize)
    ensures
        r as int == authority_end(s@),
        r <= s@.len(),
{
    match find_char(s, '/', 0) {
        Some(i) => i,
        None => s.len(),
    }
}

/// Where a scheme's `:` is, if the string starts with a scheme.
pub fn scheme_of(s: &Vec<char>) -> (r: Option<usize>)
    ensures
        match r {
            Some(c) => scheme_end(s@) == Some(c as int),
            None => scheme_end(s@) is None,
        },
{
    let colon = match find_char(s, ':', 0) {
        Some(c) => c,
        None => return None,
    };
    if colon == 0 {
        return None;
    }
    let first = s[0];
    if !(('a' <= first && first <= 'z') || ('A' <= first && first <= 'Z')) {
        return None;
    }
    let mut k: usize = 1;
    while k < colon
        invariant
            1 <= k <= colon,
            colon < s@.len(),
            colon as int == find_char_from(s@, ':', 0),
            is_alpha(s@[0]),
            forall|j: int| 1 <= j < k ==> is_scheme_char(#[trigger] s@[j]),
        decreases colon - k,
    {
        let c = s[k];
        if !(('a' <= c && c <= 'z') || ('A' <= c && c <= 'Z') || ('0' <= c && c <= '9') || c == '+'
            || c == '-' || c == '.') {
            proof {
                let colon_spec = find_char_from(s@, ':', 0);
                assert(colon_spec == colon);
                assert(1 <= k < colon_spec && !is_scheme_char(s@[k as int]));
                assert(!(forall|j: int| 1 <= j < colon_spec ==> is_scheme_char(#[trigger] s@[j])));
            }
            return None;
        }
        k = k + 1;
    }
    Some(colon)
}

/// Resolve a possibly-relative reference against the page it was found on.
///
/// Returns `None` for references that cannot become an HTTP(S) request.
pub fn resolve(base: &str, reference: &str) -> (r: Option<String>)
    ensures
        match r {
            Some(s) => resolved(base@, reference@) == Some(s@),
            None => resolved(base@, reference@) is None,
        },
{
    let raw = chars_of(reference);
    let r = trimmed(&raw);
    if r.len() == 0 {
        return None;
    }
    if let Some(e) = scheme_of(&r) {
        proof {
            lemma_find_char_from(r@, ':', 0);
        }
        let scheme = lowered(&slice_of(&r, 0, e));
        proof {
            assert(r@.take(e as int) =~= r@.subrange(0, e as int));
        }
        if eq_str(&scheme, "http") || eq_str(&scheme, "https") {
            return Some(string_of(r.as_slice()));
        }
        return None;
    }
    let b = chars_of(base);
    let blen = b.len();
    let sep = match find_str(&b, "://", 0) {
        Some(i) => i,
        None => return None,
    };
    proof {
        reveal_strlit("://");
        reveal_strlit("//");
        lemma_find_from(b@, "://"@, 0);
    }
    let scheme = slice_of(&b, 0, sep);
    let rest = slice_of(&b, sep + 3, b.len());
    assert(scheme@ =~= b@.take(sep as int));
    assert(rest@ =~= b@.skip(sep + 3));
    let ae = authority_end_of(&rest);
    let mut origin = scheme.clone();
    push_str(&mut origin, "://");
    push_all(&mut origin, &slice_of(&rest, 0, ae));
    proof {
        assert(rest@.subrange(0, ae as int) =~= rest@.take(ae as int));
    }
    if begins_with(&r, "//") {
        let mut out = scheme.clone();
        push_str(&mut out, "://");
        push_all(&mut out, &slice_of(&r, 2, r.len()));
        proof {
            assert(r@.subrange(2, r@.len() as int) =~= r@.skip(2));
        }
        return Some(string_of(out.as_slice()));
    }
    if begins_with(&r, "/") {
        push_all(&mut origin, &r);
        return Some(string_of(origin.as_slice()));
    }
    if begins_with(&r, "#") {
        return None;
    }
    let path_all = slice_of(&rest, ae, rest.len());
    assert(path_all@ =~= rest@.skip(ae as int));
    let q = query_start_of(&path_all, 0);
    proof {
        lemma_query_start(path_all@, 0);
    }
    let path = slice_of(&path_all, 0, q);
    assert(path@ =~= path_all@.take(q as int));
    let mut out = origin;
    match last_index_of(&path, '/') {
        Some(i) => {
            let dir = slice_of(&path, 0, i + 1);
            assert(dir@ =~= path@.take(i + 1));
            push_all(&mut out, &dir);
        },
        None => {
            push_str(&mut out, "/");
        },
    }
    push_all(&mut out, &r);
    Some(string_of(out.as_slice()))
}

/// Where the path of a URL starts and ends.
pub fn path_bounds(url: &Vec<char>) -> (r: (usize, usize))
    ensures
        (r.0 as int, r.1 as int) == path_range(url@),
        r.0 <= r.1 <= url@.len() || r.0 == url@.len(),
        r.1 <= url@.len(),
        r.0 <= url@.len(),
{
    let ulen = url.len();
    let after = match find_str(url, "://", 0) {
        Some(i) => {
            proof {
                reveal_strlit("://");
                lemma_find_from(url@, "://"@, 0);
            }
            i + 3
        },
        None => 0,
    };
    let rest = slice_of(url, after, url.len());
    assert(rest@ =~= url@.skip(after as int));
    let start = after + authority_end_of(&rest);
    let end = query_start_of(url, start);
    proof {
        lemma_query_start(url@, start as int);
    }
    (start, end)
}

/// The path component of a URL, with query and fragment removed.
pub fn path_of(url: &str) -> (r: String)
    ensures
        r@ == path_text(url@),
{
    let u = chars_of(url);
    let (start, end) = path_bounds(&u);
    if start >= u.len() {
        return string_of(chars_of("/").as_slice());
    }
    string_of(slice_of(&u, start, end).as_slice())
}

/// The origin, for use as a `Referer`: plenty of image hosts refuse requests
/// that do not carry the page's origin.
pub fn origin_of(url: &str) -> (r: Option<String>)
    ensures
        match r {
            Some(s) => origin_text(url@) == Some(s@),
            None => origin_text(url@) is None,
        },
{
    let u = chars_of(url);
    let ulen = u.len();
    let sep = match find_str(&u, "://", 0) {
        Some(i) => i,
        None => return None,
    };
    proof {
        reveal_strlit("://");
        lemma_find_from(u@, "://"@, 0);
    }
    let rest = slice_of(&u, sep + 3, u.len());
    assert(rest@ =~= u@.skip(sep + 3));
    let ae = authority_end_of(&rest);
    let mut out = slice_of(&u, 0, sep);
    assert(out@ =~= u@.take(sep as int));
    push_str(&mut out, "://");
    let host = slice_of(&rest, 0, ae);
    assert(host@ =~= rest@.take(ae as int));
    push_all(&mut out, &host);
    Some(string_of(out.as_slice()))
}

/// Whether every character is an ASCII letter or digit.
fn all_alnum(v: &Vec<char>) -> (r: bool)
    ensures
        r == forall|j: int| 0 <= j < v@.len() ==> is_alnum(#[trigger] v@[j]),
{
    let mut k: usize = 0;
    while k < v.len()
        invariant
            k <= v@.len(),
            forall|j: int| 0 <= j < k ==> is_alnum(#[trigger] v@[j]),
        decreases v@.len() - k,
    {
        let c = v[k];
        if !(('a' <= c && c <= 'z') || ('A' <= c && c <= 'Z') || ('0' <= c && c <= '9')) {
            assert(!is_alnum(v@[k as int]));
            return false;
        }
        k = k + 1;
    }
    true
}

/// Lowercase file extension of a URL's path, if it has a short alphanumeric one.
pub fn extension_of(url: &str) -> (r: Option<String>)
    ensures
        match r {
            Some(s) => url_extension(url@) == Some(s@),
            None => url_extension(url@) is None,
        },
{
    let path = chars_of(path_of(url).as_str());
    let cut = match last_index_of(&path, '/') {
        Some(i) => i + 1,
        None => 0,
    };
    let last = slice_of(&path, cut, path.len());
    assert(last@ =~= path@.skip(cut as int));
    let dot = match last_index_of(&last, '.') {
        Some(d) => d,
        None => return None,
    };
    let ext = slice_of(&last, dot + 1, last.len());
    assert(ext@ =~= last@.skip(dot + 1));
    if ext.len() == 0 || ext.len() > 5 {
        return None;
    }
    if !all_alnum(&ext) {
        return None;
    }
    Some(string_of(lowered(&ext).as_slice()))
}

} // verus!
