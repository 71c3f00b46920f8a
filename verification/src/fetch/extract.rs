//! Finding the image URLs on a chapter page.
//!
//! The markup is scanned for tags and attributes rather than parsed into a
//! tree: reader pages are frequently malformed in ways that upset a real
//! parser, and every question asked here ("what is this tag's `src`?") is
//! answerable from the tag's own text.
use vstd::prelude::*;

use crate::fetch::url::{is_alnum, is_alpha, resolve, resolved, url_extension, extension_of};
use crate::text::{
    find, begins_with, chars_of, eq_str, find_char, find_char_from, find_from, find_str, is_space,
    lemma_find_char_from, lemma_find_from, lemma_skip_space, lower_seq, lowered, matches_at,
    push_all, skip_space, skip_space_from, slice_of, space, starts_with, string_of, texts,
};

verus! {

/// A start tag: its lowercase name and the raw text of its attributes.
#[derive(Debug, Clone, PartialEq, Eq)]
pub struct Tag {
    pub name: String,
    pub body: String,
}

/// The first `<` at or after `i` that opens a tag (is followed by a letter).
pub open spec fn tag_open(s: Seq<char>, i: int) -> int
    decreases s.len() - i,
{
    if i < 0 || i + 1 >= s.len() {
        -1
    } else if s[i] == '<' && is_alpha(s[i + 1]) {
        i
    } else {
        tag_open(s, i + 1)
    }
}

/// Index just past the run of letters and digits starting at `i`.
pub open spec fn name_end(s: Seq<char>, i: int) -> int
    decreases s.len() - i,
{
    if i < 0 || i >= s.len() || !is_alnum(s[i]) {
        i
    } else {
        name_end(s, i + 1)
    }
}

/// The `>` that closes a tag begun before `j`, skipping any inside quotes;
/// the end of the text when there is none.
pub open spec fn tag_close(s: Seq<char>, j: int, quote: Option<char>) -> int
    decreases s.len() - j,
{
    if j < 0 || j >= s.len() {
        s.len() as int
    } else {
        match quote {
            Some(q) => if s[j] == q {
                tag_close(s, j + 1, None)
            } else {
                tag_close(s, j + 1, quote)
            },
            None => if s[j] == '"' || s[j] == '\'' {
                tag_close(s, j + 1, Some(s[j]))
            } else if s[j] == '>' {
                j
            } else {
                tag_close(s, j + 1, None)
            },
        }
    }
}

/// Every start tag from `i` on, in document order, as (name, body).
pub open spec fn tags_from(s: Seq<char>, i: int) -> Seq<(Seq<char>, Seq<char>)>
    decreases s.len() + 1 - i,
{
    let open = tag_open(s, i);
    if i < 0 || open < i {
        Seq::empty()
    } else {
        let ne = name_end(s, open + 1);
        let close = tag_close(s, ne, None);
        proof {
            lemma_tag_open(s, i);
            lemma_name_end(s, open + 1);
            lemma_tag_close(s, ne, None);
        }
        seq![(lower_seq(s.subrange(open + 1, ne)), s.subrange(ne, close))] + tags_from(s, close + 1)
    }
}

pub proof fn lemma_tag_open(s: Seq<char>, i: int)
    requires
        0 <= i,
    ensures
        tag_open(s, i) == -1 || (i <= tag_open(s, i) && tag_open(s, i) + 1 < s.len()),
    decreases s.len() - i,
{
    if i + 1 < s.len() && !(s[i] == '<' && is_alpha(s[i + 1])) {
        lemma_tag_open(s, i + 1);
    }
}

pub proof fn lemma_name_end(s: Seq<char>, i: int)
    requires
        0 <= i <= s.len(),
    ensures
        i <= name_end(s, i) <= s.len(),
    decreases s.len() - i,
{
    if i < s.len() && is_alnum(s[i]) {
        lemma_name_end(s, i + 1);
    }
}

pub proof fn lemma_tag_close(s: Seq<char>, j: int, q: Option<char>)
    requires
        0 <= j <= s.len(),
    ensures
        j <= tag_close(s, j, q) <= s.len(),
    decreases s.len() - j,
{
    if j < s.len() {
        match q {
            Some(c) => if s[j] == c {
                lemma_tag_close(s, j + 1, None);
            } else {
                lemma_tag_close(s, j + 1, q);
            },
            None => if s[j] == '"' || s[j] == '\'' {
                lemma_tag_close(s, j + 1, Some(s[j]));
            } else if s[j] != '>' {
                lemma_tag_close(s, j + 1, None);
            },
        }
    }
}

/// The tags of a document, as `tags_from` lists them.
pub open spec fn tags_spec(html: Seq<char>) -> Seq<(Seq<char>, Seq<char>)> {
    tags_from(html, 0)
}

/// Whether a list of tags is the document's own, in order.
pub open spec fn tags_are(r: Seq<Tag>, want: Seq<(Seq<char>, Seq<char>)>) -> bool {
    r.len() == want.len() && forall|k: int|
        0 <= k < r.len() ==> (#[trigger] r[k]).name@ == want[k].0 && r[k].body@ == want[k].1
}

/// Walk the start tags of a document. Quotes are tracked so a `>` inside an
/// attribute value does not end the tag early.
pub fn tags(html: &str) -> (r: Vec<Tag>)
    ensures
        tags_are(r@, tags_spec(html@)),
{
    let s = chars_of(html);
    let mut out: Vec<Tag> = Vec::new();
    let mut i: usize = 0;
    let ghost done: Seq<(Seq<char>, Seq<char>)> = Seq::empty();
    while i < s.len()
        invariant
            s@ == html@,
            i <= s@.len(),
            tags_are(out@, done),
            tags_spec(html@) == done + tags_from(s@, i as int),
        decreases s@.len() - i,
    {
        let ghost start_i = i;
        // Find the next tag opening.
        let n = s.len();
        let mut k = i;
        while k < n - 1 && !(s[k] == '<' && (('a' <= s[k + 1] && s[k + 1] <= 'z') || ('A'
            <= s[k + 1] && s[k + 1] <= 'Z')))
            invariant
                n == s@.len(),
                n >= 1,
                i <= k <= s@.len(),
                tag_open(s@, i as int) == tag_open(s@, k as int),
            decreases s@.len() - k,
        {
            k = k + 1;
        }
        if k >= n - 1 {
            proof {
                assert(tag_open(s@, k as int) == -1);
                assert(tags_from(s@, i as int) =~= Seq::empty());
                assert(done + tags_from(s@, i as int) =~= done);
            }
            i = s.len();
            assert(tags_from(s@, i as int) =~= Seq::empty());
            assert(done + tags_from(s@, i as int) =~= done);
        } else {
            let open = k;
            let mut ne = open + 1;
            while ne < s.len() && (('a' <= s[ne] && s[ne] <= 'z') || ('A' <= s[ne] && s[ne] <= 'Z')
                || ('0' <= s[ne] && s[ne] <= '9'))
                invariant
                    open + 1 <= ne <= s@.len(),
                    name_end(s@, open + 1) == name_end(s@, ne as int),
                decreases s@.len() - ne,
            {
                ne = ne + 1;
            }
            let mut j = ne;
            let mut quote: Option<char> = None;
            while j < s.len()
                invariant
                    ne <= j <= s@.len(),
                    tag_close(s@, ne as int, None) == tag_close(s@, j as int, quote),
                ensures
                    ne <= j <= s@.len(),
                    tag_close(s@, ne as int, None) == j,
                decreases s@.len() - j,
            {
                let c = s[j];
                match quote {
                    Some(q) => {
                        if c == q {
                            quote = None;
                        }
                    },
                    None => {
                        if c == '"' || c == '\'' {
                            quote = Some(c);
                        } else if c == '>' {
                            break;
                        }
                    },
                }
                j = j + 1;
            }
            let name = lowered(&slice_of(&s, open + 1, ne));
            let body = slice_of(&s, ne, j);
            let tag = Tag { name: string_of(name.as_slice()), body: string_of(body.as_slice()) };
            proof {
                let e = (lower_seq(s@.subrange(open + 1, ne as int)), s@.subrange(ne as int, j as int));
                assert(tags_from(s@, i as int) == seq![e] + tags_from(s@, j + 1));
                let nd = done.push(e);
                assert(done + tags_from(s@, i as int) =~= nd + tags_from(s@, j + 1));
                done = nd;
            }
            out.push(tag);
            if j < s.len() {
                i = j + 1;
            } else {
                i = s.len();
                assert(tags_from(s@, (j + 1) as int) =~= Seq::empty());
                assert(tags_from(s@, i as int) =~= Seq::empty());
            }
        }
    }
    proof {
        assert(tags_from(s@, i as int) =~= Seq::empty());
        assert(done + tags_from(s@, i as int) =~= done);
    }
    out
}

/// Characters that may precede an attribute name inside another word.
pub open spec fn is_name_char(c: char) -> bool {
    ('a' <= c && c <= 'z') || ('0' <= c && c <= '9') || c == '-' || c == '_'
}

/// Index of the first white space in `s`, else its length.
pub open spec fn first_space(s: Seq<char>, i: int) -> int
    decreases s.len() - i,
{
    if i < 0 || i >= s.len() {
        s.len() as int
    } else if is_space(s[i]) {
        i
    } else {
        first_space(s, i + 1)
    }
}

/// The value of attribute `name` in a tag body: searched for in the
/// lowercased body from `from`, it must start a word and be followed (after
/// optional white space) by `=`. A quoted value runs to the matching quote; an
/// unquoted one to the next white space.
pub open spec fn attr_from(body: Seq<char>, name: Seq<char>, from: int) -> Option<Seq<char>>
    decreases body.len() + 1 - from,
{
    let lower = lower_seq(body);
    let at = find_from(lower, name, from);
    if from < 0 || at < 0 || name.len() == 0 {
        None
    } else {
        let nf = at + name.len();
        let before_ok = at == 0 || !is_name_char(lower[at - 1]);
        let eq = skip_space(lower, nf);
        if !before_ok || !(eq < lower.len() && lower[eq] == '=') {
            proof {
                lemma_find_from(lower, name, from);
            }
            attr_from(body, name, nf)
        } else {
            let value = body.skip(skip_space(body, eq + 1));
            if value.len() > 0 && (value[0] == '"' || value[0] == '\'') {
                let inner = value.skip(1);
                let q = find_char_from(inner, value[0], 0);
                Some(if q < 0 { inner } else { inner.take(q) })
            } else {
                Some(value.take(first_space(value, 0)))
            }
        }
    }
}

/// The value of attribute `name` in a tag body.
pub open spec fn attr_spec(body: Seq<char>, name: Seq<char>) -> Option<Seq<char>> {
    attr_from(body, name, 0)
}

pub proof fn lemma_first_space(s: Seq<char>, i: int)
    requires
        0 <= i <= s.len(),
    ensures
        i <= first_space(s, i) <= s.len(),
    decreases s.len() - i,
{
    if i < s.len() && !is_space(s[i]) {
        lemma_first_space(s, i + 1);
    }
}

fn first_space_from(s: &Vec<char>, i: usize) -> (r: usize)
    requires
        i <= s@.len(),
    ensures
        r as int == first_space(s@, i as int),
        i <= r <= s@.len(),
{
    let mut k = i;
    while k < s.len() && !space(s[k])
        invariant
            i <= k <= s@.len(),
            first_space(s@, i as int) == first_space(s@, k as int),
        decreases s@.len() - k,
    {
        k = k + 1;
    }
    k
}

impl Tag {
    /// Attribute value by lowercase name. Quoted and unquoted forms both work,
    /// and `src` does not match inside `data-src`.
    pub fn attr(&self, name: &str) -> (r: Option<String>)
        requires
            name@.len() > 0,
        ensures
            match r {
                Some(v) => attr_spec(self.body@, name@) == Some(v@),
                None => attr_spec(self.body@, name@) is None,
            },
    {
        let body = chars_of(self.body.as_str());
        let lower = lowered(&body);
        let pat = chars_of(name);
        let mut from: usize = 0;
        let blen = body.len();
        loop
            invariant
                body@ == self.body@,
                lower@ == lower_seq(body@),
                pat@ == name@,
                pat@.len() > 0,
                blen == body@.len(),
                from <= body@.len(),
                attr_spec(self.body@, name@) == attr_from(body@, pat@, from as int),
            decreases body@.len() + 1 - from,
        {
            let at = match find(&lower, &pat, from) {
                Some(a) => a,
                None => return None,
            };
            proof {
                lemma_find_from(lower@, pat@, from as int);
            }
            let nf = at + pat.len();
            let before_ok = at == 0 || !(('a' <= lower[at - 1] && lower[at - 1] <= 'z') || ('0'
                <= lower[at - 1] && lower[at - 1] <= '9') || lower[at - 1] == '-' || lower[at - 1]
                == '_');
            let eq = skip_space_from(&lower, nf);
            if !before_ok || !(eq < lower.len() && lower[eq] == '=') {
                from = nf;
            } else {
                let vs = skip_space_from(&body, eq + 1);
                let value = slice_of(&body, vs, body.len());
                assert(value@ =~= body@.skip(vs as int));
                if value.len() > 0 && (value[0] == '"' || value[0] == '\'') {
                    let inner = slice_of(&value, 1, value.len());
                    assert(inner@ =~= value@.skip(1));
                    return match find_char(&inner, value[0], 0) {
                        Some(q) => {
                            let v = slice_of(&inner, 0, q);
                            assert(v@ =~= inner@.take(q as int));
                            Some(string_of(v.as_slice()))
                        },
                        None => Some(string_of(inner.as_slice())),
                    };
                } else {
                    let e = first_space_from(&value, 0);
                    let v = slice_of(&value, 0, e);
                    assert(v@ =~= value@.take(e as int));
                    return Some(string_of(v.as_slice()));
                }
            }
        }
    }
}

/// The text inside every `<script>` element from `from` on (matched without
/// regard to case). An opening tag with no `>` ends the search; a script with
/// no closing tag runs to the end of the document.
pub open spec fn scripts_from(html: Seq<char>, from: int) -> Seq<Seq<char>>
    decreases html.len() + 1 - from,
{
    let lower = lower_seq(html);
    let open = find_from(lower, "<script"@, from);
    if from < 0 || open < 0 {
        Seq::empty()
    } else {
        let gt = find_char_from(lower, '>', open);
        if gt < 0 {
            Seq::empty()
        } else {
            let bs = gt + 1;
            let close = find_from(lower, "</script"@, bs);
            let end = if close < 0 { html.len() as int } else { close };
            proof {
                lemma_find_from(lower, "<script"@, from);
                lemma_find_char_from(lower, '>', open);
                lemma_find_from(lower, "</script"@, bs);
            }
            seq![html.subrange(bs, end)] + scripts_from(html, end + 1)
        }
    }
}

/// The text inside every `<script>` element.
pub fn script_bodies(html: &str) -> (r: Vec<String>)
    ensures
        r@.len() == scripts_from(html@, 0).len(),
        forall|k: int| 0 <= k < r@.len() ==> (#[trigger] r@[k])@ == scripts_from(html@, 0)[k],
{
    let s = chars_of(html);
    let lower = lowered(&s);
    let mut out: Vec<String> = Vec::new();
    let mut from: usize = 0;
    let ghost done: Seq<Seq<char>> = Seq::empty();
    let n = s.len();
    loop
        invariant
            s@ == html@,
            lower@ == lower_seq(s@),
            n == s@.len(),
            from <= s@.len(),
            out@.len() == done.len(),
            forall|k: int| 0 <= k < out@.len() ==> (#[trigger] out@[k])@ == done[k],
            scripts_from(html@, 0) == done + scripts_from(html@, from as int),
        decreases s@.len() + 1 - from,
    {
        let open = match find_str(&lower, "<script", from) {
            Some(o) => o,
            None => {
                assert(scripts_from(html@, from as int) =~= Seq::empty());
                assert(done + scripts_from(html@, from as int) =~= done);
                return out;
            },
        };
        proof {
            reveal_strlit("<script");
            lemma_find_from(lower@, "<script"@, from as int);
        }
        let gt = match find_char(&lower, '>', open) {
            Some(g) => g,
            None => {
                assert(scripts_from(html@, from as int) =~= Seq::empty());
                assert(done + scripts_from(html@, from as int) =~= done);
                return out;
            },
        };
        proof {
            lemma_find_char_from(lower@, '>', open as int);
        }
        let bs = gt + 1;
        let end = match find_str(&lower, "</script", bs) {
            Some(c) => {
                proof {
                    lemma_find_from(lower@, "</script"@, bs as int);
                    reveal_strlit("</script");
                }
                c
            },
            None => n,
        };
        let body = slice_of(&s, bs, end);
        proof {
            let e = s@.subrange(bs as int, end as int);
            assert(scripts_from(html@, from as int) == seq![e] + scripts_from(html@, end + 1));
            assert(done + scripts_from(html@, from as int) =~= done.push(e) + scripts_from(
                html@,
                end + 1,
            ));
            done = done.push(e);
        }
        out.push(string_of(body.as_slice()));
        if end == n {
            assert(scripts_from(html@, end + 1) =~= Seq::empty());
            assert(done + Seq::<Seq<char>>::empty() =~= done);
            return out;
        }
        from = end + 1;
    }
}

/// `s` with every `\/` (JSON's escaped slash) read as `/`.
pub open spec fn unescape_slashes(s: Seq<char>) -> Seq<char>
    decreases s.len(),
{
    if s.len() == 0 {
        s
    } else if s.len() >= 2 && s[0] == '\\' && s[1] == '/' {
        seq!['/'] + unescape_slashes(s.skip(2))
    } else {
        seq![s[0]] + unescape_slashes(s.skip(1))
    }
}

/// The pieces of `s` between quote characters (`"` or `'`), in order.
pub open spec fn quote_chunks(s: Seq<char>) -> Seq<Seq<char>>
    decreases s.len(),
{
    let q = quote_index(s, 0);
    if q < 0 {
        seq![s]
    } else {
        proof {
            lemma_quote_index(s, 0);
        }
        seq![s.take(q)] + quote_chunks(s.skip(q + 1))
    }
}

/// Index of the first quote character at or after `i`, or -1.
pub open spec fn quote_index(s: Seq<char>, i: int) -> int
    decreases s.len() - i,
{
    if i < 0 || i >= s.len() {
        -1
    } else if s[i] == '"' || s[i] == '\'' {
        i
    } else {
        quote_index(s, i + 1)
    }
}

pub proof fn lemma_quote_index(s: Seq<char>, i: int)
    requires
        0 <= i,
    ensures
        quote_index(s, i) == -1 || (i <= quote_index(s, i) < s.len()),
    decreases s.len() - i,
{
    if i < s.len() && s[i] != '"' && s[i] != '\'' {
        lemma_quote_index(s, i + 1);
    }
}

/// Whether a script fragment is an absolute URL of a page-like image.
pub open spec fn is_script_image(c: Seq<char>) -> bool {
    (starts_with(c, "http://"@) || starts_with(c, "https://"@)) && (forall|k: int|
        0 <= k < c.len() ==> !is_space(#[trigger] c[k])) && match url_extension(c) {
        Some(e) => e == "jpg"@ || e == "jpeg"@ || e == "png"@ || e == "webp"@ || e == "avif"@,
        None => false,
    }
}

/// The absolute image URLs quoted in a list of script chunks.
pub open spec fn chunk_images(chunks: Seq<Seq<char>>) -> Seq<Seq<char>>
    decreases chunks.len(),
{
    if chunks.len() == 0 {
        Seq::empty()
    } else {
        let c = unescape_slashes(chunks.last());
        chunk_images(chunks.drop_last()) + if is_script_image(c) { seq![c] } else { Seq::empty() }
    }
}

fn unescape(s: &Vec<char>) -> (r: Vec<char>)
    ensures
        r@ == unescape_slashes(s@),
{
    let mut r: Vec<char> = Vec::new();
    let mut i: usize = 0;
    assert(s@.skip(0) =~= s@);
    while i < s.len()
        invariant
            i <= s@.len(),
            unescape_slashes(s@) == r@ + unescape_slashes(s@.skip(i as int)),
        decreases s@.len() - i,
    {
        let ghost t = s@.skip(i as int);
        if i + 1 < s.len() && s[i] == '\\' && s[i + 1] == '/' {
            r.push('/');
            proof {
                assert(t.skip(2) =~= s@.skip(i + 2));
            }
            i = i + 2;
        } else {
            r.push(s[i]);
            proof {
                assert(t.skip(1) =~= s@.skip(i + 1));
            }
            i = i + 1;
        }
    }
    assert(s@.skip(i as int) =~= Seq::<char>::empty());
    assert(r@ + Seq::<char>::empty() =~= r@);
    r
}

fn no_space(s: &Vec<char>) -> (r: bool)
    ensures
        r == forall|k: int| 0 <= k < s@.len() ==> !is_space(#[trigger] s@[k]),
{
    let mut k: usize = 0;
    while k < s.len()
        invariant
            k <= s@.len(),
            forall|j: int| 0 <= j < k ==> !is_space(#[trigger] s@[j]),
        decreases s@.len() - k,
    {
        if space(s[k]) {
            return false;
        }
        k = k + 1;
    }
    true
}

fn script_image(c: &Vec<char>) -> (r: bool)
    ensures
        r == is_script_image(c@),
{
    if !(begins_with(c, "http://") || begins_with(c, "https://")) {
        return false;
    }
    if !no_space(c) {
        return false;
    }
    match extension_of(string_of(c.as_slice()).as_str()) {
        Some(e) => {
            let e = chars_of(e.as_str());
            eq_str(&e, "jpg") || eq_str(&e, "jpeg") || eq_str(&e, "png") || eq_str(&e, "webp")
                || eq_str(&e, "avif")
        },
        None => false,
    }
}

/// Absolute image URLs appearing inside quotes in a script body. JSON in HTML
/// escapes its slashes (`https:\/\/…`), so those are unescaped, not skipped.
pub fn quoted_image_urls(script: &str) -> (r: Vec<String>)
    ensures
        r@.len() == chunk_images(quote_chunks(script@)).len(),
        forall|k: int|
            0 <= k < r@.len() ==> (#[trigger] r@[k])@ == chunk_images(quote_chunks(script@))[k],
{
    let s = chars_of(script);
    let mut out: Vec<String> = Vec::new();
    let mut start: usize = 0;
    let ghost seen: Seq<Seq<char>> = Seq::empty();
    assert(s@.skip(0) =~= s@);
    assert(Seq::<Seq<char>>::empty() + quote_chunks(s@) =~= quote_chunks(s@));
    loop
        invariant
            s@ == script@,
            start <= s@.len(),
            quote_chunks(script@) == seen + quote_chunks(s@.skip(start as int)),
            out@.len() == chunk_images(seen).len(),
            forall|k: int| 0 <= k < out@.len() ==> (#[trigger] out@[k])@ == chunk_images(seen)[k],
        decreases s@.len() - start,
    {
        let ghost t = s@.skip(start as int);
        let mut q = start;
        while q < s.len() && s[q] != '"' && s[q] != '\''
            invariant
                start <= q <= s@.len(),
                t == s@.skip(start as int),
                quote_index(t, 0) == quote_index(t, q - start),
            decreases s@.len() - q,
        {
            proof {
                assert(t[q - start] == s@[q as int]);
            }
            q = q + 1;
        }
        proof {
            if q < s@.len() {
                assert(t[q - start] == s@[q as int]);
            }
            lemma_quote_index(t, 0);
        }
        let chunk = slice_of(&s, start, q);
        let c = unescape(&chunk);
        let keep = script_image(&c);
        proof {
            let nseen = seen.push(chunk@);
            assert(nseen.drop_last() =~= seen);
            if q == s@.len() {
                assert(quote_index(t, 0) == -1);
                assert(chunk@ =~= t);
                assert(quote_chunks(t) == seq![t]);
            } else {
                assert(quote_index(t, 0) == q - start);
                assert(chunk@ =~= t.take(q - start));
                assert(t.skip(q - start + 1) =~= s@.skip(q + 1));
            }
        }
        if keep {
            out.push(string_of(c.as_slice()));
        }
        proof {
            seen = seen.push(chunk@);
            assert(chunk_images(seen) == chunk_images(seen.drop_last()) + (if is_script_image(
                unescape_slashes(chunk@),
            ) {
                seq![unescape_slashes(chunk@)]
            } else {
                Seq::empty()
            }));
        }
        if q == s.len() {
            assert(seen =~= quote_chunks(script@));
            return out;
        }
        proof {
            assert(quote_chunks(t) == seq![t.take(q - start)] + quote_chunks(t.skip(q - start + 1)));
            assert(quote_chunks(script@) =~= seen + quote_chunks(s@.skip(q + 1)));
        }
        start = q + 1;
    }
}

/// The attributes that carry an image URL, in order of preference. `src`
/// comes last so that a lazy-loading placeholder never wins over the real
/// image it stands in for.
pub open spec fn image_attr_name(k: int) -> Seq<char> {
    if k == 0 {
        "data-src"@
    } else if k == 1 {
        "data-original"@
    } else if k == 2 {
        "data-lazy-src"@
    } else if k == 3 {
        "data-lazy"@
    } else if k == 4 {
        "data-url"@
    } else if k == 5 {
        "data-image"@
    } else {
        "src"@
    }
}

/// How many image-carrying attributes there are.
pub const IMAGE_ATTR_COUNT: usize = 7;

/// The first image-carrying attribute, from the `k`-th on, that the tag has.
pub open spec fn first_image_attr(body: Seq<char>, k: int) -> Option<Seq<char>>
    decreases IMAGE_ATTR_COUNT - k,
{
    if k < 0 || k >= IMAGE_ATTR_COUNT {
        None
    } else {
        match attr_spec(body, image_attr_name(k)) {
            Some(v) => Some(v),
            None => first_image_attr(body, k + 1),
        }
    }
}

/// The pieces of `s` between commas, in order (an empty `s` is one empty piece).
pub open spec fn comma_pieces(s: Seq<char>) -> Seq<Seq<char>>
    decreases s.len(),
{
    let c = find_char_from(s, ',', 0);
    if c < 0 {
        seq![s]
    } else {
        proof {
            lemma_find_char_from(s, ',', 0);
        }
        seq![s.take(c)] + comma_pieces(s.skip(c + 1))
    }
}

/// The first white-space-separated word of `s`, if it has one.
pub open spec fn first_word(s: Seq<char>) -> Option<Seq<char>> {
    let a = skip_space(s, 0);
    if a >= s.len() {
        None
    } else {
        Some(s.subrange(a, first_space(s, a)))
    }
}

/// The URLs of a `srcset`: the first word of each comma-separated entry.
pub open spec fn srcset_refs(pieces: Seq<Seq<char>>) -> Seq<Seq<char>>
    decreases pieces.len(),
{
    if pieces.len() == 0 {
        Seq::empty()
    } else {
        srcset_refs(pieces.drop_last()) + match first_word(pieces.last()) {
            Some(w) => seq![w],
            None => Seq::empty(),
        }
    }
}

/// The URLs of an optional `srcset` value.
pub open spec fn optional_srcset(v: Option<Seq<char>>) -> Seq<Seq<char>> {
    match v {
        Some(s) => srcset_refs(comma_pieces(s)),
        None => Seq::empty(),
    }
}

/// The references a single tag offers, in order: for `img` and `source` the
/// preferred image attribute and then the `srcset` and `data-srcset`
/// entries; for `a` its `href` when that names a file with an extension.
pub open spec fn tag_refs(name: Seq<char>, body: Seq<char>) -> Seq<Seq<char>> {
    if name == "img"@ || name == "source"@ {
        (match first_image_attr(body, 0) {
            Some(v) => seq![v],
            None => Seq::empty(),
        }) + optional_srcset(attr_spec(body, "srcset"@)) + optional_srcset(
            attr_spec(body, "data-srcset"@),
        )
    } else if name == "a"@ {
        match attr_spec(body, "href"@) {
            Some(h) => if url_extension(h) is Some {
                seq![h]
            } else {
                Seq::empty()
            },
            None => Seq::empty(),
        }
    } else {
        Seq::empty()
    }
}

/// The references offered by a run of tags, in document order.
pub open spec fn refs_of_tags(tags: Seq<(Seq<char>, Seq<char>)>) -> Seq<Seq<char>>
    decreases tags.len(),
{
    if tags.len() == 0 {
        Seq::empty()
    } else {
        refs_of_tags(tags.drop_last()) + tag_refs(tags.last().0, tags.last().1)
    }
}

/// The image URLs quoted in a run of script bodies, in document order.
pub open spec fn refs_of_scripts(scripts: Seq<Seq<char>>) -> Seq<Seq<char>>
    decreases scripts.len(),
{
    if scripts.len() == 0 {
        Seq::empty()
    } else {
        refs_of_scripts(scripts.drop_last()) + chunk_images(quote_chunks(scripts.last()))
    }
}

/// Every reference a document offers: tags first, then scripts.
pub open spec fn page_refs(html: Seq<char>) -> Seq<Seq<char>> {
    refs_of_tags(tags_spec(html)) + refs_of_scripts(scripts_from(html, 0))
}

/// Whether a resolved URL is worth offering as a page: image formats that are
/// never manga pages (`svg`, `gif`, `ico`, `bmp`) are not; no extension at all
/// is common for CDN-served pages and does not disqualify.
pub open spec fn is_candidate(u: Seq<char>) -> bool {
    match url_extension(u) {
        Some(e) => !(e == "svg"@ || e == "gif"@ || e == "ico"@ || e == "bmp"@),
        None => true,
    }
}

/// One step of collecting: the reference, resolved against `base`, is kept
/// when it resolves, is a candidate and was not kept before.
pub open spec fn keep_step(found: Seq<Seq<char>>, base: Seq<char>, reference: Seq<char>) -> Seq<
    Seq<char>,
> {
    match resolved(base, reference) {
        Some(u) => if is_candidate(u) && !found.contains(u) {
            found.push(u)
        } else {
            found
        },
        None => found,
    }
}

/// The URLs kept from a run of references, in order.
pub open spec fn collected(base: Seq<char>, refs: Seq<Seq<char>>) -> Seq<Seq<char>>
    decreases refs.len(),
{
    if refs.len() == 0 {
        Seq::empty()
    } else {
        keep_step(collected(base, refs.drop_last()), base, refs.last())
    }
}

/// The effective base from the first `base` tag on: its `href` resolved
/// against the page, or the page itself.
pub open spec fn base_from(page: Seq<char>, tags: Seq<(Seq<char>, Seq<char>)>) -> Seq<char>
    decreases tags.len(),
{
    if tags.len() == 0 {
        page
    } else if tags[0].0 == "base"@ {
        match attr_spec(tags[0].1, "href"@) {
            Some(h) => match resolved(page, h) {
                Some(u) => u,
                None => page,
            },
            None => page,
        }
    } else {
        base_from(page, tags.skip(1))
    }
}

/// The effective base URL of a document found at `page`.
pub open spec fn base_of(page: Seq<char>, html: Seq<char>) -> Seq<char> {
    base_from(page, tags_spec(html))
}

/// The image URLs a document at `page` offers, in document order.
pub open spec fn image_urls_spec(page: Seq<char>, html: Seq<char>) -> Seq<Seq<char>> {
    collected(base_of(page, html), page_refs(html))
}

fn image_attr(k: usize) -> (r: &'static str)
    requires
        k < IMAGE_ATTR_COUNT,
    ensures
        r@ == image_attr_name(k as int),
        r@.len() > 0,
{
    proof {
        reveal_strlit("data-src");
        reveal_strlit("data-original");
        reveal_strlit("data-lazy-src");
        reveal_strlit("data-lazy");
        reveal_strlit("data-url");
        reveal_strlit("data-image");
        reveal_strlit("src");
    }
    if k == 0 {
        "data-src"
    } else if k == 1 {
        "data-original"
    } else if k == 2 {
        "data-lazy-src"
    } else if k == 3 {
        "data-lazy"
    } else if k == 4 {
        "data-url"
    } else if k == 5 {
        "data-image"
    } else {
        "src"
    }
}

fn first_word_of(s: &Vec<char>) -> (r: Option<Vec<char>>)
    ensures
        match r {
            Some(w) => first_word(s@) == Some(w@),
            None => first_word(s@) is None,
        },
{
    let a = skip_space_from(s, 0);
    if a >= s.len() {
        return None;
    }
    let e = first_space_from(s, a);
    Some(slice_of(s, a, e))
}

/// The URLs of a `srcset` value: the first word of each comma-separated entry.
pub fn srcset_words(v: &str) -> (r: Vec<String>)
    ensures
        texts(r@) == srcset_refs(comma_pieces(v@)),
{
    let s = chars_of(v);
    let mut out: Vec<String> = Vec::new();
    let mut start: usize = 0;
    let ghost seen: Seq<Seq<char>> = Seq::empty();
    assert(s@.skip(0) =~= s@);
    assert(Seq::<Seq<char>>::empty() + comma_pieces(s@) =~= comma_pieces(s@));
    assert(texts(out@) =~= srcset_refs(seen));
    loop
        invariant
            s@ == v@,
            start <= s@.len(),
            comma_pieces(v@) == seen + comma_pieces(s@.skip(start as int)),
            texts(out@) == srcset_refs(seen),
        decreases s@.len() - start,
    {
        let ghost t = s@.skip(start as int);
        let c = find_char(&s, ',', start);
        let end = match c {
            Some(c) => c,
            None => s.len(),
        };
        proof {
            lemma_find_char_from(s@, ',', start as int);
            lemma_find_char_from(t, ',', 0);
            assert forall|k: int| 0 <= k < t.len() implies t[k] == s@[start + k] by {}
            if c is Some {
                assert(find_char_from(t, ',', 0) == end - start) by {
                    assert(t[end - start] == ',');
                    if find_char_from(t, ',', 0) != end - start {
                        let f = find_char_from(t, ',', 0);
                        assert(s@[start + f] == ',');
                    }
                }
            } else {
                assert(find_char_from(t, ',', 0) == -1) by {
                    if find_char_from(t, ',', 0) != -1 {
                        let f = find_char_from(t, ',', 0);
                        assert(s@[start + f] == ',');
                    }
                }
            }
        }
        let piece = slice_of(&s, start, end);
        let w = first_word_of(&piece);
        let ghost prev_out = out@;
        match w {
            Some(w) => {
                out.push(string_of(w.as_slice()));
            },
            None => {},
        }
        proof {
            let nseen = seen.push(piece@);
            assert(nseen.drop_last() =~= seen);
            assert(texts(out@) =~= srcset_refs(nseen));
            if c is None {
                assert(piece@ =~= t);
                assert(comma_pieces(t) == seq![t]);
            } else {
                assert(piece@ =~= t.take(end - start));
                assert(t.skip(end - start + 1) =~= s@.skip(end + 1));
                assert(comma_pieces(t) == seq![t.take(end - start)] + comma_pieces(
                    t.skip(end - start + 1),
                ));
            }
            seen = nseen;
        }
        if end >= s.len() {
            assert(seen =~= comma_pieces(v@));
            return out;
        }
        assert(comma_pieces(v@) =~= seen + comma_pieces(s@.skip(end + 1)));
        start = end + 1;
    }
}

fn append_texts(out: &mut Vec<String>, more: Vec<String>)
    ensures
        texts(final(out)@) == texts(old(out)@) + texts(more@),
{
    let mut more = more;
    let ghost m = more@;
    out.append(&mut more);
    assert(texts(out@) =~= texts(old(out)@) + texts(m));
}

fn srcset_of(tag: &Tag, out: &mut Vec<String>, name: &str)
    requires
        name@.len() > 0,
    ensures
        texts(final(out)@) == texts(old(out)@) + optional_srcset(attr_spec(tag.body@, name@)),
{
    match tag.attr(name) {
        Some(v) => {
            let ws = srcset_words(v.as_str());
            append_texts(out, ws);
        },
        None => {
            assert(texts(out@) + Seq::<Seq<char>>::empty() =~= texts(out@));
        },
    }
}

impl Tag {
    /// The references this tag offers, in the order they are tried.
    pub fn references(&self) -> (r: Vec<String>)
        ensures
            texts(r@) == tag_refs(self.name@, self.body@),
    {
        proof {
            reveal_strlit("srcset");
            reveal_strlit("data-srcset");
            reveal_strlit("href");
        }
        let name = chars_of(self.name.as_str());
        let mut out: Vec<String> = Vec::new();
        if eq_str(&name, "img") || eq_str(&name, "source") {
            let mut k: usize = 0;
            while k < IMAGE_ATTR_COUNT
                invariant_except_break
                    k <= IMAGE_ATTR_COUNT,
                    out@.len() == 0,
                invariant
                    first_image_attr(self.body@, 0) == first_image_attr(self.body@, k as int),
                ensures
                    match first_image_attr(self.body@, 0) {
                        Some(v) => texts(out@) == seq![v],
                        None => out@.len() == 0,
                    },
                decreases IMAGE_ATTR_COUNT - k,
            {
                match self.attr(image_attr(k)) {
                    Some(v) => {
                        out.push(v);
                        assert(texts(out@) =~= seq![out@[0]@]);
                        break;
                    },
                    None => {
                        k = k + 1;
                    },
                }
            }
            let ghost first = texts(out@);
            assert(first == (match first_image_attr(self.body@, 0) {
                Some(v) => seq![v],
                None => Seq::<Seq<char>>::empty(),
            })) by {
                if first_image_attr(self.body@, 0) is None {
                    assert(texts(out@) =~= Seq::<Seq<char>>::empty());
                }
            }
            srcset_of(self, &mut out, "srcset");
            srcset_of(self, &mut out, "data-srcset");
        } else if eq_str(&name, "a") {
            match self.attr("href") {
                Some(h) => {
                    if extension_of(h.as_str()).is_some() {
                        out.push(h);
                        assert(texts(out@) =~= seq![out@[0]@]);
                    }
                },
                None => {},
            }
            assert(texts(out@) =~= tag_refs(self.name@, self.body@));
        }
        assert(texts(out@) =~= tag_refs(self.name@, self.body@));
        out
    }
}

/// Whether a resolved URL is worth offering as a page.
pub fn is_page_candidate(url: &str) -> (r: bool)
    ensures
        r == is_candidate(url@),
{
    match extension_of(url) {
        Some(e) => {
            let e = chars_of(e.as_str());
            !(eq_str(&e, "svg") || eq_str(&e, "gif") || eq_str(&e, "ico") || eq_str(&e, "bmp"))
        },
        None => true,
    }
}

fn contains_text(v: &Vec<String>, s: &String) -> (r: bool)
    ensures
        r == texts(v@).contains(s@),
{
    let mut k: usize = 0;
    while k < v.len()
        invariant
            k <= v@.len(),
            forall|j: int| 0 <= j < k ==> texts(v@)[j] != s@,
        decreases v@.len() - k,
    {
        if v[k] == *s {
            assert(texts(v@)[k as int] == s@);
            return true;
        }
        k = k + 1;
    }
    false
}

fn keep_ref(found: &mut Vec<String>, base: &str, reference: &str)
    ensures
        texts(final(found)@) == keep_step(texts(old(found)@), base@, reference@),
{
    match resolve(base, reference) {
        Some(u) => {
            if is_page_candidate(u.as_str()) && !contains_text(found, &u) {
                found.push(u);
                assert(texts(found@) =~= texts(old(found)@).push(u@));
            }
        },
        None => {},
    }
}

proof fn lemma_collected_push(base: Seq<char>, refs: Seq<Seq<char>>, r: Seq<char>)
    ensures
        collected(base, refs.push(r)) == keep_step(collected(base, refs), base, r),
{
    assert(refs.push(r).drop_last() =~= refs);
}

/// The effective base URL, honouring the first `<base href>` the page declares.
pub fn base_href(page: &str, html: &str) -> (r: String)
    ensures
        r@ == base_of(page@, html@),
{
    let ts = tags(html);
    let ghost t = tags_spec(html@);
    let mut i: usize = 0;
    assert(t.skip(0) =~= t);
    while i < ts.len()
        invariant
            tags_are(ts@, t),
            t == tags_spec(html@),
            i <= ts@.len(),
            base_of(page@, html@) == base_from(page@, t.skip(i as int)),
        decreases ts@.len() - i,
    {
        let name = chars_of(ts[i].name.as_str());
        assert(t.skip(i as int)[0] == t[i as int]);
        if eq_str(&name, "base") {
            proof {
                reveal_strlit("href");
            }
            return match ts[i].attr("href") {
                Some(h) => match resolve(page, h.as_str()) {
                    Some(u) => u,
                    None => page.to_string(),
                },
                None => page.to_string(),
            };
        }
        assert(t.skip(i as int).skip(1) =~= t.skip(i + 1));
        i = i + 1;
    }
    assert(t.skip(i as int) =~= Seq::<(Seq<char>, Seq<char>)>::empty());
    page.to_string()
}

/// Image URLs found on `html`, a document found at `page`, in document order:
/// each reference resolved, filtered to page candidates and offered once.
pub fn image_urls(page: &str, html: &str) -> (r: Vec<String>)
    ensures
        texts(r@) == image_urls_spec(page@, html@),
{
    let base = base_href(page, html);
    let ts = tags(html);
    let ghost t = tags_spec(html@);
    let mut found: Vec<String> = Vec::new();
    let ghost mut refs: Seq<Seq<char>> = Seq::empty();
    let mut i: usize = 0;
    assert(t.take(0) =~= Seq::<(Seq<char>, Seq<char>)>::empty());
    while i < ts.len()
        invariant
            tags_are(ts@, t),
            t == tags_spec(html@),
            base@ == base_of(page@, html@),
            i <= ts@.len(),
            refs == refs_of_tags(t.take(i as int)),
            texts(found@) == collected(base@, refs),
        decreases ts@.len() - i,
    {
        let rs = ts[i].references();
        let mut j: usize = 0;
        let ghost before = refs;
        assert(texts(rs@).take(0) =~= Seq::<Seq<char>>::empty());
        assert(before + Seq::<Seq<char>>::empty() =~= before);
        while j < rs.len()
            invariant
                j <= rs@.len(),
                refs == before + texts(rs@).take(j as int),
                texts(found@) == collected(base@, refs),
            decreases rs@.len() - j,
        {
            keep_ref(&mut found, base.as_str(), rs[j].as_str());
            proof {
                lemma_collected_push(base@, refs, rs@[j as int]@);
                assert(before + texts(rs@).take(j + 1) =~= refs.push(rs@[j as int]@));
                refs = refs.push(rs@[j as int]@);
            }
            j = j + 1;
        }
        proof {
            assert(texts(rs@).take(j as int) =~= texts(rs@));
            assert(t.take(i + 1).drop_last() =~= t.take(i as int));
            assert(refs == refs_of_tags(t.take(i + 1)));
        }
        i = i + 1;
    }
    assert(t.take(i as int) =~= t);
    let scripts = script_bodies(html);
    let ghost sc = scripts_from(html@, 0);
    let ghost tag_part = refs;
    let mut k: usize = 0;
    assert(sc.take(0) =~= Seq::<Seq<char>>::empty());
    assert(tag_part + Seq::<Seq<char>>::empty() =~= tag_part);
    while k < scripts.len()
        invariant
            scripts@.len() == sc.len(),
            forall|m: int| 0 <= m < scripts@.len() ==> (#[trigger] scripts@[m])@ == sc[m],
            sc == scripts_from(html@, 0),
            k <= scripts@.len(),
            refs == tag_part + refs_of_scripts(sc.take(k as int)),
            texts(found@) == collected(base@, refs),
        decreases scripts@.len() - k,
    {
        let qs = quoted_image_urls(scripts[k].as_str());
        let mut j: usize = 0;
        let ghost before = refs;
        let ghost want = chunk_images(quote_chunks(sc[k as int]));
        assert(want.take(0) =~= Seq::<Seq<char>>::empty());
        assert(before + Seq::<Seq<char>>::empty() =~= before);
        while j < qs.len()
            invariant
                qs@.len() == want.len(),
                forall|m: int| 0 <= m < qs@.len() ==> (#[trigger] qs@[m])@ == want[m],
                j <= qs@.len(),
                refs == before + want.take(j as int),
                texts(found@) == collected(base@, refs),
            decreases qs@.len() - j,
        {
            keep_ref(&mut found, base.as_str(), qs[j].as_str());
            proof {
                lemma_collected_push(base@, refs, qs@[j as int]@);
                assert(before + want.take(j + 1) =~= refs.push(qs@[j as int]@));
                refs = refs.push(qs@[j as int]@);
            }
            j = j + 1;
        }
        proof {
            assert(want.take(j as int) =~= want);
            assert(sc.take(k + 1).drop_last() =~= sc.take(k as int));
            assert(refs =~= tag_part + refs_of_scripts(sc.take(k + 1)));
        }
        k = k + 1;
    }
    assert(sc.take(k as int) =~= sc);
    found
}

proof fn lemma_collected_clean(base: Seq<char>, refs: Seq<Seq<char>>)
    ensures
        forall|i: int, j: int|
            0 <= i < j < collected(base, refs).len() ==> collected(base, refs)[i] != collected(
                base,
                refs,
            )[j],
        forall|k: int|
            0 <= k < collected(base, refs).len() ==> is_candidate(#[trigger] collected(base, refs)[k]),
        forall|k: int|
            0 <= k < collected(base, refs).len() ==> exists|i: int|
                0 <= i < refs.len() && resolved(base, #[trigger] refs[i]) == Some(
                    #[trigger] collected(base, refs)[k],
                ),
    decreases refs.len(),
{
    if refs.len() > 0 {
        lemma_collected_clean(base, refs.drop_last());
        let prev = collected(base, refs.drop_last());
        let rest = refs.drop_last();
        assert forall|k: int| 0 <= k < prev.len() implies exists|i: int|
            0 <= i < refs.len() && resolved(base, #[trigger] refs[i]) == Some(#[trigger] prev[k]) by {
            let i = choose|i: int| 0 <= i < rest.len() && resolved(base, #[trigger] rest[i]) == Some(prev[k]);
            assert(refs[i] == rest[i]);
        }
        assert(refs[refs.len() - 1] == refs.last());
        match resolved(base, refs.last()) {
            Some(u) => {
                if is_candidate(u) && !prev.contains(u) {
                    assert forall|i: int, j: int|
                        0 <= i < j < prev.push(u).len() implies prev.push(u)[i] != prev.push(
                        u,
                    )[j] by {
                        if j == prev.len() {
                            assert(prev[i] != u);
                        }
                    }
                }
            },
            None => {},
        }
    }
}

/// What `image_urls` offers never holds the same URL twice, holds only page
/// candidates (formats that are never manga pages are dropped), and holds
/// nothing that is not a reference on the page resolved against its base.
pub proof fn image_urls_are_distinct_candidates(page: Seq<char>, html: Seq<char>)
    ensures
        forall|i: int, j: int|
            0 <= i < j < image_urls_spec(page, html).len() ==> image_urls_spec(page, html)[i]
                != image_urls_spec(page, html)[j],
        forall|k: int|
            0 <= k < image_urls_spec(page, html).len() ==> is_candidate(
                #[trigger] image_urls_spec(page, html)[k],
            ),
        forall|k: int|
            0 <= k < image_urls_spec(page, html).len() ==> exists|i: int|
                0 <= i < page_refs(html).len() && resolved(
                    base_of(page, html),
                    #[trigger] page_refs(html)[i],
                ) == Some(#[trigger] image_urls_spec(page, html)[k]),
{
    lemma_collected_clean(base_of(page, html), page_refs(html));
}

/// Whether an extension is one that manga pages are served in.
pub open spec fn page_format(e: Seq<char>) -> bool {
    e == "jpg"@ || e == "jpeg"@ || e == "png"@ || e == "webp"@ || e == "avif"@
}

/// Whether an extension is one that is never a manga page.
pub open spec fn never_a_page(e: Seq<char>) -> bool {
    e == "svg"@ || e == "gif"@ || e == "ico"@ || e == "bmp"@
}

/// Only icons, vector art and animations are refused as pages: a URL in a
/// page format (jpg, jpeg, png, webp, avif) is always a candidate, and a URL
/// that is refused has one of the extensions svg, gif, ico or bmp.
pub proof fn only_non_page_formats_are_refused(u: Seq<char>)
    ensures
        (url_extension(u) matches Some(e) && page_format(e)) ==> is_candidate(u),
        !is_candidate(u) ==> (url_extension(u) matches Some(e) && never_a_page(e)),
{
    reveal_strlit("jpg");
    reveal_strlit("jpeg");
    reveal_strlit("png");
    reveal_strlit("webp");
    reveal_strlit("avif");
    reveal_strlit("svg");
    reveal_strlit("gif");
    reveal_strlit("ico");
    reveal_strlit("bmp");
    if let Some(e) = url_extension(u) {
        if page_format(e) {
            if e == "jpg"@ || e == "png"@ {
                assert(e[0] != "svg"@[0] && e[0] != "gif"@[0] && e[0] != "ico"@[0] && e[0] != "bmp"@[0]);
            } else {
                assert(e.len() == 4);
            }
        }
    }
}

/// A reference that resolves to a URL in a page format, not kept before, is
/// kept, at the end.
pub proof fn a_page_reference_is_kept(found: Seq<Seq<char>>, base: Seq<char>, reference: Seq<char>)
    requires
        resolved(base, reference) matches Some(u) && (url_extension(u) matches Some(e) && page_format(e))
            && !found.contains(u),
    ensures
        keep_step(found, base, reference) == found.push(resolved(base, reference).unwrap()),
{
    only_non_page_formats_are_refused(resolved(base, reference).unwrap());
}

} // verus!
