//! Turning titles and chapter labels into folder names that survive every OS.
use vstd::prelude::*;

use crate::fetch::series::{
    decimal_parts, lex_less, parts_of_text, strip_leading_zeros, strip_trailing_zeros,
};
use crate::text::{find_char_from, lemma_find_char_from};
use crate::text::{
    chars_of, decimal, decimal_of, decimal_padded, push_all, push_str, string_of, trim, trimmed,
    zero_padded,
};

verus! {

/// Characters that are illegal in a file name on at least one platform, plus
/// the ones that merely make a path miserable to type.
pub open spec fn is_illegal(c: char) -> bool {
    c == '/' || c == '\\' || c == ':' || c == '*' || c == '?' || c == '"' || c == '<' || c == '>'
        || c == '|'
}

/// Control characters (Unicode category Cc), as `char::is_control` defines them.
pub open spec fn is_control(c: char) -> bool {
    c <= '\u{1f}' || ('\u{7f}' <= c && c <= '\u{9f}')
}

/// A character as it may appear in a file name: illegal and control
/// characters become `-`.
pub open spec fn safe_char(c: char) -> char {
    if is_illegal(c) || is_control(c) {
        '-'
    } else {
        c
    }
}

/// `s` with every character made safe.
pub open spec fn cleaned(s: Seq<char>) -> Seq<char> {
    Seq::new(s.len(), |i: int| safe_char(s[i]))
}

/// At most the first `n` characters of `s`.
pub open spec fn at_most(s: Seq<char>, n: nat) -> Seq<char> {
    if s.len() <= n {
        s
    } else {
        s.take(n as int)
    }
}

/// Whether a character is dropped from the end of a name: white space, and
/// the dot Windows removes.
pub open spec fn is_tail_junk(c: char) -> bool {
    crate::text::is_space(c) || c == '.'
}

/// `s` without trailing white space and dots, removed until neither is left.
pub open spec fn trim_tail(s: Seq<char>) -> Seq<char>
    decreases s.len(),
{
    if s.len() > 0 && is_tail_junk(s.last()) {
        trim_tail(s.drop_last())
    } else {
        s
    }
}

/// Decimal text of a signed integer.
pub open spec fn int_text(n: int) -> Seq<char> {
    if n < 0 {
        "-"@ + decimal_of((-n) as nat)
    } else {
        decimal_of(n as nat)
    }
}

/// A name made safe to use as one path component on every platform: illegal
/// and control characters become `-`, leading white space is removed, and
/// trailing white space and the trailing dots Windows drops are removed until
/// neither is left (so `.` and `..` become empty rather than naming a real
/// directory).
pub open spec fn safe_component_of(s: Seq<char>) -> Seq<char> {
    crate::text::trim_start(trim_tail(cleaned(s)))
}

/// `trim_tail` keeps a prefix whose last character is neither white space nor
/// a dot.
proof fn lemma_trim_tail(s: Seq<char>)
    ensures
        trim_tail(s).len() <= s.len(),
        trim_tail(s) == s.take(trim_tail(s).len() as int),
        trim_tail(s).len() > 0 ==> !is_tail_junk(trim_tail(s).last()),
    decreases s.len(),
{
    if s.len() > 0 && is_tail_junk(s.last()) {
        lemma_trim_tail(s.drop_last());
        assert(s.drop_last().take(trim_tail(s).len() as int) =~= s.take(trim_tail(s).len() as int));
    } else {
        assert(s.take(s.len() as int) =~= s);
    }
}

/// A name made safe is one path component that names no real directory and
/// that every platform keeps as written: no illegal or control character (so
/// no separator of any platform), no white space at either end, no trailing
/// dot, and never `.` or `..`.
pub proof fn a_safe_name_cannot_leave_its_folder(s: Seq<char>)
    ensures
        forall|i: int|
            0 <= i < safe_component_of(s).len() ==> !is_illegal(#[trigger] safe_component_of(s)[i])
                && !is_control(safe_component_of(s)[i]),
        crate::text::trim(safe_component_of(s)) == safe_component_of(s),
        safe_component_of(s).len() > 0 ==> safe_component_of(s).last() != '.'
            && !crate::text::is_space(safe_component_of(s).last()),
        safe_component_of(s) != "."@,
        safe_component_of(s) != ".."@,
{
    reveal_strlit(".");
    reveal_strlit("..");
    let c = cleaned(s);
    let u = trim_tail(c);
    lemma_trim_tail(c);
    let a = crate::text::skip_space(u, 0);
    crate::text::lemma_skip_space(u, 0);
    let r = safe_component_of(s);
    assert(r == u.skip(a));
    assert forall|i: int| 0 <= i < r.len() implies !is_illegal(#[trigger] r[i]) && !is_control(
        r[i],
    ) by {
        assert(r[i] == u[a + i]);
        assert(u[a + i] == c[a + i]);
        assert(c[a + i] == safe_char(s[a + i]));
    }
    if r.len() > 0 {
        assert(r.last() == u.last());
        assert(r[0] == u[a]);
        assert(crate::text::skip_space(r, 0) == 0);
        assert(crate::text::trim_start(r) =~= r);
        assert(crate::text::back_space(r, r.len() as int) == r.len());
        assert(crate::text::trim(r) =~= r);
    } else {
        assert(crate::text::trim(r) =~= r);
    }
}

/// The folder name for a series title: the title made safe, trimmed of the
/// trailing dots and spaces Windows drops, `Untitled` when nothing is left,
/// cut to 120 characters, and followed by the row id in brackets.
pub open spec fn series_slug_spec(title: Seq<char>, id: int) -> Seq<char> {
    let base = safe_component_of(title);
    let base = if base.len() == 0 { "Untitled"@ } else { base };
    at_most(base, 120) + " ["@ + int_text(id) + "]"@
}

/// The folder name for a chapter label. A plain decimal is zero-padded to four
/// whole digits and keeps its fraction (without trailing zeros), so folders
/// sort as the chapters read; any other label keeps its name, made safe and
/// cut to 64 characters.
pub open spec fn chapter_slug_spec(number: Seq<char>) -> Seq<char> {
    let t = trim(number);
    match decimal_parts(t) {
        Some((whole, fraction)) => {
            let w = strip_leading_zeros(whole);
            let w = if w.len() == 0 { "0"@ } else { w };
            let f = strip_trailing_zeros(fraction);
            if f.len() > 0 {
                "c"@ + zero_padded(w, 4) + "."@ + f
            } else {
                "c"@ + zero_padded(w, 4)
            }
        },
        None => {
            let safe = trim(at_most(cleaned(t), 64));
            if safe.len() == 0 { "c-unnamed"@ } else { "c-"@ + safe }
        },
    }
}

/// The file stem for a volume's cover art, e.g. `v1` or `v7.5`.
pub open spec fn volume_slug_spec(number: Seq<char>) -> Seq<char> {
    let safe = trim(at_most(cleaned(trim(number)), 32));
    if safe.len() == 0 { "v-unnamed"@ } else { "v"@ + safe }
}

fn safe(c: char) -> (r: char)
    ensures
        r == safe_char(c),
{
    if c == '/' || c == '\\' || c == ':' || c == '*' || c == '?' || c == '"' || c == '<' || c
        == '>' || c == '|' || c <= '\u{1f}' || ('\u{7f}' <= c && c <= '\u{9f}') {
        '-'
    } else {
        c
    }
}

fn clean(s: &Vec<char>) -> (r: Vec<char>)
    ensures
        r@ == cleaned(s@),
{
    let mut r: Vec<char> = Vec::new();
    let mut i: usize = 0;
    while i < s.len()
        invariant
            i <= s@.len(),
            r@ =~= cleaned(s@.take(i as int)),
        decreases s@.len() - i,
    {
        r.push(safe(s[i]));
        i = i + 1;
        assert(r@ =~= cleaned(s@.take(i as int)));
    }
    assert(s@.take(i as int) =~= s@);
    r
}

fn first_chars(s: &Vec<char>, n: usize) -> (r: Vec<char>)
    ensures
        r@ == at_most(s@, n as nat),
{
    if s.len() <= n {
        return crate::text::slice_of(s, 0, s.len());
    }
    crate::text::slice_of(s, 0, n)
}

fn without_tail(s: &Vec<char>) -> (r: Vec<char>)
    ensures
        r@ == trim_tail(s@),
{
    let mut e = s.len();
    assert(s@.take(e as int) =~= s@);
    while e > 0 && (crate::text::space(s[e - 1]) || s[e - 1] == '.')
        invariant
            e <= s@.len(),
            trim_tail(s@) == trim_tail(s@.take(e as int)),
        decreases e,
    {
        assert(s@.take(e as int).drop_last() =~= s@.take(e - 1));
        e = e - 1;
    }
    crate::text::slice_of(s, 0, e)
}

pub fn int_digits(n: i64) -> (r: Vec<char>)
    ensures
        r@ == int_text(n as int),
{
    if n < 0 {
        let m: u128 = (0i128 - (n as i128)) as u128;
        let mut r = chars_of("-");
        push_all(&mut r, &decimal(m));
        r
    } else {
        decimal(n as u128)
    }
}

/// A folder name for a series title. The row id is always appended: two series
/// can share a title across sources, and a title can be empty or made only of
/// illegal characters.
pub fn series_slug(title: &str, id: i64) -> (r: String)
    ensures
        r@ == series_slug_spec(title@, id as int),
{
    proof {
        reveal_strlit("Untitled");
    }
    let base = safe_chars(title);
    let base = if base.len() == 0 {
        chars_of("Untitled")
    } else {
        base
    };
    let mut out = first_chars(&base, 120);
    push_str(&mut out, " [");
    push_all(&mut out, &int_digits(id));
    push_str(&mut out, "]");
    string_of(out.as_slice())
}

fn safe_chars(s: &str) -> (r: Vec<char>)
    ensures
        r@ == safe_component_of(s@),
{
    let t = without_tail(&clean(&chars_of(s)));
    let a = crate::text::skip_space_from(&t, 0);
    crate::text::slice_of(&t, a, t.len())
}

/// Strip characters that are illegal in a file name on at least one platform,
/// leading white space, and the trailing white space and dots Windows would
/// drop, until none is left at the end.
pub fn safe_component(s: &str) -> (r: String)
    ensures
        r@ == safe_component_of(s@),
{
    string_of(safe_chars(s).as_slice())
}

fn padded(w: &Vec<char>, width: usize) -> (r: Vec<char>)
    ensures
        r@ == zero_padded(w@, width as nat),
{
    if w.len() >= width {
        return crate::text::slice_of(w, 0, w.len());
    }
    let mut r: Vec<char> = Vec::new();
    let pad = width - w.len();
    let mut i: usize = 0;
    while i < pad
        invariant
            i <= pad,
            r@ =~= Seq::new(i as nat, |k: int| '0'),
        decreases pad - i,
    {
        r.push('0');
        i = i + 1;
        assert(r@ =~= Seq::new(i as nat, |k: int| '0'));
    }
    push_all(&mut r, w);
    r
}

/// A folder name for a chapter label, zero-padded so the folders sort the way
/// the chapters read even in a plain file browser; decimal chapters keep their
/// fraction rather than having it rounded away.
pub fn chapter_slug(number: &str) -> (r: String)
    ensures
        r@ == chapter_slug_spec(number@),
{
    proof {
        reveal_strlit("c");
        reveal_strlit(".");
        reveal_strlit("0");
        reveal_strlit("c-");
        reveal_strlit("c-unnamed");
    }
    let t = trimmed(&chars_of(number));
    match parts_of_text(&t) {
        Some((whole, fraction)) => {
            let w = crate::fetch::series::without_leading_zeros(&whole);
            let w = if w.len() == 0 {
                chars_of("0")
            } else {
                w
            };
            let f = crate::fetch::series::without_trailing_zeros(&fraction);
            let mut out = chars_of("c");
            push_all(&mut out, &padded(&w, 4));
            if f.len() > 0 {
                push_str(&mut out, ".");
                push_all(&mut out, &f);
            }
            string_of(out.as_slice())
        },
        None => {
            let safe = trimmed(&first_chars(&clean(&t), 64));
            if safe.len() == 0 {
                return string_of(chars_of("c-unnamed").as_slice());
            }
            let mut out = chars_of("c-");
            push_all(&mut out, &safe);
            string_of(out.as_slice())
        },
    }
}

/// A file stem for a volume's cover art, e.g. `v1` or `v7.5`.
pub fn volume_slug(number: &str) -> (r: String)
    ensures
        r@ == volume_slug_spec(number@),
{
    proof {
        reveal_strlit("v");
        reveal_strlit("v-unnamed");
    }
    let safe = trimmed(&first_chars(&clean(&trimmed(&chars_of(number))), 32));
    if safe.len() == 0 {
        return string_of(chars_of("v-unnamed").as_slice());
    }
    let mut out = chars_of("v");
    push_all(&mut out, &safe);
    string_of(out.as_slice())
}

/// Zero-padded page file name, so every reader and every `ls` agrees on order.
pub fn page_name(index: usize, ext: &str) -> (r: String)
    requires
        index < usize::MAX,
    ensures
        r@ == zero_padded(decimal_of((index + 1) as nat), 4) + "."@ + ext@,
{
    let mut out = decimal_padded((index + 1) as u128, 4);
    push_str(&mut out, ".");
    push_str(&mut out, ext);
    string_of(out.as_slice())
}


/// A chapter label of the usual shape, from its whole digits and its
/// fraction digits (`7`, `7.5`).
pub open spec fn plain_label(whole: Seq<char>, fraction: Seq<char>) -> Seq<char> {
    if fraction.len() == 0 {
        whole
    } else {
        whole + "."@ + fraction
    }
}

/// The fraction digits read as hundredths (`5` is 50, `25` is 25).
pub open spec fn hundredths(fraction: Seq<char>) -> nat {
    if fraction.len() == 0 {
        0
    } else if fraction.len() == 1 {
        crate::natsort::digits_value(fraction) * 10
    } else {
        crate::natsort::digits_value(fraction)
    }
}

/// A label's value in hundredths of a chapter.
pub open spec fn label_value(whole: Seq<char>, fraction: Seq<char>) -> nat {
    crate::natsort::digits_value(whole) * 100 + hundredths(fraction)
}

/// Whether whole and fraction digits make a label of the usual shape: one to
/// four whole digits, and at most two after the dot.
pub open spec fn plain_parts(whole: Seq<char>, fraction: Seq<char>) -> bool {
    &&& 1 <= whole.len() <= 4
    &&& fraction.len() <= 2
    &&& crate::fetch::series::all_digits(whole)
    &&& crate::fetch::series::all_digits(fraction)
}

/// Comparing after a common-length start: the starts decide, and only equal
/// starts leave it to what follows.
proof fn lemma_lex_concat(x: Seq<char>, y: Seq<char>, s: Seq<char>, t: Seq<char>)
    requires
        x.len() == y.len(),
    ensures
        lex_less(x + s, y + t) == (lex_less(x, y) || (x == y && lex_less(s, t))),
    decreases x.len(),
{
    if x.len() == 0 {
        assert(x + s =~= s);
        assert(y + t =~= t);
        assert(x =~= y);
    } else {
        assert((x + s)[0] == x[0]);
        assert((y + t)[0] == y[0]);
        if x[0] == y[0] {
            assert((x + s).skip(1) =~= x.skip(1) + s);
            assert((y + t).skip(1) =~= y.skip(1) + t);
            lemma_lex_concat(x.skip(1), y.skip(1), s, t);
            if x.skip(1) == y.skip(1) {
                assert forall|i: int| 0 <= i < x.len() implies x[i] == y[i] by {
                    if i > 0 {
                        assert(x[i] == x.skip(1)[i - 1]);
                        assert(y[i] == y.skip(1)[i - 1]);
                    }
                }
                assert(x =~= y);
            }
            if x == y {
                assert(x.skip(1) == y.skip(1));
            }
        } else {
            assert(x != y);
        }
    }
}

/// Digit strings of one length compare as text the way their values compare.
proof fn lemma_digits_order(x: Seq<char>, y: Seq<char>)
    requires
        x.len() == y.len(),
        crate::fetch::series::all_digits(x),
        crate::fetch::series::all_digits(y),
    ensures
        lex_less(x, y) <==> crate::natsort::digits_value(x) < crate::natsort::digits_value(y),
        x == y <==> crate::natsort::digits_value(x) == crate::natsort::digits_value(y),
    decreases x.len(),
{
    if x.len() == 0 {
        assert(x =~= y);
    } else {
        let xp = x.drop_last();
        let yp = y.drop_last();
        assert(crate::text::is_digit(x[x.len() - 1]));
        assert(crate::text::is_digit(y[y.len() - 1]));
        lemma_digits_order(xp, yp);
        assert(xp + seq![x.last()] =~= x);
        assert(yp + seq![y.last()] =~= y);
        lemma_lex_concat(xp, yp, seq![x.last()], seq![y.last()]);
        lemma_lex_single(x.last(), y.last());
        assert(seq![x.last()].skip(1) =~= Seq::<char>::empty());
        assert(seq![y.last()].skip(1) =~= Seq::<char>::empty());
        if xp == yp && x.last() == y.last() {
            assert(x =~= y);
        }
        if x == y {
            assert(xp =~= yp);
        }
    }
}

/// A leading zero adds nothing to a digit string's value.
proof fn lemma_zero_first(s: Seq<char>)
    ensures
        crate::natsort::digits_value(seq!['0'] + s) == crate::natsort::digits_value(s),
    decreases s.len(),
{
    if s.len() == 0 {
        assert(seq!['0'] + s =~= seq!['0']);
        assert(seq!['0'].drop_last() =~= Seq::<char>::empty());
        assert(seq!['0'].last() == '0');
        assert(crate::natsort::digits_value(seq!['0']) == crate::natsort::digits_value(
            Seq::<char>::empty(),
        ) * 10 + 0);
    } else {
        lemma_zero_first(s.drop_last());
        assert((seq!['0'] + s).drop_last() =~= seq!['0'] + s.drop_last());
        assert((seq!['0'] + s).last() == s.last());
        let z = seq!['0'] + s;
        assert(crate::natsort::digits_value(z) == crate::natsort::digits_value(z.drop_last()) * 10
            + ((z.last() as int) - ('0' as int)) as nat);
        assert(crate::natsort::digits_value(s) == crate::natsort::digits_value(s.drop_last()) * 10
            + ((s.last() as int) - ('0' as int)) as nat);
    }
}

/// Zeros in front add nothing to a digit string's value.
proof fn lemma_zeros_first(k: nat, s: Seq<char>)
    ensures
        crate::natsort::digits_value(Seq::new(k, |i: int| '0') + s) == crate::natsort::digits_value(s),
    decreases k,
{
    if k == 0 {
        assert(Seq::new(k, |i: int| '0') + s =~= s);
    } else {
        let rest = Seq::new((k - 1) as nat, |i: int| '0') + s;
        lemma_zeros_first((k - 1) as nat, s);
        lemma_zero_first(rest);
        assert(Seq::new(k, |i: int| '0') + s =~= seq!['0'] + rest);
    }
}

/// A digit string is its leading zeros followed by the rest.
proof fn lemma_strip_zeros(w: Seq<char>)
    requires
        crate::fetch::series::all_digits(w),
    ensures
        strip_leading_zeros(w).len() <= w.len(),
        w == Seq::new((w.len() - strip_leading_zeros(w).len()) as nat, |i: int| '0')
            + strip_leading_zeros(w),
        crate::fetch::series::all_digits(strip_leading_zeros(w)),
    decreases w.len(),
{
    if w.len() > 0 && w[0] == '0' {
        let t = w.skip(1);
        lemma_strip_zeros(t);
        let z = strip_leading_zeros(t);
        let k = (t.len() - z.len()) as nat;
        assert(w =~= seq!['0'] + t);
        assert(Seq::new((k + 1) as nat, |i: int| '0') + z =~= seq!['0'] + (Seq::new(k, |i: int| '0') + z));
    } else {
        assert(Seq::new(0, |i: int| '0') + w =~= w);
    }
}

/// The four padded whole digits of a label: four digits with the label's
/// whole value.
proof fn lemma_padded_whole(w: Seq<char>)
    requires
        1 <= w.len() <= 4,
        crate::fetch::series::all_digits(w),
    ensures
        ({
            let s = strip_leading_zeros(w);
            let s = if s.len() == 0 { "0"@ } else { s };
            let d = zero_padded(s, 4);
            &&& d.len() == 4
            &&& crate::fetch::series::all_digits(d)
            &&& crate::natsort::digits_value(d) == crate::natsort::digits_value(w)
        }),
{
    reveal_strlit("0");
    lemma_strip_zeros(w);
    let z = strip_leading_zeros(w);
    let k = (w.len() - z.len()) as nat;
    lemma_zeros_first(k, z);
    let s = if z.len() == 0 { "0"@ } else { z };
    if z.len() == 0 {
        assert(s =~= seq!['0']);
        assert(seq!['0'] =~= seq!['0'] + Seq::<char>::empty());
        lemma_zero_first(Seq::<char>::empty());
        assert(Seq::new(k, |i: int| '0') + z =~= Seq::new(k, |i: int| '0') + Seq::<char>::empty());
    }
    let pad = (4 - s.len()) as nat;
    lemma_zeros_first(pad, s);
    let d = zero_padded(s, 4);
    if s.len() < 4 {
        assert(d == Seq::new(pad, |i: int| '0') + s);
    } else {
        assert(d == s);
        assert(Seq::new(0, |i: int| '0') + s =~= s);
    }
    assert forall|i: int| 0 <= i < d.len() implies crate::text::is_digit(#[trigger] d[i]) by {
        if s.len() < 4 && i < pad {
        } else {
            let j = if s.len() < 4 { i - pad } else { i };
            assert(d[i] == s[j]);
        }
    }
}

/// The tail a fraction gives a folder name, and the value it stands for:
/// nothing for no fraction, otherwise a dot and the digits without trailing
/// zeros. Tails compare as text the way their values compare.
proof fn lemma_tails(fa: Seq<char>, fb: Seq<char>)
    requires
        fa.len() <= 2,
        fb.len() <= 2,
        crate::fetch::series::all_digits(fa),
        crate::fetch::series::all_digits(fb),
    ensures
        ({
            let ta = slug_tail(fa);
            let tb = slug_tail(fb);
            &&& lex_less(ta, tb) <==> hundredths(fa) < hundredths(fb)
            &&& ta == tb <==> hundredths(fa) == hundredths(fb)
            &&& hundredths(fa) < 100
        }),
{
    reveal_strlit(".");
    lemma_tail_value(fa);
    lemma_tail_value(fb);
    let a = strip_trailing_zeros(fa);
    let b = strip_trailing_zeros(fb);
    let ta = slug_tail(fa);
    let tb = slug_tail(fb);
    let dot = "."@;
    if a.len() > 0 && b.len() > 0 {
        lemma_lex_concat(dot, dot, a, b);
        lemma_digits_irreflexive(dot);
        lemma_lex_small(a, b);
        if ta == tb {
            assert(a =~= ta.skip(1));
            assert(b =~= tb.skip(1));
        }
        if a == b {
            assert(ta =~= tb);
        }
    } else if a.len() > 0 {
        assert(tb.len() == 0);
        assert(ta.len() > 0);
    } else if b.len() > 0 {
        assert(ta.len() == 0);
        assert(tb.len() > 0);
    } else {
        assert(ta =~= tb);
    }
}

/// One character is less than another as text exactly when it is smaller.
proof fn lemma_lex_single(a: char, b: char)
    ensures
        lex_less(seq![a], seq![b]) == (a < b),
{
    reveal_with_fuel(lex_less, 2);
    assert(seq![a].skip(1) =~= Seq::<char>::empty());
    assert(seq![b].skip(1) =~= Seq::<char>::empty());
}

/// Fraction digits without trailing zeros, one or two long, compare as text
/// the way their hundredths compare.
proof fn lemma_lex_small(a: Seq<char>, b: Seq<char>)
    requires
        1 <= a.len() <= 2,
        1 <= b.len() <= 2,
        crate::fetch::series::all_digits(a),
        crate::fetch::series::all_digits(b),
        a.last() != '0',
        b.last() != '0',
    ensures
        lex_less(a, b) <==> small_value(a) < small_value(b),
        a == b <==> small_value(a) == small_value(b),
{
    reveal_with_fuel(lex_less, 3);
    assert(crate::text::is_digit(a[0]) && crate::text::is_digit(b[0]));
    assert(crate::text::is_digit(a.last()) && crate::text::is_digit(b.last()));
    let a1 = a.skip(1);
    let b1 = b.skip(1);
    if a.len() == 2 {
        assert(a1 =~= seq![a[1]]);
    } else {
        assert(a1 =~= Seq::<char>::empty());
    }
    if b.len() == 2 {
        assert(b1 =~= seq![b[1]]);
    } else {
        assert(b1 =~= Seq::<char>::empty());
    }
    if a1.len() > 0 && b1.len() > 0 {
        lemma_lex_single(a[1], b[1]);
    }
    if a.len() == b.len() && a[0] == b[0] && (a.len() == 1 || a[1] == b[1]) {
        assert(a =~= b);
    }
}

/// Hundredths of one or two fraction digits.
pub open spec fn small_value(a: Seq<char>) -> int {
    if a.len() == 1 {
        ((a[0] as int) - 48) * 10
    } else {
        ((a[0] as int) - 48) * 10 + ((a[1] as int) - 48)
    }
}

/// What a fraction's tail holds: no digits exactly when its hundredths are
/// zero, otherwise one or two digits ending in a non-zero one, worth its
/// hundredths.
proof fn lemma_tail_value(f: Seq<char>)
    requires
        f.len() <= 2,
        crate::fetch::series::all_digits(f),
    ensures
        ({
            let a = strip_trailing_zeros(f);
            &&& hundredths(f) < 100
            &&& a.len() <= 2
            &&& crate::fetch::series::all_digits(a)
            &&& a.len() == 0 <==> hundredths(f) == 0
            &&& a.len() > 0 ==> a.last() != '0' && small_value(a) == hundredths(f)
        }),
{
    reveal_with_fuel(strip_trailing_zeros, 3);
    reveal_with_fuel(crate::natsort::digits_value, 3);
    if f.len() >= 1 {
        assert(crate::text::is_digit(f[0]));
    }
    if f.len() == 2 {
        assert(crate::text::is_digit(f[1]));
        assert(f.drop_last() =~= seq![f[0]]);
        assert(f.drop_last().drop_last() =~= Seq::<char>::empty());
        assert(seq![f[0]].drop_last() =~= Seq::<char>::empty());
    } else if f.len() == 1 {
        assert(f.drop_last() =~= Seq::<char>::empty());
    }
}

/// Chapter folders sort as the chapters read: for labels of the usual shape
/// (one to four whole digits, at most two after the dot), plain text order of
/// their folder names is the order of their values, and two labels share a
/// folder name exactly when they have the same value (`c0002` before
/// `c0010`, `c0007` before `c0007.5` before `c0008`).
pub proof fn chapter_folders_sort_as_the_chapters_read(
    wa: Seq<char>,
    fa: Seq<char>,
    wb: Seq<char>,
    fb: Seq<char>,
)
    requires
        plain_parts(wa, fa),
        plain_parts(wb, fb),
    ensures
        lex_less(chapter_slug_spec(plain_label(wa, fa)), chapter_slug_spec(plain_label(wb, fb)))
            <==> label_value(wa, fa) < label_value(wb, fb),
        chapter_slug_spec(plain_label(wa, fa)) == chapter_slug_spec(plain_label(wb, fb))
            <==> label_value(wa, fa) == label_value(wb, fb),
{
    reveal_strlit("c");
    lemma_slug_of_plain(wa, fa);
    lemma_slug_of_plain(wb, fb);
    lemma_padded_whole(wa);
    lemma_padded_whole(wb);
    lemma_tails(fa, fb);
    lemma_tail_value(fa);
    lemma_tail_value(fb);
    let da = slug_digits(wa);
    let db = slug_digits(wb);
    let ta = slug_tail(fa);
    let tb = slug_tail(fb);
    lemma_digits_order(da, db);
    let c = "c"@;
    lemma_lex_concat(c, c, da, db);
    lemma_lex_concat(c + da, c + db, ta, tb);
    assert(!lex_less(c, c)) by {
        lemma_digits_irreflexive(c);
    }
    if c + da == c + db {
        assert(da =~= (c + da).skip(1));
        assert(db =~= (c + db).skip(1));
    }
    let sa = c + da + ta;
    let sb = c + db + tb;
    assert(c.len() == 1);
    assert(da.len() == 4 && db.len() == 4);
    assert(lex_less(c + da, c + db) == lex_less(da, db));
    assert((c + da == c + db) == (da == db));
    assert(lex_less(sa, sb) == (lex_less(da, db) || (da == db && lex_less(ta, tb))));
    assert(crate::natsort::digits_value(da) == crate::natsort::digits_value(wa));
    assert(hundredths(fa) < 100 && hundredths(fb) < 100);
    if sa == sb {
        assert(sa.take(5) =~= c + da);
        assert(sb.take(5) =~= c + db);
        assert(sa.skip(5) =~= ta);
        assert(sb.skip(5) =~= tb);
    }
}

/// No text is less than itself.
proof fn lemma_digits_irreflexive(s: Seq<char>)
    ensures
        !lex_less(s, s),
    decreases s.len(),
{
    if s.len() > 0 {
        lemma_digits_irreflexive(s.skip(1));
    }
}

/// The padded whole digits of a folder name.
pub open spec fn slug_digits(w: Seq<char>) -> Seq<char> {
    let s = strip_leading_zeros(w);
    zero_padded(if s.len() == 0 { "0"@ } else { s }, 4)
}

/// The fraction tail of a folder name.
pub open spec fn slug_tail(f: Seq<char>) -> Seq<char> {
    let t = strip_trailing_zeros(f);
    if t.len() > 0 { "."@ + t } else { Seq::<char>::empty() }
}

/// The folder name of a label of the usual shape: `c`, the padded whole
/// digits, and the fraction tail.
proof fn lemma_slug_of_plain(w: Seq<char>, f: Seq<char>)
    requires
        plain_parts(w, f),
    ensures
        chapter_slug_spec(plain_label(w, f)) == "c"@ + slug_digits(w) + slug_tail(f),
{
    reveal_strlit(".");
    reveal_strlit("c");
    let l = plain_label(w, f);
    assert(crate::text::is_digit(w[0]));
    assert(l[0] == w[0]);
    if f.len() == 0 {
        assert(l.last() == w.last());
        assert(crate::text::is_digit(w[w.len() - 1]));
    } else {
        assert(l.last() == f.last());
        assert(crate::text::is_digit(f[f.len() - 1]));
    }
    assert(crate::text::skip_space(l, 0) == 0);
    assert(crate::text::trim_start(l) =~= l);
    assert(crate::text::back_space(l, l.len() as int) == l.len());
    assert(trim(l) =~= l);
    lemma_find_char_from(l, '.', 0);
    if f.len() == 0 {
        assert forall|j: int| 0 <= j < l.len() implies l[j] != '.' by {
            assert(crate::text::is_digit(w[j]));
        }
        assert(find_char_from(l, '.', 0) == -1);
    } else {
        assert forall|j: int| 0 <= j < w.len() implies l[j] != '.' by {
            assert(crate::text::is_digit(w[j]));
        }
        assert(l[w.len() as int] == '.');
        crate::fetch::series::lemma_find_char_first(l, '.', 0, w.len() as int);
        assert(l.take(w.len() as int) =~= w);
        assert(l.skip(w.len() as int + 1) =~= f);
    }
    assert(decimal_parts(l) == Some((w, f)));
    let s = strip_leading_zeros(w);
    let s = if s.len() == 0 { "0"@ } else { s };
    let t = strip_trailing_zeros(f);
    if t.len() > 0 {
        assert("c"@ + zero_padded(s, 4) + "."@ + t =~= "c"@ + slug_digits(w) + slug_tail(f));
    } else {
        assert("c"@ + zero_padded(s, 4) =~= "c"@ + slug_digits(w) + slug_tail(f));
    }
}

} // verus!
