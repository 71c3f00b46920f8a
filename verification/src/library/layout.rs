//! Arranging what the store holds of a series into volumes.
//!
//! Chapters are gathered under the volume the published layout puts them in;
//! those no published volume claims go under an `Unsorted` entry that always
//! sorts last, so a chapter is never simply invisible. A volume with published
//! cover art but nothing known in it is still shown: it is the clearest
//! possible "you are missing all of v4".
use vstd::prelude::*;

use crate::fetch::series::{decimal_parts, number_before, number_less, parts_of_text};
use crate::library::model::{ChapterStatus, VolumeStatus};
use crate::text::{chars_of, eq_str, trim, trimmed};

verus! {

/// The bucket for chapters no published volume claims.
pub open spec fn unsorted_label() -> Seq<char> {
    "Unsorted"@
}

/// A volume as plain values: its label, cover URL, cover path and chapters.
pub type VolumeView = (Seq<char>, Option<Seq<char>>, Option<Seq<char>>, Seq<ChapterStatus>);

/// A stored cover row: the volume label, its cover URL and its cover path.
pub type CoverView = (Seq<char>, Option<Seq<char>>, Option<Seq<char>>);

pub open spec fn opt_text(o: Option<String>) -> Option<Seq<char>> {
    match o {
        Some(s) => Some(s@),
        None => None,
    }
}

pub open spec fn volume_view(v: VolumeStatus) -> VolumeView {
    (v.number@, opt_text(v.cover_url), opt_text(v.cover_path), v.chapters@)
}

pub open spec fn volume_views(vs: Seq<VolumeStatus>) -> Seq<VolumeView> {
    vs.map_values(|v: VolumeStatus| volume_view(v))
}

pub open spec fn row_views(rows: Seq<(Option<String>, ChapterStatus)>) -> Seq<
    (Option<Seq<char>>, ChapterStatus),
> {
    rows.map_values(|x: (Option<String>, ChapterStatus)| (opt_text(x.0), x.1))
}

pub open spec fn cover_views(cs: Seq<(String, Option<String>, Option<String>)>) -> Seq<CoverView> {
    cs.map_values(|c: (String, Option<String>, Option<String>)| (c.0@, opt_text(c.1), opt_text(c.2)))
}

/// The label a chapter row is filed under.
pub open spec fn row_label(volume: Option<Seq<char>>) -> Seq<char> {
    match volume {
        Some(l) => l,
        None => unsorted_label(),
    }
}

/// Index of the first volume labelled `l`, or -1.
pub open spec fn index_of_label(vs: Seq<VolumeView>, l: Seq<char>, from: int) -> int
    decreases vs.len() - from,
{
    if from < 0 || from >= vs.len() {
        -1
    } else if vs[from].0 == l {
        from
    } else {
        index_of_label(vs, l, from + 1)
    }
}

/// Chapter rows gathered by label, volumes in order of first appearance and
/// chapters in row order.
pub open spec fn grouped(rows: Seq<(Option<Seq<char>>, ChapterStatus)>) -> Seq<VolumeView>
    decreases rows.len(),
{
    if rows.len() == 0 {
        Seq::empty()
    } else {
        let g = grouped(rows.drop_last());
        let l = row_label(rows.last().0);
        let c = rows.last().1;
        let i = index_of_label(g, l, 0);
        if i >= 0 {
            g.update(i, (g[i].0, g[i].1, g[i].2, g[i].3.push(c)))
        } else {
            g.push((l, None, None, seq![c]))
        }
    }
}

/// Volumes with a cover row but no chapters are added, in cover order.
pub open spec fn with_covers(vs: Seq<VolumeView>, covers: Seq<CoverView>) -> Seq<VolumeView>
    decreases covers.len(),
{
    if covers.len() == 0 {
        vs
    } else {
        let before = with_covers(vs, covers.drop_last());
        let c = covers.last();
        if index_of_label(before, c.0, 0) >= 0 {
            before
        } else {
            before.push((c.0, c.1, None, Seq::empty()))
        }
    }
}

/// Index of the first cover row for label `l`, or -1.
pub open spec fn cover_index(cs: Seq<CoverView>, l: Seq<char>, from: int) -> int
    decreases cs.len() - from,
{
    if from < 0 || from >= cs.len() {
        -1
    } else if cs[from].0 == l {
        from
    } else {
        cover_index(cs, l, from + 1)
    }
}

/// A volume with its cover URL and path taken from its first cover row, if any.
pub open spec fn attached(v: VolumeView, covers: Seq<CoverView>) -> VolumeView {
    let i = cover_index(covers, v.0, 0);
    if i >= 0 {
        (v.0, covers[i].1, covers[i].2, v.3)
    } else {
        v
    }
}

/// Where a label sorts: numbers first, then other labels, `Unsorted` last.
pub open spec fn label_rank(l: Seq<char>) -> int {
    if decimal_parts(trim(l)) is Some {
        0
    } else if l == unsorted_label() {
        2
    } else {
        1
    }
}

/// Whether label `a` sorts strictly before label `b`: by rank, and numbers by value.
pub open spec fn label_less(a: Seq<char>, b: Seq<char>) -> bool {
    label_rank(a) < label_rank(b) || (label_rank(a) == 0 && label_rank(b) == 0 && number_less(a, b))
}

/// Insert `x` after every volume that does not sort after it.
pub open spec fn insert_by_label(s: Seq<VolumeView>, x: VolumeView) -> Seq<VolumeView>
    decreases s.len(),
{
    if s.len() == 0 {
        seq![x]
    } else if label_less(x.0, s[0].0) {
        seq![x] + s
    } else {
        seq![s[0]] + insert_by_label(s.skip(1), x)
    }
}

/// A stable sort of volumes by label.
pub open spec fn sorted_by_label(s: Seq<VolumeView>) -> Seq<VolumeView>
    decreases s.len(),
{
    if s.len() == 0 {
        Seq::empty()
    } else {
        insert_by_label(sorted_by_label(s.drop_last()), s.last())
    }
}

/// Every volume of a series with what is held of it: chapter rows gathered by
/// volume, cover-only volumes added, covers attached, sorted by label.
pub open spec fn arranged(rows: Seq<(Option<Seq<char>>, ChapterStatus)>, covers: Seq<CoverView>) -> Seq<
    VolumeView,
> {
    sorted_by_label(with_covers(grouped(rows), covers).map_values(|v: VolumeView| attached(v, covers)))
}

proof fn lemma_insert_by_label(s: Seq<VolumeView>, x: VolumeView, k: int)
    requires
        0 <= k <= s.len(),
        forall|j: int| 0 <= j < k ==> !label_less(x.0, #[trigger] s[j].0),
        k < s.len() ==> label_less(x.0, s[k].0),
    ensures
        insert_by_label(s, x) == s.insert(k, x),
    decreases s.len(),
{
    if s.len() == 0 {
        assert(s.insert(k, x) =~= seq![x]);
    } else if k == 0 {
        assert(s.insert(0, x) =~= seq![x] + s);
    } else {
        let t = s.skip(1);
        assert forall|j: int| 0 <= j < k - 1 implies !label_less(x.0, #[trigger] t[j].0) by {
            assert(t[j] == s[j + 1]);
        }
        if k < s.len() {
            assert(t[k - 1] == s[k]);
        }
        lemma_insert_by_label(t, x, k - 1);
        assert(seq![s[0]] + t.insert(k - 1, x) =~= s.insert(k, x));
    }
}

fn rank(l: &str) -> (r: u8)
    ensures
        r as int == label_rank(l@),
{
    let t = trimmed(&chars_of(l));
    if parts_of_text(&t).is_some() {
        0
    } else if eq_str(&chars_of(l), "Unsorted") {
        2
    } else {
        1
    }
}

fn label_before(a: &str, b: &str) -> (r: bool)
    ensures
        r == label_less(a@, b@),
{
    let ra = rank(a);
    let rb = rank(b);
    ra < rb || (ra == 0 && rb == 0 && number_before(a, b))
}

fn find_label(vs: &Vec<VolumeStatus>, l: &String) -> (r: Option<usize>)
    ensures
        match r {
            Some(i) => i < vs@.len() && i as int == index_of_label(volume_views(vs@), l@, 0),
            None => index_of_label(volume_views(vs@), l@, 0) == -1,
        },
{
    let mut i: usize = 0;
    while i < vs.len()
        invariant
            i <= vs@.len(),
            index_of_label(volume_views(vs@), l@, 0) == index_of_label(volume_views(vs@), l@, i as int),
        decreases vs@.len() - i,
    {
        if vs[i].number == *l {
            return Some(i);
        }
        i = i + 1;
    }
    None
}

fn find_cover(cs: &Vec<(String, Option<String>, Option<String>)>, l: &String) -> (r: Option<usize>)
    ensures
        match r {
            Some(i) => i < cs@.len() && i as int == cover_index(cover_views(cs@), l@, 0),
            None => cover_index(cover_views(cs@), l@, 0) == -1,
        },
{
    let mut i: usize = 0;
    while i < cs.len()
        invariant
            i <= cs@.len(),
            cover_index(cover_views(cs@), l@, 0) == cover_index(cover_views(cs@), l@, i as int),
        decreases cs@.len() - i,
    {
        if cs[i].0 == *l {
            return Some(i);
        }
        i = i + 1;
    }
    None
}

fn copy_opt(o: &Option<String>) -> (r: Option<String>)
    ensures
        opt_text(r) == opt_text(*o),
{
    match o {
        Some(s) => Some(s.clone()),
        None => None,
    }
}

/// Whether none of the volumes records a built file.
pub open spec fn none_built(vs: Seq<VolumeStatus>) -> bool {
    forall|i: int| 0 <= i < vs.len() ==> (#[trigger] vs[i]).built is None
}

/// Arrange stored chapter rows `(volume label, chapter)` and cover rows
/// `(label, cover URL, cover path)` into the volumes of a series. No volume
/// records a built file: that is known only to whoever looks on disk.
pub fn arrange_volumes(
    rows: Vec<(Option<String>, ChapterStatus)>,
    covers: &Vec<(String, Option<String>, Option<String>)>,
) -> (r: Vec<VolumeStatus>)
    ensures
        volume_views(r@) == arranged(
            row_views(rows@),
            cover_views(covers@),
        ),
        none_built(r@),
{
    let ghost rv = row_views(rows@);
    let ghost cv = cover_views(covers@);
    let mut rows = rows;
    let n = rows.len();
    let mut vs: Vec<VolumeStatus> = Vec::new();
    let mut k: usize = 0;
    assert(rv.take(0) =~= Seq::<(Option<Seq<char>>, ChapterStatus)>::empty());
    while rows.len() > 0
        invariant
            n == rv.len(),
            k <= n,
            row_views(rows@) == rv.skip(
                k as int,
            ),
            volume_views(vs@) == grouped(rv.take(k as int)),
            none_built(vs@),
        decreases rows@.len(),
    {
        let ghost before = rows@;
        let pair = rows.remove(0);
        let ghost bv = row_views(before);
        proof {
            assert(pair == before[0]);
            assert(bv[0] == rv.skip(k as int)[0]);
            assert(bv.len() == before.len());
            assert(rows@ =~= before.skip(1));
            assert(row_views(rows@)
                =~= rv.skip(k + 1)) by {
                let rm = row_views(rows@);
                assert forall|j: int| 0 <= j < rm.len() implies rm[j] == rv.skip(k + 1)[j] by {
                    assert(rows@[j] == before[j + 1]);
                    assert(bv[j + 1] == rv.skip(k as int)[j + 1]);
                    assert(bv[j + 1] == (opt_text(before[j + 1].0), before[j + 1].1));
                    assert(rm[j] == (opt_text(rows@[j].0), rows@[j].1));
                    assert(bv.len() == rv.len() - k);
                    assert(rv.skip(k as int)[j + 1] == rv[k + j + 1]);
                    assert(rv.skip(k + 1)[j] == rv[k + 1 + j]);
                }
            }
        }
        let (label, chapter) = pair;
        proof {
            assert(rv[k as int] == (opt_text(label), chapter));
            assert(rv.take(k + 1).drop_last() =~= rv.take(k as int));
            assert(rv.take(k + 1).last() == rv[k as int]);
        }
        let label = match label {
            Some(l) => l,
            None => String::from_str("Unsorted"),
        };
        proof {
            reveal_strlit("Unsorted");
        }
        match find_label(&vs, &label) {
            Some(i) => {
                let ghost old_vs = volume_views(vs@);
                let mut v = vs.remove(i);
                v.chapters.push(chapter);
                vs.insert(i, v);
                assert(volume_views(vs@) =~= old_vs.update(
                    i as int,
                    (old_vs[i as int].0, old_vs[i as int].1, old_vs[i as int].2, old_vs[i as int].3.push(
                        chapter,
                    )),
                ));
            },
            None => {
                let mut chapters: Vec<ChapterStatus> = Vec::new();
                chapters.push(chapter);
                let ghost old_vs = volume_views(vs@);
                vs.push(VolumeStatus { number: label, cover_url: None, cover_path: None, chapters, built: None });
                assert(chapters@ =~= seq![chapter]);
                assert(volume_views(vs@) =~= old_vs.push((label@, None, None, seq![chapter])));
            },
        }
        k = k + 1;
    }
    assert(rv.take(k as int) =~= rv);
    let ghost g = grouped(rv);
    let mut c: usize = 0;
    assert(cv.take(0) =~= Seq::<CoverView>::empty());
    while c < covers.len()
        invariant
            c <= covers@.len(),
            cv == cover_views(covers@),
            volume_views(vs@) == with_covers(g, cv.take(c as int)),
            none_built(vs@),
        decreases covers@.len() - c,
    {
        proof {
            assert(cv.take(c + 1).drop_last() =~= cv.take(c as int));
            assert(cv.take(c + 1).last() == cv[c as int]);
        }
        match find_label(&vs, &covers[c].0) {
            Some(_) => {},
            None => {
                let ghost old_vs = volume_views(vs@);
                vs.push(
                    VolumeStatus {
                        number: covers[c].0.clone(),
                        cover_url: copy_opt(&covers[c].1),
                        cover_path: None,
                        chapters: Vec::new(),
                        built: None,
                    },
                );
                assert(volume_views(vs@) =~= old_vs.push(
                    (cv[c as int].0, cv[c as int].1, None, Seq::empty()),
                ));
            },
        }
        c = c + 1;
    }
    assert(cv.take(c as int) =~= cv);
    let ghost w = with_covers(g, cv);
    let m = vs.len();
    let mut j: usize = 0;
    while j < m
        invariant
            m == vs@.len(),
            m == w.len(),
            j <= m,
            cv == cover_views(covers@),
            forall|t: int| 0 <= t < j ==> volume_views(vs@)[t] == attached(w[t], cv),
            forall|t: int| j <= t < m ==> volume_views(vs@)[t] == w[t],
            none_built(vs@),
        decreases m - j,
    {
        let ghost old_vs = volume_views(vs@);
        match find_cover(covers, &vs[j].number) {
            Some(ci) => {
                let mut v = vs.remove(j);
                v.cover_url = copy_opt(&covers[ci].1);
                v.cover_path = copy_opt(&covers[ci].2);
                vs.insert(j, v);
                assert(volume_views(vs@) =~= old_vs.update(j as int, attached(w[j as int], cv)));
            },
            None => {
                assert(attached(w[j as int], cv) == w[j as int]);
            },
        }
        j = j + 1;
    }
    let ghost a = w.map_values(|v: VolumeView| attached(v, cv));
    assert(volume_views(vs@) =~= a);
    let mut sorted: Vec<VolumeStatus> = Vec::new();
    let mut rest = vs;
    let mut q: usize = 0;
    assert(a.take(0) =~= Seq::<VolumeView>::empty());
    while rest.len() > 0
        invariant
            m == a.len(),
            q <= m,
            volume_views(rest@) == a.skip(q as int),
            volume_views(sorted@) == sorted_by_label(a.take(q as int)),
            none_built(sorted@),
            none_built(rest@),
        decreases rest@.len(),
    {
        let ghost rbefore = rest@;
        let x = rest.remove(0);
        proof {
            assert(x == rbefore[0]);
            assert(volume_views(rbefore)[0] == a.skip(q as int)[0]);
            assert(volume_views(rbefore)[0] == volume_view(rbefore[0]));
            assert(rbefore.len() > 0);
            assert(volume_views(rbefore).len() == rbefore.len());
            assert(a.skip(q as int).len() == rbefore.len());
            assert(q < a.len());
            assert(a.skip(q as int)[0] == a[q as int]);
            assert(volume_view(x) == a[q as int]);
            assert(rest@ =~= rbefore.skip(1));
            assert(volume_views(rest@) =~= a.skip(q + 1)) by {
                assert forall|j: int| 0 <= j < rest@.len() implies volume_views(rest@)[j] == a.skip(
                    q + 1,
                )[j] by {
                    assert(rest@[j] == rbefore[j + 1]);
                    assert(volume_views(rbefore)[j + 1] == a.skip(q as int)[j + 1]);
                    assert(volume_views(rbefore)[j + 1] == volume_view(rbefore[j + 1]));
                    assert(volume_views(rest@)[j] == volume_view(rest@[j]));
                }
            }
            assert(a.take(q + 1).drop_last() =~= a.take(q as int));
            assert(x.built is None);
        }
        let mut t: usize = 0;
        let ghost sv = volume_views(sorted@);
        while t < sorted.len() && !label_before(x.number.as_str(), sorted[t].number.as_str())
            invariant
                t <= sorted@.len(),
                sv == volume_views(sorted@),
                forall|u: int| 0 <= u < t ==> !label_less(volume_view(x).0, #[trigger] sv[u].0),
            decreases sorted@.len() - t,
        {
            t = t + 1;
        }
        proof {
            lemma_insert_by_label(sv, volume_view(x), t as int);
        }
        let ghost sb = sorted@;
        sorted.insert(t, x);
        assert(volume_views(sorted@) =~= sv.insert(t as int, volume_view(x)));
        assert(sorted@ =~= sb.insert(t as int, x));
        q = q + 1;
    }
    assert(a.take(q as int) =~= a);
    sorted
}

} // verus!
