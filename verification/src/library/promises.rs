//! What the index promises across its operations: adding is idempotent,
//! syncing never takes a file away and adds nothing the second time, a
//! recorded chapter reads back, reading progress is kept the way a reader
//! expects, and removing a series leaves nothing of it behind.
use vstd::prelude::*;

use crate::library::index::{
    chapter_folder_of, chapter_or_blank, chapter_pos, deleted, existing_pos, inserted, inserted_pos,
    lemma_chapter_pos, lemma_chapters_without, lemma_chapters_without_keeps, lemma_first_where,
    lemma_first_where_at, lemma_resume, lemma_volumes_without, or_else, progress_cleared, progressed,
    recorded, removed, resumable, resume_pos, unread_all, ChapterRecord, IndexState, SeriesRecord,
    chapter_listed, chapters_listed, layout_merged, synced, numbers_of, of_series, upsert_chapter,
};
use crate::library::model::{HistoryEntry, HistoryView, PublishedChapter, PublishedVolume};
use crate::library::index::{history_list, history_of};
use crate::order::{insert_by, lemma_insert_by_position, order_of, sorted_by};
use crate::library::sync::{count_missing, listed_numbers, syncing_a_known_layout_adds_nothing};
use crate::library::model::NewSeries;
use crate::library::layout::opt_text;

verus! {

/// Adding the same series twice changes nothing the second time: the index
/// is left as the first addition left it, and the same series is returned.
pub proof fn adding_a_series_twice_changes_nothing(st: IndexState, new: NewSeries, t1: i64, t2: i64)
    requires
        opt_text(new.source) is Some,
        opt_text(new.source_id) is Some,
        !(existing_pos(st, new) < 0 && st.last_id == i64::MAX),
    ensures
        inserted(inserted(st, new, true, t1), new, true, t2) == inserted(st, new, true, t1),
        inserted_pos(inserted(st, new, true, t1), new) == inserted_pos(st, new),
{
    let s = opt_text(new.source).unwrap();
    let i = opt_text(new.source_id).unwrap();
    let p = |r: SeriesRecord| r.source == Some(s) && r.source_id == Some(i);
    let s1 = inserted(st, new, true, t1);
    lemma_first_where(st.series, p);
    let k = inserted_pos(st, new);
    assert forall|j: int| 0 <= j < k implies !p(#[trigger] s1.series[j]) by {
        assert(s1.series[j] == st.series[j]);
    }
    assert(p(s1.series[k]));
    lemma_first_where_at(s1.series, p, k);
    assert(existing_pos(s1, new) == k);
    assert(s1.series[k].shelved);
    assert(SeriesRecord { shelved: true, ..s1.series[k] } == s1.series[k]);
    assert(s1.series.update(k, s1.series[k]) =~= s1.series);
}

/// Adding a series already stored for its source id, whether it was added or
/// only read before, creates no second record: the stored one is returned
/// with its id, and it is put on the shelf.
pub proof fn adding_a_stored_series_shelves_it(st: IndexState, new: NewSeries, now: i64)
    requires
        existing_pos(st, new) >= 0,
    ensures
        ({
            let k = existing_pos(st, new);
            let after = inserted(st, new, true, now);
            &&& inserted_pos(st, new) == k
            &&& 0 <= k < st.series.len()
            &&& after.series.len() == st.series.len()
            &&& after.last_id == st.last_id
            &&& after.series[k].id == st.series[k].id
            &&& after.series[k].shelved
        }),
{
    let s = opt_text(new.source).unwrap();
    let i = opt_text(new.source_id).unwrap();
    let p = |r: SeriesRecord| r.source == Some(s) && r.source_id == Some(i);
    lemma_first_where(st.series, p);
}

/// Recording a series because it was read never takes it off the shelf.
pub proof fn reading_never_takes_a_series_off_the_shelf(st: IndexState, new: NewSeries, now: i64, k: int)
    requires
        0 <= k < st.series.len(),
        st.series[k].shelved,
    ensures
        inserted(st, new, false, now).series[k].shelved,
{
}

/// A chapter recorded as on disk reads back as on disk, with the page
/// count and time given, and keeps the source address it had unless a new
/// one is given.
pub proof fn a_recorded_chapter_reads_back(
    cs: Seq<ChapterRecord>,
    id: i64,
    number: Seq<char>,
    page_count: u32,
    source_url: Option<Seq<char>>,
    now: i64,
)
    ensures
        chapter_pos(recorded(cs, id, number, page_count, source_url, now), id, number) >= 0,
        ({
            let after = recorded(cs, id, number, page_count, source_url, now);
            let c = after[chapter_pos(after, id, number)];
            &&& c.folder == Some(chapter_folder_of(number))
            &&& c.page_count == page_count
            &&& c.downloaded_at == Some(now)
            &&& c.source_url == or_else(source_url, chapter_or_blank(cs, id, number).source_url)
        }),
{
    lemma_chapter_pos(cs, id, number);
    let after = recorded(cs, id, number, page_count, source_url, now);
    let q = |c: ChapterRecord| c.series_id == id && c.number == number;
    lemma_first_where(cs, q);
    let k = chapter_pos(cs, id, number);
    if k >= 0 {
        assert forall|j: int| 0 <= j < k implies !q(#[trigger] after[j]) by {
            assert(after[j] == cs[j]);
        }
        assert(q(after[k]));
        lemma_first_where_at(after, q, k);
    } else {
        let n = cs.len() as int;
        assert forall|j: int| 0 <= j < n implies !q(#[trigger] after[j]) by {
            assert(after[j] == cs[j]);
        }
        assert(q(after[n]));
        lemma_first_where_at(after, q, n);
    }
}

/// Saving progress records the page and the opening, marks a finished
/// chapter read, and never changes when a chapter was first finished.
pub proof fn progress_is_kept_the_way_a_reader_expects(c: ChapterRecord, page: u32, finished: bool, now: i64)
    ensures
        progressed(c, page, finished, now).last_page == page,
        progressed(c, page, finished, now).opened_at == Some(now),
        finished ==> progressed(c, page, finished, now).read_at is Some,
        c.read_at is Some ==> progressed(c, page, finished, now).read_at == c.read_at,
        !finished ==> progressed(c, page, finished, now).read_at == c.read_at,
        progressed(c, page, finished, now).folder == c.folder,
        progressed(c, page, finished, now).page_count == c.page_count,
{
}

/// Forgetting reading, of one chapter or of whole series, never touches
/// which chapters are on disk.
pub proof fn clearing_reading_keeps_the_pages(cs: Seq<ChapterRecord>, id: i64, number: Seq<char>, only: Option<i64>)
    ensures
        progress_cleared(cs, id, number).len() == cs.len(),
        unread_all(cs, only).len() == cs.len(),
        forall|j: int|
            0 <= j < cs.len() ==> (#[trigger] progress_cleared(cs, id, number)[j]).folder == cs[j].folder
                && progress_cleared(cs, id, number)[j].page_count == cs[j].page_count,
        forall|j: int|
            0 <= j < cs.len() ==> (#[trigger] unread_all(cs, only)[j]).folder == cs[j].folder
                && unread_all(cs, only)[j].page_count == cs[j].page_count,
        forall|j: int|
            0 <= j < cs.len() && (only is None || only == Some(cs[j].series_id)) ==> (#[trigger] unread_all(
                cs,
                only,
            )[j]).opened_at is None && unread_all(cs, only)[j].read_at is None,
        forall|j: int|
            0 <= j < cs.len() && !(only is None || only == Some(cs[j].series_id)) ==> #[trigger] unread_all(
                cs,
                only,
            )[j] == cs[j],
{
    lemma_chapter_pos(cs, id, number);
}

/// "Continue reading" only ever offers a chapter of the series that is
/// left to read and can be opened; it offers nothing exactly when no such
/// chapter exists, so a fully read series has nothing to resume.
pub proof fn resuming_offers_only_what_is_left_to_read(cs: Seq<ChapterRecord>, id: i64)
    ensures
        -1 <= resume_pos(cs, id) < cs.len(),
        resume_pos(cs, id) >= 0 ==> resumable(cs[resume_pos(cs, id)], id),
        resume_pos(cs, id) == -1 <==> forall|j: int| 0 <= j < cs.len() ==> !resumable(#[trigger] cs[j], id),
{
    lemma_resume(cs, id);
}

/// Deleting a chapter a published volume claims leaves it known but not
/// held, so the gap stays visible; one no volume claims is forgotten.
pub proof fn deleting_a_chapter_leaves_the_gap_visible(cs: Seq<ChapterRecord>, id: i64, number: Seq<char>)
    requires
        chapter_pos(cs, id, number) >= 0,
    ensures
        cs[chapter_pos(cs, id, number)].volume is Some ==> chapter_pos(deleted(cs, id, number), id, number)
            == chapter_pos(cs, id, number) && deleted(cs, id, number)[chapter_pos(cs, id, number)].folder
            is None,
        cs[chapter_pos(cs, id, number)].volume is None ==> deleted(cs, id, number).len() == cs.len() - 1,
{
    lemma_chapter_pos(cs, id, number);
    let k = chapter_pos(cs, id, number);
    if cs[k].volume is Some {
        let after = deleted(cs, id, number);
        let q = |c: ChapterRecord| c.series_id == id && c.number == number;
        lemma_first_where(cs, q);
        assert forall|j: int| 0 <= j < k implies !q(#[trigger] after[j]) by {
            assert(after[j] == cs[j]);
        }
        assert(q(after[k]));
        lemma_first_where_at(after, q, k);
    }
}

/// Removing a series leaves none of its volumes or chapters behind, and
/// keeps every other series's.
pub proof fn removing_a_series_leaves_nothing_of_it(st: IndexState, id: i64)
    ensures
        forall|j: int| 0 <= j < removed(st, id).chapters.len() ==> (#[trigger] removed(st, id).chapters[j]).series_id != id,
        forall|j: int| 0 <= j < removed(st, id).volumes.len() ==> (#[trigger] removed(st, id).volumes[j]).series_id != id,
        forall|j: int|
            0 <= j < st.chapters.len() && (#[trigger] st.chapters[j]).series_id != id ==> removed(st, id).chapters.contains(st.chapters[j]),
{
    lemma_chapters_without(st.chapters, id);
    lemma_volumes_without(st.volumes, id);
    lemma_chapters_without_keeps(st.chapters, id);
}


/// Whether `b` is `a` as far as the disk and the reader are concerned: the
/// same chapter, with the same folder, pages, source address and progress.
pub open spec fn same_on_disk(a: ChapterRecord, b: ChapterRecord) -> bool {
    &&& a.series_id == b.series_id
    &&& a.number == b.number
    &&& a.folder == b.folder
    &&& a.page_count == b.page_count
    &&& a.source_url == b.source_url
    &&& a.downloaded_at == b.downloaded_at
    &&& a.last_page == b.last_page
    &&& a.read_at == b.read_at
    &&& a.opened_at == b.opened_at
}

/// Whether series `id` has a chapter `number`.
pub open spec fn knows(cs: Seq<ChapterRecord>, id: i64, number: Seq<char>) -> bool {
    exists|j: int| 0 <= j < cs.len() && (#[trigger] cs[j]).series_id == id && cs[j].number == number
}

/// Whether `after` keeps, in place, every chapter of `before` as it is on disk.
pub open spec fn keeps_disk(before: Seq<ChapterRecord>, after: Seq<ChapterRecord>) -> bool {
    before.len() <= after.len() && forall|k: int| 0 <= k < before.len() ==> same_on_disk(#[trigger] before[k], after[k])
}

proof fn lemma_listing_one(cs: Seq<ChapterRecord>, id: i64, volume: Seq<char>, p: PublishedChapter)
    ensures
        keeps_disk(cs, chapter_listed(cs, id, volume, p)),
        knows(chapter_listed(cs, id, volume, p), id, p.number@),
{
    lemma_chapter_pos(cs, id, p.number@);
    let after = chapter_listed(cs, id, volume, p);
    let k = chapter_pos(cs, id, p.number@);
    if k >= 0 {
        assert(after[k].series_id == id && after[k].number == p.number@);
    } else {
        assert(after[cs.len() as int].series_id == id && after[cs.len() as int].number == p.number@);
    }
}

proof fn lemma_keeps_disk_trans(a: Seq<ChapterRecord>, b: Seq<ChapterRecord>, c: Seq<ChapterRecord>)
    requires
        keeps_disk(a, b),
        keeps_disk(b, c),
    ensures
        keeps_disk(a, c),
{
    assert forall|k: int| 0 <= k < a.len() implies same_on_disk(#[trigger] a[k], c[k]) by {
        assert(same_on_disk(a[k], b[k]));
        assert(same_on_disk(b[k], c[k]));
    }
}

proof fn lemma_keeps_disk_knows(a: Seq<ChapterRecord>, b: Seq<ChapterRecord>, id: i64, n: Seq<char>)
    requires
        keeps_disk(a, b),
        knows(a, id, n),
    ensures
        knows(b, id, n),
{
    let j = choose|j: int| 0 <= j < a.len() && (#[trigger] a[j]).series_id == id && a[j].number == n;
    assert(same_on_disk(a[j], b[j]));
}

proof fn lemma_listing_volume(cs: Seq<ChapterRecord>, id: i64, volume: Seq<char>, ps: Seq<PublishedChapter>)
    ensures
        keeps_disk(cs, chapters_listed(cs, id, volume, ps)),
        forall|k: int| 0 <= k < ps.len() ==> knows(chapters_listed(cs, id, volume, ps), id, (#[trigger] ps[k]).number@),
    decreases ps.len(),
{
    if ps.len() > 0 {
        let d = ps.drop_last();
        lemma_listing_volume(cs, id, volume, d);
        let mid = chapters_listed(cs, id, volume, d);
        lemma_listing_one(mid, id, volume, ps.last());
        let after = chapters_listed(cs, id, volume, ps);
        lemma_keeps_disk_trans(cs, mid, after);
        assert forall|k: int| 0 <= k < ps.len() implies knows(after, id, (#[trigger] ps[k]).number@) by {
            if k < ps.len() - 1 {
                assert(d[k] == ps[k]);
                assert(knows(mid, id, d[k].number@));
                lemma_keeps_disk_knows(mid, after, id, ps[k].number@);
            }
        }
    } else {
        assert(keeps_disk(cs, cs));
    }
}

proof fn lemma_merging(st: IndexState, id: i64, vs: Seq<PublishedVolume>)
    ensures
        keeps_disk(st.chapters, layout_merged(st, id, vs).chapters),
        forall|k: int| 0 <= k < listed_numbers(vs).len() ==> knows(layout_merged(st, id, vs).chapters, id, #[trigger] listed_numbers(vs)[k]),
    decreases vs.len(),
{
    if vs.len() > 0 {
        let d = vs.drop_last();
        lemma_merging(st, id, d);
        let m = layout_merged(st, id, d);
        let v = vs.last();
        lemma_listing_volume(m.chapters, id, v.number@, v.chapters@);
        let after = layout_merged(st, id, vs).chapters;
        lemma_keeps_disk_trans(st.chapters, m.chapters, after);
        let earlier = listed_numbers(d);
        let own = v.chapters@.map_values(|c: PublishedChapter| c.number@);
        assert(listed_numbers(vs) == earlier + own);
        assert forall|k: int| 0 <= k < listed_numbers(vs).len() implies knows(after, id, #[trigger] listed_numbers(vs)[k]) by {
            if k < earlier.len() {
                assert(listed_numbers(vs)[k] == earlier[k]);
                lemma_keeps_disk_knows(m.chapters, after, id, earlier[k]);
            } else {
                let q = k - earlier.len();
                assert(listed_numbers(vs)[k] == own[q]);
                assert(own[q] == v.chapters@[q].number@);
            }
        }
    } else {
        assert(keeps_disk(st.chapters, st.chapters));
    }
}

proof fn lemma_of_series_knows(cs: Seq<ChapterRecord>, id: i64, n: Seq<char>)
    requires
        knows(cs, id, n),
    ensures
        numbers_of(of_series(cs, id)).contains(n),
    decreases cs.len(),
{
    let d = cs.drop_last();
    if cs.last().series_id == id && cs.last().number == n {
        let w = of_series(d, id);
        assert(of_series(cs, id) == w.push(cs.last()));
        assert(numbers_of(of_series(cs, id))[w.len() as int] == n);
    } else {
        let j = choose|j: int| 0 <= j < cs.len() && (#[trigger] cs[j]).series_id == id && cs[j].number == n;
        assert(j < cs.len() - 1);
        assert(d[j] == cs[j]);
        lemma_of_series_knows(d, id, n);
        let w = numbers_of(of_series(d, id));
        let q = choose|q: int| 0 <= q < w.len() && w[q] == n;
        if cs.last().series_id == id {
            assert(of_series(cs, id) == of_series(d, id).push(cs.last()));
            assert(numbers_of(of_series(cs, id))[q] == w[q]);
        }
    }
}

/// Merging a published layout never takes away or changes a chapter on
/// disk, nor where the reader is in it: every chapter stays where it was,
/// with the same folder, pages, source address and progress.
pub proof fn syncing_never_touches_what_is_on_disk(st: IndexState, id: i64, vs: Seq<PublishedVolume>, now: i64)
    ensures
        keeps_disk(st.chapters, synced(st, id, vs, now).chapters),
{
    lemma_merging(st, id, vs);
}

/// Syncing a layout a second time adds nothing: after the first sync every
/// chapter it lists is known, so none is counted as added.
pub proof fn syncing_twice_adds_nothing(st: IndexState, id: i64, vs: Seq<PublishedVolume>, now: i64)
    ensures
        count_missing(listed_numbers(vs), numbers_of(of_series(synced(st, id, vs, now).chapters, id))) == 0,
{
    lemma_merging(st, id, vs);
    let after = synced(st, id, vs, now).chapters;
    let listed = listed_numbers(vs);
    let known = numbers_of(of_series(after, id));
    assert forall|k: int| 0 <= k < listed.len() implies known.contains(#[trigger] listed[k]) by {
        lemma_of_series_knows(after, id, listed[k]);
    }
    syncing_a_known_layout_adds_nothing(listed, known);
}


/// Whether entries run from the most recently opened to the least.
pub open spec fn newest_first(s: Seq<HistoryView>) -> bool {
    forall|i: int, j: int| 0 <= i < j < s.len() ==> (#[trigger] s[i]).opened_at >= (#[trigger] s[j]).opened_at
}

proof fn lemma_insert_newest(s: Seq<HistoryView>, x: HistoryView)
    requires
        newest_first(s),
    ensures
        newest_first(insert_by(s, x, order_of::<HistoryEntry>())),
    decreases s.len(),
{
    let less = order_of::<HistoryEntry>();
    let r = insert_by(s, x, less);
    if s.len() == 0 {
    } else if less(x, s[0]) {
        assert(r == seq![x] + s);
        assert forall|i: int, j: int| 0 <= i < j < r.len() implies (#[trigger] r[i]).opened_at >= (#[trigger] r[j]).opened_at by {
            if i == 0 {
                assert(r[j] == s[j - 1]);
                if j > 1 {
                    assert(s[0].opened_at >= s[j - 1].opened_at);
                }
            } else {
                assert(r[i] == s[i - 1] && r[j] == s[j - 1]);
            }
        }
    } else {
        let t = s.skip(1);
        assert forall|i: int, j: int| 0 <= i < j < t.len() implies (#[trigger] t[i]).opened_at >= (#[trigger] t[j]).opened_at by {
            assert(t[i] == s[i + 1] && t[j] == s[j + 1]);
        }
        lemma_insert_newest(t, x);
        let rest = insert_by(t, x, less);
        let k = lemma_insert_by_position(t, x, less);
        assert(r == seq![s[0]] + rest);
        assert forall|i: int, j: int| 0 <= i < j < r.len() implies (#[trigger] r[i]).opened_at >= (#[trigger] r[j]).opened_at by {
            if i == 0 {
                assert(r[j] == rest[j - 1]);
                assert(rest == t.insert(k, x));
                if j - 1 == k {
                    assert(rest[j - 1] == x);
                } else if j - 1 < k {
                    assert(rest[j - 1] == t[j - 1]);
                    assert(t[j - 1] == s[j]);
                } else {
                    assert(rest[j - 1] == t[j - 2]);
                    assert(t[j - 2] == s[j - 1]);
                }
            } else {
                assert(r[i] == rest[i - 1] && r[j] == rest[j - 1]);
            }
        }
    }
}

proof fn lemma_sorted_newest(s: Seq<HistoryView>)
    ensures
        newest_first(sorted_by(s, order_of::<HistoryEntry>())),
    decreases s.len(),
{
    if s.len() > 0 {
        lemma_sorted_newest(s.drop_last());
        lemma_insert_newest(sorted_by(s.drop_last(), order_of::<HistoryEntry>()), s.last());
    }
}

/// History runs from the most recently opened chapter to the least, and
/// is never longer than asked for.
pub proof fn history_is_newest_first(st: IndexState, only: Option<i64>, limit: nat)
    ensures
        newest_first(history_list(st, only, limit)),
        history_list(st, only, limit).len() <= limit,
{
    let all = sorted_by(history_of(st, st.chapters, only), order_of::<HistoryEntry>());
    lemma_sorted_newest(history_of(st, st.chapters, only));
    if all.len() > limit {
        let t = all.take(limit as int);
        assert forall|i: int, j: int| 0 <= i < j < t.len() implies (#[trigger] t[i]).opened_at >= (#[trigger] t[j]).opened_at by {
            assert(t[i] == all[i] && t[j] == all[j]);
        }
    }
}

} // verus!
