//! Merging a published layout into what the library holds.
//!
//! The store itself is the application's; what is decided here is what a merge
//! reports: how many volumes were listed, which chapters are newly known, and
//! which chapters on disk the layout no longer mentions. Those are counted and
//! never deleted.
use vstd::prelude::*;

use crate::library::model::{PublishedChapter, PublishedVolume, SyncReport};
use crate::text::texts;

verus! {

/// The chapter numbers a published layout lists, volume by volume.
pub open spec fn listed_numbers(vs: Seq<PublishedVolume>) -> Seq<Seq<char>>
    decreases vs.len(),
{
    if vs.len() == 0 {
        Seq::empty()
    } else {
        listed_numbers(vs.drop_last()) + vs.last().chapters@.map_values(
            |c: PublishedChapter| c.number@,
        )
    }
}

/// How many entries of `xs` do not occur in `from`.
pub open spec fn count_missing(xs: Seq<Seq<char>>, from: Seq<Seq<char>>) -> nat
    decreases xs.len(),
{
    if xs.len() == 0 {
        0
    } else {
        count_missing(xs.drop_last(), from) + if from.contains(xs.last()) {
            0nat
        } else {
            1nat
        }
    }
}

proof fn lemma_count_missing_bound(xs: Seq<Seq<char>>, from: Seq<Seq<char>>)
    ensures
        count_missing(xs, from) <= xs.len(),
    decreases xs.len(),
{
    if xs.len() > 0 {
        lemma_count_missing_bound(xs.drop_last(), from);
    }
}

fn contains_text(v: &Vec<String>, s: &String) -> (r: bool)
    ensures
        r == texts(v@).contains(s@),
{
    let mut k: usize = 0;
    while k < v.len()
        invariant
            k <= v@.len(),
            forall|j: int| 0 <= j < k ==> texts(v@)[j] != s@,
        decreases v@.len() - k,
    {
        if v[k] == *s {
            assert(texts(v@)[k as int] == s@);
            return true;
        }
        k = k + 1;
    }
    false
}

impl SyncReport {
    /// What merging `published` reports, given the chapter numbers the
    /// library knew before (`known`) and those it holds on disk (`held`).
    /// A chapter is added when it was not known; a held chapter is orphaned
    /// when no published volume lists it.
    pub fn tally(known: &Vec<String>, held: &Vec<String>, published: &Vec<PublishedVolume>) -> (r:
        SyncReport)
        requires
            listed_numbers(published@).len() <= usize::MAX,
        ensures
            r.volumes == published@.len(),
            r.chapters_added == count_missing(listed_numbers(published@), texts(known@)),
            r.orphaned == count_missing(texts(held@), listed_numbers(published@)),
    {
        let mut listed: Vec<String> = Vec::new();
        let mut added: usize = 0;
        let mut v: usize = 0;
        assert(published@.take(0) =~= Seq::<PublishedVolume>::empty());
        while v < published.len()
            invariant
                v <= published@.len(),
                listed_numbers(published@).len() <= usize::MAX,
                texts(listed@) == listed_numbers(published@.take(v as int)),
                added as nat == count_missing(texts(listed@), texts(known@)),
            decreases published@.len() - v,
        {
            let chapters = &published[v].chapters;
            let mut c: usize = 0;
            let ghost before = texts(listed@);
            let ghost numbers = chapters@.map_values(|ch: PublishedChapter| ch.number@);
            proof {
                assert(published@.take(v + 1).drop_last() =~= published@.take(v as int));
                lemma_listed_prefix(published@, v + 1);
            }
            assert(numbers.take(0) =~= Seq::<Seq<char>>::empty());
            assert(before + numbers.take(0) =~= before);
            while c < chapters.len()
                invariant
                    c <= chapters@.len(),
                    numbers == chapters@.map_values(|ch: PublishedChapter| ch.number@),
                    texts(listed@) == before + numbers.take(c as int),
                    before.len() + numbers.len() <= listed_numbers(published@).len(),
                    listed_numbers(published@).len() <= usize::MAX,
                    added as nat == count_missing(texts(listed@), texts(known@)),
                decreases chapters@.len() - c,
            {
                let number = chapters[c].number.clone();
                let fresh = !contains_text(known, &number);
                proof {
                    lemma_count_missing_bound(texts(listed@), texts(known@));
                    assert(texts(listed@).len() < listed_numbers(published@).len());
                }
                if fresh {
                    added = added + 1;
                }
                listed.push(number);
                proof {
                    assert(numbers[c as int] == chapters@[c as int].number@);
                    assert(texts(listed@).drop_last() =~= before + numbers.take(c as int));
                    assert(texts(listed@).last() == numbers[c as int]);
                    assert(numbers.take(c + 1) =~= numbers.take(c as int).push(numbers[c as int]));
                    assert(texts(listed@) =~= texts(listed@).drop_last().push(texts(listed@).last()));
                    assert(texts(listed@) =~= before + numbers.take(c + 1));
                }
                c = c + 1;
            }
            assert(numbers.take(c as int) =~= numbers);
            v = v + 1;
        }
        assert(published@.take(v as int) =~= published@);
        let mut orphaned: usize = 0;
        let mut h: usize = 0;
        assert(texts(held@).take(0) =~= Seq::<Seq<char>>::empty());
        while h < held.len()
            invariant
                h <= held@.len(),
                texts(listed@) == listed_numbers(published@),
                orphaned as nat == count_missing(texts(held@).take(h as int), texts(listed@)),
                orphaned <= h,
            decreases held@.len() - h,
        {
            assert(texts(held@).take(h + 1).drop_last() =~= texts(held@).take(h as int));
            if !contains_text(&listed, &held[h]) {
                orphaned = orphaned + 1;
            }
            h = h + 1;
        }
        assert(texts(held@).take(h as int) =~= texts(held@));
        SyncReport { volumes: published.len(), chapters_added: added, orphaned }
    }
}

/// Syncing a layout the library already knows adds nothing: when every
/// chapter the layout lists is among the known ones, no chapter is counted
/// as added, so syncing twice adds nothing the second time.
pub proof fn syncing_a_known_layout_adds_nothing(listed: Seq<Seq<char>>, known: Seq<Seq<char>>)
    requires
        forall|k: int| 0 <= k < listed.len() ==> known.contains(#[trigger] listed[k]),
    ensures
        count_missing(listed, known) == 0,
    decreases listed.len(),
{
    if listed.len() > 0 {
        let rest = listed.drop_last();
        assert forall|k: int| 0 <= k < rest.len() implies known.contains(#[trigger] rest[k]) by {
            assert(rest[k] == listed[k]);
        }
        syncing_a_known_layout_adds_nothing(rest, known);
        assert(known.contains(listed[listed.len() - 1]));
    }
}

/// A chapter on disk is counted as orphaned only when the layout does not
/// list it: a held chapter the layout lists is never orphaned.
pub proof fn listed_chapters_are_never_orphaned(held: Seq<Seq<char>>, listed: Seq<Seq<char>>)
    requires
        forall|k: int| 0 <= k < held.len() ==> listed.contains(#[trigger] held[k]),
    ensures
        count_missing(held, listed) == 0,
{
    syncing_a_known_layout_adds_nothing(held, listed);
}

/// The first `n` volumes list no more chapters than all of them.
proof fn lemma_listed_prefix(vs: Seq<PublishedVolume>, n: int)
    requires
        0 <= n <= vs.len(),
    ensures
        listed_numbers(vs.take(n)).len() <= listed_numbers(vs).len(),
    decreases vs.len(),
{
    if n < vs.len() {
        assert(vs.drop_last().take(n) =~= vs.take(n));
        lemma_listed_prefix(vs.drop_last(), n);
    } else {
        assert(vs.take(n) =~= vs);
    }
}

} // verus!
