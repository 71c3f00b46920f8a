//! Stable sorting by a strict order on plain values.
use vstd::prelude::*;

verus! {

/// Insert `x` after every element that does not sort after it.
pub open spec fn insert_by<T>(s: Seq<T>, x: T, less: spec_fn(T, T) -> bool) -> Seq<T>
    decreases s.len(),
{
    if s.len() == 0 {
        seq![x]
    } else if less(x, s[0]) {
        seq![x] + s
    } else {
        seq![s[0]] + insert_by(s.skip(1), x, less)
    }
}

/// A stable sort: each element in turn inserted after every element already
/// placed that does not sort after it.
pub open spec fn sorted_by<T>(s: Seq<T>, less: spec_fn(T, T) -> bool) -> Seq<T>
    decreases s.len(),
{
    if s.len() == 0 {
        Seq::empty()
    } else {
        insert_by(sorted_by(s.drop_last(), less), s.last(), less)
    }
}

/// Inserting at the first place where the element sorts before its
/// neighbour.
pub proof fn lemma_insert_by<T>(s: Seq<T>, x: T, less: spec_fn(T, T) -> bool, k: int)
    requires
        0 <= k <= s.len(),
        forall|j: int| 0 <= j < k ==> !less(x, #[trigger] s[j]),
        k < s.len() ==> less(x, s[k]),
    ensures
        insert_by(s, x, less) == s.insert(k, x),
    decreases s.len(),
{
    if s.len() == 0 {
        assert(s.insert(k, x) =~= seq![x]);
    } else if k == 0 {
        assert(s.insert(0, x) =~= seq![x] + s);
    } else {
        let t = s.skip(1);
        assert forall|j: int| 0 <= j < k - 1 implies !less(x, #[trigger] t[j]) by {
            assert(t[j] == s[j + 1]);
        }
        if k < s.len() {
            assert(t[k - 1] == s[k]);
        }
        lemma_insert_by(t, x, less, k - 1);
        assert(seq![s[0]] + t.insert(k - 1, x) =~= s.insert(k, x));
    }
}

/// Where `insert_by` places the new element: the result is always the old
/// sequence with the element inserted at some place.
pub proof fn lemma_insert_by_position<T>(s: Seq<T>, x: T, less: spec_fn(T, T) -> bool) -> (k: int)
    ensures
        0 <= k <= s.len(),
        insert_by(s, x, less) == s.insert(k, x),
    decreases s.len(),
{
    if s.len() == 0 {
        assert(s.insert(0, x) =~= seq![x]);
        0
    } else if less(x, s[0]) {
        assert(s.insert(0, x) =~= seq![x] + s);
        0
    } else {
        let k = lemma_insert_by_position(s.skip(1), x, less);
        assert(seq![s[0]] + s.skip(1).insert(k, x) =~= s.insert(k + 1, x));
        k + 1
    }
}

/// Sorting loses nothing and invents nothing: whatever the order, the sorted
/// sequence holds exactly the elements it was given, each as often.
pub proof fn sorting_keeps_every_element<T>(s: Seq<T>, less: spec_fn(T, T) -> bool)
    ensures
        sorted_by(s, less).to_multiset() == s.to_multiset(),
        sorted_by(s, less).len() == s.len(),
    decreases s.len(),
{
    broadcast use vstd::seq_lib::group_to_multiset_ensures;

    if s.len() > 0 {
        let rest = s.drop_last();
        sorting_keeps_every_element(rest, less);
        let k = lemma_insert_by_position(sorted_by(rest, less), s.last(), less);
        assert(s =~= rest.push(s.last()));
        assert(sorted_by(s, less) == sorted_by(rest, less).insert(k, s.last()));
    }
}

/// Values that are put in order by a strict order on their views.
pub trait Ordered: View + Sized {
    /// Whether a value with view `a` sorts strictly before one with view `b`.
    spec fn less(a: Self::V, b: Self::V) -> bool;

    /// Whether `self` sorts strictly before `other`.
    fn before(&self, other: &Self) -> (r: bool)
        ensures
            r == Self::less(self@, other@),
    ;
}

/// The order of a type, as a function.
pub open spec fn order_of<T: Ordered>() -> spec_fn(T::V, T::V) -> bool {
    |a: T::V, b: T::V| T::less(a, b)
}

/// Values as plain values.
pub open spec fn views_of<T: View>(s: Seq<T>) -> Seq<T::V> {
    s.map_values(|t: T| t@)
}

/// A stable sort: the order of `sorted_by`, equal elements kept in the order
/// they came.
pub fn stable_sort<T: Ordered>(v: Vec<T>) -> (r: Vec<T>)
    ensures
        views_of(r@) == sorted_by(views_of(v@), order_of::<T>()),
{
    let ghost all = views_of(v@);
    let mut rest = v;
    let mut out: Vec<T> = Vec::new();
    let ghost i: int = 0;
    proof {
        assert(views_of(rest@) =~= all.skip(0));
        assert(all.take(0) =~= Seq::<T::V>::empty());
    }
    while rest.len() > 0
        invariant
            0 <= i <= all.len(),
            views_of(rest@) == all.skip(i),
            views_of(out@) == sorted_by(all.take(i), order_of::<T>()),
        decreases rest@.len(),
    {
        let ghost taken = rest@;
        proof {
            assert(views_of(taken).len() == taken.len());
            assert(all.skip(i).len() > 0);
        }
        let x = rest.remove(0);
        proof {
            assert forall|j: int| 0 <= j < rest@.len() implies #[trigger] views_of(rest@)[j] == all.skip(i + 1)[j] by {
                assert(rest@[j] == taken[j + 1]);
                assert(views_of(taken)[j + 1] == all.skip(i)[j + 1]);
            }
            assert(views_of(rest@) =~= all.skip(i + 1));
            assert(views_of(taken)[0] == all.skip(i)[0]);
            assert(all.skip(i)[0] == x@);
        }
        let mut k: usize = 0;
        let n = out.len();
        while k < n && !x.before(&out[k])
            invariant
                n == out@.len(),
                k <= n,
                forall|j: int| 0 <= j < k ==> !T::less(x@, #[trigger] views_of(out@)[j]),
            decreases n - k,
        {
            k = k + 1;
        }
        proof {
            let s = views_of(out@);
            assert forall|j: int| 0 <= j < k implies !(order_of::<T>())(x@, #[trigger] s[j]) by {}
            if k < n {
                assert((order_of::<T>())(x@, s[k as int]));
            }
            lemma_insert_by(s, x@, order_of::<T>(), k as int);
            assert(all.take(i + 1).drop_last() =~= all.take(i));
            assert(all.take(i + 1).last() == x@);
        }
        let ghost placed = out@;
        out.insert(k, x);
        proof {
            assert(views_of(out@) =~= views_of(placed).insert(k as int, x@));
            i = i + 1;
        }
    }
    proof {
        assert(all.take(i) =~= all);
    }
    out
}

} // verus!
