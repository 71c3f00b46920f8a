//! Deciding whether an image is a page, a spread, or site furniture, from its
//! dimensions alone.
//!
//! The thresholds are fractions of the norm: a page shorter than 55% or taller
//! than 180% of the normal height is furniture; at 155% of the normal width or
//! more it is a spread; otherwise its width must lie within 55%–140%. They are
//! compared exactly, as rationals, so no rounding decides a borderline image.
use vstd::prelude::*;

use crate::page::{ExcludeReason, PageKind};

verus! {

/// Below this many readable images a modal size cannot be trusted.
pub const MIN_SAMPLE: usize = 3;

/// What the sieve decided about one image.
#[derive(Debug, Clone, Copy, PartialEq, Eq, Structural)]
pub enum Verdict {
    Single,
    Spread,
    /// Dimensions are wildly off the norm: a banner, a logo, a tracking pixel.
    OffSize,
}

impl Verdict {
    /// The page kind this verdict implies.
    pub fn kind(self) -> (r: PageKind)
        ensures
            r == (if self == Verdict::Spread { PageKind::Spread } else { PageKind::Single }),
    {
        match self {
            Verdict::Spread => PageKind::Spread,
            _ => PageKind::Single,
        }
    }

    /// The exclusion this verdict implies, given the image's own dimensions.
    pub fn exclusion(self, width: u32, height: u32) -> (r: Option<ExcludeReason>)
        ensures
            r == (if self == Verdict::OffSize {
                Some(ExcludeReason::OffSize { width, height })
            } else {
                None
            }),
    {
        match self {
            Verdict::OffSize => Some(ExcludeReason::OffSize { width, height }),
            _ => None,
        }
    }
}

/// The normal page size of a set of images, against which each is measured.
#[derive(Debug, Clone, Copy, PartialEq, Eq, Structural)]
pub struct Norm {
    pub width: u32,
    pub height: u32,
}

/// A size that is an actual measurement rather than an unreadable file.
pub open spec fn measured(p: (u32, u32)) -> bool {
    p.0 != 0 && p.1 != 0
}

/// How many measured sizes a list holds.
pub open spec fn sample_size(s: Seq<(u32, u32)>) -> nat
    decreases s.len(),
{
    if s.len() == 0 {
        0
    } else {
        sample_size(s.drop_last()) + if measured(s.last()) { 1nat } else { 0nat }
    }
}

/// How often `x` occurs in `s`.
pub open spec fn occurrences(s: Seq<(u32, u32)>, x: (u32, u32)) -> nat
    decreases s.len(),
{
    if s.len() == 0 {
        0
    } else {
        occurrences(s.drop_last(), x) + if s.last() == x { 1nat } else { 0nat }
    }
}

/// `p` is at least as good a norm as `q`: more common, or as common and larger
/// (ties break on the larger size, the safer one to measure against).
pub open spec fn at_least_as_modal(s: Seq<(u32, u32)>, p: (u32, u32), q: (u32, u32)) -> bool {
    occurrences(s, p) > occurrences(s, q) || (occurrences(s, p) == occurrences(s, q) && (p.0 > q.0
        || (p.0 == q.0 && p.1 >= q.1)))
}

/// `n` is the modal measured size of `s`.
pub open spec fn is_modal(s: Seq<(u32, u32)>, n: (u32, u32)) -> bool {
    &&& measured(n)
    &&& occurrences(s, n) > 0
    &&& forall|k: int| 0 <= k < s.len() && measured(s[k]) ==> at_least_as_modal(s, n, s[k])
}

/// The sieve's verdict on a `width`×`height` image against a norm, with the
/// fractions compared exactly. A zero norm dimension behaves as the division
/// by zero would: an infinite ratio for a non-zero image, no ratio at all for a
/// zero one.
pub open spec fn verdict_of(n: Norm, width: u32, height: u32) -> Verdict {
    let (w, h, nw, nh) = (width as int, height as int, n.width as int, n.height as int);
    if nh == 0 || !(55 * nh <= 100 * h && 100 * h <= 180 * nh) {
        Verdict::OffSize
    } else if nw == 0 {
        if w > 0 { Verdict::Spread } else { Verdict::OffSize }
    } else if 100 * w >= 155 * nw {
        Verdict::Spread
    } else if !(55 * nw <= 100 * w && 100 * w <= 140 * nw) {
        Verdict::OffSize
    } else {
        Verdict::Single
    }
}

/// The norm of a set of sizes: its modal measured size, when enough were
/// measured to trust one.
pub open spec fn norm_of(s: Seq<(u32, u32)>) -> Option<Norm> {
    if sample_size(s) < MIN_SAMPLE {
        None
    } else {
        let p = choose|p: (u32, u32)| is_modal(s, p);
        Some(Norm { width: p.0, height: p.1 })
    }
}

proof fn lemma_occurs_somewhere(s: Seq<(u32, u32)>, x: (u32, u32))
    requires
        occurrences(s, x) > 0,
    ensures
        exists|k: int| 0 <= k < s.len() && s[k] == x,
    decreases s.len(),
{
    if s.last() != x {
        lemma_occurs_somewhere(s.drop_last(), x);
        let k = choose|k: int| 0 <= k < s.drop_last().len() && s.drop_last()[k] == x;
        assert(s[k] == x);
    } else {
        assert(s[s.len() - 1] == x);
    }
}

/// There is only ever one modal size.
pub proof fn lemma_modal_unique(s: Seq<(u32, u32)>, p: (u32, u32), q: (u32, u32))
    requires
        is_modal(s, p),
        is_modal(s, q),
    ensures
        p == q,
{
    lemma_occurs_somewhere(s, p);
    lemma_occurs_somewhere(s, q);
    let i = choose|k: int| 0 <= k < s.len() && s[k] == p;
    let j = choose|k: int| 0 <= k < s.len() && s[k] == q;
    assert(at_least_as_modal(s, p, s[j]));
    assert(at_least_as_modal(s, q, s[i]));
}

proof fn lemma_occurrences_positive(s: Seq<(u32, u32)>, k: int)
    requires
        0 <= k < s.len(),
    ensures
        occurrences(s, s[k]) > 0,
    decreases s.len(),
{
    if k < s.len() - 1 {
        lemma_occurrences_positive(s.drop_last(), k);
        assert(s.drop_last()[k] == s[k]);
    }
}

/// How often `x` occurs in `s`.
fn count_of(s: &[(u32, u32)], x: (u32, u32)) -> (r: usize)
    ensures
        r == occurrences(s@, x),
{
    let mut i: usize = 0;
    let mut c: usize = 0;
    while i < s.len()
        invariant
            i <= s@.len(),
            c == occurrences(s@.take(i as int), x),
            c <= i,
        decreases s@.len() - i,
    {
        proof {
            assert(s@.take(i + 1).drop_last() =~= s@.take(i as int));
        }
        if s[i].0 == x.0 && s[i].1 == x.1 {
            c = c + 1;
        }
        i = i + 1;
    }
    assert(s@.take(s@.len() as int) =~= s@);
    c
}

impl Norm {
    /// The most common measured size among the given images, or `None` when
    /// fewer than three images were measured. Sizes with a zero dimension are
    /// unreadable files, not measurements, and are ignored.
    pub fn from_sizes(sizes: &[(u32, u32)]) -> (r: Option<Norm>)
        ensures
            match r {
                Some(n) => sample_size(sizes@) >= MIN_SAMPLE && is_modal(sizes@, (n.width, n.height)),
                None => sample_size(sizes@) < MIN_SAMPLE,
            },
            r == norm_of(sizes@),
    {
        let mut i: usize = 0;
        let mut sample: usize = 0;
        let mut best: (u32, u32) = (0, 0);
        let mut best_count: usize = 0;
        while i < sizes.len()
            invariant
                i <= sizes@.len(),
                sample == sample_size(sizes@.take(i as int)),
                sample <= i,
                sample == 0 ==> forall|k: int| 0 <= k < i ==> !measured(#[trigger] sizes@[k]),
                sample > 0 ==> measured(best) && best_count == occurrences(sizes@, best)
                    && occurrences(sizes@, best) > 0,
                forall|k: int|
                    0 <= k < i && measured(sizes@[k]) ==> at_least_as_modal(sizes@, best, sizes@[k]),
            decreases sizes@.len() - i,
        {
            proof {
                assert(sizes@.take(i + 1).drop_last() =~= sizes@.take(i as int));
            }
            let p = sizes[i];
            if p.0 != 0 && p.1 != 0 {
                let c = count_of(sizes, p);
                proof {
                    lemma_occurrences_positive(sizes@, i as int);
                }
                if sample == 0 || c > best_count || (c == best_count && (p.0 > best.0 || (p.0
                    == best.0 && p.1 >= best.1))) {
                    best = p;
                    best_count = c;
                }
                sample = sample + 1;
            }
            i = i + 1;
        }
        assert(sizes@.take(sizes@.len() as int) =~= sizes@);
        if sample < MIN_SAMPLE {
            None
        } else {
            proof {
                let q = choose|p: (u32, u32)| is_modal(sizes@, p);
                assert(is_modal(sizes@, best));
                lemma_modal_unique(sizes@, best, q);
            }
            Some(Norm { width: best.0, height: best.1 })
        }
    }

    /// Judge one image against this norm.
    pub fn verdict(self, width: u32, height: u32) -> (r: Verdict)
        ensures
            r == verdict_of(self, width, height),
    {
        let (w, h) = (width as u64, height as u64);
        let (nw, nh) = (self.width as u64, self.height as u64);
        if nh == 0 || !(55 * nh <= 100 * h && 100 * h <= 180 * nh) {
            return Verdict::OffSize;
        }
        if nw == 0 {
            return if w > 0 { Verdict::Spread } else { Verdict::OffSize };
        }
        if 100 * w >= 155 * nw {
            return Verdict::Spread;
        }
        if !(55 * nw <= 100 * w && 100 * w <= 140 * nw) {
            return Verdict::OffSize;
        }
        Verdict::Single
    }
}

/// What `judge` makes of the image at `k`.
pub open spec fn judged(sizes: Seq<(u32, u32)>, norm: Option<Norm>, k: int) -> Verdict {
    match norm {
        Some(n) => if measured(sizes[k]) {
            verdict_of(n, sizes[k].0, sizes[k].1)
        } else {
            Verdict::Single
        },
        None => Verdict::Single,
    }
}

/// Judge a whole set of images at once, deriving the norm from the set itself.
///
/// Without a norm every image comes back `Single`: a short chapter of unusual
/// pages is far more likely than three banners. An unreadable image has
/// nothing to measure and is left `Single` for the caller's own handling.
pub fn judge(sizes: &[(u32, u32)]) -> (r: Vec<Verdict>)
    ensures
        r@.len() == sizes@.len(),
        sample_size(sizes@) < MIN_SAMPLE ==> forall|k: int|
            0 <= k < r@.len() ==> r@[k] == Verdict::Single,
        forall|k: int| 0 <= k < r@.len() ==> r@[k] == #[trigger] judged(sizes@, norm_of(sizes@), k),
{
    let norm = Norm::from_sizes(sizes);
    let mut r: Vec<Verdict> = Vec::new();
    let mut i: usize = 0;
    while i < sizes.len()
        invariant
            i <= sizes@.len(),
            r@.len() == i,
            forall|k: int| 0 <= k < i ==> r@[k] == #[trigger] judged(sizes@, norm, k),
        decreases sizes@.len() - i,
    {
        let (w, h) = sizes[i];
        let v = match norm {
            Some(n) => if w == 0 || h == 0 {
                Verdict::Single
            } else {
                n.verdict(w, h)
            },
            None => Verdict::Single,
        };
        r.push(v);
        i = i + 1;
    }
    proof {
        if sample_size(sizes@) < MIN_SAMPLE {
            assert forall|k: int| 0 <= k < r@.len() implies r@[k] == Verdict::Single by {
                assert(r@[k] == judged(sizes@, norm_of(sizes@), k));
            }
        }
    }
    r
}

} // verus!
