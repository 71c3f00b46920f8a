//! Pulling a chapter's images off a page the user pasted.
//!
//! The page's markup is read for image addresses (`extract`), each candidate
//! is measured (`download`) and judged by the same size sieve the folder
//! scanner uses, and the ones that look like pages start ticked. For a whole
//! run of chapters, the page is read for chapter links (`series`) and the
//! gaps are filled with addresses built from the page's own URL pattern.
use vstd::prelude::*;

pub mod data_uri;
pub mod download;
pub mod extract;
pub mod series;
pub mod url;

use crate::meta::mangadex::label_less;
use crate::order::{order_of, sorted_by, stable_sort, views_of, Ordered};
use crate::sieve::{judge, judged, norm_of, Verdict};
use crate::text::chars_of;
use download::Probe;
use series::{
    links_view, normalise, normalised, rendered, split, split_spec, ChapterLink, UrlTemplate,
};

verus! {

/// One image the picker can offer.
#[derive(Debug, Clone, PartialEq, Eq)]
pub struct Candidate {
    pub url: String,
    pub width: u32,
    pub height: u32,
    /// Full size when the server reported one, else 0.
    pub bytes: u64,
    /// What the size sieve made of it.
    pub verdict: Verdict,
    /// Whether the picker starts with this one ticked.
    pub selected: bool,
    /// Why it could not be measured, when it could not.
    pub error: Option<String>,
}

/// One image a rendered page had loaded, captured by the user.
#[derive(Debug, Clone, PartialEq, Eq)]
pub struct Harvested {
    pub url: String,
    pub width: u32,
    pub height: u32,
}

/// Everything found on one chapter page.
#[derive(Debug, Clone, PartialEq, Eq)]
pub struct Extraction {
    /// The page the candidates came from; also the referer for fetching them.
    pub page_url: String,
    pub candidates: Vec<Candidate>,
}

/// The measured sizes of probes.
pub open spec fn probe_sizes(probes: Seq<Probe>) -> Seq<(u32, u32)> {
    probes.map_values(|p: Probe| (p.width, p.height))
}

/// Whether the candidate built from probe `k` is what `measure` makes of it:
/// the address, the probe's measurements, the sieve's verdict against the
/// norm of every probe, and ticked when it was measured and is not off-size —
/// an unmeasured one is more likely a dead link than a page.
pub open spec fn measured_as(c: Candidate, url: Seq<char>, probes: Seq<Probe>, k: int) -> bool {
    let p = probes[k];
    let v = judged(probe_sizes(probes), norm_of(probe_sizes(probes)), k);
    &&& c.url@ == url
    &&& c.width == p.width
    &&& c.height == p.height
    &&& c.bytes == p.bytes
    &&& c.verdict == v
    &&& c.selected == (p.error is None && v != Verdict::OffSize)
    &&& c.error == p.error
}

/// The candidates for a list of image addresses and their probes, one for
/// each address that has a probe, in order.
pub fn measure(urls: &[String], probes: Vec<Probe>) -> (r: Vec<Candidate>)
    ensures
        r@.len() == if urls@.len() <= probes@.len() {
            urls@.len()
        } else {
            probes@.len()
        },
        forall|k: int| 0 <= k < r@.len() ==> measured_as(#[trigger] r@[k], urls@[k]@, probes@, k),
{
    let mut sizes: Vec<(u32, u32)> = Vec::new();
    let mut i: usize = 0;
    while i < probes.len()
        invariant
            i <= probes@.len(),
            sizes@ == probe_sizes(probes@).take(i as int),
        decreases probes@.len() - i,
    {
        sizes.push((probes[i].width, probes[i].height));
        proof {
            assert(sizes@ =~= probe_sizes(probes@).take(i + 1));
        }
        i = i + 1;
    }
    assert(sizes@ =~= probe_sizes(probes@));
    let verdicts = judge(sizes.as_slice());
    let n = if urls.len() <= probes.len() {
        urls.len()
    } else {
        probes.len()
    };
    let mut out: Vec<Candidate> = Vec::new();
    let mut k: usize = 0;
    while k < n
        invariant
            k <= n,
            n <= urls@.len(),
            n <= probes@.len(),
            verdicts@.len() == probes@.len(),
            sizes@ == probe_sizes(probes@),
            forall|j: int|
                0 <= j < verdicts@.len() ==> verdicts@[j] == #[trigger] judged(
                    sizes@,
                    norm_of(sizes@),
                    j,
                ),
            out@.len() == k,
            forall|j: int| 0 <= j < k ==> measured_as(#[trigger] out@[j], urls@[j]@, probes@, j),
        decreases n - k,
    {
        let p = &probes[k];
        let v = verdicts[k];
        let selected = p.error.is_none() && v != Verdict::OffSize;
        let error = match &p.error {
            Some(e) => Some(e.clone()),
            None => None,
        };
        let c = Candidate {
            url: urls[k].clone(),
            width: p.width,
            height: p.height,
            bytes: p.bytes,
            verdict: v,
            selected,
            error,
        };
        proof {
            assert(verdicts@[k as int] == judged(sizes@, norm_of(sizes@), k as int));
        }
        out.push(c);
        k = k + 1;
    }
    out
}

/// The candidates on one chapter page: `urls` are the images its markup
/// names and `probes` what measuring them found. An empty list is no error:
/// it is the sign that the page builds itself in JavaScript.
pub fn extract_page(page_url: &str, urls: &[String], probes: Vec<Probe>) -> (r: Extraction)
    ensures
        r.page_url@ == page_url@,
        r.candidates@.len() == if urls@.len() <= probes@.len() {
            urls@.len()
        } else {
            probes@.len()
        },
        forall|k: int|
            0 <= k < r.candidates@.len() ==> measured_as(
                #[trigger] r.candidates@[k],
                urls@[k]@,
                probes@,
                k,
            ),
{
    Extraction { page_url: String::from_str(page_url), candidates: measure(urls, probes) }
}

/// The addresses of the candidates that start ticked, in order.
pub open spec fn selected_urls(cs: Seq<Candidate>) -> Seq<Seq<char>> {
    cs.filter(|c: Candidate| c.selected).map_values(|c: Candidate| c.url@)
}

/// The pages one chapter offers, already sieved down to what looks like a
/// page: the batch path has no picker, so the sieve does the user's job.
pub fn chapter_pages(found: &Extraction) -> (r: Vec<String>)
    ensures
        r@.map_values(|u: String| u@) == selected_urls(found.candidates@),
{
    let cs = &found.candidates;
    let mut out: Vec<String> = Vec::new();
    let mut i: usize = 0;
    while i < cs.len()
        invariant
            i <= cs@.len(),
            out@.map_values(|u: String| u@) == selected_urls(cs@.take(i as int)),
        decreases cs@.len() - i,
    {
        let ghost before = out@;
        proof {
            reveal(Seq::filter);
            assert(cs@.take(i + 1).drop_last() =~= cs@.take(i as int));
            assert(cs@.take(i + 1).last() == cs@[i as int]);
        }
        if cs[i].selected {
            out.push(cs[i].url.clone());
            proof {
                assert(out@.map_values(|u: String| u@) =~= before.map_values(|u: String| u@).push(
                    cs@[i as int].url@,
                ));
                assert(selected_urls(cs@.take(i + 1)) =~= selected_urls(cs@.take(i as int)).push(
                    cs@[i as int].url@,
                ));
            }
        } else {
            proof {
                assert(selected_urls(cs@.take(i + 1)) =~= selected_urls(cs@.take(i as int)));
            }
        }
        i = i + 1;
    }
    assert(cs@.take(cs@.len() as int) =~= cs@);
    out
}

/// Where a chapter URL came from.
#[derive(Debug, Clone, Copy, PartialEq, Eq, Structural)]
pub enum Found {
    /// The page linked it, so it certainly exists.
    Linked,
    /// Constructed from the URL pattern and then confirmed to load.
    Guessed,
}

/// One chapter a batch would fetch.
#[derive(Debug, Clone, PartialEq, Eq)]
pub struct BatchItem {
    pub number: String,
    pub url: String,
    pub found: Found,
}

/// A batch item as plain values.
pub type ItemView = (Seq<char>, Seq<char>, Found);

impl View for BatchItem {
    type V = ItemView;

    open spec fn view(&self) -> ItemView {
        (self.number@, self.url@, self.found)
    }
}

impl Ordered for BatchItem {
    /// By chapter number; numbers that are not plain decimals sort last.
    open spec fn less(a: ItemView, b: ItemView) -> bool {
        label_less(Some(a.0), Some(b.0))
    }

    fn before(&self, other: &BatchItem) -> (r: bool) {
        crate::meta::mangadex::label_before_text(&self.number, &other.number)
    }
}

/// What a batch download would do, for the user to confirm.
#[derive(Debug, Clone, PartialEq, Eq)]
pub struct BatchPlan {
    /// The URL shape that was recognised, for display, e.g. `…/x-chapter-{n}/`.
    pub pattern: Option<String>,
    pub items: Vec<BatchItem>,
    /// Wanted chapters no URL could be found for.
    pub unresolved: Vec<String>,
}

/// A batch plan before its guessed addresses are confirmed: the chapters the
/// page links, the addresses built for the others, and those for which
/// neither exists.
#[derive(Debug, Clone, PartialEq, Eq)]
pub struct PlanDraft {
    pub template: Option<UrlTemplate>,
    pub items: Vec<BatchItem>,
    /// Wanted chapter and the address built for it, to be confirmed.
    pub guesses: Vec<(String, String)>,
    pub unresolved: Vec<String>,
}

/// The address of the last link to chapter `key`, as a lookup keyed by
/// chapter number keeps it.
pub open spec fn linked_url(links: Seq<(Seq<char>, Seq<char>)>, key: Seq<char>) -> Option<Seq<char>>
    decreases links.len(),
{
    if links.len() == 0 {
        None
    } else if links.last().0 == key {
        Some(links.last().1)
    } else {
        linked_url(links.drop_last(), key)
    }
}

/// The template a plan builds addresses with, as (prefix, suffix, decimal
/// separator): the pasted page's own, which describes the site better, else
/// the first link's.
pub open spec fn template_spec(page: Seq<char>, links: Seq<(Seq<char>, Seq<char>)>) -> Option<
    (Seq<char>, Seq<char>, char),
> {
    match split_spec(page) {
        Some((p, s, d, _)) => Some((p, s, d)),
        None => if links.len() > 0 {
            match split_spec(links[0].1) {
                Some((p, s, d, _)) => Some((p, s, d)),
                None => None,
            }
        } else {
            None
        },
    }
}

/// What the plan does with one wanted chapter: the linked address, else a
/// built one to confirm, else nothing.
pub enum Route {
    Linked(Seq<char>),
    Guess(Seq<char>),
    Unresolved,
}

/// How one wanted chapter is reached.
pub open spec fn route_of(
    template: Option<(Seq<char>, Seq<char>, char)>,
    links: Seq<(Seq<char>, Seq<char>)>,
    number: Seq<char>,
) -> Route {
    let key = normalised(number);
    match linked_url(links, key) {
        Some(u) => Route::Linked(u),
        None => match template {
            Some((p, s, d)) => Route::Guess(p + rendered(key, d) + s),
            None => Route::Unresolved,
        },
    }
}

/// The linked items of a plan, in the order wanted.
pub open spec fn linked_items(
    template: Option<(Seq<char>, Seq<char>, char)>,
    links: Seq<(Seq<char>, Seq<char>)>,
    wanted: Seq<Seq<char>>,
) -> Seq<ItemView>
    decreases wanted.len(),
{
    if wanted.len() == 0 {
        Seq::empty()
    } else {
        let rest = linked_items(template, links, wanted.drop_last());
        match route_of(template, links, wanted.last()) {
            Route::Linked(u) => rest.push((wanted.last(), u, Found::Linked)),
            _ => rest,
        }
    }
}

/// The guesses of a plan, in the order wanted.
pub open spec fn guessed(
    template: Option<(Seq<char>, Seq<char>, char)>,
    links: Seq<(Seq<char>, Seq<char>)>,
    wanted: Seq<Seq<char>>,
) -> Seq<(Seq<char>, Seq<char>)>
    decreases wanted.len(),
{
    if wanted.len() == 0 {
        Seq::empty()
    } else {
        let rest = guessed(template, links, wanted.drop_last());
        match route_of(template, links, wanted.last()) {
            Route::Guess(u) => rest.push((wanted.last(), u)),
            _ => rest,
        }
    }
}

/// The chapters a plan cannot reach, in the order wanted.
pub open spec fn unreachable(
    template: Option<(Seq<char>, Seq<char>, char)>,
    links: Seq<(Seq<char>, Seq<char>)>,
    wanted: Seq<Seq<char>>,
) -> Seq<Seq<char>>
    decreases wanted.len(),
{
    if wanted.len() == 0 {
        Seq::empty()
    } else {
        let rest = unreachable(template, links, wanted.drop_last());
        match route_of(template, links, wanted.last()) {
            Route::Unresolved => rest.push(wanted.last()),
            _ => rest,
        }
    }
}

/// Every wanted chapter takes exactly one route: linked, guessed, or
/// unresolved — none is dropped and none counted twice.
pub proof fn every_wanted_chapter_takes_one_route(
    template: Option<(Seq<char>, Seq<char>, char)>,
    links: Seq<(Seq<char>, Seq<char>)>,
    wanted: Seq<Seq<char>>,
)
    ensures
        linked_items(template, links, wanted).len() + guessed(template, links, wanted).len()
            + unreachable(template, links, wanted).len() == wanted.len(),
    decreases wanted.len(),
{
    if wanted.len() > 0 {
        every_wanted_chapter_takes_one_route(template, links, wanted.drop_last());
    }
}

/// Once every guess has been tried, each one is either confirmed or
/// refuted: the plan neither loses a guessed chapter nor keeps one that did
/// not load.
pub proof fn every_tried_guess_is_settled(guesses: Seq<(Seq<char>, Seq<char>)>, alive: Seq<bool>)
    requires
        alive.len() >= guesses.len(),
    ensures
        confirmed(guesses, alive).len() + refuted(guesses, alive).len() == guesses.len(),
        forall|k: int|
            0 <= k < confirmed(guesses, alive).len() ==> (#[trigger] confirmed(guesses, alive)[k]).2
                == Found::Guessed,
    decreases guesses.len(),
{
    if guesses.len() > 0 {
        every_tried_guess_is_settled(guesses.drop_last(), alive);
    }
}

/// A template as plain values.
pub open spec fn template_view(t: Option<UrlTemplate>) -> Option<(Seq<char>, Seq<char>, char)> {
    match t {
        Some(t) => Some((t.prefix@, t.suffix@, t.decimal)),
        None => None,
    }
}

/// Pairs of text as plain values.
pub open spec fn pair_views(v: Seq<(String, String)>) -> Seq<(Seq<char>, Seq<char>)> {
    v.map_values(|p: (String, String)| (p.0@, p.1@))
}

/// How to reach each wanted chapter from one page the user supplied, given
/// the chapter links read off that page.
///
/// A link the site published is evidence; an address built from the URL
/// pattern is only a guess, to be confirmed before it is shown. `wanted` is
/// normally the library's list of missing chapters, which is what keeps this
/// bounded: no blind crawling, only a check for chapters known to be absent.
pub fn plan_batch(page_url: &str, links: &Vec<ChapterLink>, wanted: &[String]) -> (r: PlanDraft)
    ensures
        template_view(r.template) == template_spec(page_url@, links_view(links@)),
        views_of(r.items@) == linked_items(
            template_view(r.template),
            links_view(links@),
            crate::text::texts(wanted@),
        ),
        pair_views(r.guesses@) == guessed(
            template_view(r.template),
            links_view(links@),
            crate::text::texts(wanted@),
        ),
        crate::text::texts(r.unresolved@) == unreachable(
            template_view(r.template),
            links_view(links@),
            crate::text::texts(wanted@),
        ),
{
    let template = match split(page_url) {
        Some((t, _)) => Some(t),
        None => if links.len() > 0 {
            match split(links[0].url.as_str()) {
                Some((t, _)) => Some(t),
                None => None,
            }
        } else {
            None
        },
    };
    let ghost tv = template_view(template);
    let ghost lv = links_view(links@);
    let ghost ws = crate::text::texts(wanted@);
    let mut items: Vec<BatchItem> = Vec::new();
    let mut guesses: Vec<(String, String)> = Vec::new();
    let mut unresolved: Vec<String> = Vec::new();
    let mut i: usize = 0;
    while i < wanted.len()
        invariant
            i <= wanted@.len(),
            tv == template_view(template),
            lv == links_view(links@),
            ws == crate::text::texts(wanted@),
            views_of(items@) == linked_items(tv, lv, ws.take(i as int)),
            pair_views(guesses@) == guessed(tv, lv, ws.take(i as int)),
            crate::text::texts(unresolved@) == unreachable(tv, lv, ws.take(i as int)),
        decreases wanted@.len() - i,
    {
        let number = &wanted[i];
        let key = normalise(number.as_str());
        proof {
            assert(ws.take(i + 1).drop_last() =~= ws.take(i as int));
            assert(ws.take(i + 1).last() == number@);
        }
        let ghost (bi, bg, bu) = (items@, guesses@, unresolved@);
        match find_link(links, &key) {
            Some(url) => {
                let item = BatchItem { number: number.clone(), url, found: Found::Linked };
                items.push(item);
                proof {
                    assert(views_of(items@) =~= views_of(bi).push(item@));
                }
            },
            None => match &template {
                Some(t) => {
                    let g = (number.clone(), t.apply(key.as_str()));
                    guesses.push(g);
                    proof {
                        assert(pair_views(guesses@) =~= pair_views(bg).push((g.0@, g.1@)));
                    }
                },
                None => {
                    unresolved.push(number.clone());
                    proof {
                        assert(crate::text::texts(unresolved@) =~= crate::text::texts(bu).push(
                            number@,
                        ));
                    }
                },
            },
        }
        i = i + 1;
    }
    assert(ws.take(wanted@.len() as int) =~= ws);
    PlanDraft { template, items, guesses, unresolved }
}

/// The address of the last link to chapter `key`.
fn find_link(links: &Vec<ChapterLink>, key: &String) -> (r: Option<String>)
    ensures
        match r {
            Some(u) => linked_url(links_view(links@), key@) == Some(u@),
            None => linked_url(links_view(links@), key@) is None,
        },
{
    let k = chars_of(key.as_str());
    let mut i = links.len();
    proof {
        assert(links_view(links@).take(i as int) =~= links_view(links@));
    }
    while i > 0
        invariant
            i <= links@.len(),
            k@ == key@,
            linked_url(links_view(links@), key@) == linked_url(
                links_view(links@).take(i as int),
                key@,
            ),
        decreases i,
    {
        proof {
            assert(links_view(links@).take(i as int).drop_last() =~= links_view(links@).take(
                i - 1,
            ));
        }
        if crate::text::eq_str(&k, links[i - 1].number.as_str()) {
            return Some(links[i - 1].url.clone());
        }
        i = i - 1;
    }
    None
}

/// The guesses confirmed to load, as items.
pub open spec fn confirmed(guesses: Seq<(Seq<char>, Seq<char>)>, alive: Seq<bool>) -> Seq<ItemView>
    decreases guesses.len(),
{
    if guesses.len() == 0 {
        Seq::empty()
    } else {
        let n = (guesses.len() - 1) as int;
        let rest = confirmed(guesses.drop_last(), alive);
        if n < alive.len() && alive[n] {
            rest.push((guesses[n].0, guesses[n].1, Found::Guessed))
        } else {
            rest
        }
    }
}

/// The guesses that did not load, as chapter numbers.
pub open spec fn refuted(guesses: Seq<(Seq<char>, Seq<char>)>, alive: Seq<bool>) -> Seq<Seq<char>>
    decreases guesses.len(),
{
    if guesses.len() == 0 {
        Seq::empty()
    } else {
        let n = (guesses.len() - 1) as int;
        let rest = refuted(guesses.drop_last(), alive);
        if n < alive.len() && !alive[n] {
            rest.push(guesses[n].0)
        } else {
            rest
        }
    }
}

/// A plan once its guesses were tried, `alive[k]` saying whether guess `k`
/// loaded: the confirmed ones join the linked items, the others join the
/// unresolved, and the items are put in chapter order.
pub fn finish_plan(draft: PlanDraft, alive: &Vec<bool>) -> (r: BatchPlan)
    ensures
        views_of(r.items@) == sorted_by(
            views_of(draft.items@) + confirmed(pair_views(draft.guesses@), alive@),
            order_of::<BatchItem>(),
        ),
        crate::text::texts(r.unresolved@) == crate::text::texts(draft.unresolved@) + refuted(
            pair_views(draft.guesses@),
            alive@,
        ),
        match draft.template {
            Some(t) => (r.pattern matches Some(p) && p@ == t.prefix@ + "{n}"@ + t.suffix@),
            None => r.pattern is None,
        },
{
    let PlanDraft { template, items, guesses, unresolved } = draft;
    let ghost gv = pair_views(guesses@);
    let ghost base_items = views_of(items@);
    let ghost base_unresolved = crate::text::texts(unresolved@);
    let mut items = items;
    let mut unresolved = unresolved;
    let mut j: usize = 0;
    while j < guesses.len()
        invariant
            j <= guesses@.len(),
            gv == pair_views(guesses@),
            views_of(items@) == base_items + confirmed(gv.take(j as int), alive@),
            crate::text::texts(unresolved@) == base_unresolved + refuted(gv.take(j as int), alive@),
        decreases guesses@.len() - j,
    {
        proof {
            assert(gv.take(j + 1).drop_last() =~= gv.take(j as int));
            assert(gv.take(j + 1)[j as int] == gv[j as int]);
        }
        let ghost (bi, bu) = (items@, unresolved@);
        if j < alive.len() {
            if alive[j] {
                let item = BatchItem {
                    number: guesses[j].0.clone(),
                    url: guesses[j].1.clone(),
                    found: Found::Guessed,
                };
                items.push(item);
                proof {
                    assert(views_of(items@) =~= views_of(bi).push(item@));
                }
            } else {
                unresolved.push(guesses[j].0.clone());
                proof {
                    assert(crate::text::texts(unresolved@) =~= crate::text::texts(bu).push(
                        guesses@[j as int].0@,
                    ));
                }
            }
        }
        j = j + 1;
    }
    assert(gv.take(guesses@.len() as int) =~= gv);
    let pattern = match &template {
        Some(t) => Some(t.pattern()),
        None => None,
    };
    BatchPlan { pattern, items: stable_sort(items), unresolved }
}

} // verus!
