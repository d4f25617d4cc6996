//! The crawl orchestrator: it owns the frontier and the request counter, takes
//! in what the workers report, and says which workers to start next.

use crate::crawl::{
    allowance, discovered, initial, initial_spawn, lemma_after, lemma_discovered, names_nothing,
    newcomers, newcomers_in_order, resolved, unresolved, CrawlState, Report,
};
use crate::frontier::Frontier;
use crate::html::texts;
use crate::listing::{lemma_listing_len, sort_dedup};
use crate::outcome::{FetchOutcome, ParseOutcome};
use crate::urls::{is_http, normalize, resolve, url_texts, Url};
use vstd::prelude::*;
use vstd::set_lib::lemma_set_disjoint_lens;

verus! {

/// The test that picks out the URLs that are not fetched over plain HTTP.
pub open spec fn not_http() -> spec_fn(Seq<char>) -> bool {
    |t: Seq<char>| !is_http(t)
}

/// What the orchestrator decided for one report.
#[derive(Debug)]
pub struct Schedule {
    /// How many links of the page resolved to a URL.
    pub found: usize,
    /// How many of those URLs were admitted to the frontier by this report.
    pub fresh: usize,
    /// The URLs to start a worker for, in this order.
    pub spawn: Vec<Url>,
    /// The URLs that were turned away for their scheme, in document order.
    pub rejected: Vec<Url>,
    /// The links that resolved to nothing, as the page wrote them and in
    /// document order.
    pub dropped: Vec<String>,
}

/// The links of a page, sorted into those that name a URL and those that do
/// not.
#[derive(Debug)]
pub struct Resolution {
    /// The URLs that the links resolve to, in document order.
    pub urls: Vec<Url>,
    /// The links that resolve to nothing, as the page wrote them and in
    /// document order.
    pub dropped: Vec<String>,
}

/// The state of one crawl.
pub struct Orchestrator {
    frontier: Frontier,
    counter: usize,
    budget: usize,
    in_flight: usize,
}

impl View for Orchestrator {
    type V = CrawlState;

    closed spec fn view(&self) -> CrawlState {
        CrawlState {
            seen: self.frontier@,
            counter: self.counter as nat,
            budget: self.budget as nat,
            in_flight: self.in_flight as nat,
        }
    }
}

proof fn lemma_push_contains<A>(s: Seq<A>, x: A, y: A)
    ensures
        s.push(x).contains(y) <==> s.contains(y) || x == y,
{
    if s.push(x).contains(y) {
        let i = choose|i: int| 0 <= i < s.push(x).len() && s.push(x)[i] == y;
        if i < s.len() {
            assert(s[i] == y);
        }
    }
    if s.contains(y) {
        let i = choose|i: int| 0 <= i < s.len() && s[i] == y;
        assert(s.push(x)[i] == y);
    }
    if x == y {
        assert(s.push(x)[s.len() as int] == y);
    }
}

proof fn lemma_filter_push<A>(s: Seq<A>, x: A, keep: spec_fn(A) -> bool)
    ensures
        s.push(x).filter(keep) == if keep(x) {
            s.filter(keep).push(x)
        } else {
            s.filter(keep)
        },
{
    reveal(Seq::filter);
    assert(s.push(x).drop_last() =~= s);
}

/// How the URLs of the first `i + 1` links follow from those of the first `i`.
proof fn lemma_resolved_step(base: Seq<char>, links: Seq<Seq<char>>, i: int)
    requires
        0 <= i < links.len(),
    ensures
        resolved(base, links.take(i + 1)) == match resolve(base, links[i]) {
            Some(text) => resolved(base, links.take(i)).push(text),
            None => resolved(base, links.take(i)),
        },
{
    assert(links.take(i + 1).drop_last() =~= links.take(i));
}

/// Resolves the links of a page against the page's URL. The URLs come back
/// in document order, and so do the links that resolve to nothing.
pub fn resolve_links(base: &Url, links: &Vec<String>) -> (res: Resolution)
    ensures
        url_texts(res.urls@) == resolved(base@, texts(links@)),
        texts(res.dropped@) == unresolved(base@, texts(links@)),
{
    let ghost all = texts(links@);
    let mut urls: Vec<Url> = Vec::new();
    let mut dropped: Vec<String> = Vec::new();
    let mut i: usize = 0;
    proof {
        reveal(Seq::filter);
    }
    while i < links.len()
        invariant
            i <= links.len(),
            all == texts(links@),
            url_texts(urls@) == resolved(base@, all.take(i as int)),
            texts(dropped@) == unresolved(base@, all.take(i as int)),
        decreases links.len() - i,
    {
        let ghost urls_before = url_texts(urls@);
        let ghost dropped_before = texts(dropped@);
        proof {
            lemma_resolved_step(base@, all, i as int);
            assert(all.take(i + 1) =~= all.take(i as int).push(all[i as int]));
            lemma_filter_push(all.take(i as int), all[i as int], names_nothing(base@));
        }
        match normalize(base, links[i].as_str()) {
            Ok(url) => {
                let ghost text = url@;
                urls.push(url);
                assert(url_texts(urls@) =~= urls_before.push(text));
            },
            Err(_) => {
                dropped.push(links[i].clone());
                assert(texts(dropped@) =~= dropped_before.push(all[i as int]));
            },
        }
        i += 1;
    }
    assert(all.take(links.len() as int) =~= all);
    Resolution { urls, dropped }
}

/// Admits the newcomers among `urls` to the frontier. Returns the URLs that
/// were admitted, in the order they first occur, and those that were turned
/// away for their scheme, in the order they came in.
pub fn take_in(frontier: &mut Frontier, urls: Vec<Url>) -> (res: (Vec<Url>, Vec<Url>))
    requires
        old(frontier).wf(),
    ensures
        final(frontier).wf(),
        final(frontier)@ == old(frontier)@ + newcomers(old(frontier)@, url_texts(urls@)),
        url_texts(res.0@) == newcomers_in_order(old(frontier)@, url_texts(urls@)),
        url_texts(res.0@).to_set() == newcomers(old(frontier)@, url_texts(urls@)),
        url_texts(res.1@) == url_texts(urls@).filter(not_http()),
{
    let ghost seen = frontier@;
    let ghost all = url_texts(urls@);
    let mut fresh: Vec<Url> = Vec::new();
    let mut rejected: Vec<Url> = Vec::new();
    proof {
        assert(frontier@ =~= seen + newcomers(seen, all.take(0)));
        assert(url_texts(fresh@).to_set() =~= newcomers(seen, all.take(0)));
        reveal(Seq::filter);
    }
    for url in iter: urls
        invariant
            url_texts(iter.seq()) == all,
            frontier.wf(),
            frontier@ == seen + newcomers(seen, all.take(iter.index())),
            url_texts(fresh@) == newcomers_in_order(seen, all.take(iter.index())),
            url_texts(fresh@).to_set() == newcomers(seen, all.take(iter.index())),
            url_texts(rejected@) == all.take(iter.index()).filter(not_http()),
    {
        let ghost k = iter.index();
        let ghost text = url@;
        let ghost earlier = all.take(k);
        let ghost known = newcomers(seen, earlier);
        let ghost fresh_before = url_texts(fresh@);
        let ghost rejected_before = url_texts(rejected@);
        proof {
            assert(all.take(k + 1) =~= earlier.push(text));
            assert(all.take(k + 1).drop_last() =~= earlier);
            lemma_filter_push(earlier, text, not_http());
            assert forall|t: Seq<char>|
                earlier.push(text).contains(t) <==> earlier.contains(t) || text == t by {
                lemma_push_contains(earlier, text, t);
            }
        }
        if !url.is_http() {
            rejected.push(url);
            proof {
                assert(url_texts(rejected@) =~= rejected_before.push(text));
                assert(newcomers(seen, all.take(k + 1)) =~= known);
            }
        } else if frontier.insert(&url) {
            fresh.push(url);
            proof {
                assert(url_texts(fresh@) =~= fresh_before.push(text));
                assert forall|t: Seq<char>|
                    fresh_before.push(text).contains(t) <==> fresh_before.contains(t) || text
                        == t by {
                    lemma_push_contains(fresh_before, text, t);
                }
                assert(newcomers(seen, all.take(k + 1)) =~= known.insert(text));
                assert(url_texts(fresh@).to_set() =~= known.insert(text));
                assert(frontier@ =~= seen + known.insert(text));
            }
        } else {
            proof {
                assert(newcomers(seen, all.take(k + 1)) =~= known);
                assert(frontier@ =~= seen + known);
            }
        }
    }
    assert(all.take(all.len() as int) =~= all);
    (fresh, rejected)
}

/// The dispatch rule, applied to the candidates one after the other: a worker
/// is started for a candidate while the counter is below the budget, and every
/// candidate counts. Returns the counter after the last candidate and the URLs
/// to start workers for.
pub fn dispatch(counter: usize, budget: usize, candidates: Vec<Url>) -> (res: (usize, Vec<Url>))
    requires
        counter + candidates.len() <= usize::MAX,
    ensures
        res.0 == counter + candidates.len(),
        url_texts(res.1@) == url_texts(candidates@).take(
            allowance(counter as nat, budget as nat, candidates.len() as nat) as int,
        ),
{
    let ghost all = url_texts(candidates@);
    let mut count = counter;
    let mut spawn: Vec<Url> = Vec::new();
    for url in iter: candidates
        invariant
            url_texts(iter.seq()) == all,
            count == counter + iter.index(),
            counter + all.len() <= usize::MAX,
            url_texts(spawn@) == all.take(
                allowance(counter as nat, budget as nat, iter.index() as nat) as int,
            ),
    {
        let ghost before = url_texts(spawn@);
        if count < budget {
            spawn.push(url);
            assert(url_texts(spawn@) =~= before.push(all[iter.index()]));
        }
        count = count + 1;
    }
    (count, spawn)
}

impl Orchestrator {
    /// What holds of an orchestrator between any two calls.
    pub open spec fn wf(&self) -> bool {
        self@.wf()
    }

    /// Begins a crawl at `seed` with the given budget. The seed is admitted
    /// to the frontier and takes the first scheduling decision, unless its
    /// scheme is not `http`: then nothing is admitted and nothing started.
    pub fn start(seed: Url, budget: usize) -> (res: (Orchestrator, Vec<Url>))
        ensures
            res.0.wf(),
            res.0@ == initial(seed@, budget as nat),
            url_texts(res.1@) == initial_spawn(seed@, budget as nat),
    {
        let mut frontier = Frontier::new();
        if seed.is_http() {
            let ghost text = seed@;
            frontier.insert(&seed);
            let mut first: Vec<Url> = Vec::new();
            first.push(seed);
            let (counter, spawn) = dispatch(0, budget, first);
            let in_flight = spawn.len();
            proof {
                assert(frontier@ =~= set![text]);
                assert(set![text].len() == 1);
                assert(url_texts(first@) =~= seq![text]);
                assert(url_texts(spawn@) =~= initial_spawn(text, budget as nat));
            }
            (Orchestrator { frontier, counter, budget, in_flight }, spawn)
        } else {
            (Orchestrator { frontier, counter: 0, budget, in_flight: 0 }, Vec::new())
        }
    }

    /// Takes in the outcome of one fetch: resolves its links against the
    /// page's URL, sets aside those that resolve to nothing, turns away those not
    /// fetched over plain HTTP, admits the rest to the frontier unless they
    /// are there already, and applies the dispatch rule to the newly admitted
    /// URLs in ascending order.
    pub fn on_outcome(&mut self, outcome: &ParseOutcome) -> (plan: Schedule)
        requires
            old(self).wf(),
        ensures
            final(self).wf(),
            final(self)@ == old(self)@.after(Report::Page(outcome@)),
            url_texts(plan.spawn@) == old(self)@.spawn_on(Report::Page(outcome@)),
            plan.found == resolved(outcome@.url, outcome@.links).len(),
            plan.fresh == discovered(old(self)@.seen, outcome@).len(),
            url_texts(plan.rejected@) == resolved(outcome@.url, outcome@.links).filter(not_http()),
            texts(plan.dropped@) == unresolved(outcome@.url, outcome@.links),
    {
        let ghost before = self@;
        let ghost found = discovered(before.seen, outcome@);
        if self.in_flight > 0 {
            self.in_flight = self.in_flight - 1;
        }
        let Resolution { urls, dropped } = resolve_links(&outcome.url, &outcome.links);
        let resolved_count = urls.len();
        let (fresh, rejected) = take_in(&mut self.frontier, urls);
        let survivors = sort_dedup(fresh);
        proof {
            lemma_discovered(before.seen, outcome@);
            lemma_listing_len(url_texts(survivors@), found);
            lemma_set_disjoint_lens(before.seen, found);
        }
        // The frontier holds one URL for every decision taken so far and for
        // every survivor, so the counter cannot run over.
        let fresh_count = self.frontier.len() - self.counter;
        let (counter, spawn) = dispatch(self.counter, self.budget, survivors);
        self.counter = counter;
        proof {
            let started = allowance(before.counter, before.budget, found.len());
            assert(url_texts(spawn@).len() == started);
            assert(self.in_flight <= before.launched());
            assert(before.launched() + started <= counter);
        }
        self.in_flight = self.in_flight + spawn.len();
        proof {
            lemma_after(before, Report::Page(outcome@));
        }
        Schedule { found: resolved_count, fresh: fresh_count, spawn, rejected, dropped }
    }

    /// Takes in what a worker reported. A fetch that was given up leaves the
    /// frontier and the counter as they are and starts nothing.
    pub fn on_fetch(&mut self, fetch: &FetchOutcome) -> (plan: Schedule)
        requires
            old(self).wf(),
        ensures
            final(self).wf(),
            final(self)@ == old(self)@.after(fetch@),
            url_texts(plan.spawn@) == old(self)@.spawn_on(fetch@),
            fetch is Skipped ==> plan.found == 0 && plan.fresh == 0 && plan.spawn@.len() == 0
                && plan.rejected@.len() == 0 && plan.dropped@.len() == 0,
            fetch matches FetchOutcome::Success(outcome) ==> {
                &&& plan.found == resolved(outcome@.url, outcome@.links).len()
                &&& plan.fresh == discovered(old(self)@.seen, outcome@).len()
                &&& url_texts(plan.rejected@) == resolved(outcome@.url, outcome@.links).filter(
                    not_http(),
                )
                &&& texts(plan.dropped@) == unresolved(outcome@.url, outcome@.links)
            },
    {
        match fetch {
            FetchOutcome::Success(outcome) => self.on_outcome(outcome),
            FetchOutcome::Skipped(_) => {
                if self.in_flight > 0 {
                    self.in_flight = self.in_flight - 1;
                }
                Schedule {
                    found: 0,
                    fresh: 0,
                    spawn: Vec::new(),
                    rejected: Vec::new(),
                    dropped: Vec::new(),
                }
            },
        }
    }

    /// Scheduling decisions taken so far.
    pub fn counter(&self) -> (res: usize)
        ensures
            res == self@.counter,
    {
        self.counter
    }

    /// The ceiling on workers ever started.
    pub fn budget(&self) -> (res: usize)
        ensures
            res == self@.budget,
    {
        self.budget
    }

    /// Workers started that have not reported yet.
    pub fn in_flight(&self) -> (res: usize)
        ensures
            res == self@.in_flight,
    {
        self.in_flight
    }

    /// Workers started since the crawl began.
    pub fn launched(&self) -> (res: usize)
        ensures
            res == self@.launched(),
    {
        if self.counter <= self.budget {
            self.counter
        } else {
            self.budget
        }
    }

    /// Whether the URL is in the frontier.
    pub fn has_seen(&self, url: &Url) -> (res: bool)
        ensures
            res == self@.seen.contains(url@),
    {
        self.frontier.contains(url)
    }

    /// Whether no worker is left to report.
    pub fn is_idle(&self) -> (res: bool)
        ensures
            res == self@.idle(),
    {
        self.in_flight == 0
    }

    /// Whether the budget is used up and every worker has reported.
    pub fn is_complete(&self) -> (res: bool)
        ensures
            res == self@.complete(),
    {
        self.budget <= self.counter && self.in_flight == 0
    }
}

} // verus!
