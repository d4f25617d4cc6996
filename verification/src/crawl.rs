//! The crawl as a state machine over reports, and what holds of every run of it.

use crate::listing::{ascending_listing, lemma_listing_exists, lemma_listing_len, lists};
use crate::outcome::Page;
use crate::urls::{is_http, resolve};
use vstd::prelude::*;
use vstd::seq_lib::{lemma_no_dup_in_concat, seq_to_set_is_finite};
use vstd::set_lib::{lemma_len_subset, lemma_set_disjoint_lens, lemma_set_subset_finite};

verus! {

/// What the orchestrator knows between two reports.
pub struct CrawlState {
    /// Every URL admitted so far.
    pub seen: Set<Seq<char>>,
    /// Scheduling decisions taken so far, whether or not a worker was started.
    pub counter: nat,
    /// The ceiling on workers ever started.
    pub budget: nat,
    /// Workers started that have not reported yet.
    pub in_flight: nat,
}

/// What a worker tells the orchestrator when it is done.
pub enum Report {
    /// The page was fetched and parsed.
    Page(Page),
    /// The fetch was given up; nothing is known of the page.
    Skipped,
}

/// The URLs that the links of a page resolve to, in document order. Links that
/// resolve to nothing are left out.
pub open spec fn resolved(base: Seq<char>, links: Seq<Seq<char>>) -> Seq<Seq<char>>
    decreases links.len(),
{
    if links.len() == 0 {
        Seq::empty()
    } else {
        let earlier = resolved(base, links.drop_last());
        match resolve(base, links.last()) {
            Some(text) => earlier.push(text),
            None => earlier,
        }
    }
}

/// The test that picks out the links that resolve to nothing on the page at
/// `base`.
pub open spec fn names_nothing(base: Seq<char>) -> spec_fn(Seq<char>) -> bool {
    |raw: Seq<char>| resolve(base, raw) is None
}

/// The links of a page that resolve to nothing, in document order.
pub open spec fn unresolved(base: Seq<char>, links: Seq<Seq<char>>) -> Seq<Seq<char>> {
    links.filter(names_nothing(base))
}

/// The URLs among `urls` that are admitted to a frontier holding `seen`: those
/// fetched over plain HTTP that were not seen before.
pub open spec fn newcomers(seen: Set<Seq<char>>, urls: Seq<Seq<char>>) -> Set<Seq<char>> {
    Set::new(|t: Seq<char>| urls.contains(t) && is_http(t) && !seen.contains(t))
}

/// The newcomers among `urls` in the order they first occur.
pub open spec fn newcomers_in_order(seen: Set<Seq<char>>, urls: Seq<Seq<char>>) -> Seq<Seq<char>>
    decreases urls.len(),
{
    if urls.len() == 0 {
        Seq::empty()
    } else {
        let earlier = newcomers_in_order(seen, urls.drop_last());
        let last = urls.last();
        if is_http(last) && !seen.contains(last) && !urls.drop_last().contains(last) {
            earlier.push(last)
        } else {
            earlier
        }
    }
}

/// The URLs that a page adds to the frontier: the newcomers among those its
/// links resolve to.
pub open spec fn discovered(seen: Set<Seq<char>>, page: Page) -> Set<Seq<char>> {
    newcomers(seen, resolved(page.url, page.links))
}

/// How many of `candidates` scheduling decisions, taken one after the other
/// from `counter` on, start a worker: a decision does while the counter is
/// below the budget, and every decision counts.
pub open spec fn allowance(counter: nat, budget: nat, candidates: nat) -> nat {
    if budget <= counter {
        0
    } else if candidates <= budget - counter {
        candidates
    } else {
        (budget - counter) as nat
    }
}

impl CrawlState {
    /// Workers started since the crawl began.
    pub open spec fn launched(self) -> nat {
        if self.counter <= self.budget {
            self.counter
        } else {
            self.budget
        }
    }

    /// What holds of every state a crawl reaches.
    pub open spec fn wf(self) -> bool {
        &&& self.seen.finite()
        &&& self.counter == self.seen.len()
        &&& forall|t: Seq<char>| self.seen.contains(t) ==> is_http(t)
        &&& self.in_flight <= self.launched()
    }

    /// No worker is left to report.
    pub open spec fn idle(self) -> bool {
        self.in_flight == 0
    }

    /// The budget is used up and every worker has reported.
    pub open spec fn complete(self) -> bool {
        self.budget <= self.counter && self.in_flight == 0
    }

    /// One worker has reported. A report that no started worker stands
    /// behind leaves the count at zero.
    pub open spec fn reported(self) -> CrawlState {
        CrawlState {
            seen: self.seen,
            counter: self.counter,
            budget: self.budget,
            in_flight: if self.in_flight > 0 {
                (self.in_flight - 1) as nat
            } else {
                0
            },
        }
    }

    /// The workers started for a page, in the order they are started: the
    /// page's new URLs in ascending order, as far as the budget reaches.
    pub open spec fn spawn_for(self, page: Page) -> Seq<Seq<char>> {
        let found = discovered(self.seen, page);
        ascending_listing(found).take(allowance(self.counter, self.budget, found.len()) as int)
    }

    /// The state after the links of a page were taken in.
    pub open spec fn absorb(self, page: Page) -> CrawlState {
        let found = discovered(self.seen, page);
        CrawlState {
            seen: self.seen + found,
            counter: self.counter + found.len(),
            budget: self.budget,
            in_flight: self.in_flight + allowance(self.counter, self.budget, found.len()),
        }
    }

    /// The state after a report.
    pub open spec fn after(self, report: Report) -> CrawlState {
        match report {
            Report::Page(page) => self.reported().absorb(page),
            Report::Skipped => self.reported(),
        }
    }

    /// The workers started in answer to a report.
    pub open spec fn spawn_on(self, report: Report) -> Seq<Seq<char>> {
        match report {
            Report::Page(page) => self.spawn_for(page),
            Report::Skipped => Seq::empty(),
        }
    }
}

/// The state a crawl starts in: the seed is admitted if it is fetched over
/// plain HTTP, and then takes the first scheduling decision.
pub open spec fn initial(seed: Seq<char>, budget: nat) -> CrawlState {
    if is_http(seed) {
        CrawlState { seen: set![seed], counter: 1, budget, in_flight: allowance(0, budget, 1) }
    } else {
        CrawlState { seen: Set::empty(), counter: 0, budget, in_flight: 0 }
    }
}

/// The workers started at the beginning of a crawl.
pub open spec fn initial_spawn(seed: Seq<char>, budget: nat) -> Seq<Seq<char>> {
    if is_http(seed) && budget > 0 {
        seq![seed]
    } else {
        Seq::empty()
    }
}

/// The state of a crawl after the given reports, in the order they arrived.
pub open spec fn crawl(seed: Seq<char>, budget: nat, reports: Seq<Report>) -> CrawlState
    decreases reports.len(),
{
    if reports.len() == 0 {
        initial(seed, budget)
    } else {
        crawl(seed, budget, reports.drop_last()).after(reports.last())
    }
}

/// Every worker started during a crawl, in the order they were started.
pub open spec fn crawl_spawned(seed: Seq<char>, budget: nat, reports: Seq<Report>) -> Seq<
    Seq<char>,
>
    decreases reports.len(),
{
    if reports.len() == 0 {
        initial_spawn(seed, budget)
    } else {
        crawl_spawned(seed, budget, reports.drop_last()) + crawl(
            seed,
            budget,
            reports.drop_last(),
        ).spawn_on(reports.last())
    }
}

/// No more URLs come out of a page than it has links.
pub proof fn lemma_resolved_len(base: Seq<char>, links: Seq<Seq<char>>)
    ensures
        resolved(base, links).len() <= links.len(),
    decreases links.len(),
{
    if links.len() > 0 {
        lemma_resolved_len(base, links.drop_last());
    }
}

/// What a page adds is finite, new, and fetched over plain HTTP.
pub proof fn lemma_discovered(seen: Set<Seq<char>>, page: Page)
    ensures
        discovered(seen, page).finite(),
        discovered(seen, page).disjoint(seen),
        forall|t: Seq<char>| discovered(seen, page).contains(t) ==> is_http(t),
        lists(ascending_listing(discovered(seen, page)), discovered(seen, page)),
        ascending_listing(discovered(seen, page)).len() == discovered(seen, page).len(),
        discovered(seen, page).len() <= page.links.len(),
{
    let found = discovered(seen, page);
    let all = resolved(page.url, page.links).to_set();
    seq_to_set_is_finite(resolved(page.url, page.links));
    assert(found.subset_of(all));
    lemma_set_subset_finite(all, found);
    lemma_len_subset(found, all);
    resolved(page.url, page.links).lemma_cardinality_of_set();
    lemma_resolved_len(page.url, page.links);
    lemma_listing_exists(found);
    lemma_listing_len(ascending_listing(found), found);
}

/// One report keeps a crawl state well formed, only adds to the frontier, and
/// starts workers for URLs that are new, distinct and within the budget.
pub proof fn lemma_after(s: CrawlState, report: Report)
    requires
        s.wf(),
    ensures
        s.after(report).wf(),
        s.after(report).budget == s.budget,
        s.seen.subset_of(s.after(report).seen),
        s.counter <= s.after(report).counter,
        s.after(report).launched() == s.launched() + s.spawn_on(report).len(),
        s.spawn_on(report).no_duplicates(),
        forall|i: int|
            0 <= i < s.spawn_on(report).len() ==> !s.seen.contains(#[trigger] s.spawn_on(report)[i])
                && s.after(report).seen.contains(s.spawn_on(report)[i]),
{
    match report {
        Report::Skipped => {},
        Report::Page(page) => {
            let found = discovered(s.seen, page);
            let listing = ascending_listing(found);
            let k = allowance(s.counter, s.budget, found.len());
            lemma_discovered(s.seen, page);
            lemma_set_disjoint_lens(s.seen, found);
            lemma_listing_len(listing, found);
            let spawn = s.spawn_on(report);
            assert(spawn == listing.take(k as int));
            assert forall|i: int| 0 <= i < spawn.len() implies !s.seen.contains(#[trigger] spawn[i])
                && s.after(report).seen.contains(spawn[i]) by {
                assert(spawn[i] == listing[i]);
                assert(listing.contains(listing[i]));
                assert(found.contains(spawn[i]));
            }
            assert forall|i: int, j: int|
                0 <= i < spawn.len() && 0 <= j < spawn.len() && i != j implies spawn[i]
                != spawn[j] by {
                assert(spawn[i] == listing[i] && spawn[j] == listing[j]);
            }
        },
    }
}

/// What holds after any reports: the state is well formed, and the workers
/// started so far are distinct, admitted, and as many as the state counts.
pub proof fn lemma_crawl(seed: Seq<char>, budget: nat, reports: Seq<Report>)
    ensures
        crawl(seed, budget, reports).wf(),
        crawl(seed, budget, reports).budget == budget,
        crawl_spawned(seed, budget, reports).len() == crawl(seed, budget, reports).launched(),
        crawl_spawned(seed, budget, reports).no_duplicates(),
        forall|i: int|
            0 <= i < crawl_spawned(seed, budget, reports).len() ==> crawl(
                seed,
                budget,
                reports,
            ).seen.contains(#[trigger] crawl_spawned(seed, budget, reports)[i]),
    decreases reports.len(),
{
    if reports.len() == 0 {
        if is_http(seed) {
            assert(set![seed].len() == 1);
        }
    } else {
        let earlier = reports.drop_last();
        let s = crawl(seed, budget, earlier);
        let before = crawl_spawned(seed, budget, earlier);
        let now = s.spawn_on(reports.last());
        lemma_crawl(seed, budget, earlier);
        lemma_after(s, reports.last());
        assert forall|i: int, j: int| 0 <= i < before.len() && 0 <= j < now.len() implies before[i]
            != now[j] by {
            assert(s.seen.contains(before[i]));
            assert(!s.seen.contains(now[j]));
        }
        lemma_no_dup_in_concat(before, now);
        let all = crawl_spawned(seed, budget, reports);
        assert(all == before + now);
        assert forall|i: int| 0 <= i < all.len() implies crawl(seed, budget, reports).seen.contains(
            #[trigger] all[i],
        ) by {
            if i < before.len() {
                assert(all[i] == before[i]);
                assert(s.seen.contains(before[i]));
            } else {
                assert(all[i] == now[i - before.len()]);
            }
        }
    }
}

/// Whatever pages are reported, in whatever order and with whatever
/// repetitions among their links, no URL has a worker started for it twice.
pub proof fn lemma_each_url_spawned_once(seed: Seq<char>, budget: nat, reports: Seq<Report>)
    ensures
        crawl_spawned(seed, budget, reports).no_duplicates(),
{
    lemma_crawl(seed, budget, reports);
}

/// A crawl never starts more workers than its budget allows, however many
/// links its pages carry.
pub proof fn lemma_budget_ceiling(seed: Seq<char>, budget: nat, reports: Seq<Report>)
    ensures
        crawl_spawned(seed, budget, reports).len() <= budget,
{
    lemma_crawl(seed, budget, reports);
}

/// Every URL in the frontier, and so every URL a worker is started for, is
/// fetched over plain HTTP.
pub proof fn lemma_only_http_admitted(seed: Seq<char>, budget: nat, reports: Seq<Report>)
    ensures
        forall|t: Seq<char>| crawl(seed, budget, reports).seen.contains(t) ==> is_http(t),
        forall|i: int|
            0 <= i < crawl_spawned(seed, budget, reports).len() ==> is_http(
                #[trigger] crawl_spawned(seed, budget, reports)[i],
            ),
{
    lemma_crawl(seed, budget, reports);
}

/// The counter counts the frontier: each admitted URL took exactly one
/// scheduling decision.
pub proof fn lemma_counter_counts_frontier(seed: Seq<char>, budget: nat, reports: Seq<Report>)
    ensures
        crawl(seed, budget, reports).seen.finite(),
        crawl(seed, budget, reports).counter == crawl(seed, budget, reports).seen.len(),
{
    lemma_crawl(seed, budget, reports);
}

/// The frontier and the counter only grow: what was seen after the first `k`
/// reports is still seen after all of them.
pub proof fn lemma_frontier_grows(seed: Seq<char>, budget: nat, reports: Seq<Report>, k: int)
    requires
        0 <= k <= reports.len(),
    ensures
        crawl(seed, budget, reports.take(k)).seen.subset_of(crawl(seed, budget, reports).seen),
        crawl(seed, budget, reports.take(k)).counter <= crawl(seed, budget, reports).counter,
    decreases reports.len(),
{
    if k == reports.len() {
        assert(reports.take(k) =~= reports);
    } else {
        let earlier = reports.drop_last();
        assert(earlier.take(k) =~= reports.take(k));
        lemma_frontier_grows(seed, budget, earlier, k);
        lemma_crawl(seed, budget, earlier);
        lemma_after(crawl(seed, budget, earlier), reports.last());
    }
}

/// A report moves the counter up by no more than the number of links on its
/// page. So the report that takes the counter past the budget leaves it at
/// most that many above.
pub proof fn lemma_counter_step(s: CrawlState, page: Page)
    requires
        s.wf(),
    ensures
        s.after(Report::Page(page)).counter <= s.counter + page.links.len(),
        s.counter <= s.budget ==> s.after(Report::Page(page)).counter <= s.budget
            + page.links.len(),
{
    lemma_discovered(s.seen, page);
}

/// A fetch that was given up changes neither the frontier nor the counter and
/// starts no worker.
pub proof fn lemma_skipped_adds_nothing(s: CrawlState)
    ensures
        s.after(Report::Skipped).seen == s.seen,
        s.after(Report::Skipped).counter == s.counter,
        s.after(Report::Skipped).budget == s.budget,
        s.spawn_on(Report::Skipped) == Seq::<Seq<char>>::empty(),
{
}

} // verus!
