//! The frontier: every URL that was ever admitted for fetching.

use crate::urls::Url;
use vstd::hash_map::StringHashMap;
use vstd::prelude::*;

verus! {

/// The set of admitted URLs. It only ever grows.
pub struct Frontier {
    seen: StringHashMap<()>,
}

impl View for Frontier {
    type V = Set<Seq<char>>;

    closed spec fn view(&self) -> Set<Seq<char>> {
        self.seen@.dom()
    }
}

impl Frontier {
    /// A frontier holds finitely many URLs.
    pub open spec fn wf(&self) -> bool {
        self@.finite()
    }

    /// An empty frontier.
    pub fn new() -> (res: Frontier)
        ensures
            res.wf(),
            res@ == Set::<Seq<char>>::empty(),
    {
        Frontier { seen: StringHashMap::new() }
    }

    /// Whether the URL was admitted before.
    pub fn contains(&self, url: &Url) -> (res: bool)
        ensures
            res == self@.contains(url@),
    {
        self.seen.contains_key(url.as_str())
    }

    /// Admits a URL and says whether it was new.
    pub fn insert(&mut self, url: &Url) -> (added: bool)
        requires
            old(self).wf(),
        ensures
            final(self).wf(),
            final(self)@ == old(self)@.insert(url@),
            added == !old(self)@.contains(url@),
    {
        let added = !self.seen.contains_key(url.as_str());
        self.seen.insert(url.as_str().to_owned(), ());
        added
    }

    /// The number of admitted URLs.
    pub fn len(&self) -> (n: usize)
        requires
            self.wf(),
        ensures
            n == self@.len(),
    {
        self.seen.len()
    }
}

} // verus!
