//! Ascending listings: the one way to write a finite set of URLs as a sequence
//! that grows strictly from element to element.

use crate::order::Rank;
use crate::urls::{lemma_text_lt_strict, lemma_text_lt_total, text_lt, url_texts, Url};
use vstd::prelude::*;
use vstd::seq_lib::seq_to_set_is_finite;

verus! {

/// Each element comes before all later ones.
pub open spec fn ascending(s: Seq<Seq<char>>) -> bool {
    forall|i: int, j: int| 0 <= i < j < s.len() ==> text_lt(#[trigger] s[i], #[trigger] s[j])
}

/// `s` is ascending and holds exactly the members of `set`.
pub open spec fn lists(s: Seq<Seq<char>>, set: Set<Seq<char>>) -> bool {
    &&& ascending(s)
    &&& forall|t: Seq<char>|
        #![trigger set.contains(t)]
        #![trigger s.contains(t)]
        set.contains(t) <==> s.contains(t)
}

/// The members of a finite set in ascending order.
pub open spec fn ascending_listing(set: Set<Seq<char>>) -> Seq<Seq<char>> {
    choose|s: Seq<Seq<char>>| lists(s, set)
}

/// An ascending sequence holds nothing twice.
pub proof fn lemma_ascending_no_duplicates(s: Seq<Seq<char>>)
    requires
        ascending(s),
    ensures
        s.no_duplicates(),
{
    assert forall|i: int, j: int| 0 <= i < s.len() && 0 <= j < s.len() && i != j implies s[i]
        != s[j] by {
        if i < j {
            lemma_text_lt_strict(s[i], s[j], s[j]);
        } else {
            lemma_text_lt_strict(s[j], s[i], s[i]);
        }
    }
}

/// A set with a listing is finite and as large as the listing is long.
pub proof fn lemma_listing_len(s: Seq<Seq<char>>, set: Set<Seq<char>>)
    requires
        lists(s, set),
    ensures
        set.finite(),
        set.len() == s.len(),
        s.no_duplicates(),
{
    lemma_ascending_no_duplicates(s);
    assert(set =~= s.to_set());
    seq_to_set_is_finite(s);
    s.unique_seq_to_set();
}

/// Without its last element a listing lists the set without that element.
pub proof fn lemma_listing_drop_last(s: Seq<Seq<char>>, set: Set<Seq<char>>)
    requires
        lists(s, set),
        s.len() > 0,
    ensures
        lists(s.drop_last(), set.remove(s.last())),
{
    let shorter = s.drop_last();
    let rest = set.remove(s.last());
    lemma_ascending_no_duplicates(s);
    assert forall|t: Seq<char>| rest.contains(t) <==> shorter.contains(t) by {
        if rest.contains(t) {
            assert(s.contains(t));
            let i = choose|i: int| 0 <= i < s.len() && s[i] == t;
            assert(shorter[i] == t);
        }
        if shorter.contains(t) {
            let i = choose|i: int| 0 <= i < shorter.len() && shorter[i] == t;
            assert(s[i] == t);
            assert(s.contains(t));
        }
    }
}

/// A set has at most one listing.
pub proof fn lemma_listing_unique(a: Seq<Seq<char>>, b: Seq<Seq<char>>, set: Set<Seq<char>>)
    requires
        lists(a, set),
        lists(b, set),
    ensures
        a == b,
    decreases a.len(),
{
    lemma_listing_len(a, set);
    lemma_listing_len(b, set);
    if a.len() > 0 {
        assert(b.contains(a.last())) by {
            assert(a.contains(a.last()));
            assert(set.contains(a.last()));
        }
        assert(a.contains(b.last())) by {
            assert(b.contains(b.last()));
            assert(set.contains(b.last()));
        }
        let i = choose|i: int| 0 <= i < a.len() && a[i] == b.last();
        let j = choose|j: int| 0 <= j < b.len() && b[j] == a.last();
        if a.last() != b.last() {
            assert(text_lt(b[j], b[b.len() - 1]));
            assert(text_lt(a[i], a[a.len() - 1]));
            lemma_text_lt_strict(a.last(), b.last(), b.last());
        }
        lemma_listing_drop_last(a, set);
        lemma_listing_drop_last(b, set);
        lemma_listing_unique(a.drop_last(), b.drop_last(), set.remove(a.last()));
        assert(a =~= a.drop_last().push(a.last()));
        assert(b =~= b.drop_last().push(b.last()));
    }
    assert(a =~= b);
}

/// A listing of a set can be extended by one more member.
proof fn lemma_listing_insert(s: Seq<Seq<char>>, set: Set<Seq<char>>, t: Seq<char>) -> (longer:
    Seq<Seq<char>>)
    requires
        lists(s, set),
        !set.contains(t),
    ensures
        lists(longer, set.insert(t)),
    decreases s.len(),
{
    if s.len() == 0 || text_lt(s.last(), t) {
        let longer = s.push(t);
        assert forall|i: int, j: int| 0 <= i < j < longer.len() implies text_lt(
            longer[i],
            longer[j],
        ) by {
            if j == s.len() && i < s.len() - 1 {
                lemma_text_lt_strict(s[i], s.last(), t);
            }
        }
        assert forall|u: Seq<char>| set.insert(t).contains(u) <==> longer.contains(u) by {
            if set.insert(t).contains(u) {
                if u == t {
                    assert(longer[s.len() as int] == u);
                } else {
                    assert(s.contains(u));
                    let i = choose|i: int| 0 <= i < s.len() && s[i] == u;
                    assert(longer[i] == u);
                }
            }
            if longer.contains(u) {
                let i = choose|i: int| 0 <= i < longer.len() && longer[i] == u;
                if i < s.len() {
                    assert(s[i] == u);
                    assert(s.contains(u));
                }
            }
        }
        longer
    } else {
        let last = s.last();
        assert(s.contains(last));
        lemma_text_lt_total(last, t);
        lemma_listing_drop_last(s, set);
        let inner = lemma_listing_insert(s.drop_last(), set.remove(last), t);
        let longer = inner.push(last);
        assert forall|i: int, j: int| 0 <= i < j < longer.len() implies text_lt(
            longer[i],
            longer[j],
        ) by {
            if j == inner.len() {
                assert(inner.contains(inner[i]));
                assert(set.remove(last).insert(t).contains(inner[i]));
                if inner[i] != t {
                    assert(s.contains(inner[i]));
                    let k = choose|k: int| 0 <= k < s.len() && s[k] == inner[i];
                    assert(text_lt(s[k], s[s.len() - 1]));
                }
            }
        }
        assert forall|u: Seq<char>| set.insert(t).contains(u) <==> longer.contains(u) by {
            if set.insert(t).contains(u) {
                if u == last {
                    assert(longer[inner.len() as int] == u);
                } else {
                    assert(set.remove(last).insert(t).contains(u));
                    assert(inner.contains(u));
                    let i = choose|i: int| 0 <= i < inner.len() && inner[i] == u;
                    assert(longer[i] == u);
                }
            }
            if longer.contains(u) {
                let i = choose|i: int| 0 <= i < longer.len() && longer[i] == u;
                if i < inner.len() {
                    assert(inner[i] == u);
                    assert(inner.contains(u));
                    assert(set.remove(last).insert(t).contains(u));
                }
            }
        }
        longer
    }
}

/// Every finite set has a listing, and `ascending_listing` is it.
pub proof fn lemma_listing_exists(set: Set<Seq<char>>)
    requires
        set.finite(),
    ensures
        lists(ascending_listing(set), set),
    decreases set.len(),
{
    if set.len() == 0 {
        assert(set =~= Set::empty()) by {
            set.lemma_len0_is_empty();
        }
        assert(lists(Seq::<Seq<char>>::empty(), set));
    } else {
        let x = set.choose();
        lemma_listing_exists(set.remove(x));
        let longer = lemma_listing_insert(ascending_listing(set.remove(x)), set.remove(x), x);
        assert(set.remove(x).insert(x) =~= set);
        assert(lists(longer, set));
    }
}

/// What a listing of a set is: the sequence `ascending_listing` names.
pub proof fn lemma_listing_is_ascending_listing(s: Seq<Seq<char>>, set: Set<Seq<char>>)
    requires
        lists(s, set),
    ensures
        s == ascending_listing(set),
{
    lemma_listing_unique(s, ascending_listing(set), set);
}

/// Finds the place of `url` in an ascending list: the index of the first
/// element that does not come before it, and whether that element is `url`.
pub fn slot_for(list: &Vec<Url>, url: &Url) -> (res: (usize, bool))
    requires
        ascending(url_texts(list@)),
    ensures
        res.0 <= list.len(),
        forall|j: int| 0 <= j < res.0 ==> text_lt(#[trigger] list[j]@, url@),
        forall|j: int| res.0 + (if res.1 { 1int } else { 0int }) <= j < list.len() ==> text_lt(url@, #[trigger] list[j]@),
        res.1 ==> res.0 < list.len() && list[res.0 as int]@ == url@,
        res.1 == url_texts(list@).contains(url@),
{
    let ghost texts = url_texts(list@);
    let mut i: usize = 0;
    while i < list.len()
        invariant
            i <= list.len(),
            texts == url_texts(list@),
            ascending(texts),
            forall|j: int| 0 <= j < i ==> text_lt(#[trigger] list[j]@, url@),
        decreases list.len() - i,
    {
        match list[i].rank(url) {
            Rank::Before => {
                i += 1;
            },
            Rank::Same => {
                proof {
                    assert(texts[i as int] == url@);
                    assert forall|j: int| i + 1 <= j < list.len() implies text_lt(
                        url@,
                        #[trigger] list[j]@,
                    ) by {
                        assert(text_lt(texts[i as int], texts[j]));
                    }
                }
                return (i, true);
            },
            Rank::After => {
                proof {
                    lemma_text_lt_total(list[i as int]@, url@);
                    assert forall|j: int| i <= j < list.len() implies text_lt(
                        url@,
                        #[trigger] list[j]@,
                    ) by {
                        if i < j {
                            assert(text_lt(texts[i as int], texts[j]));
                            lemma_text_lt_strict(url@, list[i as int]@, list[j]@);
                        }
                    }
                    lemma_absent(texts, url@, i as int);
                }
                return (i, false);
            },
        }
    }
    proof {
        lemma_absent(texts, url@, i as int);
    }
    (i, false)
}

/// A text that stands strictly between the elements below `k` and those from
/// `k` on is none of them.
proof fn lemma_absent(s: Seq<Seq<char>>, t: Seq<char>, k: int)
    requires
        0 <= k <= s.len(),
        forall|j: int| 0 <= j < k ==> text_lt(#[trigger] s[j], t),
        forall|j: int| k <= j < s.len() ==> text_lt(t, #[trigger] s[j]),
    ensures
        !s.contains(t),
{
    if s.contains(t) {
        let i = choose|i: int| 0 <= i < s.len() && s[i] == t;
        lemma_text_lt_strict(t, t, t);
    }
}

/// Adds a URL to an ascending list unless it is there already, and says
/// whether it was added.
pub fn insert_sorted(list: &mut Vec<Url>, url: Url) -> (added: bool)
    requires
        ascending(url_texts(old(list)@)),
    ensures
        lists(url_texts(final(list)@), url_texts(old(list)@).to_set().insert(url@)),
        added == !url_texts(old(list)@).contains(url@),
        !added ==> final(list)@ == old(list)@,
        added ==> final(list)@.len() == old(list)@.len() + 1,
{
    let ghost before = url_texts(list@);
    let (at, present) = slot_for(list, &url);
    if present {
        assert(before.to_set().insert(url@) =~= before.to_set());
        return false;
    }
    let ghost text = url@;
    list.insert(at, url);
    proof {
        let after = url_texts(list@);
        assert(after =~= before.insert(at as int, text));
        assert forall|i: int, j: int| 0 <= i < j < after.len() implies text_lt(
            after[i],
            after[j],
        ) by {
            if j < at {
                assert(text_lt(before[i], before[j]));
            } else if j == at {
                assert(after[i] == old(list)[i]@);
            } else if i < at {
                assert(text_lt(before[i], before[j - 1]));
            } else if i == at {
                assert(after[j] == old(list)[j - 1]@);
            } else {
                assert(text_lt(before[i - 1], before[j - 1]));
            }
        }
        let goal = before.to_set().insert(text);
        assert forall|t: Seq<char>| goal.contains(t) <==> after.contains(t) by {
            if goal.contains(t) {
                if t == text {
                    assert(after[at as int] == t);
                } else {
                    assert(before.contains(t));
                    let i = choose|i: int| 0 <= i < before.len() && before[i] == t;
                    if i < at {
                        assert(after[i] == t);
                    } else {
                        assert(after[i + 1] == t);
                    }
                }
            }
            if after.contains(t) {
                let i = choose|i: int| 0 <= i < after.len() && after[i] == t;
                if i < at {
                    assert(before[i] == t);
                } else if i > at {
                    assert(before[i - 1] == t);
                }
            }
        }
    }
    true
}

/// Sorts URLs and drops repetitions: the result is the ascending listing of
/// the URLs that occur in the input.
pub fn sort_dedup(urls: Vec<Url>) -> (res: Vec<Url>)
    ensures
        url_texts(res@) == ascending_listing(url_texts(urls@).to_set()),
        lists(url_texts(res@), url_texts(urls@).to_set()),
{
    let ghost all = url_texts(urls@);
    let mut rest = urls;
    let mut out: Vec<Url> = Vec::new();
    while rest.len() > 0
        invariant
            ascending(url_texts(out@)),
            forall|t: Seq<char>|
                #![trigger all.contains(t)]
                all.contains(t) <==> url_texts(out@).contains(t) || url_texts(rest@).contains(t),
        decreases rest.len(),
    {
        let ghost rest_before = url_texts(rest@);
        let ghost out_before = url_texts(out@);
        let url = rest.pop().unwrap();
        let ghost text = url@;
        insert_sorted(&mut out, url);
        proof {
            let rest_after = url_texts(rest@);
            let out_after = url_texts(out@);
            assert(rest_before =~= rest_after.push(text));
            assert forall|t: Seq<char>|
                rest_before.contains(t) <==> rest_after.contains(t) || t == text by {
                if rest_before.contains(t) {
                    let i = choose|i: int| 0 <= i < rest_before.len() && rest_before[i] == t;
                    if i < rest_after.len() {
                        assert(rest_after[i] == t);
                    }
                }
                if rest_after.contains(t) {
                    let i = choose|i: int| 0 <= i < rest_after.len() && rest_after[i] == t;
                    assert(rest_before[i] == t);
                }
                if t == text {
                    assert(rest_before[rest_after.len() as int] == t);
                }
            }
            assert forall|t: Seq<char>|
                out_after.contains(t) <==> out_before.contains(t) || t == text by {
                assert(out_before.to_set().insert(text).contains(t) <==> out_after.contains(t));
            }
        }
    }
    proof {
        let texts = url_texts(out@);
        assert forall|t: Seq<char>| all.to_set().contains(t) <==> texts.contains(t) by {
            if url_texts(rest@).contains(t) {
                assert(false);
            }
        }
        lemma_listing_is_ascending_listing(texts, all.to_set());
    }
    out
}

} // verus!
