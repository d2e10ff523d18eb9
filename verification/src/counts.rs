use std::collections::HashMap;
use vstd::prelude::*;

use crate::page::{Page, PageView};
use crate::parser::pages_view;

verus! {

/// What a `HashMap<String, u64>` of link counts holds: each key, taken by
/// its characters, mapped to its count.
pub uninterp spec fn link_counts(m: HashMap<String, u64>) -> Map<Seq<char>, u64>;

/// `HashMap::new()`: an empty map.
#[verifier::external_body]
pub(crate) fn link_counts_new() -> (empty: HashMap<String, u64>)
    ensures
        link_counts(empty).dom() == Set::<Seq<char>>::empty(),
{
    HashMap::new()
}

/// `HashMap::get` on a `HashMap<String, u64>`: the count stored under the
/// key, or `None` when the key is absent. (vstd's own specification only
/// holds for key types that obey its key model, which it does not state for
/// `String`; `String`'s `Eq` and `Hash` agree, so std's documented behaviour
/// holds.)
#[verifier::external_body]
fn link_counts_get(m: &HashMap<String, u64>, key: &String) -> (r: Option<u64>)
    ensures
        r == (if link_counts(*m).contains_key(key@) { Some(link_counts(*m)[key@]) } else { None }),
{
    m.get(key).copied()
}

/// `HashMap::insert` on a `HashMap<String, u64>`: afterwards the key maps to
/// the new count and every other key keeps its count.
#[verifier::external_body]
fn link_counts_insert(m: &mut HashMap<String, u64>, key: String, value: u64)
    ensures
        link_counts(*final(m)) == link_counts(*old(m)).insert(key@, value),
{
    m.insert(key, value);
}

/// The count of `t` in a map of counts, 0 when absent.
pub open spec fn count_of(m: Map<Seq<char>, u64>, t: Seq<char>) -> nat {
    if m.contains_key(t) { m[t] as nat } else { 0 }
}

/// How often `t` occurs in `s`.
pub open spec fn occurrences(s: Seq<Seq<char>>, t: Seq<char>) -> nat
    decreases s.len(),
{
    if s.len() == 0 {
        0
    } else {
        occurrences(s.drop_last(), t) + if s.last() == t { 1nat } else { 0nat }
    }
}

/// The links of all pages, page after page.
pub open spec fn all_tags(pages: Seq<PageView>) -> Seq<Seq<char>>
    decreases pages.len(),
{
    if pages.len() == 0 {
        Seq::empty()
    } else {
        all_tags(pages.drop_last()) + pages.last().tags
    }
}

/// `t` occurs in `s` exactly when it occurs a positive number of times.
pub proof fn lemma_occurrences_contains(s: Seq<Seq<char>>, t: Seq<char>)
    ensures
        s.contains(t) <==> occurrences(s, t) > 0,
    decreases s.len(),
{
    if s.len() > 0 {
        lemma_occurrences_contains(s.drop_last(), t);
        if s.drop_last().contains(t) {
            let k = choose|k: int| 0 <= k < s.drop_last().len() && s.drop_last()[k] == t;
            assert(s[k] == t);
        }
        if s.contains(t) && s.last() != t {
            let k = choose|k: int| 0 <= k < s.len() && s[k] == t;
            assert(s.drop_last()[k] == t);
        }
    }
}

proof fn lemma_occurrences_prefix(s: Seq<Seq<char>>, k: int, t: Seq<char>)
    requires
        0 <= k <= s.len(),
    ensures
        occurrences(s.take(k), t) <= occurrences(s, t),
    decreases s.len() - k,
{
    if k < s.len() {
        lemma_occurrences_prefix(s, k + 1, t);
        assert(s.take(k + 1).drop_last() =~= s.take(k));
    } else {
        assert(s.take(k) =~= s);
    }
}

proof fn lemma_all_tags_prefix(pages: Seq<PageView>, k: int)
    requires
        0 <= k <= pages.len(),
    ensures
        all_tags(pages.take(k)).len() <= all_tags(pages).len(),
        all_tags(pages).take(all_tags(pages.take(k)).len() as int) == all_tags(pages.take(k)),
    decreases pages.len() - k,
{
    if k < pages.len() {
        lemma_all_tags_prefix(pages, k + 1);
        let a = all_tags(pages.take(k));
        let b = all_tags(pages.take(k + 1));
        assert(pages.take(k + 1).drop_last() =~= pages.take(k));
        assert(b == a + pages[k].tags);
        assert(all_tags(pages).take(a.len() as int) =~= b.take(a.len() as int));
        assert(b.take(a.len() as int) =~= a);
    } else {
        assert(pages.take(k) =~= pages);
        assert(all_tags(pages).take(all_tags(pages).len() as int) =~= all_tags(pages));
    }
}

/// Counts the links of `pages` into `counts`: afterwards each link text's
/// count has grown by the number of its occurrences among the links of the
/// pages, and the map holds the keys it held and every link text.
pub fn count_links(counts: &mut HashMap<String, u64>, pages: &Vec<Page>)
    requires
        forall|t: Seq<char>| count_of(link_counts(*old(counts)), t) + occurrences(all_tags(pages_view(pages@)), t) <= u64::MAX,
    ensures
        forall|t: Seq<char>| #[trigger] link_counts(*final(counts)).contains_key(t)
            <==> (link_counts(*old(counts)).contains_key(t) || all_tags(pages_view(pages@)).contains(t)),
        forall|t: Seq<char>| #[trigger] count_of(link_counts(*final(counts)), t)
            == count_of(link_counts(*old(counts)), t) + occurrences(all_tags(pages_view(pages@)), t),
{
    let ghost ps = pages_view(pages@);
    let ghost all = all_tags(ps);
    let ghost start = link_counts(*counts);
    let ghost mut seen: Seq<Seq<char>> = Seq::empty();
    let mut i: usize = 0;
    while i < pages.len()
        invariant
            ps == pages_view(pages@),
            all == all_tags(ps),
            forall|t: Seq<char>| count_of(start, t) + occurrences(all, t) <= u64::MAX,
            i <= pages@.len(),
            seen == all_tags(ps.take(i as int)),
            forall|t: Seq<char>| #[trigger] link_counts(*counts).contains_key(t)
                <==> (start.contains_key(t) || seen.contains(t)),
            forall|t: Seq<char>| #[trigger] count_of(link_counts(*counts), t) == count_of(start, t) + occurrences(seen, t),
        decreases pages@.len() - i,
    {
        let page = &pages[i];
        let ghost tv = page@.tags;
        let ghost before = seen;
        proof {
            assert(ps[i as int] == page@);
            assert(ps.take(i + 1).drop_last() =~= ps.take(i as int));
            assert(all_tags(ps.take(i + 1)) == before + tv);
            lemma_all_tags_prefix(ps, i + 1);
        }
        let mut j: usize = 0;
        while j < page.tags.len()
            invariant
                ps == pages_view(pages@),
                all == all_tags(ps),
                forall|t: Seq<char>| count_of(start, t) + occurrences(all, t) <= u64::MAX,
                i < pages@.len(),
                page@ == ps[i as int],
                tv == page@.tags,
                all.take((before + tv).len() as int) == before + tv,
                (before + tv).len() <= all.len(),
                j <= page.tags@.len(),
                seen == before + tv.take(j as int),
                forall|t: Seq<char>| #[trigger] link_counts(*counts).contains_key(t)
                    <==> (start.contains_key(t) || seen.contains(t)),
                forall|t: Seq<char>| #[trigger] count_of(link_counts(*counts), t) == count_of(start, t) + occurrences(seen, t),
            decreases page.tags@.len() - j,
        {
            let link = &page.tags[j];
            let ghost next = seen.push(link@);
            proof {
                assert(tv[j as int] == link@);
                assert(next =~= before + tv.take(j + 1));
                assert(all.take(next.len() as int) =~= next) by {
                    assert((before + tv).take(next.len() as int) =~= next);
                }
                lemma_occurrences_prefix(all, next.len() as int, link@);
                assert(next.drop_last() =~= seen);
            }
            let ghost before_insert = link_counts(*counts);
            let current = match link_counts_get(counts, link) {
                Some(c) => c,
                None => 0,
            };
            proof {
                assert(next.last() == link@);
                assert(occurrences(next, link@) == occurrences(seen, link@) + 1);
                assert(current == count_of(before_insert, link@));
                assert(count_of(before_insert, link@) == count_of(start, link@) + occurrences(seen, link@));
                assert(count_of(start, link@) + occurrences(all, link@) <= u64::MAX);
            }
            link_counts_insert(counts, link.clone(), current + 1);
            proof {
                assert forall|t: Seq<char>| #[trigger] link_counts(*counts).contains_key(t)
                    <==> (start.contains_key(t) || next.contains(t)) by {
                    if next.contains(t) && t != link@ {
                        let k = choose|k: int| 0 <= k < next.len() && next[k] == t;
                        assert(seen[k] == t);
                    }
                    if seen.contains(t) {
                        let k = choose|k: int| 0 <= k < seen.len() && seen[k] == t;
                        assert(next[k] == t);
                    }
                    assert(next[next.len() - 1] == link@);
                }
                assert forall|t: Seq<char>| #[trigger] count_of(link_counts(*counts), t)
                    == count_of(start, t) + occurrences(next, t) by {
                    assert(next.last() == link@);
                    assert(count_of(before_insert, t) == count_of(start, t) + occurrences(seen, t));
                    if t != link@ {
                        assert(occurrences(next, t) == occurrences(seen, t));
                    }
                }
            }
            proof {
                seen = next;
            }
            j = j + 1;
        }
        proof {
            assert(tv.take(j as int) =~= tv);
        }
        i = i + 1;
    }
    proof {
        assert(ps.take(i as int) =~= ps);
    }
}

/// Counts the links of `pages` into a new map: the keys are exactly the
/// link texts, each mapped to its number of occurrences.
pub fn tally_links(pages: &Vec<Page>) -> (counts: HashMap<String, u64>)
    requires
        forall|t: Seq<char>| occurrences(all_tags(pages_view(pages@)), t) <= u64::MAX,
    ensures
        forall|t: Seq<char>| #[trigger] link_counts(counts).contains_key(t) <==> all_tags(pages_view(pages@)).contains(t),
        forall|t: Seq<char>| #[trigger] count_of(link_counts(counts), t) == occurrences(all_tags(pages_view(pages@)), t),
{
    let mut counts = link_counts_new();
    let ghost start = link_counts(counts);
    proof {
        assert forall|t: Seq<char>| count_of(start, t) + occurrences(all_tags(pages_view(pages@)), t) <= u64::MAX by {
            assert(!start.contains_key(t));
        }
    }
    count_links(&mut counts, pages);
    proof {
        assert forall|t: Seq<char>| #[trigger] link_counts(counts).contains_key(t) <==> all_tags(pages_view(pages@)).contains(t) by {
            assert(!start.contains_key(t));
        }
        assert forall|t: Seq<char>| #[trigger] count_of(link_counts(counts), t) == occurrences(all_tags(pages_view(pages@)), t) by {
            assert(!start.contains_key(t));
        }
    }
    counts
}

/// Counting into an empty map: a text is a key exactly when it occurs
/// among the links, and its count is its number of occurrences.
pub proof fn lemma_counts_from_empty(
    before: Map<Seq<char>, u64>,
    after: Map<Seq<char>, u64>,
    links: Seq<Seq<char>>,
    t: Seq<char>,
)
    requires
        before.dom() == Set::<Seq<char>>::empty(),
        forall|u: Seq<char>| #[trigger] after.contains_key(u) <==> (before.contains_key(u) || links.contains(u)),
        forall|u: Seq<char>| #[trigger] count_of(after, u) == count_of(before, u) + occurrences(links, u),
    ensures
        after.contains_key(t) <==> occurrences(links, t) > 0,
        count_of(after, t) == occurrences(links, t),
{
    lemma_occurrences_contains(links, t);
    assert(!before.contains_key(t));
    assert(after.contains_key(t) <==> links.contains(t));
    assert(count_of(after, t) == count_of(before, t) + occurrences(links, t));
}

} // verus!
