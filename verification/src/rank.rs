use vstd::prelude::*;

use crate::page::strings_view;

verus! {

broadcast use vstd::seq_lib::group_to_multiset_ensures;

/// Lexicographic order on pairs of integers.
pub open spec fn pair_le(x: (u64, usize), y: (u64, usize)) -> bool {
    x.0 < y.0 || (x.0 == y.0 && x.1 <= y.1)
}

/// `<[T]>::sort` on a vector of `(u64, usize)` pairs: the vector keeps its
/// elements and ends up in ascending lexicographic order, std's order on
/// tuples.
#[verifier::external_body]
fn sort_pairs(v: &mut Vec<(u64, usize)>)
    ensures
        final(v)@.to_multiset() == old(v)@.to_multiset(),
        forall|a: int, b: int| 0 <= a < b < final(v)@.len() ==> pair_le(#[trigger] final(v)@[a], #[trigger] final(v)@[b]),
{
    v.sort();
}

/// The counts of the pairs.
pub open spec fn pair_counts(pairs: Seq<(String, u64)>) -> Seq<u64> {
    pairs.map_values(|p: (String, u64)| p.1)
}

/// The titles of the pairs.
pub open spec fn pair_titles(pairs: Seq<(String, u64)>) -> Seq<Seq<char>> {
    pairs.map_values(|p: (String, u64)| p.0@)
}

/// `order` ranks the titles with counts `counts`: it lists each position
/// once, by non-increasing count and, among equal counts, by position, and
/// `titles` are the titles at those positions.
pub open spec fn ranked(counts: Seq<u64>, titles_in: Seq<Seq<char>>, order: Seq<usize>, titles: Seq<Seq<char>>) -> bool {
    &&& order.len() == counts.len()
    &&& titles.len() == counts.len()
    &&& order.no_duplicates()
    &&& forall|j: int| 0 <= j < order.len() ==> (#[trigger] order[j] as int) < counts.len()
    &&& forall|j: int| 0 <= j < order.len() ==> #[trigger] titles[j] == titles_in[order[j] as int]
    &&& forall|a: int, b: int| 0 <= a < b < order.len() ==> counts[#[trigger] order[a] as int] >= counts[#[trigger] order[b] as int]
    &&& forall|a: int, b: int| 0 <= a < b < order.len() && counts[#[trigger] order[a] as int] == counts[#[trigger] order[b] as int]
        ==> order[a] < order[b]
}

/// Orders titles by how often they are linked, most linked first: the
/// result lists every title of `pairs` once per entry, by non-increasing
/// count, titles of equal count in input order.
pub fn order_titles(pairs: Vec<(String, u64)>) -> (titles: Vec<String>)
    ensures
        exists|order: Seq<usize>| #[trigger] ranked(
            pair_counts(pairs@),
            pair_titles(pairs@),
            order,
            strings_view(titles@),
        ),
{
    let ghost counts = pair_counts(pairs@);
    let ghost names = pair_titles(pairs@);
    let n = pairs.len();
    let mut keys: Vec<(u64, usize)> = Vec::new();
    let mut i: usize = 0;
    while i < n
        invariant
            n == pairs@.len(),
            counts == pair_counts(pairs@),
            i <= n,
            keys@.len() == i,
            forall|k: int| 0 <= k < i ==> #[trigger] keys@[k] == ((u64::MAX - counts[k]) as u64, k as usize),
        decreases n - i,
    {
        keys.push((u64::MAX - pairs[i].1, i));
        i = i + 1;
    }
    let ghost orig = keys@;
    proof {
        assert(orig.no_duplicates()) by {
            assert forall|a: int, b: int| 0 <= a < orig.len() && 0 <= b < orig.len() && a != b implies orig[a] != orig[b] by {
                assert(orig[a].1 == a && orig[b].1 == b);
            }
        }
        orig.lemma_multiset_has_no_duplicates();
    }
    sort_pairs(&mut keys);
    let ghost sorted = keys@;
    proof {
        assert(sorted.len() == sorted.to_multiset().len());
        assert(orig.len() == orig.to_multiset().len());
        sorted.lemma_multiset_has_no_duplicates_conv();
        assert forall|j: int| 0 <= j < sorted.len() implies (#[trigger] sorted[j]).1 < n && sorted[j] == orig[sorted[j].1 as int] by {
            assert(sorted.to_multiset().count(sorted[j]) > 0);
            assert(orig.contains(sorted[j]));
            let k = choose|k: int| 0 <= k < orig.len() && orig[k] == sorted[j];
        }
    }
    let ghost order = sorted.map_values(|k: (u64, usize)| k.1);
    let mut titles: Vec<String> = Vec::new();
    let mut j: usize = 0;
    while j < n
        invariant
            n == pairs@.len(),
            n == sorted.len(),
            keys@ == sorted,
            names == pair_titles(pairs@),
            order == sorted.map_values(|k: (u64, usize)| k.1),
            forall|k: int| 0 <= k < sorted.len() ==> (#[trigger] sorted[k]).1 < n,
            j <= n,
            titles@.len() == j,
            forall|k: int| 0 <= k < j ==> #[trigger] strings_view(titles@)[k] == names[order[k] as int],
        decreases n - j,
    {
        let idx = keys[j].1;
        let t = pairs[idx].0.clone();
        let ghost before = titles@;
        let ghost before_sv = strings_view(titles@);
        titles.push(t);
        proof {
            assert(strings_view(titles@)[j as int] == names[order[j as int] as int]);
            assert forall|k: int| 0 <= k < j implies #[trigger] strings_view(titles@)[k] == names[order[k] as int] by {
                assert(titles@[k] == before[k]);
                assert(before_sv[k] == names[order[k] as int]);
                assert(strings_view(titles@)[k] == before_sv[k]);
            }
        }
        j = j + 1;
    }
    proof {
        let tv = strings_view(titles@);
        assert forall|a: int, b: int| 0 <= a < b < order.len() implies counts[#[trigger] order[a] as int] >= counts[#[trigger] order[b] as int] by {
            assert(pair_le(sorted[a], sorted[b]));
            assert(sorted[a] == orig[sorted[a].1 as int]);
            assert(sorted[b] == orig[sorted[b].1 as int]);
        }
        assert forall|a: int, b: int| 0 <= a < b < order.len() && counts[#[trigger] order[a] as int] == counts[#[trigger] order[b] as int]
            implies order[a] < order[b] by {
            assert(pair_le(sorted[a], sorted[b]));
            assert(sorted[a] == orig[sorted[a].1 as int]);
            assert(sorted[b] == orig[sorted[b].1 as int]);
            assert(sorted[a] != sorted[b]);
        }
        assert forall|a: int, b: int| 0 <= a < order.len() && 0 <= b < order.len() && a != b implies order[a] != order[b] by {
            assert(sorted[a] == orig[sorted[a].1 as int]);
            assert(sorted[b] == orig[sorted[b].1 as int]);
        }
        assert(ranked(counts, names, order, tv));
    }
    titles
}

} // verus!
