use rustc_hash::FxHashMap;
use vstd::prelude::*;

use crate::graph::lists_view;
use crate::json::{json_link_lists, json_titles, parse_link_lists, parse_titles};
use crate::page::strings_view;

verus! {

/// Declares `rustc_hash::FxBuildHasher`, the hasher builder of `FxHashMap`.
#[verifier::external_type_specification]
#[verifier::external_body]
pub struct ExFxBuildHasher(rustc_hash::FxBuildHasher);

/// What an `FxHashMap<String, usize>` holds: each key, taken by its
/// characters, mapped to its value.
pub uninterp spec fn title_ids(m: FxHashMap<String, usize>) -> Map<Seq<char>, usize>;

/// `FxHashMap::default()`: an empty map.
#[verifier::external_body]
pub(crate) fn title_ids_new() -> (empty: FxHashMap<String, usize>)
    ensures
        title_ids(empty).dom() == Set::<Seq<char>>::empty(),
{
    FxHashMap::default()
}

/// `HashMap::insert` on an `FxHashMap<String, usize>`: afterwards the key maps
/// to the new value and every other key keeps its value. (vstd's own
/// specification of `insert` only holds for key types that obey its key
/// model, which it does not state for `String`; `String`'s `Eq` and `Hash`
/// agree, so std's documented behaviour holds.)
#[verifier::external_body]
pub(crate) fn title_ids_insert(m: &mut FxHashMap<String, usize>, key: String, value: usize)
    ensures
        title_ids(*final(m)) == title_ids(*old(m)).insert(key@, value),
{
    m.insert(key, value);
}

/// `HashMap::get` on an `FxHashMap<String, usize>`: the value stored under
/// the key, or `None` when the key is absent.
#[verifier::external_body]
pub(crate) fn title_ids_get<'a>(m: &'a FxHashMap<String, usize>, key: &String) -> (r: Option<&'a usize>)
    ensures
        match r {
            Some(v) => title_ids(*m).contains_key(key@) && *v == title_ids(*m)[key@],
            None => !title_ids(*m).contains_key(key@),
        },
{
    m.get(key)
}

/// `<[usize]>::sort`: the vector keeps its elements and ends up in
/// ascending order.
#[verifier::external_body]
fn sort_ids(v: &mut Vec<usize>)
    ensures
        final(v)@.to_multiset() == old(v)@.to_multiset(),
        forall|a: int, b: int| 0 <= a < b < final(v)@.len() ==> #[trigger] final(v)@[a] <= #[trigger] final(v)@[b],
{
    v.sort();
}

/// `sorted` holds the elements of `list`, in ascending order.
pub open spec fn sorted_version(list: Seq<usize>, sorted: Seq<usize>) -> bool {
    &&& sorted.to_multiset() == list.to_multiset()
    &&& forall|a: int, b: int| 0 <= a < b < sorted.len() ==> #[trigger] sorted[a] <= #[trigger] sorted[b]
}

/// Sorts the outbound links of every page.
pub fn get_page_links(data: Vec<Vec<usize>>) -> (links: Vec<Vec<usize>>)
    ensures
        links@.len() == data@.len(),
        forall|i: int| 0 <= i < data@.len() ==> sorted_version(data@[i]@, #[trigger] links@[i]@),
{
    let mut data = data;
    let ghost orig = data@;
    let n = data.len();
    let mut i: usize = 0;
    while i < n
        invariant
            n == orig.len(),
            data@.len() == n,
            i <= n,
            forall|k: int| 0 <= k < i ==> sorted_version(orig[k]@, #[trigger] data@[k]@),
            forall|k: int| i <= k < n ==> #[trigger] data@[k] == orig[k],
        decreases n - i,
    {
        sort_ids(&mut data[i]);
        i = i + 1;
    }
    data
}

/// Reads the ordered list of titles from its JSON text: `None` exactly when
/// the text is no JSON array of strings.
pub fn get_id_to_page(text: &str) -> (titles: Option<Vec<String>>)
    ensures
        match titles {
            Some(t) => json_titles(text@) == Some(strings_view(t@)),
            None => json_titles(text@) is None,
        },
{
    parse_titles(text)
}

/// Reads the link lists of the pages from their JSON text and sorts each of
/// them: `None` exactly when the text is no JSON array of lists of ids.
pub fn page_links_from_json(text: &str) -> (links: Option<Vec<Vec<usize>>>)
    ensures
        match links {
            Some(l) => json_link_lists(text@) matches Some(read)
                && l@.len() == read.len()
                && forall|i: int| 0 <= i < read.len() ==> sorted_version(read[i], #[trigger] l@[i]@),
            None => json_link_lists(text@) is None,
        },
{
    match parse_link_lists(text) {
        Some(data) => {
            let ghost read = lists_view(data@);
            let sorted = get_page_links(data);
            proof {
                assert forall|i: int| 0 <= i < read.len() implies sorted_version(read[i], #[trigger] sorted@[i]@) by {
                    assert(read[i] == data@[i]@);
                }
            }
            Some(sorted)
        },
        None => None,
    }
}

/// The map from titles to their positions: a later occurrence of a title
/// overrides an earlier one.
pub open spec fn ids_of(titles: Seq<Seq<char>>) -> Map<Seq<char>, usize>
    decreases titles.len(),
{
    if titles.len() == 0 {
        Map::empty()
    } else {
        ids_of(titles.drop_last()).insert(titles.last(), (titles.len() - 1) as usize)
    }
}

/// Builds the title-to-id map of an ordered list of titles: the id of a
/// title is its position in the list.
pub fn get_page_to_id_hashmap(titles: Vec<String>) -> (m: FxHashMap<String, usize>)
    ensures
        title_ids(m) == ids_of(strings_view(titles@)),
{
    ids_of_titles(&titles)
}

/// Builds the title-to-id map of an ordered list of titles, reading the list.
pub(crate) fn ids_of_titles(titles: &Vec<String>) -> (m: FxHashMap<String, usize>)
    ensures
        title_ids(m) == ids_of(strings_view(titles@)),
{
    let ghost tv = strings_view(titles@);
    let mut m = title_ids_new();
    let mut i: usize = 0;
    let ghost orig = titles@;
    let n = titles.len();
    // Walk the titles in order; a later title overrides an earlier equal one.
    while i < n
        invariant
            n == orig.len(),
            i <= n,
            titles@ == orig,
            tv == strings_view(orig),
            title_ids(m) == ids_of(tv.take(i as int)),
        decreases n - i,
    {
        let key = titles[i].clone();
        proof {
            assert(tv.take(i + 1).drop_last() =~= tv.take(i as int));
            assert(tv.take(i + 1).last() == tv[i as int]);
        }
        title_ids_insert(&mut m, key, i);
        i = i + 1;
    }
    proof {
        assert(tv.take(n as int) =~= tv);
    }
    m
}

/// Every title of the list is a key of its id map, its id points back to an
/// equal title, and no equal title stands after that id: the id of a title
/// is the position of its last occurrence.
pub proof fn lemma_ids_of_last_occurrence(titles: Seq<Seq<char>>, i: int)
    requires
        0 <= i < titles.len(),
        titles.len() <= usize::MAX,
    ensures
        ids_of(titles).contains_key(titles[i]),
        i <= ids_of(titles)[titles[i]] < titles.len(),
        titles[ids_of(titles)[titles[i]] as int] == titles[i],
        forall|j: int| ids_of(titles)[titles[i]] < j < titles.len() ==> titles[j] != titles[i],
    decreases titles.len(),
{
    let n = titles.len();
    if titles.last() != titles[i] {
        let prefix = titles.drop_last();
        assert(i < n - 1);
        assert(prefix[i] == titles[i]);
        lemma_ids_of_last_occurrence(prefix, i);
        assert(ids_of(titles)[titles[i]] == ids_of(prefix)[prefix[i]]);
        let k = ids_of(prefix)[prefix[i]] as int;
        assert(titles[k] == prefix[k]);
        assert forall|j: int| k < j < n implies titles[j] != titles[i] by {
            if j < n - 1 {
                assert(titles[j] == prefix[j]);
            }
        }
    }
}

/// The keys of the id map are exactly the titles of the list.
pub proof fn lemma_ids_of_keys(titles: Seq<Seq<char>>)
    ensures
        ids_of(titles).dom() == titles.to_set(),
    decreases titles.len(),
{
    if titles.len() > 0 {
        lemma_ids_of_keys(titles.drop_last());
        assert(titles =~= titles.drop_last().push(titles.last()));
        titles.drop_last().lemma_push_to_set_commute(titles.last());
    }
}

/// When no title occurs twice, the id of each title is its position.
pub proof fn lemma_ids_of_distinct(titles: Seq<Seq<char>>, i: int)
    requires
        0 <= i < titles.len(),
        titles.len() <= usize::MAX,
        titles.no_duplicates(),
    ensures
        ids_of(titles)[titles[i]] == i,
{
    lemma_ids_of_last_occurrence(titles, i);
}

} // verus!
