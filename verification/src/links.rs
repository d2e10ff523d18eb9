use rustc_hash::FxHashMap;
use vstd::prelude::*;

use crate::graph::{links_closed, lists_view};
use crate::ids::{ids_of, lemma_ids_of_last_occurrence, title_ids, title_ids_get, title_ids_insert};
use crate::page::{strings_view, Page};

verus! {

/// Every id in the map names one of the `n` link lists.
pub open spec fn ids_in_range(ids: Map<Seq<char>, usize>, n: int) -> bool {
    forall|t: Seq<char>| #[trigger] ids.contains_key(t) ==> (ids[t] as int) < n
}

/// The ids of the titles that have one, in order.
pub open spec fn known_ids(tags: Seq<Seq<char>>, ids: Map<Seq<char>, usize>) -> Seq<usize>
    decreases tags.len(),
{
    if tags.len() == 0 {
        Seq::empty()
    } else {
        let rest = known_ids(tags.drop_last(), ids);
        if ids.contains_key(tags.last()) {
            rest.push(ids[tags.last()])
        } else {
            rest
        }
    }
}

/// One id per link that has one, repeats included: the ids found are, in
/// order, the ids of the links whose title is in the map, so there are
/// exactly as many as there are such links.
pub proof fn lemma_known_ids_one_per_known_link(tags: Seq<Seq<char>>, ids: Map<Seq<char>, usize>)
    ensures
        known_ids(tags, ids) == tags.filter(|t: Seq<char>| ids.contains_key(t)).map_values(|t: Seq<char>| ids[t]),
        known_ids(tags, ids).len() == tags.filter(|t: Seq<char>| ids.contains_key(t)).len(),
    decreases tags.len(),
{
    reveal(Seq::filter);
    let known = |t: Seq<char>| ids.contains_key(t);
    let id_of = |t: Seq<char>| ids[t];
    if tags.len() > 0 {
        lemma_known_ids_one_per_known_link(tags.drop_last(), ids);
        let prev = tags.drop_last().filter(known);
        if known(tags.last()) {
            assert(tags.filter(known) == prev.push(tags.last()));
            assert(prev.push(tags.last()).map_values(id_of) =~= prev.map_values(id_of).push(ids[tags.last()]));
        } else {
            assert(tags.filter(known) == prev);
        }
    } else {
        assert(tags.filter(known).map_values(id_of) =~= Seq::<usize>::empty());
    }
}

/// The ids found for links are ids of the map.
proof fn lemma_known_ids_in_range(tags: Seq<Seq<char>>, ids: Map<Seq<char>, usize>, n: int)
    requires
        ids_in_range(ids, n),
    ensures
        forall|k: int| 0 <= k < known_ids(tags, ids).len() ==> (#[trigger] known_ids(tags, ids)[k] as int) < n,
    decreases tags.len(),
{
    if tags.len() > 0 {
        lemma_known_ids_in_range(tags.drop_last(), ids, n);
        let rest = known_ids(tags.drop_last(), ids);
        assert forall|k: int| 0 <= k < known_ids(tags, ids).len() implies (#[trigger] known_ids(tags, ids)[k] as int) < n by {
            if k < rest.len() {
                assert(known_ids(tags, ids)[k] == rest[k]);
            } else {
                assert(ids.contains_key(tags.last()));
            }
        }
    }
}

/// The id map after a page titled `name` is seen: an unknown title gets the
/// next free id, `n`.
pub open spec fn ids_after(ids: Map<Seq<char>, usize>, name: Seq<char>, n: int) -> Map<Seq<char>, usize> {
    if ids.contains_key(name) { ids } else { ids.insert(name, n as usize) }
}

/// The link lists after a page titled `name` with links `tags` is seen: an
/// unknown title gets a new empty list, then the ids of the links that have
/// one are appended to the page's list.
pub open spec fn links_after(
    ids: Map<Seq<char>, usize>,
    links: Seq<Seq<usize>>,
    name: Seq<char>,
    tags: Seq<Seq<char>>,
) -> Seq<Seq<usize>> {
    let base = if ids.contains_key(name) { links } else { links.push(Seq::empty()) };
    let new_ids = ids_after(ids, name, links.len() as int);
    let id = new_ids[name] as int;
    base.update(id, base[id] + known_ids(tags, new_ids))
}

/// Records the links of `page` in the link lists: the page gets an id if
/// its title has none, and the ids of its links that have one are appended
/// to its list, in order.
pub fn link_page(page_ids: &mut FxHashMap<String, usize>, page_links: &mut Vec<Vec<usize>>, page: Page)
    requires
        ids_in_range(title_ids(*old(page_ids)), old(page_links)@.len() as int),
        old(page_links)@.len() < usize::MAX,
    ensures
        title_ids(*final(page_ids)) == ids_after(title_ids(*old(page_ids)), page@.name, old(page_links)@.len() as int),
        lists_view(final(page_links)@) == links_after(
            title_ids(*old(page_ids)),
            lists_view(old(page_links)@),
            page@.name,
            page@.tags,
        ),
        ids_in_range(title_ids(*final(page_ids)), final(page_links)@.len() as int),
        links_closed(lists_view(old(page_links)@)) ==> links_closed(lists_view(final(page_links)@)),
{
    let ghost ids0 = title_ids(*page_ids);
    let ghost links0 = lists_view(page_links@);
    let known = match title_ids_get(page_ids, &page.name) {
        Some(_) => true,
        None => false,
    };
    if !known {
        let next = page_links.len();
        title_ids_insert(page_ids, page.name.clone(), next);
        page_links.push(Vec::new());
        proof {
            assert(lists_view(page_links@) =~= links0.push(Seq::empty()));
        }
    }
    let ghost ids1 = title_ids(*page_ids);
    let ghost base = lists_view(page_links@);
    proof {
        assert(ids1 == ids_after(ids0, page@.name, links0.len() as int));
        assert(ids_in_range(ids1, page_links@.len() as int));
    }
    let id = match title_ids_get(page_ids, &page.name) {
        Some(i) => *i,
        None => {
            proof {
                assert(false);
            }
            0
        },
    };
    let ghost tv = page@.tags;
    let tags = &page.tags;
    let mut j: usize = 0;
    while j < tags.len()
        invariant
            title_ids(*page_ids) == ids1,
            ids_in_range(ids1, base.len() as int),
            (id as int) < base.len(),
            id == ids1[page@.name],
            tv == strings_view(tags@),
            j <= tags@.len(),
            page_links@.len() == base.len(),
            lists_view(page_links@) == base.update(id as int, base[id as int] + known_ids(tv.take(j as int), ids1)),
        decreases tags@.len() - j,
    {
        let tag = &tags[j];
        proof {
            assert(tv.take(j + 1).drop_last() =~= tv.take(j as int));
            assert(tv.take(j + 1).last() == tag@);
        }
        match title_ids_get(page_ids, tag) {
            Some(tag_id) => {
                let ghost prev = lists_view(page_links@);
                let ghost prev_vec = page_links@;
                let ghost k_prev = known_ids(tv.take(j as int), ids1);
                page_links[id].push(*tag_id);
                proof {
                    assert(known_ids(tv.take(j + 1), ids1) == k_prev.push(*tag_id));
                    assert(page_links@[id as int]@ == prev_vec[id as int]@.push(*tag_id));
                    assert(forall|k: int| 0 <= k < page_links@.len() && k != id ==> page_links@[k] == prev_vec[k]);
                    assert(prev[id as int] == base[id as int] + k_prev);
                    assert(base[id as int] + k_prev.push(*tag_id) =~= (base[id as int] + k_prev).push(*tag_id));
                    let target = base.update(id as int, base[id as int] + known_ids(tv.take(j + 1), ids1));
                    assert forall|k: int| 0 <= k < page_links@.len() implies lists_view(page_links@)[k] == target[k] by {
                        assert(lists_view(page_links@)[k] == page_links@[k]@);
                        assert(prev[k] == prev_vec[k]@);
                        if k == id {
                            assert(prev[k] == base[id as int] + k_prev);
                        }
                    }
                    assert(lists_view(page_links@) =~= target);
                }
            },
            None => {
                proof {
                    assert(known_ids(tv.take(j + 1), ids1) == known_ids(tv.take(j as int), ids1));
                }
            },
        }
        j = j + 1;
    }
    proof {
        assert(tv.take(j as int) =~= tv);
        let fin = lists_view(page_links@);
        if links_closed(links0) {
            lemma_known_ids_in_range(tv, ids1, base.len() as int);
            assert forall|v: int, k: int| 0 <= v < fin.len() && 0 <= k < fin[v].len() implies (#[trigger] fin[v][k] as int) < fin.len() by {
                if v == id {
                    let b = base[id as int];
                    if k >= b.len() {
                        assert(fin[v][k] == known_ids(tv, ids1)[k - b.len()]);
                    } else {
                        assert(fin[v][k] == b[k]);
                        if v < links0.len() {
                            assert(b[k] == links0[v][k]);
                        }
                    }
                } else {
                    assert(fin[v] == base[v]);
                    if v < links0.len() {
                        assert(base[v] == links0[v]);
                    }
                }
            }
        }
    }
}

/// `n` empty link lists, one for each id.
pub fn empty_links(n: usize) -> (links: Vec<Vec<usize>>)
    ensures
        links@.len() == n,
        forall|i: int| 0 <= i < n ==> (#[trigger] links@[i])@.len() == 0,
{
    let mut links: Vec<Vec<usize>> = Vec::new();
    let mut i: usize = 0;
    while i < n
        invariant
            i <= n,
            links@.len() == i,
            forall|k: int| 0 <= k < i ==> (#[trigger] links@[k])@.len() == 0,
        decreases n - i,
    {
        links.push(Vec::new());
        i = i + 1;
    }
    links
}

/// The ids that an ordered list of titles gives name positions of the list.
pub proof fn lemma_ids_of_in_range(titles: Seq<Seq<char>>)
    requires
        titles.len() <= usize::MAX,
    ensures
        ids_in_range(ids_of(titles), titles.len() as int),
{
    crate::ids::lemma_ids_of_keys(titles);
    assert forall|t: Seq<char>| #[trigger] ids_of(titles).contains_key(t) implies (ids_of(titles)[t] as int) < titles.len() by {
        assert(titles.to_set().contains(t));
        let i = choose|i: int| 0 <= i < titles.len() && titles[i] == t;
        lemma_ids_of_last_occurrence(titles, i);
    }
}

} // verus!
