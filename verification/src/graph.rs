use rayon::iter::IntoParallelRefIterator;
use rayon::iter::ParallelIterator;
use rustc_hash::FxHashMap;
use vstd::prelude::*;

use crate::ids::{get_id_to_page, get_page_links, page_links_from_json, ids_of, ids_of_titles, lemma_ids_of_distinct, lemma_ids_of_last_occurrence, sorted_version, title_ids, title_ids_get};
use crate::json::{json_link_lists, json_titles};
use crate::page::strings_view;

verus! {

/// Step `i` of `p` follows a link: `p[i + 1]` is among the links of `p[i]`.
pub open spec fn linked(g: Seq<Seq<usize>>, p: Seq<usize>, i: int) -> bool {
    g[p[i] as int].contains(p[i + 1])
}

/// `p` is a walk through the link graph `g`: at least one id, every id that
/// a step leaves a page of `g`, and every step a link (the last id need not
/// be a page: a link may lead outside the graph).
pub open spec fn is_walk(g: Seq<Seq<usize>>, p: Seq<usize>) -> bool {
    &&& p.len() >= 1
    &&& forall|i: int| 0 <= i < p.len() - 1 ==> (#[trigger] p[i] as int) < g.len()
    &&& forall|i: int| 0 <= i < p.len() - 1 ==> #[trigger] linked(g, p, i)
}

/// `p` is a walk of at least one link from `from` to `to`.
pub open spec fn walk_between(g: Seq<Seq<usize>>, p: Seq<usize>, from: usize, to: usize) -> bool {
    &&& is_walk(g, p)
    &&& p.len() >= 2
    &&& p[0] == from
    &&& p.last() == to
}

/// Some walk from `from` to `to` follows at least one and at most `n` links.
pub open spec fn reaches_within(g: Seq<Seq<usize>>, from: usize, to: usize, n: int) -> bool {
    exists|p: Seq<usize>| #[trigger] walk_between(g, p, from, to) && p.len() <= n + 1
}

/// Every link of `g` leads to an id of `g`.
pub open spec fn links_closed(g: Seq<Seq<usize>>) -> bool {
    forall|v: int, j: int| 0 <= v < g.len() && 0 <= j < g[v].len() ==> (#[trigger] g[v][j] as int) < g.len()
}

/// The bound on the number of links of a walk that a search with `ttl` explores.
pub open spec fn search_depth(ttl: usize) -> int {
    if ttl == 0 { 1 } else { ttl as int }
}

/// The search from `v` for `to` with depth `ttl` only reads link lists of
/// pages of the graph, whatever order its parallel branches run in: `v` is
/// a page, and unless `v` links to `to` directly, every round of deepening
/// that the search reaches reads safe searches only.
pub open spec fn search_safe(g: Seq<Seq<usize>>, v: usize, to: usize, ttl: usize) -> bool
    decreases ttl, ttl + 1,
{
    &&& (v as int) < g.len()
    &&& (g[v as int].contains(to) || rounds_safe(g, v, to, 1, ttl))
}

/// Rounds `i` to `ttl - 1` of the search from `v` are safe: each round
/// searches every page `v` links to with depth `i`, and the next round
/// only runs when this one found no walk.
pub open spec fn rounds_safe(g: Seq<Seq<usize>>, v: usize, to: usize, i: usize, ttl: usize) -> bool
    decreases ttl, ttl - i + 1,
{
    if i >= ttl || !((v as int) < g.len()) {
        true
    } else {
        &&& forall|k: int| 0 <= k < g[v as int].len() ==> search_safe(g, #[trigger] g[v as int][k], to, i)
        &&& (reaches_within(g, v, to, i + 1) || rounds_safe(g, v, to, (i + 1) as usize, ttl))
    }
}

/// In a graph whose links all lead to pages, every search from a page is safe.
pub proof fn lemma_closed_search_safe(g: Seq<Seq<usize>>, v: usize, to: usize, ttl: usize)
    requires
        links_closed(g),
        (v as int) < g.len(),
    ensures
        search_safe(g, v, to, ttl),
    decreases ttl, ttl + 1,
{
    lemma_closed_rounds_safe(g, v, to, 1, ttl);
}

proof fn lemma_closed_rounds_safe(g: Seq<Seq<usize>>, v: usize, to: usize, i: usize, ttl: usize)
    requires
        links_closed(g),
        (v as int) < g.len(),
        i >= 1,
    ensures
        rounds_safe(g, v, to, i, ttl),
    decreases ttl, ttl - i + 1,
{
    if i < ttl {
        assert forall|k: int| 0 <= k < g[v as int].len() implies search_safe(g, #[trigger] g[v as int][k], to, i) by {
            lemma_closed_search_safe(g, g[v as int][k], to, i);
        }
        lemma_closed_rounds_safe(g, v, to, (i + 1) as usize, ttl);
    }
}

/// The views of the link lists.
pub open spec fn lists_view(v: Seq<Vec<usize>>) -> Seq<Seq<usize>> {
    v.map_values(|l: Vec<usize>| l@)
}

/// Prefixing a walk from `c` with a page that links to `c` gives a walk.
proof fn lemma_prefix_walk(g: Seq<Seq<usize>>, v: usize, p: Seq<usize>, to: usize)
    requires
        (v as int) < g.len(),
        is_walk(g, p),
        p.last() == to,
        g[v as int].contains(p[0]),
    ensures
        walk_between(g, seq![v] + p, v, to),
{
    let q = seq![v] + p;
    assert forall|i: int| 0 <= i < q.len() - 1 implies (#[trigger] q[i] as int) < g.len() by {
        if i > 0 {
            assert(q[i] == p[i - 1]);
        }
    }
    assert forall|i: int| 0 <= i < q.len() - 1 implies #[trigger] linked(g, q, i) by {
        if i > 0 {
            assert(q[i] == p[i - 1] && q[i + 1] == p[i]);
            assert(linked(g, p, i - 1));
        }
    }
}

/// When `from` does not link to `to` and no page it links to reaches `to`
/// within `n` links, `from` does not reach `to` within `n + 1` links.
proof fn lemma_no_walk_step(g: Seq<Seq<usize>>, from: usize, to: usize, n: int)
    requires
        (from as int) < g.len(),
        n >= 1,
        !g[from as int].contains(to),
        forall|j: int| 0 <= j < g[from as int].len() ==> !reaches_within(g, #[trigger] g[from as int][j], to, n),
    ensures
        !reaches_within(g, from, to, n + 1),
{
    if reaches_within(g, from, to, n + 1) {
        let p = choose|p: Seq<usize>| #[trigger] walk_between(g, p, from, to) && p.len() <= n + 2;
        assert(linked(g, p, 0));
        if p.len() == 2 {
            assert(p.last() == p[1]);
        } else {
            let q = p.drop_first();
            assert forall|i: int| 0 <= i < q.len() - 1 implies (#[trigger] q[i] as int) < g.len() by {
                assert(q[i] == p[i + 1]);
            }
            assert forall|i: int| 0 <= i < q.len() - 1 implies #[trigger] linked(g, q, i) by {
                assert(q[i] == p[i + 1] && q[i + 1] == p[i + 2]);
                assert(linked(g, p, i + 1));
            }
            assert(walk_between(g, q, p[1], to));
            let j = choose|j: int| 0 <= j < g[from as int].len() && g[from as int][j] == p[1];
            assert(!reaches_within(g, g[from as int][j], to, n));
        }
    }
}

/// A walk of at most `n` links is also one of at most `m >= n` links.
proof fn lemma_reaches_monotone(g: Seq<Seq<usize>>, from: usize, to: usize, n: int, m: int)
    requires
        n <= m,
        !reaches_within(g, from, to, m),
    ensures
        !reaches_within(g, from, to, n),
{
}

/// rayon's `find_map_any` over the items of a vector: calls `search` on
/// the items, in parallel and in no fixed order, and returns some result
/// that is not `None`, or `None` when every call returned `None`.
#[verifier::external_body]
fn par_find_map_any<F>(items: &Vec<usize>, search: F) -> (found: Option<Vec<usize>>)
    where
        F: Fn(&usize) -> Option<Vec<usize>> + Sync + Send,
    requires
        forall|k: int| 0 <= k < items@.len() ==> search.requires((&items@[k],)),
    ensures
        match found {
            Some(p) => exists|k: int| 0 <= k < items@.len() && search.ensures((&items@[k],), Some(p)),
            None => forall|k: int| 0 <= k < items@.len() ==> search.ensures((&items@[k],), None),
        },
{
    items.par_iter().find_map_any(search)
}

/// The link graph of the wiki: the titles by id, the id of each title, and
/// the outbound links of each page.
pub struct Jason {
    outbound_links: Vec<Vec<usize>>,
    page_names: Vec<String>,
    page_ids: FxHashMap<String, usize>,
}

impl Jason {
    /// The outbound links of each page, by id.
    pub closed spec fn links(&self) -> Seq<Seq<usize>> {
        lists_view(self.outbound_links@)
    }

    /// The title of each page, by id.
    pub closed spec fn names(&self) -> Seq<Seq<char>> {
        strings_view(self.page_names@)
    }

    /// The id of each title.
    pub closed spec fn ids(&self) -> Map<Seq<char>, usize> {
        title_ids(self.page_ids)
    }

    /// Builds the graph from the ordered titles and the loaded link lists:
    /// the id of a title is its last position in the list, and every link
    /// list is sorted.
    pub fn new(page_names: Vec<String>, outbound_links: Vec<Vec<usize>>) -> (j: Self)
        ensures
            j.names() == strings_view(page_names@),
            j.ids() == ids_of(j.names()),
            j.links().len() == outbound_links@.len(),
            forall|i: int| 0 <= i < outbound_links@.len() ==> sorted_version(outbound_links@[i]@, #[trigger] j.links()[i]),
    {
        let page_ids = ids_of_titles(&page_names);
        let outbound_links = get_page_links(outbound_links);
        Jason { outbound_links, page_names, page_ids }
    }

    /// Builds the graph from the JSON texts of the ordered titles and of the
    /// link lists: `None` exactly when either text cannot be read.
    pub fn from_json(titles_text: &str, links_text: &str) -> (j: Option<Self>)
        ensures
            match j {
                Some(g) => {
                    &&& json_titles(titles_text@) == Some(g.names())
                    &&& g.ids() == ids_of(g.names())
                    &&& json_link_lists(links_text@) matches Some(read)
                    &&& g.links().len() == read.len()
                    &&& forall|i: int| 0 <= i < read.len() ==> sorted_version(read[i], #[trigger] g.links()[i])
                },
                None => json_titles(titles_text@) is None || json_link_lists(links_text@) is None,
            },
    {
        let page_names = match get_id_to_page(titles_text) {
            Some(t) => t,
            None => return None,
        };
        let outbound_links = match page_links_from_json(links_text) {
            Some(l) => l,
            None => return None,
        };
        let page_ids = ids_of_titles(&page_names);
        let j = Jason { outbound_links, page_names, page_ids };
        proof {
            let read = json_link_lists(links_text@)->0;
            assert forall|i: int| 0 <= i < read.len() implies sorted_version(read[i], #[trigger] j.links()[i]) by {
                assert(j.links()[i] == outbound_links@[i]@);
            }
        }
        Some(j)
    }

    /// With the id map built from the titles, the id of the title of page
    /// `i` names a page with that title, and, when no title occurs twice,
    /// it is `i` itself.
    pub proof fn lemma_id_of_name(&self, i: int)
        requires
            self.ids() == ids_of(self.names()),
            self.names().len() <= usize::MAX,
            0 <= i < self.names().len(),
        ensures
            self.ids().contains_key(self.names()[i]),
            self.names()[self.ids()[self.names()[i]] as int] == self.names()[i],
            self.names().no_duplicates() ==> self.ids()[self.names()[i]] == i,
    {
        lemma_ids_of_last_occurrence(self.names(), i);
        if self.names().no_duplicates() {
            lemma_ids_of_distinct(self.names(), i);
        }
    }

    /// Whether every link leads to a page of the graph.
    pub fn links_closed(&self) -> (b: bool)
        ensures
            b == links_closed(self.links()),
    {
        let n = self.outbound_links.len();
        let mut v: usize = 0;
        while v < n
            invariant
                n == self.links().len(),
                v <= n,
                forall|u: int, j: int| 0 <= u < v && 0 <= j < self.links()[u].len() ==> (#[trigger] self.links()[u][j] as int) < n,
            decreases n - v,
        {
            let list = &self.outbound_links[v];
            let mut j: usize = 0;
            while j < list.len()
                invariant
                    n == self.links().len(),
                    v < n,
                    list@ == self.links()[v as int],
                    j <= list@.len(),
                    forall|u: int, k: int| 0 <= u < v && 0 <= k < self.links()[u].len() ==> (#[trigger] self.links()[u][k] as int) < n,
                    forall|k: int| 0 <= k < j ==> (#[trigger] list@[k] as int) < n,
                decreases list@.len() - j,
            {
                if list[j] >= n {
                    assert(self.links()[v as int][j as int] == list@[j as int]);
                    return false;
                }
                j = j + 1;
            }
            v = v + 1;
        }
        true
    }

    /// The number of pages that have a list of outbound links.
    pub fn page_count(&self) -> (n: usize)
        ensures
            n == self.links().len(),
    {
        self.outbound_links.len()
    }

    /// The number of titles.
    pub fn name_count(&self) -> (n: usize)
        ensures
            n == self.names().len(),
    {
        self.page_names.len()
    }

    /// The title of page `id`.
    pub fn get_name(&self, id: usize) -> (name: &String)
        requires
            (id as int) < self.names().len(),
        ensures
            name@ == self.names()[id as int],
    {
        &self.page_names[id]
    }

    /// The id of the page titled `name`, if there is one.
    pub fn get_id(&self, name: &String) -> (id: Option<&usize>)
        ensures
            match id {
                Some(i) => self.ids().contains_key(name@) && *i == self.ids()[name@],
                None => !self.ids().contains_key(name@),
            },
    {
        title_ids_get(&self.page_ids, name)
    }

    /// The outbound links of page `id`.
    pub fn get_links(&self, id: usize) -> (links: &Vec<usize>)
        requires
            (id as int) < self.links().len(),
        ensures
            links@ == self.links()[id as int],
    {
        &self.outbound_links[id]
    }

    /// Whether page `from` links to page `to`.
    fn has_link(&self, from: usize, to: usize) -> (b: bool)
        requires
            (from as int) < self.links().len(),
        ensures
            b == self.links()[from as int].contains(to),
    {
        let list = &self.outbound_links[from];
        let mut j: usize = 0;
        while j < list.len()
            invariant
                list@ == self.links()[from as int],
                j <= list@.len(),
                forall|k: int| 0 <= k < j ==> list@[k] != to,
            decreases list@.len() - j,
        {
            if list[j] == to {
                return true;
            }
            j = j + 1;
        }
        false
    }

    /// Whether the search from `v` for `to` with depth `ttl` only reads link
    /// lists of pages of the graph (costs about as much as the search).
    pub fn search_is_safe(&self, v: usize, to: usize, ttl: usize) -> (b: bool)
        ensures
            b == search_safe(self.links(), v, to, ttl),
        decreases ttl, ttl + 1,
    {
        if v >= self.outbound_links.len() {
            return false;
        }
        if self.has_link(v, to) {
            return true;
        }
        self.rounds_are_safe(v, to, 1, ttl)
    }

    /// Whether rounds `i` to `ttl - 1` of the search from `v` are safe.
    fn rounds_are_safe(&self, v: usize, to: usize, i: usize, ttl: usize) -> (b: bool)
        requires
            (v as int) < self.links().len(),
            !self.links()[v as int].contains(to),
            i >= 1,
        ensures
            b == rounds_safe(self.links(), v, to, i, ttl),
        decreases ttl, ttl - i + 1,
    {
        if i >= ttl {
            return true;
        }
        let ghost g = self.links();
        let conns = &self.outbound_links[v];
        let mut k: usize = 0;
        while k < conns.len()
            invariant
                g == self.links(),
                (v as int) < g.len(),
                conns@ == g[v as int],
                1 <= i < ttl,
                k <= conns@.len(),
                forall|kk: int| 0 <= kk < k ==> search_safe(g, #[trigger] g[v as int][kk], to, i),
            decreases conns@.len() - k,
        {
            proof {
                assert(g[v as int][k as int] == conns@[k as int]);
            }
            if !self.search_is_safe(conns[k], to, i) {
                return false;
            }
            k = k + 1;
        }
        let mut k: usize = 0;
        while k < conns.len()
            invariant
                g == self.links(),
                (v as int) < g.len(),
                conns@ == g[v as int],
                !g[v as int].contains(to),
                1 <= i < ttl,
                k <= conns@.len(),
                forall|kk: int| 0 <= kk < conns@.len() ==> search_safe(g, #[trigger] g[v as int][kk], to, i),
                forall|kk: int| 0 <= kk < k ==> !reaches_within(g, #[trigger] g[v as int][kk], to, i as int),
            decreases conns@.len() - k,
        {
            let conn = conns[k];
            proof {
                assert(g[v as int][k as int] == conn);
            }
            match self.find_path(conn, to, i) {
                Some(p) => {
                    proof {
                        assert(g[v as int].contains(conn));
                        lemma_prefix_walk(g, v, p@, to);
                        assert(walk_between(g, seq![v] + p@, v, to));
                        assert(reaches_within(g, v, to, i + 1));
                    }
                    return true;
                },
                None => {},
            }
            k = k + 1;
        }
        proof {
            lemma_no_walk_step(g, v, to, i as int);
        }
        self.rounds_are_safe(v, to, i + 1, ttl)
    }

    /// Searches a shortest walk from `from` to `to` of at most `ttl` links
    /// (at most one link when `ttl` is 0), deepening the search one link at
    /// a time.
    pub fn find_path_root(&self, from: usize, to: usize, ttl: usize) -> (path: Option<Vec<usize>>)
        requires
            search_safe(self.links(), from, to, ttl),
        ensures
            match path {
                Some(p) => {
                    &&& walk_between(self.links(), p@, from, to)
                    &&& p@.len() <= search_depth(ttl) + 1
                    &&& !reaches_within(self.links(), from, to, p@.len() - 2)
                },
                None => !reaches_within(self.links(), from, to, search_depth(ttl)),
            },
    {
        self.find_path(from, to, ttl)
    }

    /// Searches a shortest walk from `from` to `to` of at most `ttl` links
    /// (at most one link when `ttl` is 0): a direct link first, then, for
    /// each depth `i` below `ttl`, a walk of at most `i` links from the
    /// linked pages, searched in parallel; which of several shortest walks
    /// comes back depends on the scheduling.
    pub fn find_path(&self, from: usize, to: usize, ttl: usize) -> (path: Option<Vec<usize>>)
        requires
            search_safe(self.links(), from, to, ttl),
        ensures
            match path {
                Some(p) => {
                    &&& walk_between(self.links(), p@, from, to)
                    &&& p@.len() <= search_depth(ttl) + 1
                    &&& !reaches_within(self.links(), from, to, p@.len() - 2)
                },
                None => !reaches_within(self.links(), from, to, search_depth(ttl)),
            },
        decreases ttl,
    {
        let ghost g = self.links();
        if self.has_link(from, to) {
            let mut p: Vec<usize> = Vec::new();
            p.push(from);
            p.push(to);
            proof {
                assert(linked(g, p@, 0));
                assert(g[from as int].contains(to));
                let k = choose|k: int| 0 <= k < g[from as int].len() && g[from as int][k] == to;
                assert(g[from as int][k] == to);
                assert(is_walk(g, p@));
            }
            return Some(p);
        }
        proof {
            if reaches_within(g, from, to, 1) {
                let p = choose|p: Seq<usize>| #[trigger] walk_between(g, p, from, to) && p.len() <= 2;
                assert(linked(g, p, 0));
                assert(p.last() == p[1]);
            }
        }
        let connections = &self.outbound_links[from];
        let mut i: usize = 1;
        while i < ttl
            invariant
                g == self.links(),
                (from as int) < g.len(),
                rounds_safe(g, from, to, i, ttl),
                connections@ == g[from as int],
                !g[from as int].contains(to),
                1 <= i,
                i <= ttl || ttl == 0,
                !reaches_within(g, from, to, i as int),
            decreases ttl - i,
        {
            let depth = i;
            let search = |conn: &usize| -> (r: Option<Vec<usize>>)
                requires
                    search_safe(self.links(), *conn, to, depth),
                    depth < ttl,
                ensures
                    match r {
                        Some(p) => {
                            &&& walk_between(self.links(), p@, *conn, to)
                            &&& p@.len() <= depth + 1
                        },
                        None => !reaches_within(self.links(), *conn, to, depth as int),
                    },
                { self.find_path(*conn, to, depth) };
            proof {
                assert forall|k: int| 0 <= k < connections@.len() implies search.requires((&connections@[k],)) by {
                    assert(g[from as int][k] == connections@[k]);
                }
            }
            match par_find_map_any(connections, search) {
                Some(rest) => {
                    let ghost found_vec = rest;
                    let ghost found = rest@;
                    let mut p: Vec<usize> = Vec::new();
                    p.push(from);
                    let mut rest = rest;
                    p.append(&mut rest);
                    proof {
                        let k = choose|k: int| 0 <= k < connections@.len() && search.ensures((&connections@[k],), Some(found_vec));
                        assert(g[from as int][k] == connections@[k]);
                        assert(walk_between(g, found, connections@[k], to));
                        lemma_prefix_walk(g, from, found, to);
                        assert(p@ =~= seq![from] + found);
                        lemma_reaches_monotone(g, from, to, p@.len() - 2, i as int);
                    }
                    return Some(p);
                },
                None => {},
            }
            proof {
                lemma_no_walk_step(g, from, to, i as int);
            }
            i = i + 1;
        }
        None
    }
}

} // verus!
