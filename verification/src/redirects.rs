use rayon::iter::IndexedParallelIterator;
use rayon::iter::IntoParallelRefIterator;
use rayon::iter::ParallelIterator;
use vstd::prelude::*;

use crate::page::{strings_view, Page, PageView};
use crate::parser::pages_view;

verus! {

/// The views of redirect pairs: (title, target).
pub open spec fn redirects_view(r: Seq<(String, String)>) -> Seq<(Seq<char>, Seq<char>)> {
    r.map_values(|p: (String, String)| (p.0@, p.1@))
}

/// Where a link leads: the target of the first redirect whose title is the
/// link, or the link itself when no redirect has it as title.
pub open spec fn resolve(tag: Seq<char>, redirects: Seq<(Seq<char>, Seq<char>)>) -> Seq<char>
    decreases redirects.len(),
{
    if redirects.len() == 0 {
        tag
    } else if redirects[0].0 == tag {
        redirects[0].1
    } else {
        resolve(tag, redirects.drop_first())
    }
}

/// The redirect pages as (title, target) pairs, in order.
pub open spec fn redirect_pairs(pages: Seq<PageView>) -> Seq<(Seq<char>, Seq<char>)>
    decreases pages.len(),
{
    if pages.len() == 0 {
        Seq::empty()
    } else {
        let rest = redirect_pairs(pages.drop_last());
        match pages.last().redirect {
            Some(r) => rest.push((pages.last().name, r)),
            None => rest,
        }
    }
}

/// The pages that redirect nowhere, in order.
pub open spec fn root_pages(pages: Seq<PageView>) -> Seq<PageView>
    decreases pages.len(),
{
    if pages.len() == 0 {
        Seq::empty()
    } else {
        let rest = root_pages(pages.drop_last());
        match pages.last().redirect {
            Some(_) => rest,
            None => rest.push(pages.last()),
        }
    }
}

/// The split loses and invents no page: the root pages are exactly the
/// pages whose redirect is `None`, in order, the redirect pairs are the
/// title and target of exactly the other pages, in order, and together they
/// are as many as the pages.
pub proof fn lemma_split_is_a_partition(pages: Seq<PageView>)
    ensures
        root_pages(pages) == pages.filter(|p: PageView| p.redirect is None),
        redirect_pairs(pages) == pages.filter(|p: PageView| p.redirect is Some).map_values(
            |p: PageView| (p.name, p.redirect->0),
        ),
        root_pages(pages).len() + redirect_pairs(pages).len() == pages.len(),
    decreases pages.len(),
{
    reveal(Seq::filter);
    let is_root = |p: PageView| p.redirect is None;
    let is_redirect = |p: PageView| p.redirect is Some;
    let pair = |p: PageView| (p.name, p.redirect->0);
    if pages.len() > 0 {
        lemma_split_is_a_partition(pages.drop_last());
        let last = pages.last();
        let prev_roots = pages.drop_last().filter(is_root);
        let prev_redirects = pages.drop_last().filter(is_redirect);
        if last.redirect is None {
            assert(pages.filter(is_root) == prev_roots.push(last));
            assert(pages.filter(is_redirect) == prev_redirects);
        } else {
            assert(pages.filter(is_root) == prev_roots);
            assert(pages.filter(is_redirect) == prev_redirects.push(last));
            assert(prev_redirects.push(last).map_values(pair) =~= prev_redirects.map_values(pair).push(pair(last)));
        }
    } else {
        assert(pages.filter(is_redirect).map_values(pair) =~= Seq::<(Seq<char>, Seq<char>)>::empty());
    }
}

/// Splits pages into redirects, as (title, target) pairs, and the pages
/// that redirect nowhere, each in input order.
pub fn split_redirects(pages: Vec<Page>) -> (split: (Vec<(String, String)>, Vec<Page>))
    ensures
        redirects_view(split.0@) == redirect_pairs(pages_view(pages@)),
        pages_view(split.1@) == root_pages(pages_view(pages@)),
{
    let ghost ps = pages_view(pages@);
    let mut redirects: Vec<(String, String)> = Vec::new();
    let mut roots: Vec<Page> = Vec::new();
    let mut i: usize = 0;
    while i < pages.len()
        invariant
            ps == pages_view(pages@),
            i <= pages@.len(),
            redirects_view(redirects@) == redirect_pairs(ps.take(i as int)),
            pages_view(roots@) == root_pages(ps.take(i as int)),
        decreases pages@.len() - i,
    {
        let page = &pages[i];
        proof {
            assert(ps.take(i + 1).drop_last() =~= ps.take(i as int));
            assert(ps.take(i + 1).last() == page@);
        }
        match &page.redirect {
            Some(target) => {
                redirects.push((page.name.clone(), target.clone()));
                proof {
                    assert(redirects_view(redirects@) =~= redirect_pairs(ps.take(i + 1)));
                }
            },
            None => {
                roots.push(Page::new(page.name.clone(), clone_strings(&page.tags)));
                proof {
                    assert(pages_view(roots@) =~= root_pages(ps.take(i + 1)));
                }
            },
        }
        i = i + 1;
    }
    proof {
        assert(ps.take(i as int) =~= ps);
    }
    (redirects, roots)
}

/// A copy of a list of strings.
fn clone_strings(v: &Vec<String>) -> (c: Vec<String>)
    ensures
        strings_view(c@) == strings_view(v@),
{
    let mut c: Vec<String> = Vec::new();
    let mut i: usize = 0;
    while i < v.len()
        invariant
            i <= v@.len(),
            c@.len() == i,
            strings_view(c@) == strings_view(v@).take(i as int),
        decreases v@.len() - i,
    {
        let ghost before = c@;
        c.push(v[i].clone());
        proof {
            assert(c@ == before.push(v@[i as int]));
            assert forall|k: int| 0 <= k < i + 1 implies strings_view(c@)[k] == strings_view(v@).take(i + 1)[k] by {
                if k < i {
                    assert(c@[k] == before[k]);
                    assert(strings_view(before)[k] == strings_view(v@).take(i as int)[k]);
                }
            }
            assert(strings_view(c@) =~= strings_view(v@).take(i + 1));
        }
        i = i + 1;
    }
    proof {
        assert(strings_view(v@).take(i as int) =~= strings_view(v@));
    }
    c
}

/// The position of the first redirect whose title is `tag`, if any; the
/// link then leads to that redirect's target, else to itself.
pub fn find_redirect(tag: &String, redirects: &Vec<(String, String)>) -> (found: Option<usize>)
    ensures
        match found {
            Some(k) => {
                &&& (k as int) < redirects@.len()
                &&& redirects_view(redirects@)[k as int].0 == tag@
                &&& forall|j: int| 0 <= j < k ==> (#[trigger] redirects_view(redirects@)[j]).0 != tag@
                &&& resolve(tag@, redirects_view(redirects@)) == redirects_view(redirects@)[k as int].1
            },
            None => {
                &&& forall|j: int| 0 <= j < redirects@.len() ==> (#[trigger] redirects_view(redirects@)[j]).0 != tag@
                &&& resolve(tag@, redirects_view(redirects@)) == tag@
            },
        },
{
    let ghost rv = redirects_view(redirects@);
    proof {
        assert(rv.skip(0) =~= rv);
    }
    let mut i: usize = 0;
    while i < redirects.len()
        invariant
            rv == redirects_view(redirects@),
            i <= rv.len(),
            resolve(tag@, rv) == resolve(tag@, rv.skip(i as int)),
            forall|j: int| 0 <= j < i ==> (#[trigger] rv[j]).0 != tag@,
        decreases rv.len() - i,
    {
        let (from, to) = &redirects[i];
        proof {
            assert(rv[i as int] == (from@, to@));
            assert(rv.skip(i as int)[0] == (from@, to@));
            assert(rv.skip(i as int).drop_first() =~= rv.skip(i + 1));
        }
        if *from == *tag {
            return Some(i);
        }
        i = i + 1;
    }
    proof {
        assert(rv.skip(i as int).len() == 0);
    }
    None
}

/// Where a link leads, given the redirects.
pub fn resolve_tag(tag: &String, redirects: &Vec<(String, String)>) -> (target: String)
    ensures
        target@ == resolve(tag@, redirects_view(redirects@)),
{
    match find_redirect(tag, redirects) {
        Some(k) => {
            proof {
                assert(redirects_view(redirects@)[k as int].1 == redirects@[k as int].1@);
            }
            redirects[k].1.clone()
        },
        None => tag.clone(),
    }
}

/// rayon's `par_iter().map(..).collect()` over a vector of strings: the
/// result holds, position by position, what `f` returns for each item
/// (an indexed parallel iterator collects in order).
#[verifier::external_body]
fn par_map_strings<F>(items: &Vec<String>, f: F) -> (out: Vec<String>)
    where
        F: Fn(&String) -> String + Sync + Send,
    requires
        forall|k: int| 0 <= k < items@.len() ==> f.requires((&items@[k],)),
    ensures
        out@.len() == items@.len(),
        forall|k: int| 0 <= k < items@.len() ==> f.ensures((&items@[k],), #[trigger] out@[k]),
{
    items.par_iter().map(f).collect()
}

/// Replaces each link of each page by where it leads.
pub fn resolve_redirects(pages: &mut Vec<Page>, redirects: &Vec<(String, String)>)
    ensures
        final(pages)@.len() == old(pages)@.len(),
        forall|i: int| 0 <= i < old(pages)@.len() ==> {
            &&& (#[trigger] final(pages)@[i])@.name == old(pages)@[i]@.name
            &&& final(pages)@[i]@.redirect == old(pages)@[i]@.redirect
            &&& final(pages)@[i]@.tags.len() == old(pages)@[i]@.tags.len()
            &&& forall|j: int| 0 <= j < old(pages)@[i]@.tags.len() ==> #[trigger] final(pages)@[i]@.tags[j]
                == resolve(old(pages)@[i]@.tags[j], redirects_view(redirects@))
        },
{
    let ghost orig = pages@;
    let n = pages.len();
    let mut i: usize = 0;
    while i < n
        invariant
            n == orig.len(),
            pages@.len() == n,
            i <= n,
            forall|k: int| i <= k < n ==> #[trigger] pages@[k] == orig[k],
            forall|k: int| 0 <= k < i ==> {
                &&& (#[trigger] pages@[k])@.name == orig[k]@.name
                &&& pages@[k]@.redirect == orig[k]@.redirect
                &&& pages@[k]@.tags.len() == orig[k]@.tags.len()
                &&& forall|j: int| 0 <= j < orig[k]@.tags.len() ==> #[trigger] pages@[k]@.tags[j]
                    == resolve(orig[k]@.tags[j], redirects_view(redirects@))
            },
        decreases n - i,
    {
        let resolved = par_map_strings(&pages[i].tags, |tag: &String| -> (t: String)
            ensures
                t@ == resolve(tag@, redirects_view(redirects@)),
            { resolve_tag(tag, redirects) });
        let ghost before = pages@;
        pages[i].tags = resolved;
        proof {
            assert forall|k: int| 0 <= k < i + 1 implies {
                &&& (#[trigger] pages@[k])@.name == orig[k]@.name
                &&& pages@[k]@.redirect == orig[k]@.redirect
                &&& pages@[k]@.tags.len() == orig[k]@.tags.len()
                &&& forall|j: int| 0 <= j < orig[k]@.tags.len() ==> #[trigger] pages@[k]@.tags[j]
                    == resolve(orig[k]@.tags[j], redirects_view(redirects@))
            } by {
                if k == i {
                    assert forall|j: int| 0 <= j < orig[k]@.tags.len() implies #[trigger] pages@[k]@.tags[j]
                        == resolve(orig[k]@.tags[j], redirects_view(redirects@)) by {
                        assert(orig[k]@.tags[j] == orig[k].tags@[j]@);
                        assert(pages@[k]@.tags[j] == resolved@[j]@);
                    }
                } else {
                    assert(pages@[k] == before[k]);
                }
            }
        }
        i = i + 1;
    }
}

} // verus!
