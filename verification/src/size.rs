use vstd::prelude::*;

use crate::page::{Page, PageView};
use crate::parser::pages_view;

verus! {

/// The bytes each link adds around its text: two quotes and a comma.
pub const LINK_OVERHEAD: u64 = 3;

/// The bytes each page adds besides its links: `"tags"` (6), `"name": ` (8)
/// and `[{}],` (5).
pub const PAGE_OVERHEAD: u64 = 19;

/// The length of the UTF-8 encoding of a text.
pub open spec fn utf8_len(s: Seq<char>) -> nat {
    vstd::utf8::encode_utf8(s).len()
}

/// The estimated size of a list of links: each link's bytes plus its quotes
/// and comma.
pub open spec fn tags_size(tags: Seq<Seq<char>>) -> nat
    decreases tags.len(),
{
    if tags.len() == 0 {
        0
    } else {
        tags_size(tags.drop_last()) + utf8_len(tags.last()) + (LINK_OVERHEAD as nat)
    }
}

/// The estimated size of a page.
pub open spec fn page_size(p: PageView) -> nat {
    tags_size(p.tags) + (PAGE_OVERHEAD as nat)
}

/// The estimated size of the JSON text of a list of pages.
pub open spec fn pages_size(pages: Seq<PageView>) -> nat
    decreases pages.len(),
{
    if pages.len() == 0 {
        0
    } else {
        pages_size(pages.drop_last()) + page_size(pages.last())
    }
}

proof fn lemma_tags_size_prefix(tags: Seq<Seq<char>>, i: int)
    requires
        0 <= i <= tags.len(),
    ensures
        tags_size(tags.take(i)) <= tags_size(tags),
    decreases tags.len() - i,
{
    if i < tags.len() {
        lemma_tags_size_prefix(tags, i + 1);
        assert(tags.take(i + 1).drop_last() =~= tags.take(i));
    } else {
        assert(tags.take(i) =~= tags);
    }
}

proof fn lemma_pages_size_prefix(pages: Seq<PageView>, i: int)
    requires
        0 <= i <= pages.len(),
    ensures
        pages_size(pages.take(i)) <= pages_size(pages),
    decreases pages.len() - i,
{
    if i < pages.len() {
        lemma_pages_size_prefix(pages, i + 1);
        assert(pages.take(i + 1).drop_last() =~= pages.take(i));
    } else {
        assert(pages.take(i) =~= pages);
    }
}

/// The sum of `f` over the elements of `s`.
pub open spec fn total<A>(s: Seq<A>, f: spec_fn(A) -> nat) -> nat
    decreases s.len(),
{
    if s.len() == 0 {
        0
    } else {
        total(s.drop_last(), f) + f(s.last())
    }
}

proof fn lemma_total_concat<A>(a: Seq<A>, b: Seq<A>, f: spec_fn(A) -> nat)
    ensures
        total(a + b, f) == total(a, f) + total(b, f),
    decreases b.len(),
{
    if b.len() == 0 {
        assert(a + b =~= a);
    } else {
        lemma_total_concat(a, b.drop_last(), f);
        assert((a + b).drop_last() =~= a + b.drop_last());
        assert((a + b).last() == b.last());
    }
}

proof fn lemma_total_permutation<A>(a: Seq<A>, b: Seq<A>, f: spec_fn(A) -> nat)
    requires
        a.to_multiset() == b.to_multiset(),
    ensures
        total(a, f) == total(b, f),
    decreases a.len(),
{
    broadcast use vstd::seq_lib::group_to_multiset_ensures;
    if a.len() == 0 {
        assert(b.to_multiset().len() == 0);
        assert(b.len() == 0);
    } else {
        let x = a.last();
        let a0 = a.drop_last();
        assert(a =~= a0.push(x));
        assert(a.to_multiset().count(x) > 0);
        assert(b.contains(x));
        let k = choose|k: int| 0 <= k < b.len() && b[k] == x;
        let b0 = b.remove(k);
        assert(b0.to_multiset() =~= b.to_multiset().remove(x));
        assert(a0.to_multiset() =~= a.to_multiset().remove(x));
        lemma_total_permutation(a0, b0, f);
        let l = b.take(k);
        let r = b.skip(k + 1);
        assert(b =~= l + seq![x] + r);
        assert(b0 =~= l + r);
        lemma_total_concat(l + seq![x], r, f);
        lemma_total_concat(l, seq![x], f);
        lemma_total_concat(l, r, f);
        assert(seq![x].drop_last() =~= Seq::<A>::empty());
        assert(seq![x].last() == x);
        assert(total(Seq::<A>::empty(), f) == 0);
        assert(total(seq![x], f) == f(x));
    }
}

proof fn lemma_tags_size_total(tags: Seq<Seq<char>>)
    ensures
        tags_size(tags) == total(tags, |t: Seq<char>| utf8_len(t) + (LINK_OVERHEAD as nat)),
    decreases tags.len(),
{
    if tags.len() > 0 {
        lemma_tags_size_total(tags.drop_last());
    }
}

proof fn lemma_pages_size_total(pages: Seq<PageView>)
    ensures
        pages_size(pages) == total(pages, |p: PageView| page_size(p)),
    decreases pages.len(),
{
    if pages.len() > 0 {
        lemma_pages_size_total(pages.drop_last());
    }
}

/// The estimate of two lists of pages joined is the sum of their estimates.
pub proof fn lemma_pages_size_concat(a: Seq<PageView>, b: Seq<PageView>)
    ensures
        pages_size(a + b) == pages_size(a) + pages_size(b),
{
    lemma_pages_size_total(a);
    lemma_pages_size_total(b);
    lemma_pages_size_total(a + b);
    lemma_total_concat(a, b, |p: PageView| page_size(p));
}

/// The estimate of two lists of pages put together is the sum of their
/// estimates, stated over the pages that `calculate_size` takes.
pub proof fn lemma_calculate_size_concat(a: Seq<Page>, b: Seq<Page>)
    ensures
        pages_size(pages_view(a + b)) == pages_size(pages_view(a)) + pages_size(pages_view(b)),
{
    assert(pages_view(a + b) =~= pages_view(a) + pages_view(b));
    lemma_pages_size_concat(pages_view(a), pages_view(b));
}

/// The estimate does not depend on the order of the pages.
pub proof fn lemma_pages_size_permutation(a: Seq<PageView>, b: Seq<PageView>)
    requires
        a.to_multiset() == b.to_multiset(),
    ensures
        pages_size(a) == pages_size(b),
{
    lemma_pages_size_total(a);
    lemma_pages_size_total(b);
    lemma_total_permutation(a, b, |p: PageView| page_size(p));
}

/// Lists of pages whose pages have, position by position, the same
/// estimates have the same estimate.
pub proof fn lemma_pages_size_pointwise(a: Seq<PageView>, b: Seq<PageView>)
    requires
        a.len() == b.len(),
        forall|i: int| 0 <= i < a.len() ==> page_size(#[trigger] a[i]) == page_size(b[i]),
    ensures
        pages_size(a) == pages_size(b),
    decreases a.len(),
{
    if a.len() > 0 {
        lemma_pages_size_pointwise(a.drop_last(), b.drop_last());
        assert(page_size(a[a.len() - 1]) == page_size(b[b.len() - 1]));
    }
}

/// The estimate does not depend on the titles (nor the redirects) of the
/// pages, only on their links.
pub proof fn lemma_pages_size_ignores_names(a: Seq<PageView>, b: Seq<PageView>)
    requires
        a.len() == b.len(),
        forall|i: int| 0 <= i < a.len() ==> (#[trigger] a[i]).tags == b[i].tags,
    ensures
        pages_size(a) == pages_size(b),
{
    assert forall|i: int| 0 <= i < a.len() implies page_size(#[trigger] a[i]) == page_size(b[i]) by {
        assert(a[i].tags == b[i].tags);
    }
    lemma_pages_size_pointwise(a, b);
}

/// The estimate does not depend on the order of the links inside each page
/// (nor on the order of the pages, by `lemma_pages_size_permutation`).
pub proof fn lemma_pages_size_link_order(a: Seq<PageView>, b: Seq<PageView>)
    requires
        a.len() == b.len(),
        forall|i: int| 0 <= i < a.len() ==> (#[trigger] a[i]).tags.to_multiset() == b[i].tags.to_multiset(),
    ensures
        pages_size(a) == pages_size(b),
{
    assert forall|i: int| 0 <= i < a.len() implies page_size(#[trigger] a[i]) == page_size(b[i]) by {
        lemma_tags_size_total(a[i].tags);
        lemma_tags_size_total(b[i].tags);
        lemma_total_permutation(a[i].tags, b[i].tags, |t: Seq<char>| utf8_len(t) + (LINK_OVERHEAD as nat));
    }
    lemma_pages_size_pointwise(a, b);
}

/// One more link on one page raises the estimate by the link's bytes plus
/// its quotes and comma.
pub proof fn lemma_pages_size_add_link(a: Seq<PageView>, i: int, t: Seq<char>)
    requires
        0 <= i < a.len(),
    ensures
        pages_size(a.update(i, PageView { tags: a[i].tags.push(t), ..a[i] }))
            == pages_size(a) + utf8_len(t) + LINK_OVERHEAD,
{
    let p = PageView { tags: a[i].tags.push(t), ..a[i] };
    let b = a.update(i, p);
    let l = a.take(i);
    let r = a.skip(i + 1);
    assert(a =~= l + seq![a[i]] + r);
    assert(b =~= l + seq![p] + r);
    lemma_pages_size_concat(l + seq![a[i]], r);
    lemma_pages_size_concat(l, seq![a[i]]);
    lemma_pages_size_concat(l + seq![p], r);
    lemma_pages_size_concat(l, seq![p]);
    assert(seq![p].drop_last() =~= Seq::<PageView>::empty());
    assert(seq![a[i]].drop_last() =~= Seq::<PageView>::empty());
    assert(p.tags.drop_last() =~= a[i].tags);
}

/// Estimates the size in bytes of the JSON text of `pages`: for each page,
/// the bytes of its links with their quotes and commas, and the bytes of
/// its keys and brackets.
pub fn calculate_size(pages: &Vec<Page>) -> (total: u64)
    requires
        pages_size(pages_view(pages@)) <= u64::MAX,
        forall|i: int, j: int| 0 <= i < pages@.len() && 0 <= j < pages@[i].tags@.len()
            ==> utf8_len(#[trigger] pages@[i].tags@[j]@) <= usize::MAX,
    ensures
        total == pages_size(pages_view(pages@)),
{
    let ghost ps = pages_view(pages@);
    let mut total_size: u64 = 0;
    let mut i: usize = 0;
    while i < pages.len()
        invariant
            ps == pages_view(pages@),
            pages_size(ps) <= u64::MAX,
            forall|i: int, j: int| 0 <= i < pages@.len() && 0 <= j < pages@[i].tags@.len()
                ==> utf8_len(#[trigger] pages@[i].tags@[j]@) <= usize::MAX,
            i <= pages@.len(),
            total_size == pages_size(ps.take(i as int)),
        decreases pages@.len() - i,
    {
        let page = &pages[i];
        let ghost tv = page@.tags;
        proof {
            assert(ps[i as int] == page@);
            assert(ps.take(i + 1).drop_last() =~= ps.take(i as int));
            lemma_pages_size_prefix(ps, i + 1);
            lemma_tags_size_prefix(tv, 0);
        }
        let mut j: usize = 0;
        while j < page.tags.len()
            invariant
                ps == pages_view(pages@),
                i < pages@.len(),
                *page == pages@[i as int],
                forall|j: int| 0 <= j < page.tags@.len() ==> utf8_len(#[trigger] page.tags@[j]@) <= usize::MAX,
                page@ == ps[i as int],
                tv == page@.tags,
                pages_size(ps.take(i + 1)) <= u64::MAX,
                pages_size(ps.take(i + 1)) == pages_size(ps.take(i as int)) + tags_size(tv) + PAGE_OVERHEAD,
                j <= page.tags@.len(),
                total_size == pages_size(ps.take(i as int)) + tags_size(tv.take(j as int)),
            decreases page.tags@.len() - j,
        {
            let tag = &page.tags[j];
            proof {
                assert(tv[j as int] == tag@);
                assert(tv.take(j + 1).drop_last() =~= tv.take(j as int));
                assert(utf8_len(page.tags@[j as int]@) <= usize::MAX);
                lemma_tags_size_prefix(tv, j + 1);
            }
            let text = tag.as_str();
            let n = text.len();
            proof {
                assert(text@ == tag@);
                assert(n == utf8_len(tag@));
            }
            total_size = total_size + n as u64;
            total_size = total_size + LINK_OVERHEAD;
            j = j + 1;
        }
        proof {
            assert(tv.take(j as int) =~= tv);
        }
        total_size = total_size + PAGE_OVERHEAD;
        i = i + 1;
    }
    proof {
        assert(ps.take(i as int) =~= ps);
    }
    total_size
}

} // verus!
