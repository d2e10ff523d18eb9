use std::collections::HashMap;

use rustc_hash::FxHashMap;
use wiki_xml::counts::{count_links, tally_links};
use wiki_xml::ids::get_page_to_id_hashmap;
use wiki_xml::links::{empty_links, link_page};
use wiki_xml::page::Page;
use wiki_xml::rank::order_titles;
use wiki_xml::redirects::{find_redirect, resolve_redirects, resolve_tag, split_redirects};

fn s(x: &str) -> String {
    x.to_string()
}

#[test]
fn counts_are_occurrences() {
    let mut counts: HashMap<String, u64> = HashMap::new();
    let pages = vec![Page::new(s("x"), vec![s("A"), s("B"), s("A")]), Page::new(s("y"), vec![s("A")])];
    count_links(&mut counts, &pages);
    assert_eq!(counts.len(), 2);
    assert_eq!(counts.get("A"), Some(&3));
    assert_eq!(counts.get("B"), Some(&1));
    count_links(&mut counts, &vec![Page::new(s("z"), vec![s("C"), s("B")])]);
    assert_eq!(counts.get("A"), Some(&3));
    assert_eq!(counts.get("B"), Some(&2));
    assert_eq!(counts.get("C"), Some(&1));
}

#[test]
fn fresh_counts_are_occurrences() {
    let counts = tally_links(&vec![Page::new(s("x"), vec![s("A"), s("A")]), Page::new(s("y"), vec![s("B")])]);
    assert_eq!(counts.len(), 2);
    assert_eq!(counts.get("A"), Some(&2));
    assert_eq!(counts.get("B"), Some(&1));
    assert!(tally_links(&vec![]).is_empty());
}

#[test]
fn titles_are_ranked_by_count() {
    let titles = order_titles(vec![(s("a"), 1), (s("b"), 5), (s("c"), 3), (s("d"), 5)]);
    assert_eq!(titles, vec![s("b"), s("d"), s("c"), s("a")]);
}

#[test]
fn equal_counts_keep_input_order() {
    let titles = order_titles(vec![(s("z"), 2), (s("y"), 2), (s("x"), 2)]);
    assert_eq!(titles, vec![s("z"), s("y"), s("x")]);
}

#[test]
fn largest_counts_are_ranked() {
    let titles = order_titles(vec![(s("small"), 0), (s("big"), u64::MAX)]);
    assert_eq!(titles, vec![s("big"), s("small")]);
}

#[test]
fn ranking_nothing_gives_nothing() {
    assert!(order_titles(vec![]).is_empty());
}

#[test]
fn linking_known_and_new_pages() {
    let mut ids: FxHashMap<String, usize> = get_page_to_id_hashmap(vec![s("A"), s("B")]);
    let mut links = empty_links(2);
    link_page(&mut ids, &mut links, Page::new(s("A"), vec![s("B"), s("Z"), s("A")]));
    assert_eq!(links, vec![vec![1, 0], vec![]]);
    link_page(&mut ids, &mut links, Page::new(s("C"), vec![s("A"), s("C")]));
    assert_eq!(ids.get("C"), Some(&2));
    assert_eq!(links, vec![vec![1, 0], vec![], vec![0, 2]]);
    link_page(&mut ids, &mut links, Page::new(s("B"), vec![s("C")]));
    assert_eq!(links, vec![vec![1, 0], vec![2], vec![0, 2]]);
}

#[test]
fn redirects_are_split_and_resolved() {
    let pages = vec![
        Page::redirect(s("UK"), s("United Kingdom")),
        Page::new(s("London"), vec![s("UK"), s("Thames")]),
        Page::redirect(s("UK"), s("Britain")),
        Page::new(s("Thames"), vec![s("London")]),
    ];
    let (redirects, mut roots) = split_redirects(pages);
    assert_eq!(redirects, vec![(s("UK"), s("United Kingdom")), (s("UK"), s("Britain"))]);
    assert_eq!(roots.len(), 2);
    assert_eq!(roots[0].name, "London");
    resolve_redirects(&mut roots, &redirects);
    assert_eq!(roots[0].tags, vec![s("United Kingdom"), s("Thames")]);
    assert_eq!(roots[1].tags, vec![s("London")]);
    assert_eq!(resolve_tag(&s("Nowhere"), &redirects), "Nowhere");
    assert_eq!(find_redirect(&s("UK"), &redirects), Some(0));
    assert_eq!(find_redirect(&s("Nowhere"), &redirects), None);
}
