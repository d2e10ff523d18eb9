use wiki_xml::page::Page;
use wiki_xml::size::calculate_size;

fn s(x: &str) -> String {
    x.to_string()
}

#[test]
fn create_keeps_all_parts() {
    let p = Page::create(s("A"), vec![s("B"), s("C")], Some(s("D")));
    assert_eq!(p.name, "A");
    assert_eq!(p.tags, vec![s("B"), s("C")]);
    assert_eq!(p.redirect, Some(s("D")));
}

#[test]
fn new_has_no_redirect() {
    let p = Page::new(s("A"), vec![s("B")]);
    assert_eq!(p.name, "A");
    assert_eq!(p.tags, vec![s("B")]);
    assert_eq!(p.redirect, None);
}

#[test]
fn redirect_has_no_tags() {
    let p = Page::redirect(s("A"), s("B"));
    assert_eq!(p.name, "A");
    assert!(p.tags.is_empty());
    assert_eq!(p.redirect, Some(s("B")));
}

#[test]
fn size_of_no_pages_is_zero() {
    assert_eq!(calculate_size(&vec![]), 0);
}

#[test]
fn size_counts_bytes_and_overheads() {
    // "ab" is 2 bytes, "é" is 2 bytes: (2 + 3) + (2 + 3) + 19 = 29; an empty page is 19.
    let pages = vec![Page::new(s("x"), vec![s("ab"), s("é")]), Page::new(s("y"), vec![])];
    assert_eq!(calculate_size(&pages), 29 + 19);
}

#[test]
fn size_ignores_the_title() {
    let a = vec![Page::new(s("short"), vec![s("t")])];
    let b = vec![Page::new(s("a much longer title"), vec![s("t")])];
    assert_eq!(calculate_size(&a), calculate_size(&b));
    assert_eq!(calculate_size(&a), 1 + 3 + 19);
}

#[test]
fn size_of_concatenation_is_the_sum() {
    let a = vec![Page::new(s("x"), vec![s("ab"), s("é")])];
    let b = vec![Page::new(s("y"), vec![s("q")]), Page::new(s("z"), vec![])];
    let c = vec![
        Page::new(s("x"), vec![s("ab"), s("é")]),
        Page::new(s("y"), vec![s("q")]),
        Page::new(s("z"), vec![]),
    ];
    assert_eq!(calculate_size(&c), calculate_size(&a) + calculate_size(&b));
    assert_eq!(calculate_size(&c), 29 + (1 + 3 + 19) + 19);
}

#[test]
fn size_ignores_the_order_of_pages_and_links() {
    let a = vec![Page::new(s("x"), vec![s("ab"), s("é")]), Page::new(s("y"), vec![s("q")])];
    let b = vec![Page::new(s("y"), vec![s("q")]), Page::new(s("x"), vec![s("é"), s("ab")])];
    assert_eq!(calculate_size(&a), calculate_size(&b));
}

#[test]
fn one_more_link_adds_its_bytes_and_three() {
    let a = vec![Page::new(s("x"), vec![s("ab")])];
    let b = vec![Page::new(s("x"), vec![s("ab"), s("ünï")])];
    assert_eq!(calculate_size(&b), calculate_size(&a) + 5 + 3);
}
