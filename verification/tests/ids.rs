use wiki_xml::ids::{get_page_links, get_page_to_id_hashmap};

#[test]
fn ids_are_positions() {
    let m = get_page_to_id_hashmap(vec!["a".to_string(), "b".to_string(), "c".to_string()]);
    assert_eq!(m.len(), 3);
    assert_eq!(m.get("a"), Some(&0));
    assert_eq!(m.get("b"), Some(&1));
    assert_eq!(m.get("c"), Some(&2));
}

#[test]
fn later_duplicate_title_wins() {
    let m = get_page_to_id_hashmap(vec!["a".to_string(), "b".to_string(), "a".to_string()]);
    assert_eq!(m.len(), 2);
    assert_eq!(m.get("a"), Some(&2));
    assert_eq!(m.get("b"), Some(&1));
}

#[test]
fn no_titles_no_ids() {
    assert!(get_page_to_id_hashmap(vec![]).is_empty());
}

#[test]
fn link_lists_are_sorted() {
    let links = get_page_links(vec![vec![3, 1, 2, 1], vec![], vec![9, 0]]);
    assert_eq!(links, vec![vec![1, 1, 2, 3], vec![], vec![0, 9]]);
}
