use std::collections::HashMap;

use wiki_xml::graph::Jason;
use wiki_xml::ids::{get_id_to_page, page_links_from_json};
use wiki_xml::json::{counts_from_json, counts_to_json, link_lists_to_json, titles_to_json};

#[test]
fn titles_are_read_from_json() {
    let titles = get_id_to_page(r#"["Foo","Bar \"Baz\"","Ünïcode"]"#).unwrap();
    assert_eq!(titles, vec!["Foo".to_string(), "Bar \"Baz\"".to_string(), "Ünïcode".to_string()]);
    assert_eq!(get_id_to_page("[]").unwrap(), Vec::<String>::new());
}

#[test]
fn unreadable_titles_give_none() {
    assert!(get_id_to_page("").is_none());
    assert!(get_id_to_page("[1, 2]").is_none());
    assert!(get_id_to_page(r#"{"a": 1}"#).is_none());
}

#[test]
fn link_lists_are_read_and_sorted() {
    let links = page_links_from_json("[[3,1,2,1],[],[9,0]]").unwrap();
    assert_eq!(links, vec![vec![1, 1, 2, 3], vec![], vec![0, 9]]);
}

#[test]
fn unreadable_link_lists_give_none() {
    assert!(page_links_from_json(r#"[["a"]]"#).is_none());
    assert!(page_links_from_json("[[-1]]").is_none());
    assert!(page_links_from_json("[1]").is_none());
}

#[test]
fn titles_read_back_as_written() {
    let titles = vec!["a\\b".to_string(), "\"q\"".to_string(), "x\ny".to_string()];
    let text = titles_to_json(&titles);
    assert_eq!(text, r#"["a\\b","\"q\"","x\ny"]"#);
    assert_eq!(get_id_to_page(&text).unwrap(), titles);
}

#[test]
fn link_lists_read_back_as_written() {
    let lists = vec![vec![0, 5], vec![], vec![7]];
    let text = link_lists_to_json(&lists);
    assert_eq!(text, "[[0,5],[],[7]]");
    assert_eq!(page_links_from_json(&text).unwrap(), lists);
}

#[test]
fn counts_read_back_as_written() {
    let mut counts: HashMap<String, u64> = HashMap::new();
    counts.insert("Foo".to_string(), 3);
    counts.insert("Bär".to_string(), 1);
    let text = counts_to_json(&counts);
    assert_eq!(counts_from_json(text.as_bytes()).unwrap(), counts);
    let one: HashMap<String, u64> = [("a".to_string(), 2)].into_iter().collect();
    assert_eq!(counts_to_json(&one), r#"{"a":2}"#);
}

#[test]
fn unreadable_counts_give_none() {
    assert!(counts_from_json(b"[]").is_none());
    assert!(counts_from_json(br#"{"a": -1}"#).is_none());
    assert!(counts_from_json(b"{").is_none());
    assert_eq!(counts_from_json(br#"{"a": 4}"#).unwrap().get("a"), Some(&4));
}

#[test]
fn graph_is_built_from_its_json_files() {
    let j = Jason::from_json(r#"["a","b","a"]"#, "[[2,0,1],[],[1]]").unwrap();
    assert_eq!(j.page_count(), 3);
    assert_eq!(j.get_name(1), "b");
    assert_eq!(j.get_id(&"a".to_string()), Some(&2));
    assert_eq!(j.get_links(0), &vec![0, 1, 2]);
    assert!(Jason::from_json("[", "[]").is_none());
    assert!(Jason::from_json("[]", "[[\"x\"]]").is_none());
}
