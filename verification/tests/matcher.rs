use wiki_xml::matcher::Matchers;

#[test]
fn exclusion_pattern() {
    let m = Matchers::new().ok().unwrap();
    assert!(m.excludes("Mercury (disambiguation)"));
    assert!(m.excludes("File:Foo.png"));
    assert!(m.excludes("Talk:Foo"));
    assert!(!m.excludes("Foo"));
    assert!(!m.excludes(""));
    assert!(!m.excludes(":Foo"));
}

#[test]
fn links_of_a_text() {
    let m = Matchers::new().ok().unwrap();
    let mut tags = vec!["old".to_string()];
    m.push_links("x [[A]] y [[B|b]] [[Help:Me]] [[C]]", &mut tags);
    assert_eq!(tags, vec!["old".to_string(), "A".to_string(), "B".to_string(), "C".to_string()]);
}

#[test]
fn text_without_links_adds_nothing() {
    let m = Matchers::new().ok().unwrap();
    let mut tags = vec![];
    m.push_links("no links [here] [[x", &mut tags);
    assert!(tags.is_empty());
}

#[test]
fn shortest_link_match_is_taken() {
    let m = Matchers::new().ok().unwrap();
    let mut tags = vec![];
    m.push_links("[[]] [[a]]]", &mut tags);
    assert_eq!(tags, vec!["]".to_string(), "a".to_string()]);
}
