use wiki_xml::graph::Jason;

fn names(n: usize) -> Vec<String> {
    (0..n).map(|i| format!("P{}", i)).collect()
}

fn graph(links: Vec<Vec<usize>>) -> Jason {
    Jason::new(names(links.len()), links)
}

#[test]
fn direct_link_is_found() {
    let j = graph(vec![vec![1], vec![]]);
    assert_eq!(j.find_path_root(0, 1, 3), Some(vec![0, 1]));
}

#[test]
fn shortest_walk_is_found() {
    // 0 -> 1 -> 2 -> 3 and 0 -> 4 -> 3: the shortest walk has two links.
    let j = graph(vec![vec![1, 4], vec![2], vec![3], vec![], vec![3]]);
    assert_eq!(j.find_path(0, 3, 7), Some(vec![0, 4, 3]));
}

#[test]
fn walk_longer_than_ttl_is_not_found() {
    let j = graph(vec![vec![1], vec![2], vec![3], vec![]]);
    assert_eq!(j.find_path(0, 3, 2), None);
    assert_eq!(j.find_path(0, 3, 3), Some(vec![0, 1, 2, 3]));
}

#[test]
fn ttl_zero_finds_direct_links_only() {
    let j = graph(vec![vec![1], vec![2], vec![]]);
    assert_eq!(j.find_path(0, 1, 0), Some(vec![0, 1]));
    assert_eq!(j.find_path(0, 2, 0), None);
}

#[test]
fn unreachable_page_gives_none() {
    let j = graph(vec![vec![1], vec![0], vec![]]);
    assert_eq!(j.find_path(0, 2, 7), None);
}

#[test]
fn walk_back_to_the_start_needs_a_cycle() {
    let j = graph(vec![vec![1], vec![0]]);
    assert_eq!(j.find_path(0, 0, 3), Some(vec![0, 1, 0]));
    let k = graph(vec![vec![1], vec![]]);
    assert_eq!(k.find_path(0, 0, 3), None);
}

#[test]
fn accessors_read_the_parts() {
    let j = graph(vec![vec![1, 2], vec![], vec![0]]);
    assert_eq!(j.get_name(2), "P2");
    assert_eq!(j.get_id(&"P1".to_string()), Some(&1));
    assert_eq!(j.get_id(&"nope".to_string()), None);
    assert_eq!(j.get_links(0), &vec![1, 2]);
}

#[test]
fn name_and_id_round_trip() {
    let j = graph(vec![vec![], vec![], vec![], vec![]]);
    for i in 0..4 {
        assert_eq!(j.get_id(j.get_name(i)), Some(&i));
    }
}

#[test]
fn closed_graph_is_recognised() {
    assert!(graph(vec![vec![1], vec![0]]).links_closed());
    assert!(!graph(vec![vec![5], vec![0]]).links_closed());
    assert!(Jason::new(vec![], vec![]).links_closed());
}

#[test]
fn new_sorts_links_and_maps_titles() {
    let j = Jason::new(vec!["a".to_string(), "b".to_string(), "a".to_string()], vec![vec![2, 0, 1], vec![], vec![1]]);
    assert_eq!(j.get_links(0), &vec![0, 1, 2]);
    assert_eq!(j.get_id(&"a".to_string()), Some(&2));
    assert_eq!(j.get_id(&"b".to_string()), Some(&1));
    assert_eq!(j.name_count(), 3);
    assert_eq!(j.page_count(), 3);
}

#[test]
fn direct_link_on_a_partly_broken_graph() {
    let j = graph(vec![vec![1, 99], vec![]]);
    assert!(!j.links_closed());
    assert!(j.search_is_safe(0, 1, 3));
    assert_eq!(j.find_path(0, 1, 3), Some(vec![0, 1]));
}

#[test]
fn search_reaching_a_broken_link_is_unsafe() {
    let j = graph(vec![vec![1], vec![99]]);
    assert!(!j.search_is_safe(0, 3, 3));
    assert!(j.search_is_safe(0, 3, 1));
    assert!(!j.search_is_safe(5, 0, 1));
}

#[test]
fn walk_to_a_page_outside_the_graph() {
    let j = graph(vec![vec![1], vec![7]]);
    assert!(j.search_is_safe(0, 7, 2));
    assert_eq!(j.find_path(0, 7, 2), Some(vec![0, 1, 7]));
}
