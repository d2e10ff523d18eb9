use std::collections::VecDeque;

use wiki_xml::page::Page;
use wiki_xml::parser::{Action, EndStep, ParseAction, PageParser, XmlEvent, PAGES_PER_BATCH};

fn s(x: &str) -> String {
    x.to_string()
}

fn page_events(title: &str, text: &str) -> Vec<XmlEvent> {
    vec![
        XmlEvent::Start(s("page")),
        XmlEvent::Start(s("title")),
        XmlEvent::Text(s(title)),
        XmlEvent::End(Some(s("title"))),
        XmlEvent::Start(s("text")),
        XmlEvent::Text(s(text)),
        XmlEvent::End(Some(s("text"))),
        XmlEvent::End(Some(s("page"))),
    ]
}

fn next_page(p: &mut PageParser, events: &mut VecDeque<XmlEvent>) -> Option<Page> {
    loop {
        match p.next_action() {
            Action::Read => {
                let ev = events.pop_front().unwrap_or(XmlEvent::Eof);
                assert!(p.awaits_event());
                p.feed_next(ev);
            }
            Action::Yield(page) => return Some(page),
            Action::Stop => return None,
        }
    }
}

fn all_pages(events: Vec<XmlEvent>) -> Vec<Page> {
    let mut p = PageParser::new(500).ok().unwrap();
    let mut q: VecDeque<XmlEvent> = events.into_iter().collect();
    let mut out = vec![];
    while let Some(page) = next_page(&mut p, &mut q) {
        out.push(page);
    }
    out
}

fn parse_all(events: Vec<XmlEvent>) -> (Vec<(u64, Vec<Page>)>, Vec<Page>) {
    let mut p = PageParser::new(500).ok().unwrap();
    let mut q: VecDeque<XmlEvent> = events.into_iter().collect();
    let mut batches = vec![];
    loop {
        match p.parse_action() {
            ParseAction::Read => {
                let ev = q.pop_front().unwrap_or(XmlEvent::Eof);
                p.feed_parse(ev);
            }
            ParseAction::Flush { index, pages } => batches.push((index, pages)),
            ParseAction::Finish(pages) => return (batches, pages),
        }
    }
}

#[test]
fn page_title_and_links_are_extracted() {
    let pages = all_pages(page_events("Foo", "see [[Bar]] and [[Baz|z]] and [[File:x.png]] and [[Qux]]"));
    assert_eq!(pages[0].name, "Foo");
    assert_eq!(pages[0].tags, vec![s("Bar"), s("Baz"), s("Qux")]);
    assert_eq!(pages[0].redirect, None);
}

#[test]
fn links_from_several_texts_accumulate() {
    let mut ev = page_events("Foo", "[[A]]");
    ev.insert(6, XmlEvent::Text(s("[[B]]")));
    let pages = all_pages(ev);
    assert_eq!(pages[0].tags, vec![s("A"), s("B")]);
}

#[test]
fn exhausted_input_gives_one_untitled_page_then_stops() {
    let pages = all_pages(page_events("Foo", "[[A]]"));
    assert_eq!(pages.len(), 2);
    assert_eq!(pages[1].name, "");
    assert!(pages[1].tags.is_empty());
}

#[test]
fn excluded_titles_are_skipped() {
    let mut ev = page_events("Mercury (disambiguation)", "[[A]]");
    ev.extend(page_events("Talk:Foo", "[[B]]"));
    ev.extend(page_events("Venus", "[[C]]"));
    let pages = all_pages(ev);
    assert_eq!(pages[0].name, "Venus");
    assert_eq!(pages[0].tags, vec![s("C")]);
}

#[test]
fn excluded_link_targets_are_dropped() {
    let pages = all_pages(page_events("Foo", "[[Category:Stuff]] [[Mercury (disambiguation)]] [[Earth]]"));
    assert_eq!(pages[0].tags, vec![s("Earth")]);
}

#[test]
fn redirect_ends_the_page_when_taken_one_at_a_time() {
    let ev = vec![
        XmlEvent::Start(s("title")),
        XmlEvent::Text(s("Foo")),
        XmlEvent::Text(s("[[A]]")),
        XmlEvent::Empty(Some(s("redirect"))),
        XmlEvent::Text(s("[[B]]")),
        XmlEvent::End(Some(s("page"))),
    ];
    let pages = all_pages(ev);
    assert_eq!(pages[0].name, "Foo");
    assert_eq!(pages[0].tags, vec![s("A")]);
}

#[test]
fn redirect_drops_the_page_when_collecting() {
    let mut ev = vec![
        XmlEvent::Start(s("title")),
        XmlEvent::Text(s("Foo")),
        XmlEvent::Empty(Some(s("redirect"))),
    ];
    ev.extend(page_events("Bar", "[[A]]"));
    let (batches, rest) = parse_all(ev);
    assert!(batches.is_empty());
    assert_eq!(rest[0].name, "Bar");
    assert_eq!(rest[0].tags, vec![s("A")]);
    assert_eq!(rest.len(), 2);
    assert_eq!(rest[1].name, "");
}

#[test]
fn other_end_tags_do_not_end_the_page() {
    let ev = vec![
        XmlEvent::Start(s("title")),
        XmlEvent::Text(s("Foo")),
        XmlEvent::End(Some(s("title"))),
        XmlEvent::Other,
        XmlEvent::Empty(Some(s("minor"))),
        XmlEvent::Text(s("[[A]]")),
        XmlEvent::End(Some(s("page"))),
    ];
    let pages = all_pages(ev);
    assert_eq!(pages[0].tags, vec![s("A")]);
}

#[test]
fn full_batches_are_handed_out() {
    let mut ev = vec![];
    for i in 0..PAGES_PER_BATCH + 2 {
        ev.extend(page_events(&format!("T{}", i), "[[A]]"));
    }
    let (batches, rest) = parse_all(ev);
    assert_eq!(batches.len(), 1);
    assert_eq!(batches[0].0, 0);
    assert_eq!(batches[0].1.len(), PAGES_PER_BATCH);
    assert_eq!(batches[0].1[0].name, "T0");
    // two more pages and the untitled page at the end of the input
    assert_eq!(rest.len(), 3);
    assert_eq!(rest[0].name, format!("T{}", PAGES_PER_BATCH));
}

#[test]
fn stop_is_final() {
    let mut p = PageParser::new(1).ok().unwrap();
    let mut q: VecDeque<XmlEvent> = VecDeque::new();
    assert!(next_page(&mut p, &mut q).is_some());
    assert!(next_page(&mut p, &mut q).is_none());
    assert!(next_page(&mut p, &mut q).is_none());
    assert!(p.is_done());
}

#[test]
fn to_next_stops_at_the_named_start_tag_or_the_end() {
    let mut p = PageParser::new(1).ok().unwrap();
    assert!(!p.to_next("title", &XmlEvent::Start(s("page"))));
    assert!(!p.to_next("title", &XmlEvent::Text(s("x"))));
    assert!(p.to_next("title", &XmlEvent::Start(s("title"))));
    assert!(!p.is_done());
    assert!(p.to_next("title", &XmlEvent::Eof));
    assert!(p.is_done());
}

#[test]
fn to_end_sorts_events() {
    let mut p = PageParser::new(1).ok().unwrap();
    assert!(matches!(p.to_end("page", &XmlEvent::End(Some(s("text")))), EndStep::Skip));
    assert!(matches!(p.to_end("page", &XmlEvent::Text(s("x"))), EndStep::Forward));
    assert!(matches!(p.to_end("page", &XmlEvent::End(Some(s("page")))), EndStep::Stop));
    assert!(matches!(p.to_end("", &XmlEvent::End(None)), EndStep::Stop));
    assert!(matches!(p.to_end("page", &XmlEvent::Eof), EndStep::Skip));
    assert!(p.is_done());
}

#[test]
fn walks_stop_once_the_input_is_exhausted() {
    let mut p = PageParser::new(1).ok().unwrap();
    assert!(p.walk_reads());
    p.done();
    assert!(!p.walk_reads());
    assert!(matches!(p.to_end("page", &XmlEvent::Text(s("x"))), EndStep::Stop));
    assert!(matches!(p.to_end("page", &XmlEvent::End(Some(s("text")))), EndStep::Stop));
    assert!(p.to_next("title", &XmlEvent::Start(s("page"))));
    assert!(p.is_done());
    assert!(matches!(p.next_action(), Action::Stop));
}

#[test]
fn done_marks_the_input_exhausted() {
    let mut p = PageParser::new(7).ok().unwrap();
    assert_eq!(p.write_size_interval(), 7);
    assert_eq!(p.file_index(), 0);
    assert!(!p.is_done());
    p.done();
    assert!(p.is_done());
    assert!(matches!(p.next_action(), Action::Stop));
}

#[test]
fn undecodable_end_tag_is_refused_inside_a_page() {
    let mut p = PageParser::new(1).ok().unwrap();
    assert!(matches!(p.next_action(), Action::Read));
    assert!(p.accepts(&XmlEvent::End(None)));
    p.feed_next(XmlEvent::Start(s("title")));
    p.feed_next(XmlEvent::Text(s("Foo")));
    assert!(!p.accepts(&XmlEvent::End(None)));
    assert!(!p.accepts(&XmlEvent::Empty(None)));
    assert!(p.accepts(&XmlEvent::End(Some(s("x")))));
}
