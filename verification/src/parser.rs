use vstd::prelude::*;

use crate::matcher::{excluded_pattern, is_excluded, is_kept_target, kept_targets, lemma_kept_targets_valid, link_pattern, links_of_text, regex_compiles, regex_find_all, InvalidPattern, Matchers};
use crate::page::{strings_view, Page, PageView};

verus! {

/// The number of pages collected before a batch is handed out for writing.
pub const PAGES_PER_BATCH: usize = 25000;

/// `p` occurs in `s` at position `i`.
pub open spec fn occurs_at(s: Seq<char>, p: Seq<char>, i: int) -> bool {
    0 <= i && i + p.len() <= s.len() && s.subrange(i, i + p.len()) == p
}

/// `p` occurs somewhere in `s`.
pub open spec fn contains_text(s: Seq<char>, p: Seq<char>) -> bool {
    exists|i: int| #[trigger] occurs_at(s, p, i)
}

/// `str::contains` with a string pattern: whether `pat` occurs in `s`.
#[verifier::external_body]
fn str_contains(s: &str, pat: &str) -> (r: bool)
    ensures
        r == contains_text(s@, pat@),
{
    s.contains(pat)
}

/// Whether the string holds exactly the characters of `lit`.
fn text_is(s: &String, lit: &str) -> (b: bool)
    ensures
        b == (s@ == lit@),
{
    *s == String::from_str(lit)
}

/// One event of the XML reader, with tag names and text decoded from UTF-8.
/// Start tag names and texts that are not UTF-8 are read as empty; end and
/// empty tag names that are not UTF-8 are `None`.
pub enum XmlEvent {
    Start(String),
    End(Option<String>),
    Empty(Option<String>),
    Text(String),
    Eof,
    Other,
}

/// The plain-value model of an event.
pub enum EventView {
    Start(Seq<char>),
    End(Option<Seq<char>>),
    Empty(Option<Seq<char>>),
    Text(Seq<char>),
    Eof,
    Other,
}

pub open spec fn opt_view(o: Option<String>) -> Option<Seq<char>> {
    match o {
        Some(s) => Some(s@),
        None => None,
    }
}

impl View for XmlEvent {
    type V = EventView;

    open spec fn view(&self) -> EventView {
        match self {
            XmlEvent::Start(n) => EventView::Start(n@),
            XmlEvent::End(n) => EventView::End(opt_view(*n)),
            XmlEvent::Empty(n) => EventView::Empty(opt_view(*n)),
            XmlEvent::Text(t) => EventView::Text(t@),
            XmlEvent::Eof => EventView::Eof,
            XmlEvent::Other => EventView::Other,
        }
    }
}

/// Where the extraction of a page stands.
pub enum Stage {
    /// Between pages.
    Idle,
    /// Skipping events up to the next `<title>` start tag.
    SeekTitle,
    /// The next event holds the title.
    ReadTitle,
    /// Collecting the links of the page titled `name`.
    Body { name: String, tags: Vec<String> },
    /// A page is complete.
    Ready { page: Page },
}

pub enum StageView {
    Idle,
    SeekTitle,
    ReadTitle,
    Body { name: Seq<char>, tags: Seq<Seq<char>> },
    Ready { page: PageView },
}

impl View for Stage {
    type V = StageView;

    open spec fn view(&self) -> StageView {
        match self {
            Stage::Idle => StageView::Idle,
            Stage::SeekTitle => StageView::SeekTitle,
            Stage::ReadTitle => StageView::ReadTitle,
            Stage::Body { name, tags } => StageView::Body { name: name@, tags: strings_view(tags@) },
            Stage::Ready { page } => StageView::Ready { page: page@ },
        }
    }
}

/// What `to_end` does with an event.
pub enum EndStep {
    /// The end tag was reached: stop.
    Stop,
    /// Nothing to do with this event.
    Skip,
    /// Hand the event to the caller's callback.
    Forward,
}

/// The name of an end tag, read as empty when it is not UTF-8.
pub open spec fn end_name(n: Option<Seq<char>>) -> Seq<char> {
    match n {
        Some(x) => x,
        None => Seq::empty(),
    }
}

/// The plain-value model of a parser.
pub struct ParserView {
    pub done: bool,
    pub stage: StageView,
    pub file_index: u64,
    pub pages: Seq<PageView>,
}

/// What a parser asks for when pages are taken one at a time.
pub enum Action {
    /// Hand the next event to `feed_next`.
    Read,
    /// The next page.
    Yield(Page),
    /// The input is exhausted: no more pages.
    Stop,
}

pub enum ActionView {
    Read,
    Yield(PageView),
    Stop,
}

impl View for Action {
    type V = ActionView;

    open spec fn view(&self) -> ActionView {
        match self {
            Action::Read => ActionView::Read,
            Action::Yield(p) => ActionView::Yield(p@),
            Action::Stop => ActionView::Stop,
        }
    }
}

/// What a parser asks for when pages are collected in batches.
pub enum ParseAction {
    /// Hand the next event to `feed_parse`.
    Read,
    /// A full batch of pages, to be written as the batch numbered `index`.
    Flush { index: u64, pages: Vec<Page> },
    /// The input is exhausted: the pages collected since the last batch.
    Finish(Vec<Page>),
}

pub enum ParseActionView {
    Read,
    Flush { index: u64, pages: Seq<PageView> },
    Finish(Seq<PageView>),
}

pub open spec fn pages_view(v: Seq<Page>) -> Seq<PageView> {
    v.map_values(|p: Page| p@)
}

impl View for ParseAction {
    type V = ParseActionView;

    open spec fn view(&self) -> ParseActionView {
        match self {
            ParseAction::Read => ParseActionView::Read,
            ParseAction::Flush { index, pages } => ParseActionView::Flush { index: *index, pages: pages_view(pages@) },
            ParseAction::Finish(pages) => ParseActionView::Finish(pages_view(pages@)),
        }
    }
}

/// The page made of a title and its links.
pub open spec fn page_of(name: Seq<char>, tags: Seq<Seq<char>>) -> PageView {
    PageView { name, tags, redirect: None }
}

/// A page the extraction can produce: its title is not excluded, it
/// redirects nowhere, and each of its links is the target of a kept link match.
pub open spec fn valid_page(p: PageView) -> bool {
    &&& !is_excluded(p.name)
    &&& p.redirect is None
    &&& forall|i: int| 0 <= i < p.tags.len() ==> is_kept_target(#[trigger] p.tags[i])
}

/// What holds of every state a parser reaches: every page, finished or
/// under way, is valid.
pub open spec fn parser_inv(s: ParserView) -> bool {
    &&& match s.stage {
        StageView::Body { name, tags } => valid_page(page_of(name, tags)),
        StageView::Ready { page } => valid_page(page),
        _ => true,
    }
    &&& forall|i: int| 0 <= i < s.pages.len() ==> valid_page(#[trigger] s.pages[i])
    &&& s.pages.len() < PAGES_PER_BATCH
}

/// Whether the parser waits for an event.
pub open spec fn awaits_event(s: ParserView) -> bool {
    match s.stage {
        StageView::SeekTitle => !s.done,
        StageView::ReadTitle => true,
        StageView::Body { .. } => !s.done,
        _ => false,
    }
}

/// Whether the event can be handed to the parser: inside a page, end and
/// empty tags must have UTF-8 names.
pub open spec fn accepts(s: ParserView, ev: EventView) -> bool {
    match s.stage {
        StageView::Body { .. } => !(ev matches EventView::End(None)) && !(ev matches EventView::Empty(None)),
        _ => true,
    }
}

/// The state after the parser takes one event. `collect` selects batch
/// collection, where a redirect drops the page and an excluded title sends
/// the parser back between pages; otherwise a redirect ends the page and an
/// excluded title makes it look for the next title.
pub open spec fn feed_spec(s: ParserView, ev: EventView, collect: bool) -> ParserView {
    match s.stage {
        StageView::SeekTitle => match ev {
            EventView::Start(n) => if n == "title"@ {
                ParserView { stage: StageView::ReadTitle, ..s }
            } else {
                s
            },
            EventView::Eof => ParserView { done: true, ..s },
            _ => s,
        },
        StageView::ReadTitle => {
            let name = match ev {
                EventView::Text(t) => t,
                _ => Seq::empty(),
            };
            if is_excluded(name) {
                ParserView { stage: if collect { StageView::Idle } else { StageView::SeekTitle }, ..s }
            } else {
                ParserView { stage: StageView::Body { name, tags: Seq::empty() }, ..s }
            }
        },
        StageView::Body { name, tags } => match ev {
            EventView::End(Some(n)) => if n == "page"@ {
                ParserView { stage: StageView::Ready { page: page_of(name, tags) }, ..s }
            } else {
                s
            },
            EventView::Empty(Some(n)) => if contains_text(n, "redirect"@) {
                ParserView {
                    stage: if collect { StageView::Idle } else { StageView::Ready { page: page_of(name, tags) } },
                    ..s
                }
            } else {
                s
            },
            EventView::Text(t) => ParserView { stage: StageView::Body { name, tags: tags + links_of_text(t) }, ..s },
            EventView::Eof => ParserView { done: true, ..s },
            _ => s,
        },
        _ => s,
    }
}

/// The state and action after the parser moves, when pages are taken one
/// at a time, as far as it can without an event.
pub open spec fn next_spec(s: ParserView) -> (ParserView, ActionView) {
    match s.stage {
        StageView::Idle => if s.done {
            (s, ActionView::Stop)
        } else {
            (ParserView { stage: StageView::SeekTitle, ..s }, ActionView::Read)
        },
        StageView::SeekTitle => if s.done {
            (ParserView { stage: StageView::ReadTitle, ..s }, ActionView::Read)
        } else {
            (s, ActionView::Read)
        },
        StageView::ReadTitle => (s, ActionView::Read),
        StageView::Body { name, tags } => if s.done {
            (ParserView { stage: StageView::Idle, ..s }, ActionView::Yield(page_of(name, tags)))
        } else {
            (s, ActionView::Read)
        },
        StageView::Ready { page } => (ParserView { stage: StageView::Idle, ..s }, ActionView::Yield(page)),
    }
}

/// Between pages, in batch collection: finish when the input is exhausted,
/// else look for the next title.
pub open spec fn settle_idle(s: ParserView) -> (ParserView, ParseActionView) {
    if s.done {
        (ParserView { stage: StageView::Idle, pages: Seq::empty(), ..s }, ParseActionView::Finish(s.pages))
    } else {
        (ParserView { stage: StageView::SeekTitle, ..s }, ParseActionView::Read)
    }
}

/// A finished page joins the collected pages; a full batch is handed out.
pub open spec fn after_push(s: ParserView, p: PageView) -> (ParserView, ParseActionView) {
    let pages = s.pages.push(p);
    if pages.len() % (PAGES_PER_BATCH as nat) == 0 {
        (
            ParserView { stage: StageView::Idle, pages: Seq::empty(), file_index: (s.file_index + 1) as u64, ..s },
            ParseActionView::Flush { index: s.file_index, pages },
        )
    } else {
        settle_idle(ParserView { stage: StageView::Idle, pages, ..s })
    }
}

/// The state and action after the parser moves, in batch collection, as
/// far as it can without an event.
pub open spec fn parse_spec(s: ParserView) -> (ParserView, ParseActionView) {
    match s.stage {
        StageView::Idle => settle_idle(s),
        StageView::SeekTitle => if s.done {
            (ParserView { stage: StageView::ReadTitle, ..s }, ParseActionView::Read)
        } else {
            (s, ParseActionView::Read)
        },
        StageView::ReadTitle => (s, ParseActionView::Read),
        StageView::Body { name, tags } => if s.done {
            after_push(s, page_of(name, tags))
        } else {
            (s, ParseActionView::Read)
        },
        StageView::Ready { page } => after_push(s, page),
    }
}

/// Once a parser taking pages one at a time stops, it stays stopped:
/// asking again changes nothing and stops again.
pub proof fn lemma_stop_is_final(s: ParserView)
    requires
        next_spec(s).1 is Stop,
    ensures
        next_spec(s).0 == s,
        next_spec(next_spec(s).0).1 is Stop,
{
}

/// Once a parser collecting batches finishes, asking again hands out no
/// more pages.
pub proof fn lemma_finish_is_final(s: ParserView)
    requires
        parse_spec(s).1 is Finish,
    ensures
        parse_spec(parse_spec(s).0).1 == ParseActionView::Finish(Seq::empty()),
{
}

/// A parser that has seen the end of the input and stands between pages
/// stops, and one that stands in a page yields that page.
pub proof fn lemma_done_ends(s: ParserView)
    requires
        s.done,
    ensures
        s.stage is Idle ==> next_spec(s).1 is Stop,
        s.stage matches StageView::Body { name, tags } ==> next_spec(s).1 == ActionView::Yield(page_of(name, tags))
            && next_spec(next_spec(s).0).1 is Stop,
{
}

/// Between calls of the page-at-a-time iteration (the parser stands between
/// pages), the answer is "no more pages" exactly when the input was already
/// exhausted, and then nothing changes.
pub proof fn lemma_none_exactly_when_exhausted(s: ParserView)
    requires
        s.stage is Idle,
    ensures
        next_spec(s).1 is Stop <==> s.done,
        s.done ==> next_spec(s).0 == s,
{
}

/// Within one call of the page-at-a-time iteration no "no more pages"
/// answer comes: away from the state between pages the parser never stops,
/// it only comes back between pages by yielding a page, and no event sends
/// it back between pages.
pub proof fn lemma_no_stop_within_a_page(s: ParserView, ev: EventView)
    ensures
        !(s.stage is Idle) ==> !(next_spec(s).1 is Stop),
        !(s.stage is Idle) && next_spec(s).0.stage is Idle ==> next_spec(s).1 is Yield,
        awaits_event(s) ==> !(feed_spec(s, ev, false).stage is Idle),
{
}

/// Batches are numbered in the order they are handed out: a full batch
/// carries the parser's current number and holds a full batch of pages, and
/// the parser moves on to the next number with no pages collected.
pub proof fn lemma_batches_numbered_in_order(s: ParserView)
    requires
        parser_inv(s),
        s.file_index < u64::MAX,
        parse_spec(s).1 is Flush,
    ensures
        parse_spec(s).1 matches ParseActionView::Flush { index, pages }
            && index == s.file_index && pages.len() == PAGES_PER_BATCH,
        parse_spec(s).0.file_index == s.file_index + 1,
        parse_spec(s).0.pages.len() == 0,
{
}

/// The batch number moves only when a batch is handed out: taking an event
/// never changes it, nor does a step that hands out no batch, nor a step of
/// the page-at-a-time iteration. With `lemma_batches_numbered_in_order`,
/// the batches of a run are numbered 0, 1, 2, ... from a new parser.
pub proof fn lemma_batch_number_moves_only_on_flush(s: ParserView, ev: EventView, collect: bool)
    ensures
        feed_spec(s, ev, collect).file_index == s.file_index,
        !(parse_spec(s).1 is Flush) ==> parse_spec(s).0.file_index == s.file_index,
        next_spec(s).0.file_index == s.file_index,
{
}

/// Every page that reaches its `</page>` end tag is kept, whatever its
/// links (none included): taken one at a time it is the next page yielded,
/// and collected in batches it joins the collected pages, after those
/// collected before it. A finished page always yields itself.
pub proof fn lemma_finished_page_is_kept(s: ParserView, name: Seq<char>, tags: Seq<Seq<char>>)
    requires
        s.stage == (StageView::Body { name, tags }),
    ensures
        next_spec(feed_spec(s, EventView::End(Some("page"@)), false))
            == (ParserView { stage: StageView::Idle, ..s }, ActionView::Yield(page_of(name, tags))),
        ({
            let (t, a) = parse_spec(feed_spec(s, EventView::End(Some("page"@)), true));
            match a {
                ParseActionView::Flush { pages, .. } => pages == s.pages.push(page_of(name, tags)),
                ParseActionView::Finish(pages) => pages == s.pages.push(page_of(name, tags)),
                ParseActionView::Read => t.pages == s.pages.push(page_of(name, tags)),
            }
        }),
{
}

/// A finished page is always the page yielded next.
pub proof fn lemma_ready_page_is_yielded(s: ParserView, page: PageView)
    requires
        s.stage == (StageView::Ready { page }),
    ensures
        next_spec(s).1 == ActionView::Yield(page),
        next_spec(s).0 == (ParserView { stage: StageView::Idle, ..s }),
{
}

/// The first event of an input, or the end of the input when none is left.
pub open spec fn head_or_eof(events: Seq<EventView>) -> EventView {
    if events.len() > 0 { events[0] } else { EventView::Eof }
}

/// The input after its first event.
pub open spec fn tail_of(events: Seq<EventView>) -> Seq<EventView> {
    if events.len() > 0 { events.drop_first() } else { events }
}

/// Batch collection over `events` followed by the end of the input reaches
/// its final answer within `fuel` actions.
pub open spec fn parse_run(s: ParserView, events: Seq<EventView>, fuel: nat) -> bool
    decreases fuel,
{
    if fuel == 0 {
        false
    } else {
        let (t, a) = parse_spec(s);
        match a {
            ParseActionView::Finish(_) => true,
            ParseActionView::Flush { .. } => parse_run(t, events, (fuel - 1) as nat),
            ParseActionView::Read => parse_run(feed_spec(t, head_or_eof(events), true), tail_of(events), (fuel - 1) as nat),
        }
    }
}

proof fn lemma_parse_run_monotone(s: ParserView, events: Seq<EventView>, f: nat, g: nat)
    requires
        parse_run(s, events, f),
        f <= g,
    ensures
        parse_run(s, events, g),
    decreases f,
{
    let (t, a) = parse_spec(s);
    match a {
        ParseActionView::Finish(_) => {},
        ParseActionView::Flush { .. } => {
            lemma_parse_run_monotone(t, events, (f - 1) as nat, (g - 1) as nat);
        },
        ParseActionView::Read => {
            lemma_parse_run_monotone(feed_spec(t, head_or_eof(events), true), tail_of(events), (f - 1) as nat, (g - 1) as nat);
        },
    }
}

/// After the input ended, between pages: the collected pages come out.
proof fn lemma_run_done_idle(s: ParserView)
    requires
        s.done,
        s.stage is Idle,
    ensures
        parse_run(s, Seq::empty(), 1),
{
}

/// After the input ended, in or at the end of a page: at most two more actions.
proof fn lemma_run_done_page(s: ParserView)
    requires
        s.done,
        s.stage is Body || s.stage is Ready,
    ensures
        parse_run(s, Seq::empty(), 3),
{
    let (t, a) = parse_spec(s);
    if a is Flush {
        lemma_run_done_idle(t);
        lemma_parse_run_monotone(t, Seq::empty(), 1, 2);
    }
}

/// After the input ended, while the title is awaited: at most four more actions.
proof fn lemma_run_done_title(s: ParserView)
    requires
        s.done,
        s.stage is SeekTitle || s.stage is ReadTitle,
    ensures
        parse_run(s, Seq::empty(), 4),
{
    let (t, a) = parse_spec(s);
    assert(a is Read);
    assert(t.stage is ReadTitle && t.done);
    let u = feed_spec(t, EventView::Eof, true);
    assert(u.done);
    if u.stage is Idle {
        lemma_run_done_idle(u);
        lemma_parse_run_monotone(u, Seq::empty(), 1, 3);
    } else {
        lemma_run_done_page(u);
    }
}

/// With no events left, batch collection ends within eight actions.
proof fn lemma_run_at_end(s: ParserView)
    ensures
        parse_run(s, Seq::empty(), 8),
{
    let e = Seq::<EventView>::empty();
    assert(head_or_eof(e) == EventView::Eof);
    assert(tail_of(e) == e);
    if s.done {
        match s.stage {
            StageView::Idle => { lemma_run_done_idle(s); lemma_parse_run_monotone(s, e, 1, 8); },
            StageView::SeekTitle => { lemma_run_done_title(s); lemma_parse_run_monotone(s, e, 4, 8); },
            StageView::ReadTitle => { lemma_run_done_title(s); lemma_parse_run_monotone(s, e, 4, 8); },
            _ => { lemma_run_done_page(s); lemma_parse_run_monotone(s, e, 3, 8); },
        }
    } else {
        let (t, a) = parse_spec(s);
        match s.stage {
            StageView::Idle => {
                let u = feed_spec(t, EventView::Eof, true);
                assert(u.done && u.stage is SeekTitle);
                lemma_run_done_title(u);
                lemma_parse_run_monotone(u, e, 4, 7);
                assert(parse_run(s, e, 8));
            },
            StageView::SeekTitle => {
                let u = feed_spec(t, EventView::Eof, true);
                lemma_run_done_title(u);
                lemma_parse_run_monotone(u, e, 4, 7);
                assert(parse_run(s, e, 8));
            },
            StageView::ReadTitle => {
                let u = feed_spec(t, EventView::Eof, true);
                assert(!u.done);
                if u.stage is Idle {
                    let (t2, a2) = parse_spec(u);
                    let u2 = feed_spec(t2, EventView::Eof, true);
                    assert(u2.done && u2.stage is SeekTitle);
                    lemma_run_done_title(u2);
                    lemma_parse_run_monotone(u2, e, 4, 6);
                    assert(parse_run(u, e, 7));
                } else {
                    let (t2, a2) = parse_spec(u);
                    assert(t2 == u && a2 is Read);
                    let u2 = feed_spec(u, EventView::Eof, true);
                    assert(u2.done && u2.stage is Body);
                    lemma_run_done_page(u2);
                    lemma_parse_run_monotone(u2, e, 3, 6);
                    assert(parse_run(u, e, 7));
                }
                assert(parse_run(s, e, 8));
            },
            StageView::Body { .. } => {
                let u = feed_spec(t, EventView::Eof, true);
                lemma_run_done_page(u);
                lemma_parse_run_monotone(u, e, 3, 7);
                assert(parse_run(s, e, 8));
            },
            StageView::Ready { .. } => {
                if a is Flush {
                    assert(t.stage is Idle && !t.done);
                    let (t2, a2) = parse_spec(t);
                    let u2 = feed_spec(t2, EventView::Eof, true);
                    lemma_run_done_title(u2);
                    lemma_parse_run_monotone(u2, e, 4, 6);
                    assert(parse_run(t, e, 7));
                } else {
                    assert(a is Read && t.stage is SeekTitle && !t.done);
                    let u = feed_spec(t, EventView::Eof, true);
                    lemma_run_done_title(u);
                    lemma_parse_run_monotone(u, e, 4, 7);
                }
                assert(parse_run(s, e, 8));
            },
        }
    }
}

/// Batch collection always ends: over any finite input followed by the end
/// of the input, it hands out its last pages within `2 * n + 8` actions,
/// where `n` is the number of events.
pub proof fn lemma_parse_terminates(s: ParserView, events: Seq<EventView>)
    ensures
        parse_run(s, events, 2 * events.len() + 8),
    decreases events.len(),
{
    if events.len() == 0 {
        lemma_run_at_end(s);
        assert(events =~= Seq::<EventView>::empty());
    } else {
        let (t, a) = parse_spec(s);
        let n = events.len();
        match a {
            ParseActionView::Finish(_) => {},
            ParseActionView::Flush { .. } => {
                assert(t.stage is Idle);
                let (t2, a2) = parse_spec(t);
                if a2 is Read {
                    let u = feed_spec(t2, events[0], true);
                    lemma_parse_terminates(u, events.drop_first());
                    lemma_parse_run_monotone(u, events.drop_first(), (2 * (n - 1) + 8) as nat, (2 * n + 6) as nat);
                }
                assert(parse_run(t, events, (2 * n + 7) as nat));
            },
            ParseActionView::Read => {
                let u = feed_spec(t, events[0], true);
                lemma_parse_terminates(u, events.drop_first());
                lemma_parse_run_monotone(u, events.drop_first(), (2 * (n - 1) + 8) as nat, (2 * n + 7) as nat);
            },
        }
    }
}

/// The decisions of the extraction of pages from a wiki XML dump: which
/// events start a page, which title and links it gets, when it ends, and
/// which pages are dropped. Reading the events is left to the caller.
pub struct PageParser {
    write_size_interval: u64,
    file_index: u64,
    _done: bool,
    stage: Stage,
    pages: Vec<Page>,
    matchers: Matchers,
}

impl View for PageParser {
    type V = ParserView;

    closed spec fn view(&self) -> ParserView {
        ParserView { done: self._done, stage: self.stage@, file_index: self.file_index, pages: pages_view(self.pages@) }
    }
}

impl PageParser {
    /// The parser's patterns are compiled and its state satisfies `parser_inv`.
    pub closed spec fn wf(&self) -> bool {
        &&& self.matchers.wf()
        &&& parser_inv(self@)
    }

    /// The batch size given at creation (kept for the caller; the batches
    /// themselves hold `PAGES_PER_BATCH` pages).
    pub closed spec fn spec_write_size_interval(&self) -> u64 {
        self.write_size_interval
    }

    /// A parser before its first event: between pages, not done, batch 0.
    /// Fails exactly when the regex crate refuses one of the patterns.
    pub fn new(write_size_interval: u64) -> (r: Result<Self, InvalidPattern>)
        ensures
            r is Ok <==> (regex_compiles(link_pattern()) && regex_compiles(excluded_pattern())),
            r matches Ok(p) ==> {
                &&& p.wf()
                &&& p@ == (ParserView { done: false, stage: StageView::Idle, file_index: 0, pages: Seq::empty() })
                &&& p.spec_write_size_interval() == write_size_interval
            },
    {
        let matchers = match Matchers::new() {
            Ok(m) => m,
            Err(e) => return Err(e),
        };
        let p = PageParser {
            write_size_interval,
            file_index: 0,
            _done: false,
            stage: Stage::Idle,
            pages: Vec::new(),
            matchers,
        };
        proof {
            assert(p@.pages =~= Seq::<PageView>::empty());
        }
        Ok(p)
    }

    /// Whether the input is exhausted.
    pub fn is_done(&self) -> (b: bool)
        ensures
            b == self@.done,
    {
        self._done
    }

    /// The number of the next batch.
    pub fn file_index(&self) -> (i: u64)
        ensures
            i == self@.file_index,
    {
        self.file_index
    }

    /// The batch size given at creation.
    pub fn write_size_interval(&self) -> (n: u64)
        ensures
            n == self.spec_write_size_interval(),
    {
        self.write_size_interval
    }

    /// Marks the input as exhausted.
    pub fn done(&mut self)
        requires
            old(self).wf(),
        ensures
            final(self).wf(),
            final(self)@ == (ParserView { done: true, ..old(self)@ }),
            final(self).spec_write_size_interval() == old(self).spec_write_size_interval(),
    {
        self._done = true;
    }

    /// One event of the search for the start tag `name`: whether the search
    /// is over, because the tag was found or the input ended (which marks
    /// the parser done).
    pub fn to_next(&mut self, name: &str, ev: &XmlEvent) -> (over: bool)
        requires
            old(self).wf(),
        ensures
            final(self).wf(),
            final(self)@ == (ParserView { done: old(self)@.done || ev@ is Eof, ..old(self)@ }),
            over == (old(self)@.done || ev@ is Eof || (ev@ matches EventView::Start(n) && n == name@)),
            final(self).spec_write_size_interval() == old(self).spec_write_size_interval(),
    {
        match ev {
            XmlEvent::Start(n) => {
                self._done || *n == String::from_str(name)
            },
            XmlEvent::Eof => {
                self._done = true;
                true
            },
            _ => self._done,
        }
    }

    /// One event of the walk to the end tag `name`: a parser that is done
    /// stops the walk and leaves the event unread; otherwise the end tag
    /// stops the walk, the end of the input marks the parser done, other end
    /// tags are skipped and every other event goes to the caller's callback.
    pub fn to_end(&mut self, name: &str, ev: &XmlEvent) -> (step: EndStep)
        requires
            old(self).wf(),
        ensures
            final(self).wf(),
            final(self)@ == (ParserView { done: old(self)@.done || ev@ is Eof, ..old(self)@ }),
            old(self)@.done ==> step is Stop,
            !old(self)@.done ==> match ev@ {
                EventView::End(n) => if end_name(n) == name@ { step is Stop } else { step is Skip },
                EventView::Eof => step is Skip,
                _ => step is Forward,
            },
            final(self).spec_write_size_interval() == old(self).spec_write_size_interval(),
    {
        if self._done {
            return EndStep::Stop;
        }
        match ev {
            XmlEvent::End(n) => {
                let found = match n {
                    Some(x) => *x == String::from_str(name),
                    None => String::new() == String::from_str(name),
                };
                if found { EndStep::Stop } else { EndStep::Skip }
            },
            XmlEvent::Eof => {
                self._done = true;
                EndStep::Skip
            },
            _ => EndStep::Forward,
        }
    }

    /// Whether a walk to a tag (`to_next`, `to_end`) reads another event:
    /// not once the input is exhausted.
    pub fn walk_reads(&self) -> (b: bool)
        ensures
            b == !self@.done,
    {
        !self._done
    }

    /// Whether the parser waits for an event.
    pub fn awaits_event(&self) -> (b: bool)
        ensures
            b == awaits_event(self@),
    {
        match &self.stage {
            Stage::SeekTitle => !self._done,
            Stage::ReadTitle => true,
            Stage::Body { .. } => !self._done,
            _ => false,
        }
    }

    /// Whether the event can be handed to the parser.
    pub fn accepts(&self, ev: &XmlEvent) -> (b: bool)
        ensures
            b == accepts(self@, ev@),
    {
        match &self.stage {
            Stage::Body { .. } => match ev {
                XmlEvent::End(None) => false,
                XmlEvent::Empty(None) => false,
                _ => true,
            },
            _ => true,
        }
    }

    /// The parser takes one event.
    fn feed(&mut self, ev: XmlEvent, collect: bool)
        requires
            old(self).wf(),
            awaits_event(old(self)@),
            accepts(old(self)@, ev@),
        ensures
            final(self).wf(),
            final(self)@ == feed_spec(old(self)@, ev@, collect),
            final(self).spec_write_size_interval() == old(self).spec_write_size_interval(),
    {
        let ghost s = self@;
        let mut stage = Stage::Idle;
        core::mem::swap(&mut stage, &mut self.stage);
        match stage {
            Stage::SeekTitle => {
                match ev {
                    XmlEvent::Start(n) => {
                        if text_is(&n, "title") {
                            self.stage = Stage::ReadTitle;
                        } else {
                            self.stage = Stage::SeekTitle;
                        }
                    },
                    XmlEvent::Eof => {
                        self.stage = Stage::SeekTitle;
                        self._done = true;
                    },
                    _ => {
                        self.stage = Stage::SeekTitle;
                    },
                }
            },
            Stage::ReadTitle => {
                let name = match ev {
                    XmlEvent::Text(t) => t,
                    _ => String::new(),
                };
                if self.matchers.excludes(name.as_str()) {
                    self.stage = if collect { Stage::Idle } else { Stage::SeekTitle };
                } else {
                    let tags: Vec<String> = Vec::new();
                    proof {
                        assert(strings_view(tags@) =~= Seq::<Seq<char>>::empty());
                    }
                    self.stage = Stage::Body { name, tags };
                }
            },
            Stage::Body { name, mut tags } => {
                match ev {
                    XmlEvent::End(Some(n)) => {
                        if text_is(&n, "page") {
                            self.stage = Stage::Ready { page: Page::new(name, tags) };
                        } else {
                            self.stage = Stage::Body { name, tags };
                        }
                    },
                    XmlEvent::Empty(Some(n)) => {
                        if str_contains(n.as_str(), "redirect") {
                            if collect {
                                self.stage = Stage::Idle;
                            } else {
                                self.stage = Stage::Ready { page: Page::new(name, tags) };
                            }
                        } else {
                            self.stage = Stage::Body { name, tags };
                        }
                    },
                    XmlEvent::Text(t) => {
                        let ghost before = strings_view(tags@);
                        self.matchers.push_links(t.as_str(), &mut tags);
                        proof {
                            lemma_kept_targets_valid(regex_find_all(link_pattern(), t@));
                            let after = strings_view(tags@);
                            assert forall|i: int| 0 <= i < after.len() implies is_kept_target(#[trigger] after[i]) by {
                                if i < before.len() {
                                    assert(after[i] == before[i]);
                                    assert(page_of(name@, before).tags[i] == before[i]);
                                } else {
                                    let k = i - before.len();
                                    assert(after[i] == links_of_text(t@)[k]);
                                    assert(is_kept_target(kept_targets(regex_find_all(link_pattern(), t@))[k]));
                                }
                            }
                        }
                        self.stage = Stage::Body { name, tags };
                    },
                    XmlEvent::Eof => {
                        self.stage = Stage::Body { name, tags };
                        self._done = true;
                    },
                    _ => {
                        self.stage = Stage::Body { name, tags };
                    },
                }
            },
            other => {
                self.stage = other;
            },
        }
    }

    /// Moves as far as possible without an event, when pages are taken one
    /// at a time: asks for an event, yields the next page, or stops when the
    /// input is exhausted. Every page yielded is valid.
    pub fn next_action(&mut self) -> (action: Action)
        requires
            old(self).wf(),
        ensures
            final(self).wf(),
            (final(self)@, action@) == next_spec(old(self)@),
            action@ matches ActionView::Yield(p) ==> valid_page(p),
            final(self).spec_write_size_interval() == old(self).spec_write_size_interval(),
    {
        let mut stage = Stage::Idle;
        core::mem::swap(&mut stage, &mut self.stage);
        match stage {
            Stage::Idle => {
                if self._done {
                    Action::Stop
                } else {
                    self.stage = Stage::SeekTitle;
                    Action::Read
                }
            },
            Stage::SeekTitle => {
                self.stage = if self._done { Stage::ReadTitle } else { Stage::SeekTitle };
                Action::Read
            },
            Stage::ReadTitle => {
                self.stage = Stage::ReadTitle;
                Action::Read
            },
            Stage::Body { name, tags } => {
                if self._done {
                    Action::Yield(Page::new(name, tags))
                } else {
                    self.stage = Stage::Body { name, tags };
                    Action::Read
                }
            },
            Stage::Ready { page } => Action::Yield(page),
        }
    }

    /// Between pages, in batch collection: hands out the collected pages
    /// when the input is exhausted, else looks for the next title.
    fn settle_idle(&mut self) -> (action: ParseAction)
        requires
            old(self).wf(),
            old(self)@.stage == StageView::Idle,
        ensures
            final(self).wf(),
            (final(self)@, action@) == settle_idle(old(self)@),
            final(self).spec_write_size_interval() == old(self).spec_write_size_interval(),
    {
        if self._done {
            let mut pages: Vec<Page> = Vec::new();
            core::mem::swap(&mut pages, &mut self.pages);
            proof {
                assert(pages_view(self.pages@) =~= Seq::<PageView>::empty());
            }
            ParseAction::Finish(pages)
        } else {
            self.stage = Stage::SeekTitle;
            ParseAction::Read
        }
    }

    /// A finished page joins the collected pages; a full batch is handed out.
    fn push_page(&mut self, page: Page) -> (action: ParseAction)
        requires
            old(self).wf(),
            old(self)@.stage == StageView::Idle,
            old(self)@.file_index < u64::MAX,
            valid_page(page@),
        ensures
            final(self).wf(),
            (final(self)@, action@) == after_push(old(self)@, page@),
            final(self).spec_write_size_interval() == old(self).spec_write_size_interval(),
    {
        let ghost s = self@;
        self.pages.push(page);
        proof {
            assert(pages_view(self.pages@) =~= s.pages.push(page@));
        }
        if self.pages.len() % PAGES_PER_BATCH == 0 {
            let mut pages: Vec<Page> = Vec::new();
            core::mem::swap(&mut pages, &mut self.pages);
            let index = self.file_index;
            self.file_index = self.file_index + 1;
            proof {
                assert(pages_view(self.pages@) =~= Seq::<PageView>::empty());
            }
            ParseAction::Flush { index, pages }
        } else {
            self.settle_idle()
        }
    }

    /// Moves as far as possible without an event, when pages are collected
    /// in batches: asks for an event, hands out a full batch, or hands out
    /// the rest when the input is exhausted. Every page handed out is valid
    /// and a full batch holds `PAGES_PER_BATCH` pages.
    pub fn parse_action(&mut self) -> (action: ParseAction)
        requires
            old(self).wf(),
            old(self)@.file_index < u64::MAX,
        ensures
            final(self).wf(),
            (final(self)@, action@) == parse_spec(old(self)@),
            match action@ {
                ParseActionView::Flush { pages, .. } => pages.len() == PAGES_PER_BATCH
                    && forall|i: int| 0 <= i < pages.len() ==> valid_page(#[trigger] pages[i]),
                ParseActionView::Finish(pages) => forall|i: int| 0 <= i < pages.len() ==> valid_page(#[trigger] pages[i]),
                ParseActionView::Read => true,
            },
            final(self).spec_write_size_interval() == old(self).spec_write_size_interval(),
    {
        let mut stage = Stage::Idle;
        core::mem::swap(&mut stage, &mut self.stage);
        match stage {
            Stage::Idle => self.settle_idle(),
            Stage::SeekTitle => {
                self.stage = if self._done { Stage::ReadTitle } else { Stage::SeekTitle };
                ParseAction::Read
            },
            Stage::ReadTitle => {
                self.stage = Stage::ReadTitle;
                ParseAction::Read
            },
            Stage::Body { name, tags } => {
                if self._done {
                    self.push_page(Page::new(name, tags))
                } else {
                    self.stage = Stage::Body { name, tags };
                    ParseAction::Read
                }
            },
            Stage::Ready { page } => self.push_page(page),
        }
    }

    /// Hands the next event to a parser from which pages are taken one at a time.
    pub fn feed_next(&mut self, ev: XmlEvent)
        requires
            old(self).wf(),
            awaits_event(old(self)@),
            accepts(old(self)@, ev@),
        ensures
            final(self).wf(),
            final(self)@ == feed_spec(old(self)@, ev@, false),
            final(self).spec_write_size_interval() == old(self).spec_write_size_interval(),
    {
        self.feed(ev, false)
    }

    /// Hands the next event to a parser that collects pages in batches.
    pub fn feed_parse(&mut self, ev: XmlEvent)
        requires
            old(self).wf(),
            awaits_event(old(self)@),
            accepts(old(self)@, ev@),
        ensures
            final(self).wf(),
            final(self)@ == feed_spec(old(self)@, ev@, true),
            final(self).spec_write_size_interval() == old(self).spec_write_size_interval(),
    {
        self.feed(ev, true)
    }
}

} // verus!
