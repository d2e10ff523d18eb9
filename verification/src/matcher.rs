use vstd::prelude::*;

use crate::page::strings_view;

verus! {

/// Declares `regex::Regex`, a compiled regular expression.
#[verifier::external_type_specification]
#[verifier::external_body]
pub struct ExRegex(regex::Regex);

/// Declares `regex::Error`, why a pattern failed to compile.
#[verifier::external_type_specification]
#[verifier::external_body]
pub struct ExRegexError(regex::Error);

/// Whether the regular expression `pattern` matches somewhere in `haystack`
/// (what `Regex::is_match` answers).
pub uninterp spec fn regex_is_match(pattern: Seq<char>, haystack: Seq<char>) -> bool;

/// The texts of the successive non-overlapping matches of the regular
/// expression `pattern` in `haystack`, from left to right (what
/// `Regex::find_iter` yields).
pub uninterp spec fn regex_find_all(pattern: Seq<char>, haystack: Seq<char>) -> Seq<Seq<char>>;

/// A regular expression together with its source text. Values are only
/// made by `compile`, so `compiled` is always the compilation of `source`.
pub struct Pattern {
    source: String,
    compiled: regex::Regex,
}

impl View for Pattern {
    type V = Seq<char>;

    closed spec fn view(&self) -> Seq<char> {
        self.source@
    }
}

/// Whether the regex crate accepts `pattern` (what `Regex::new` decides
/// from the pattern alone, with its default limits).
pub uninterp spec fn regex_compiles(pattern: Seq<char>) -> bool;

/// `Regex::new`: compiles `source`. It succeeds exactly when the regex crate
/// accepts the pattern, and then the pattern's text is `source`.
#[verifier::external_body]
fn compile(source: String) -> (r: Result<Pattern, regex::Error>)
    ensures
        r is Ok <==> regex_compiles(source@),
        r matches Ok(p) ==> p@ == source@,
{
    match regex::Regex::new(&source) {
        Ok(compiled) => Ok(Pattern { source, compiled }),
        Err(e) => Err(e),
    }
}

/// `Regex::is_match`: whether the pattern matches somewhere in `haystack`.
#[verifier::external_body]
fn is_match(p: &Pattern, haystack: &str) -> (r: bool)
    ensures
        r == regex_is_match(p@, haystack@),
{
    p.compiled.is_match(haystack)
}

/// `Regex::find_iter`: the texts of the successive matches in `haystack`.
#[verifier::external_body]
fn find_all(p: &Pattern, haystack: &str) -> (r: Vec<String>)
    ensures
        strings_view(r@) == regex_find_all(p@, haystack@),
{
    p.compiled.find_iter(haystack).map(|m| m.as_str().to_string()).collect()
}

/// The pattern that finds wiki links: `[[`, then as few characters as
/// possible, then `]` or `|`.
pub open spec fn link_pattern() -> Seq<char> {
    "(\\[\\[).+?(]|\\|)"@
}

/// The pattern of titles that are not articles: disambiguation pages,
/// files, and titles with a namespace prefix.
pub open spec fn excluded_pattern() -> Seq<char> {
    "\\(disambiguation\\)|File:|.+:.+"@
}

fn link_pattern_text() -> (s: &'static str)
    ensures
        s@ == link_pattern(),
{
    "(\\[\\[).+?(]|\\|)"
}

fn excluded_pattern_text() -> (s: &'static str)
    ensures
        s@ == excluded_pattern(),
{
    "\\(disambiguation\\)|File:|.+:.+"
}

/// Whether a title (or a link target) is excluded from the pages.
pub open spec fn is_excluded(name: Seq<char>) -> bool {
    regex_is_match(excluded_pattern(), name)
}

/// A link match has the shape `[[` ... `]` or `[[` ... `|`.
pub open spec fn link_shaped(m: Seq<char>) -> bool {
    &&& m.len() >= 3
    &&& m[0] == '['
    &&& m[1] == '['
    &&& (m.last() == ']' || m.last() == '|')
}

/// The target of a link match: the match without `[[` and the closing character.
pub open spec fn link_target(m: Seq<char>) -> Seq<char> {
    m.subrange(2, m.len() - 1)
}

/// The link targets kept from a sequence of matches: the targets of the
/// link-shaped matches that are not excluded, in order.
pub open spec fn kept_targets(ms: Seq<Seq<char>>) -> Seq<Seq<char>>
    decreases ms.len(),
{
    if ms.len() == 0 {
        Seq::empty()
    } else {
        let rest = kept_targets(ms.drop_last());
        let m = ms.last();
        if link_shaped(m) && !is_excluded(m) {
            rest.push(link_target(m))
        } else {
            rest
        }
    }
}

/// The link targets of a text.
pub open spec fn links_of_text(text: Seq<char>) -> Seq<Seq<char>> {
    kept_targets(regex_find_all(link_pattern(), text))
}

/// A target that a kept link match produces: some non-excluded
/// link-shaped match has it as its target.
pub open spec fn is_kept_target(t: Seq<char>) -> bool {
    exists|m: Seq<char>| #[trigger] link_shaped(m) && !is_excluded(m) && link_target(m) == t
}

/// Every kept target is the target of a kept match.
pub proof fn lemma_kept_targets_valid(ms: Seq<Seq<char>>)
    ensures
        forall|i: int| 0 <= i < kept_targets(ms).len() ==> is_kept_target(#[trigger] kept_targets(ms)[i]),
    decreases ms.len(),
{
    if ms.len() > 0 {
        lemma_kept_targets_valid(ms.drop_last());
        let m = ms.last();
        let rest = kept_targets(ms.drop_last());
        assert forall|i: int| 0 <= i < kept_targets(ms).len() implies is_kept_target(#[trigger] kept_targets(ms)[i]) by {
            if i < rest.len() {
                assert(kept_targets(ms)[i] == rest[i]);
            } else {
                assert(link_shaped(m) && !is_excluded(m) && link_target(m) == kept_targets(ms)[i]);
            }
        }
    }
}

/// One target per kept match, repeats included: the kept targets are the
/// targets of the link-shaped, non-excluded matches, in order, so there are
/// exactly as many as there are such matches.
pub proof fn lemma_kept_targets_one_per_kept_match(ms: Seq<Seq<char>>)
    ensures
        kept_targets(ms) == ms.filter(|m: Seq<char>| link_shaped(m) && !is_excluded(m)).map_values(
            |m: Seq<char>| link_target(m),
        ),
        kept_targets(ms).len() == ms.filter(|m: Seq<char>| link_shaped(m) && !is_excluded(m)).len(),
    decreases ms.len(),
{
    reveal(Seq::filter);
    let keep = |m: Seq<char>| link_shaped(m) && !is_excluded(m);
    let target = |m: Seq<char>| link_target(m);
    if ms.len() > 0 {
        lemma_kept_targets_one_per_kept_match(ms.drop_last());
        let prev = ms.drop_last().filter(keep);
        if keep(ms.last()) {
            assert(ms.filter(keep) == prev.push(ms.last()));
            assert(prev.push(ms.last()).map_values(target) =~= prev.map_values(target).push(link_target(ms.last())));
        } else {
            assert(ms.filter(keep) == prev);
        }
    } else {
        assert(ms.filter(keep).map_values(target) =~= Seq::<Seq<char>>::empty());
    }
}

/// Why the matchers could not be built: a pattern failed to compile.
pub struct InvalidPattern;

/// The two compiled patterns that page extraction uses.
pub struct Matchers {
    links: Pattern,
    excluded: Pattern,
}

impl Matchers {
    /// Whether the matchers hold the link and exclusion patterns.
    pub closed spec fn wf(&self) -> bool {
        &&& self.links@ == link_pattern()
        &&& self.excluded@ == excluded_pattern()
    }

    /// Compiles the link and exclusion patterns; fails exactly when the
    /// regex crate refuses one of them.
    pub fn new() -> (r: Result<Matchers, InvalidPattern>)
        ensures
            r is Ok <==> (regex_compiles(link_pattern()) && regex_compiles(excluded_pattern())),
            r matches Ok(m) ==> m.wf(),
    {
        let links = match compile(String::from_str(link_pattern_text())) {
            Ok(p) => p,
            Err(_) => return Err(InvalidPattern),
        };
        let excluded = match compile(String::from_str(excluded_pattern_text())) {
            Ok(p) => p,
            Err(_) => return Err(InvalidPattern),
        };
        Ok(Matchers { links, excluded })
    }

    /// Whether `name` is excluded from the pages.
    pub fn excludes(&self, name: &str) -> (b: bool)
        requires
            self.wf(),
        ensures
            b == is_excluded(name@),
    {
        is_match(&self.excluded, name)
    }

    /// Appends the link targets of `text` to `tags`: for each link match
    /// that is not excluded, the match without `[[` and its closing character.
    pub fn push_links(&self, text: &str, tags: &mut Vec<String>)
        requires
            self.wf(),
        ensures
            strings_view(final(tags)@) == strings_view(old(tags)@) + links_of_text(text@),
    {
        let matches = find_all(&self.links, text);
        let ghost ms = strings_view(matches@);
        let ghost start = strings_view(tags@);
        let mut i: usize = 0;
        while i < matches.len()
            invariant
                self.wf(),
                ms == strings_view(matches@),
                ms == regex_find_all(link_pattern(), text@),
                i <= matches@.len(),
                strings_view(tags@) == start + kept_targets(ms.take(i as int)),
            decreases matches@.len() - i,
        {
            let m = &matches[i];
            let ms_i = m.as_str();
            proof {
                assert(ms.take(i + 1).drop_last() =~= ms.take(i as int));
                assert(ms.take(i + 1).last() == ms[i as int]);
                assert(ms[i as int] == m@);
            }
            if self.is_link_shaped(ms_i) && !self.excludes(ms_i) {
                let n = ms_i.unicode_len();
                let target = ms_i.substring_char(2, n - 1);
                let ghost before = tags@;
                tags.push(String::from_str(target));
                proof {
                    assert(kept_targets(ms.take(i + 1)) == kept_targets(ms.take(i as int)).push(link_target(m@)));
                    assert(tags@ == before.push(tags@.last()));
                    assert(strings_view(tags@) =~= strings_view(before).push(link_target(m@)));
                    assert(strings_view(tags@) =~= start + kept_targets(ms.take(i + 1)));
                }
            } else {
                proof {
                    assert(strings_view(tags@) =~= start + kept_targets(ms.take(i + 1)));
                }
            }
            i = i + 1;
        }
        proof {
            assert(ms.take(matches@.len() as int) =~= ms);
        }
    }

    /// Whether `m` has the shape of a link match.
    fn is_link_shaped(&self, m: &str) -> (b: bool)
        ensures
            b == link_shaped(m@),
    {
        let n = m.unicode_len();
        if n < 3 {
            return false;
        }
        let last = m.get_char(n - 1);
        m.get_char(0) == '[' && m.get_char(1) == '[' && (last == ']' || last == '|')
    }
}

} // verus!
