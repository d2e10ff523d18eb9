use std::collections::HashMap;
use vstd::prelude::*;

use crate::counts::link_counts;
use crate::graph::lists_view;
use crate::page::strings_view;

verus! {

/// What `serde_json::from_str::<Vec<String>>` reads from a JSON text: the
/// list of strings, each taken by its characters, or `None` where the text
/// is no JSON array of strings.
pub uninterp spec fn json_titles(text: Seq<char>) -> Option<Seq<Seq<char>>>;

/// What `serde_json::from_str::<Vec<Vec<usize>>>` reads from a JSON text:
/// the lists of numbers, or `None` where the text is no JSON array of arrays
/// of numbers that fit in a `usize`.
pub uninterp spec fn json_link_lists(text: Seq<char>) -> Option<Seq<Seq<usize>>>;

/// What `serde_json::from_slice::<HashMap<String, u64>>` reads from the
/// bytes of a JSON text: each key, taken by its characters, mapped to its
/// number, or `None` where the bytes are no JSON object of such numbers.
pub uninterp spec fn json_counts(bytes: Seq<u8>) -> Option<Map<Seq<char>, u64>>;

/// `serde_json::from_str` into a `Vec<String>`: the strings read, exactly
/// when the text is a JSON array of strings.
#[verifier::external_body]
pub(crate) fn parse_titles(text: &str) -> (titles: Option<Vec<String>>)
    ensures
        match titles {
            Some(t) => json_titles(text@) == Some(strings_view(t@)),
            None => json_titles(text@) is None,
        },
{
    serde_json::from_str::<Vec<String>>(text).ok()
}

/// `serde_json::from_str` into a `Vec<Vec<usize>>`: the lists read, exactly
/// when the text is a JSON array of arrays of such numbers.
#[verifier::external_body]
pub(crate) fn parse_link_lists(text: &str) -> (lists: Option<Vec<Vec<usize>>>)
    ensures
        match lists {
            Some(l) => json_link_lists(text@) == Some(lists_view(l@)),
            None => json_link_lists(text@) is None,
        },
{
    serde_json::from_str::<Vec<Vec<usize>>>(text).ok()
}

/// `serde_json::from_slice` into a `HashMap<String, u64>`: the counts read,
/// exactly when the bytes are a JSON object of such numbers.
#[verifier::external_body]
fn parse_counts(bytes: &[u8]) -> (counts: Option<HashMap<String, u64>>)
    ensures
        match counts {
            Some(m) => json_counts(bytes@) == Some(link_counts(m)),
            None => json_counts(bytes@) is None,
        },
{
    serde_json::from_slice::<HashMap<String, u64>>(bytes).ok()
}

/// `serde_json::to_string` on a `Vec<String>`. It does not fail on such a
/// value (its documentation names only a failing `Serialize` impl and
/// non-string map keys), and what it writes reads back, through
/// `serde_json::from_str`, as the same strings. The text itself is not
/// stated.
#[verifier::external_body]
fn write_titles(titles: &Vec<String>) -> (text: Option<String>)
    ensures
        text is Some,
        match text {
            Some(s) => json_titles(s@) == Some(strings_view(titles@)),
            None => true,
        },
{
    serde_json::to_string(titles).ok()
}

/// `serde_json::to_string` on a `Vec<Vec<usize>>`. It does not fail on such
/// a value, and what it writes reads back, through `serde_json::from_str`,
/// as the same lists. The text itself is not stated.
#[verifier::external_body]
fn write_link_lists(lists: &Vec<Vec<usize>>) -> (text: Option<String>)
    ensures
        text is Some,
        match text {
            Some(s) => json_link_lists(s@) == Some(lists_view(lists@)),
            None => true,
        },
{
    serde_json::to_string(lists).ok()
}

/// `serde_json::to_string` on a `HashMap<String, u64>`. It does not fail on
/// such a value, and the UTF-8 bytes of what it writes read back, through
/// `serde_json::from_slice`, as the same map. The order in which the keys
/// are written follows the map's iteration order, which the process's hash
/// seed decides, so the text itself is not stated.
#[verifier::external_body]
fn write_counts(counts: &HashMap<String, u64>) -> (text: Option<String>)
    ensures
        text is Some,
        match text {
            Some(s) => json_counts(vstd::utf8::encode_utf8(s@)) == Some(link_counts(*counts)),
            None => true,
        },
{
    serde_json::to_string(counts).ok()
}

/// The JSON text of an ordered list of titles, which reads back as the same
/// titles.
pub fn titles_to_json(titles: &Vec<String>) -> (text: String)
    ensures
        json_titles(text@) == Some(strings_view(titles@)),
{
    write_titles(titles).unwrap()
}

/// The JSON text of the link lists of the pages, which reads back as the
/// same lists.
pub fn link_lists_to_json(lists: &Vec<Vec<usize>>) -> (text: String)
    ensures
        json_link_lists(text@) == Some(lists_view(lists@)),
{
    write_link_lists(lists).unwrap()
}

/// The JSON text of a map of link counts, whose bytes read back as the same
/// counts.
pub fn counts_to_json(counts: &HashMap<String, u64>) -> (text: String)
    ensures
        json_counts(vstd::utf8::encode_utf8(text@)) == Some(link_counts(*counts)),
{
    write_counts(counts).unwrap()
}

/// Reads a map of link counts from the bytes of its JSON text: `None`
/// exactly when the bytes are no JSON object of counts.
pub fn counts_from_json(bytes: &[u8]) -> (counts: Option<HashMap<String, u64>>)
    ensures
        match counts {
            Some(m) => json_counts(bytes@) == Some(link_counts(m)),
            None => json_counts(bytes@) is None,
        },
{
    parse_counts(bytes)
}

} // verus!
