# wiki_xml

Extraction of pages and links from a Wikipedia XML dump, and the link graph
built from them, with the decisions proved in Verus.

- `src/` is the verified library:
  - `page`: pages and their plain-value model;
  - `matcher`: the link and exclusion patterns (through the `regex` crate)
    and the link targets of a text;
  - `parser`: the page parser as a state machine fed one XML event at a
    time, in two modes (one page at a time, or batches);
  - `size`: the estimated JSON size of a list of pages;
  - `counts`: how often each title is linked;
  - `rank`: titles ordered by link count;
  - `ids`: the title list and title ids, and the sorted link lists, read
    from their JSON texts;
  - `json`: the JSON texts of the title list, the link lists and the link
    counts (through `serde_json`), each of which reads back as what was
    written;
  - `links`: the link lists built from parsed pages;
  - `redirects`: links resolved through redirect pages;
  - `graph`: the link graph and the shortest-walk search (in parallel
    through `rayon`).
- `app/` holds the command-line tools: reading the dump with `quick-xml`,
  reading and writing the files, the JSON form of parsed pages, and timing.
- `tests/` runs the library on concrete values.
