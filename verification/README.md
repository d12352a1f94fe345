# wdfist

Finds files on Wikimedia Commons for Wikidata items that could use an image.

A search starts from a list of items (`pagelist`, `title`). It asks which files
are to be ignored and which items qualify, then turns to the sources of files
that its parameters name: pages about the items in the wikis, places, and
labels. At the end it takes out files that are to be ignored for an item, that
items use already, or that too many items of the result share.

`WDfist::run` takes the search one step further: it is told what came of the
last request, and says what to ask for next or what the search has come to. It
does no input or output itself. `WDfist::can_take` tells whether a reply is one
that `run` can be given.

- `src/` is the library, verified with Verus. The course of a search is stated
  in `run.rs`, the texts of the queries in `query.rs`, which files are good in
  `filename.rs`, what holds of the library as a whole in `laws.rs`, and what a
  whole source of files adds in `source_laws.rs`.
- `tests/` runs it on concrete values.
- `app/` performs the requests: databases, APIs, JSON.

Calls into other crates that the proofs rely on stand in `pattern.rs`
(`regex`), `sort.rs` (`rayon`), `title.rs` (`mediawiki`) and `text.rs` (`std`),
each with the contract that is taken for granted.
