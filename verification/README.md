# untest

Removes test code from Rust projects: it copies a directory tree, leaving out
`.git` and any excluded paths, and writes each `.rs` file without the items
(at the top level or inside module bodies) marked `#[test]`,
`#[cfg(..test..)]` or `#[cfg_attr(..test..)]`.

Layout:

- `src/text.rs`: text on character sequences (lines, joining, white space,
  collapsing runs of blank lines), with specifications.
- `src/removal.rs`: removal of line ranges from a file, its specification and
  the laws proved of it.
- `src/model.rs`: the test detection on plain models of items, attributes and
  `cfg` predicates; the ranges of test items; stripping a file given its items.
- `src/syntax.rs`: the calls into `syn` that parse a file and read its items.
- `src/paths.rs`: which walked entries are kept and what is done with each,
  over the calls into `std::path`.
- `app/main.rs`: the command line, the directory walk and the file system work.
