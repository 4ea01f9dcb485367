# cargo-fusion

`cargo fusion` writes the sources of a Cargo project into a single file,
optionally preceded by a header file, the project's metadata and a table of
contents; it is meant for handing a whole code base to a language model.

Layout:

- `src/` is the verified library (Verus). It holds the decisions of the tool:
  which manifest and directory to work from, the walk over path
  dependencies, the search paths, which walked files are kept, the walk
  settings and exclude overrides, the order and limit of the files, the table
  of contents and the bytes of the output. Walks that need the file system are
  state machines: the library returns the next action (read this manifest,
  check that path) and the caller answers with the result. Paths follow Unix
  rules (`/` is the only separator).
- `app/` is the `cargo fusion` binary: command-line parsing, logging, the
  directory walks, reading and writing files, and the order in which it calls
  the library's steps around them.
- `tests/` exercises the library on concrete values.
