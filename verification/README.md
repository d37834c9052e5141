# qfinder

A file and clipboard search daemon. The library in `src/` holds its logic,
verified with Verus:

- `text`: character-level operations (conversions, substring tests, word
  splitting, trimming, replacement, UTF-8 byte lengths).
- `search`: normalisation, fingerprints of names, the trigram full-text
  query, and the token and fuzzy scores that the database computes per row.
- `plan`: what a search will do for a query, the order of its steps (which
  query tiers run, when ranking happens, when the fuzzy tier runs), their
  SQL, how their rows merge, and the order of the returned results.
- `watcher`: file names, kinds and index records for the file indexer.
- `clipboard`: the polling rhythm and the records made from copied files,
  images and text.
- `daemon`: socket message framing, decoding of requests and of the
  configuration (JSON through `serde_json`), commands, configuration
  defaults and the schema version.

`app/` is the daemon itself: the socket server, SQLite access, file-system
watching and the macOS pasteboard, calling the library for every decision.
