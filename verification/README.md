# Floral Notepaper (花笺)

A Markdown notebook kept as plain files: each note is a `.md` file under
`notes/<category>/`, described by an entry of `metadata.json`, with images,
attachments, a version history, reminders and zip backups beside it in the
data directory.

`src/` is the library, verified with Verus: note names and paths, the
metadata and what each operation does to it, search, version history,
attachments, backups, reminders, data-directory choices and migrations,
configuration defaults, and the command-line arguments. Each public
function states its result in its contract; the properties that relate several
functions are public proof functions (`lemma_*`).

The library calls other crates through a few trusted items, each with a
contract that says what the called function does: `src/outside.rs` holds
those for time, random ids, hashing, case folding, RFC 3339 times and zip
archives; `config.rs` (per-character lower case), `history.rs` (version
times) and `images.rs` (UTF-8 decoding) hold one each, and `db.rs`
declares the SQLite connection type it keeps in its registry.

`app/` is the program around the library: files, SQLite statements, the
system trash, locks, JSON and the `--cli` command line.

`tests/` runs the library on concrete values.
