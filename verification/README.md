# speedreading_app_core

The core of an RSVP speed-reading app, written in Verus: words flash one
group at a time at a chosen speed, each split around its anchor letter.

`src/` is the verified library:

- `text` — White_Space, characters of strings, building strings.
- `state` — screens and router, the anchor-letter split of a word, the UI state.
- `parser` — tokenizing, HTML stripping, SHA-256 hex digests, reading plain
  text, EPUB and PDF bytes into words, choosing a format by extension.
- `session` — the session record, its text hash, and the column conversions
  of session and history rows.
- `actor` — word groups on screen, the word index reached after an elapsed
  time, and the playback state machine (state and action or event in; next
  state and effects out).
- `laws` — properties that span functions, proved.
- `outside` — the trusted items: calls into std and into sha2, epub and
  pdf-extract, with the contracts Verus takes on trust.

`app/` is the host that Verus does not see: the FFI-facing types (with the
floating-point progress values), the actor thread with its tokio timer and
background parsing, file reading, and the SQLite session store.
