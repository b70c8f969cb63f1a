# library

The core of FLTS, a foreign-language reading app: books with per-paragraph
LLM translations, synced song lyrics, and a device mesh kept in step by an
embedded Syncthing engine.

`src/` is the verified library (Verus). Every function there carries a
contract proved by Verus; the few calls into outside crates sit behind small
trusted wrappers whose contracts are documented beside them.

- `roster`, `vclock`, `idmap`, `reconcile`: the device roster, a state-based
  CRDT with vector-clock stamps, its merge laws, and the plan that brings the
  sync engine's device set in line with it.
- `control`, `engine`: the data of the sync engine's REST surface, the peer
  list, the shared-folder spec and the API key.
- `translator`, `prompt`, `catalog`, `summary`, `gemini_cache`, `retry`:
  model tables, prompts, stream bookkeeping, model-list rules and retry
  decisions.
- `lyrics`, `lrclib`, `select`, `lyrics_cache`, `lyrics_translation`: lyrics
  payloads, the LRC format, candidate scoring and the lyrics cache layout.
- `book_files`, `book_state`, `books`, `book_cache`, `watch`: file naming,
  conflict-copy merging, the warm tier of the book cache and the
  classification of file-system events.
- `trace_names`, `lock_trace`: what the model-checking traces record.
- `text`: the character-sequence utilities the rest rests on.

`app/` is the unverified shell: HTTP clients, the LLM SDKs, the file system,
the file watcher, serde forms of the library's types, and floating-point
estimates.

`tests/` exercises the library from outside.
