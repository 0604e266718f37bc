# omena-lsp-server

The Rust language-server runtime of Omena (CSS Modules support for editors),
written in Verus: the decisions of the server are executable Rust whose behaviour
is stated in `requires`/`ensures` contracts and proved.

## Layout

- `src/` — the verified library.
  - `dispatch.rs` routes each JSON-RPC message (request, notification, cancelled
    request, unknown method) under the client's feature settings.
  - `shell.rs` holds the server state: documents, open URIs, workspace folders,
    settings, watched-file changes; `documents.rs`, `uri_set.rs` and `registry.rs`
    hold its parts (the registry decides which workspace folder owns a document).
  - `position.rs`, `ranges.rs`, `text.rs` convert between byte offsets and
    UTF-16 line/column positions and apply text changes.
  - `uri.rs`, `path.rs` decode `file://` URIs and normalise paths.
  - `providers.rs`, `completion.rs`, `definitions.rs`, `locations.rs`,
    `actions.rs`, `type_facts.rs`, `hover.rs` decide what hover, definition,
    references, completion, code lens, rename and code actions answer from the
    indexes; `candidate_order.rs` and `imports.rs` order what the indexes hold.
  - `publications.rs` and `scheduler.rs` plan diagnostics notifications;
    `indexing.rs` bounds workspace indexing.
  - `boundary.rs`, `query_reuse.rs`, `summary.rs` declare the server's boundary.
  - `sorting.rs` sorts stably by document and range; `bytes.rs` orders bytes.
- `tests/` — tests of the library on concrete values.
- `app/` — the server around the library: JSON-RPC message handling, the indexes
  that omena-query builds, type facts from omena-tsgo-client, and files on disk.
