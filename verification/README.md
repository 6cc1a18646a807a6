# kardhub

A Kanban board over GitHub issues and pull requests, with its logic proved
in Verus.

## Layout

- `src/` — the verified library.
  - `cardman/` — the first-generation board: models, the card-to-column
    mapping engine (priority labels, reviews, CI, QA labels, release
    branches), Markdown rendering through `pulldown-cmark`, and the cache
    model.
  - `kardhub/` — the current board: models, PR ↔ issue linking (through
    `regex`), board filters, GitHub response handling and request payloads,
    OAuth helpers, the cumulative cache, the session and board view logic,
    the browser extension's mapping and repository classification, and the
    card detail panel.
  - `text.rs`, `labels.rs`, `str_map.rs`, `order.rs`, `stable_sort.rs` —
    shared string helpers, label parsing, a string-keyed map, orderings and
    a verified stable insertion sort.
- `tests/` — the test suites, run against the compiled library.
- `app/` — the unverified shell: serde forms of the library's types, the
  on-disk cache, the `reqwest` REST and OAuth clients and the sync loop.
  Every decision it makes is a call into the library.

## Verifying

Each public function states its result in `ensures`; the laws of the
library (what the mapping keeps, what linking and merging preserve, what a
cache read gives back of a write) are public proof functions whose names
begin with `law_`.
