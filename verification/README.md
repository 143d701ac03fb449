# Mutao

A cash-free barter platform. Users offer items, register demands ("I give an item
tagged X and want one tagged Y"), and the server finds swap cycles among the demands
(A gives to B, B to C, C to A), lets participants confirm them, and can attest swaps
on a blockchain.

Layout:

- `src/` — the library, verified with Verus: the domain model and item lifecycle
  (`models`), cycle discovery (`matcher`), errors and their answers (`error`),
  tokens, password hashes and the secret policy (`auth`), chain adapters and their
  manager (`blockchain`), notifications (`ws`), row conversions (`store`), text and
  JSON helpers (`text`), and the rules of every HTTP handler (`handlers`).
- `tests/` — tests of the library.
- `app/` — the server: axum routes, PostgreSQL access with sqlx, the WebSocket
  endpoint, serde/OpenAPI forms of the library's types, and start-up.
