# spring_websocket

Bookkeeping for a WebSocket server, verified with Verus: rooms and their
members, authenticated sessions and room access, per-connection state and
rate limiting, the decisions of the per-connection message loop, and the
issue of signed tokens whose claims are written as JSON.

Layout:

- `src/room.rs` — rooms, the room registry (held in a `dashmap::DashMap`) and
  handles that work on a room inside the registry.
- `src/auth.rs` — token issue and validation (`jsonwebtoken`), sessions and room access.
- `src/claims.rs` — the token claims and their JSON text.
- `src/connection.rs` — connection state, statistics, rate limiter.
- `src/manager.rs` — the connection registry (states and rate limiters held in
  `dashmap::DashMap`s), handles on connection states, and the message-loop
  decisions.
- `src/strmap.rs`, `src/text.rs` — a small string map, string comparison and JSON text pieces.
- `src/laws.rs` — properties that relate several operations.
- `app/` — the asynchronous server around the library: axum sockets, tokio tasks
  and channels, serde forms of the claims, message handlers, and the registry
  shared between tasks behind a lock.
- `tests/` — tests of the library.
