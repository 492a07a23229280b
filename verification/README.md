# drafftink

The collaboration core of the Drafft.ink whiteboard, verified with Verus.

- `src/share_url.rs` — share links (`?room=…&server=…`): percent-encoding,
  parsing, and the proof that a link reads back as what it was built from.
- `src/collab_config.rs` — deploy-time collaboration settings.
- `src/protocol.rs` — relay messages and their base64 payloads (standard
  base64 stated exactly, with the proof that it decodes back).
- `src/sync.rs` — client side: relay messages to client events, connection
  state, and the socket session whose events always form one connection.
- `src/server/` — relay side: configuration from environment values, room
  storage rules (file names, size limits, expiry, an in-memory store), room
  membership, and the per-connection session state machine.
- `src/table.rs`, `src/text.rs` — a string-keyed table and text helpers.
- `app/` — the relay server binary and the native client: JSON, WebSockets,
  files, Redis and the environment, around the library.
