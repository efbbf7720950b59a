# eva_mcp

The logic of a Model Context Protocol client and server over JSON-RPC, HTTP and
standard streams, written in Verus. The library reads and writes bytes and texts
and decides; it opens no socket, file, process or thread. `app/` does that around it.

## What is where

- `src/text.rs`, `src/json.rs`, `src/json_text.rs`, `src/collections.rs`: texts,
  JSON as it is read and written, small maps and sets.
- `src/json_rpc.rs`, `src/client.rs`, `src/policy.rs`, `src/schema.rs`,
  `src/session.rs`, `src/stdio.rs`: the JSON-RPC client, its allowlist, and
  servers that run as a process.
- `src/http_framing.rs`, `src/event_source.rs`, `src/http_request.rs`,
  `src/http_reply.rs`, `src/http_session.rs`, `src/connection.rs`: the client's
  side of HTTP, from the bytes of a response to the phases of a session.
- `src/tls_material.rs`, `src/tls_config.rs`, `src/trust_file.rs`,
  `src/wide_path.rs`: what a client trusts and shows over TLS.
- `src/lifecycle.rs`, `src/http_registry.rs`: registries of sessions and streams.
- `src/server.rs`, `src/server_config.rs`, `src/server_request.rs`,
  `src/server_rpc.rs`, `src/server_transport.rs`: the local server and its tools.
- `src/compatibility.rs`, `src/compatibility_run.rs`, `src/compatibility_tls.rs`:
  compatibility evidence.
- `src/dialogue.rs`, `src/listing.rs`, `src/wire.rs`, `src/wire_request.rs`,
  `src/round_trip.rs`: what holds of client and server together.

Functions that are called on bytes which arrive over time say whether they are
done, need more, or refuse. Every exported function has a contract over
mathematical models of its arguments; statements that span several functions are
the proof functions whose names start with `law_`.

`app/` holds sockets, TLS handshakes, files, processes, threads and clocks, and
calls the library for every decision.
