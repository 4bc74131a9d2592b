# Browser Bridge

A bridge between local tools and a real browser, over WebSocket. A browser
extension carries commands out; a hub on this machine routes commands and
responses; clients send commands.

The logic is a Verus library, verified as a whole. What reads, writes and waits
is ordinary Rust around it.

## Layout

| Place | What is there |
|-------|---------------|
| `src/text.rs`, `src/number.rs`, `src/encode.rs`, `src/json.rs` | texts, numbers, percent-encoding, JSON values |
| `src/wire.rs`, `src/hub.rs`, `src/session.rs` | messages, the hub, the life of a connection |
| `src/routing.rs` | what holds of the hub whatever happens |
| `src/settings.rs`, `src/transport.rs` | the server's settings, the client's side |
| `src/target.rs`, `src/params.rs`, `src/cli.rs`, `src/mcp.rs` | commands of the command line and of the MCP server |
| `src/recipes/` | searches and readings on particular sites |
| `app/` | the programs: `bridge-server`, `bridge-client` and `bridge-mcp` |
| `tests/` | tests of the library |

## How it is stated

Each stateful part is a state and a step. The contract of a step equates its
result with a spec function over views: `hub_next` for the hub, `session_next`
for a connection, `dial_next`, `request_outcome` and `exchange_next` for a client, and a
`_start`
and a `_next` for each recipe. Properties of many steps, or of several functions
together, are public proof functions named `law_...`.

JSON text is read and printed by `serde_json`, behind the functions at the top of
`src/json.rs`; these, `String::push` and `str::to_lowercase` are what the proofs
take on trust.
