# agentsight_analysis

Analyzers for captured TLS traffic, written in Verus.

Events that a capture delivers pass through three analyzers. `SSLMerger` merges the reads of a
thread until they make up a complete HTTP message. `HTTPParser` reads HTTP/1 messages, WebSocket
requests and HTTP/2 streams. `SSEProcessor` puts the server-sent events of a response together and
gives one event for it. Each event says which captures it was made of (`CaptureMetadata`).

- `src/` holds the analyzers. Each is a state machine with a model; its `process_event` is proved to
  do what the model says. The proof functions whose names begin with `law_` state what holds of the
  analyzers as a whole.
- `tests/` runs them on concrete events.
- `app/` turns the analyzers into stages of an asynchronous stream, and their results into JSON.

The library calls `serde_json`, `hex`, `hpack` and `flate2`. What it relies on is written in the
contracts of the functions that make these calls, in `json.rs`, `bytes.rs`, `header_block.rs` and
`inflate.rs`; `text.rs` and `bytes.rs` hold those for the standard library.
