# chat-completions

A wire adapter for chat completions, written in Verus: it builds chat request bodies from Responses
requests, and reads chat responses, which come as server-sent events, as Responses events. It makes
no HTTP requests and owns no stream.

- `src/` is the library. Its functions are verified against their contracts.
  - `tool_map`: tool definitions, and the map from the names they go by back to what they are
  - `request`: the body of a chat request
  - `sse`, `chunk`, `turn`, `xml_calls`, `response`, `stream`: reading a response, from bytes to
    events
  - `apply_patch_spec`: the definitions of the `apply_patch` tool
  - `protocol`, `json`, `error`, `ids`, `text`: what the others are made of
  - `laws`: what holds of the library as a whole
- `app/` reads a response from an asynchronous byte stream: it does what `ChatStream` asks for.
- `tests/` runs the library.

What is taken on trust are the contracts of the calls into `serde_json`, `uuid` and `std`; each says
what it claims where it stands, in `json`, `ids`, `sse` and `text`.
