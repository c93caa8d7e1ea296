# praxis_apis

Request and response logic of an AI gateway: operation routing, header promotion,
state ownership, and the filters for the OpenAI Responses API. The library is
written in Verus: every function states what it returns or changes, and Verus
proves it.

- `src/` is the verified library.
  - `operation`, `promotion`, `header`, `state_owner`, `filter`, `filter_results`:
    what every filter shares.
  - `json_model`, `json`, `json_text`, `text`, `text_order`, `collections`: values
    and their mathematical models.
  - `openai`: server-sent events, request validation, the logical response stream
    (`stream_events`), web search (`web_search`), usage accounting, address
    policies and reasoning.
  - `service`: records of conversations and responses.
- `app/` is ordinary Rust around the library: configuration files, environment,
  clock, HTTP calls.
- `tests/` runs the library with the outside crates linked.

What the library takes on trust from outside crates stands behind small functions
marked `#[verifier::external_body]`: `serde_json`, `base64`, `http` and
`percent-encoding`. Each says in its doc comment what is claimed.
