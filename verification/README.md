# opencompany_core

The rules an agent harness decides by, written in Verus and proved against
their contracts.

- `salvage/` recovers tool calls a model wrote into its reply as text (JSON
  objects, with or without a `function_call:`-style marker, and the
  `<invoke>`/`<parameter>` markup dialects, decorated or not), accepts only
  calls to tools the turn authorized, and tidies the reply they are cut from.
  The scanners work over characters; the functions that take or give
  positions in a `&str` speak in byte offsets (`offsets.rs` relates the
  two).
  `salvage/laws.rs` states what holds of every recovery.
- `team/` writes the team section of an agent's system prompt from a company
  record.
- `handoff/` is the `hand_off` tool: who may be handed to, the texts it
  writes, and `flow.rs`, the call as a sequence of decisions between the
  host's trips to the store, the journal and the room.
- `confine/` is the confined copilot turn: its persona, the store that keeps
  nothing and the policy that refuses every tool.
- `dm_reach/` is the brief telling a teammate who answers the operator
  directly how to reach the rest of the company: convene colleagues in a
  room, or hand the conversation over.
- `pool_handle.rs` is the late-bound link from tools to the agent pool.
  That it is filled at most once, and never keeps the pool alive, rests on
  std's `OnceLock` and `Weak`, reached through trusted wrappers; no contract
  states it.
- `text.rs`, `order.rs`, `json.rs` and `tools.rs` hold the text, ordering and
  JSON models the rest is stated over; `json.rs` parses through `serde_json`.

The tests under `tests/` run the compiled library.
