# oma

The core of a coding agent, written in Verus: the logic between a model
provider, the agent's tools and a session's conversation, each function
stated in `requires` / `ensures` and proved.

## Layout

`src/` is the verified library.

- Patches: `apply_patch` (the `*** Begin Patch` envelope), `hunks` (the `@@`
  sections), `patch_apply` (placing hunks in a file), `edit` (planning the
  writes of one `edit` call).
- Tools: `tools` (limits, paths inside the workspace, binary detection),
  `read` (the window of lines `read` shows), `listing` (what `find`, `ls`
  and `shell` answer), `search` and `grep` (what
  `find` and `grep` report), `schema` (what the
  model is told of each tool), `image` (image headers), `encoding` (base64).
- Model traffic: `request` (request bodies per provider), `endpoint` (URL,
  headers, error texts), `sse` (streamed answers), `provider`, `json` (JSON
  values, parsed by `serde_json`).
- Sessions: `message`, `session` (the entry log), `tree` (branches and the
  conversation tree), `storage`, `runtime` (compaction and token counts),
  `turn` (one round of the agent loop), `subagent` (a subagent's own loop),
  `room` (commands, the queue and the checks around tool calls), `plugin`.
- Terminal client: `tui` (text helpers), `keys` (what a key does, what
  `Enter` sends), `screen` (how the room's events change the screen).
- `text`: character-level primitives that the rest builds on.

Calls into outside crates (`serde_json`, `chrono`, `uuid`, `similar`) and the
few std functions that vstd does not specify stand behind small wrappers
marked `#[verifier::external_body]`; each one's doc comment says what its
contract claims of the call.

`app/` is ordinary Rust around the library: running the agent loop and the
tools' processes, HTTP, files and the terminal. `tests/` runs the library on
concrete inputs.

## Verifying

Verus verifies `src/`; the tests run with the outside crates linked.
