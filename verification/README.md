# ha-core

The verified core of an agent runtime, written in Rust and proved with Verus.

- `src/` is the library. Every function there has a contract that Verus proves;
  the few functions that call other crates carry contracts that are taken on
  trust, and say so in their doc comments.
  - `mcp_protocol`: protocol negotiation and result framing for MCP servers.
  - `scan`, `selection`, `import_run`, `record`, `plan`, `report`: the import of
    local Codex sessions as read-only conversations. Its laws stand in
    `record_laws`, in `import_laws` and at the end of each module.
  - `search`: the requests to a SearXNG instance and the results in its answers.
  - `text`, `json`, `json_text`, `envelope`, `timestamp`: strings, JSON values,
    runtime envelopes and timestamps.
- `tests/` runs the library.
- `app/` is ordinary Rust around it: files, the session database, the network,
  and serialised forms.
