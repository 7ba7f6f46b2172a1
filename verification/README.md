# agent_switch

A desktop tool that keeps a list of model providers (OpenAI- or Anthropic-compatible
endpoints) and switches coding agents between them by rewriting their configuration files
(CodeGeeX, ZCode, Qoder, WorkBuddy, a generic CLI convention) or, for Trae, by driving its UI
over the Chrome DevTools Protocol.

## Layout

- `src/` — the verified library (Verus). Every function has a contract; the laws of the
  library are public proof functions (`law_*`).
  - `store` — providers and the per-agent active provider; backup listing.
  - `agents` — the built-in agent definitions.
  - `agent_service` — writing a provider into an agent's configuration, reading an agent's
    status back, detecting agents, planning a switch.
  - `json`, `kv`, `text` — the JSON model, first-match key/value lists, text operations.
  - `json_text` — reading and writing JSON text through serde_json.
  - `fsutil` — JSON and flat TOML file contents, path templates, backup names.
  - `toml_roundtrip` — that a flat TOML text written from entries reads back as them.
  - `iplit` — IPv4 and IPv6 address literals.
  - `urlguard` — the outbound address checks and the system proxy setting.
  - `update` — model listing and update manifest handling, version comparison.
  - `trae` — the DevTools control logic for Trae.
  - `commands` — saving a provider, identifiers, the data directory.
- `tests/` — tests of the library.
- `app/` — the desktop shell: window and commands, file and network I/O, the DevTools
  WebSocket session, and the conversions to the serialised shapes.
