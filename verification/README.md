# lisa

The decision-making core of Lisa OS, written in Verus: every function in
`src/` carries a `requires`/`ensures` contract that Verus proves.

## Layout

- `src/` — the verified library, one module per concern:
  - `text`, `json` — strings and the JSON document model every wire
    format is built on;
  - `grammar`, `tasks`, `intent` — JSON Schema → GBNF compilation, guided
    extraction tasks, and the two-stage intent router;
  - `ledger` — the audit record shapes and the bounded preview;
  - `engine`, `config`, `pool`, `scheduler`, `api`, `llama`, `remote` —
    the inference daemon: model resolution and LRU residency, QoS
    preemption, the OpenAI-compatible documents and the inference ledger
    entries, the child engine's
    event stream, routing to the egress broker;
  - `providers`, `consent`, `oauth`, `proxy`, `broker` — the egress
    broker: provider registry, per-scope offload consent, PKCE sign-in,
    upstream rendering and normalisation, and the ledger-before-egress
    sequence;
  - `protocol` — the ledger-first protocol that inference, remote
    completions and tool calls follow (no entry, no action; at most once;
    a refusal ends it), and the undo sequence;
  - `manifest`, `app_registry`, `journal`, `bus` — the Agent Bus: tool
    tiers and provenance escalation, discovery, the undo journal's
    compensation arguments, admission, confirmation and undo;
  - `acl`, `embed` — the context store's scope filter and hashing
    embedder;
  - `store`, `catalog` — the content-addressed model store and the model
    catalog's hardware fit;
  - `forge_tools`, `agent` — the forge agent's jailed tools and its loop;
  - `notes`, `voice`, `cli` — the Notes MCP server, the voice loop and the
    `lisa` command line.
- `tests/` — tests of the library, run against the compiled crate.
- `app/` — the programs around the library: daemons, sockets, SQLite,
  HTTP, D-Bus, child processes and the terminal. It hands the library
  plain values and does what the library decides.
