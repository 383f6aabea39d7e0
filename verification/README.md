# skillsrs

The decision logic of skills.rs, an MCP server that exposes upstream MCP
tools and local skills through four tools (`search`, `schema`, `exec`,
`manage`), written in Verus and proved against its contracts.

## Layout

- `src/` — the verified library.
  - `callables`, `json`, `canonical`: identifiers, records, JSON values and
    the canonical text that schema digests hash.
  - `policy`: who may run what (denied tags, patterns, trusted servers,
    consent by risk tier).
  - `search`, `index`: tokenizing, scoring, ranking, pagination and the
    inverted index.
  - `sandbox`, `isolation`: sandbox configuration and overrides, and the
    command lines, environments and limits of each backend.
  - `storage`, `agent_skills`, `dependencies`: skill manifests, SKILL.md
    frontmatter, validation and dependency cycles.
  - `runtime`, `mcp`, `upstream`: argument checks, results, traces, the MCP
    tools' decisions and the JSON-RPC messages sent upstream.
  - `config`, `paths`, `persistence`, `sync`: configuration files, data
    directories, database rows and repository synchronization.
- `tests/` — tests of the library on concrete values.
- `app/` — the command-line program (`init`, `validate`, `add`, `sync`,
  `list`, `grep`, `paths`): argument parsing, files, processes and the YAML
  configuration, around the library.

Each public function states its result in `ensures`; the properties that
span several functions are public proof functions named `law_*`.
