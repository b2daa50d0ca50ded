# statusline

A fast terminal statusline for coding-agent sessions. The agent writes a
JSON payload to stdin on every render; the program prints up to four ANSI
lines: repository and git state, model and context gauge, rate limits and
session totals, and the ambient inventory (MCP servers, skills, active
sessions).

## Layout

- `src/` is the verified library. Every function carries a contract that
  Verus proves:
  - `render`: the four lines, stated exactly over the payload and the
    gathered data (`render_spec`), with the laws the output obeys (no empty
    line, deviations only, loud degradation on a broken configuration).
  - `git`: the `git status --porcelain=v2 --branch` parser, the repository
    name of plain repositories, worktrees and submodules.
  - `inventory`: the incremental transcript scan (offsets, oversized lines,
    truncation, partial trailing lines) and the per-line inventory and token
    accounting.
  - `settings`, `sessions`, `timefmt`, `cache`, `config`, `payload`: the
    auto-compact window, the active-session rule, reset labels, cache keys,
    switches and the payload model.
  - `text`, `json`: string helpers and the `serde_json` accessors the
    library reads through.
- `app/` is the program around it: stdin, the file caches, the `git`
  spawns, the directory walks, and the serde forms of the payload and of
  the cache files.
- `tests/` exercise the library on concrete values.

## Files the program reads

- The agent's home directory holds `settings.json` and `projects/`. It is
  `$STATUSLINE_AGENT_HOME` when set, otherwise it is found from the
  transcript path of the payload (`<home>/projects/<project>/<id>.jsonl`).
- Optional switches: `~/.config/statusline/config.json`
  (`{"inventory": true, "sessions": true}`).
- Caches live under `~/.cache/statusline/`, one entry per repository or
  transcript.
