# hostmcp

An HTTP MCP server that gives an agent six tools to operate a host — `read`,
`edit`, `glob`, `grep`, `list` and `bash` — with its decision logic written
in Verus and proved against its contracts.

- `src/` is the verified library. `text` (lines, substring search and
  replacement, decimal numbers), `paths`, `sort` (an insertion sort proved to
  return the sorted permutation), `state` (the per-session record of files read,
  which `edit` requires), `tools/*` (what each tool answers, given what the file
  system or the process reported), `mcp` (method dispatch), `session` (session
  ids and response shapes) and `matching` (globs and regular expressions
  through the `glob` and `regex` crates).
- `app/` is the executable: the axum transport, JSON on the wire, and the file
  system, directory walks and processes each tool needs, performed in the order
  the library's decisions ask for.
- `tests/` exercises the library on concrete values.

Run it with `hostmcp --root /path/to/project --port 8787` and point an MCP
client at `http://<host>:<port>/mcp`.
