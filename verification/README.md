# lspyx

Python semantic navigation for the command line and for agents: jump to
definitions, find usages, search symbols, outline files, inspect a position,
preview renames and run Ruff and ty diagnostics, all through a per-workspace
daemon that keeps a `ty` language server warm.

## Layout

- `src/` is the verified library. Everything that decides what the tool
  says lives here, with `requires` / `ensures` contracts proved by Verus:
  reading language-server answers (`response`, `json`), building outlines
  (`outline`), ranking and rendering results (`render`, `model`), rename
  previews and their diffs (`rename`), diagnostics normalisation, ordering and
  rendering (`diagnostics`), daemon protocol decisions (`daemon`, `dispatch`),
  the document table of the language-server session (`adapter`), the MCP
  tools' request checking (`mcp`), command-line positions (`cli`), paths and
  text helpers (`paths`, `text`) and workspace naming (`workspace`).
- `app/` is the program around it: argument parsing with clap, the MCP
  server with rmcp, sockets, processes, files and the language-server pipes.
  It hands the library plain values and prints what comes back.
- `tests/` runs the library on concrete values.
