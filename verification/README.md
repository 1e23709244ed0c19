# dream_archivetool

A policy layer for inspecting, extracting, creating and updating Bethesda
archives (TES3 and TES4 BSA, Fallout 4 / Starfield BA2) on top of
`dream_archive` and `dream_path`, with its contracts proved by Verus.

## Layout

- `src/`: the verified library. It works on archive bytes and plain values:
  path normalization and safety (`paths`, `path`), opening and reading archives
  (`loaded`, `entry`, `archive`), extraction targets and jobs (`extract`),
  creating and rewriting archives (`create`, `builders`, `rewrite_policy`),
  dry-run plans (`archive_plan`), health reports and comparisons (`verify`,
  `diff`), and option handling for the command line and the Lua table API
  (`options`, `lua_options`). Calls into `dream_archive` and `dream_path` go
  through small trusted wrappers whose doc comments say what is assumed of them.
- `tests/`: tests of the library on archives built in memory.
- `app/`: the command-line program and the Lua embedding glue: argument
  parsing, reading and writing files, temporary-file replacement, JSON output.

The laws that hold across operations (normalization is idempotent and ignores
case and separators, hex keys round-trip, extraction targets stay under the
output root and never collide, an archive the library writes reads its files
back, a listed lookup key reads its entry, a dry run and the extraction after it agree,
swapping the sides of a diff swaps its report, a rewrite keeps every input and
every untouched entry, and so on) are public proof functions named `law_*`.
