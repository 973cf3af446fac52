# chariot

The rules of Chariot's build configurations and source fetching, verified with Verus.

- `src/config.rs` — the configuration model: sources, packages, dependency lists, scripts.
- `src/eval.rs` — what `chariot.def_source` and `chariot.def_package` accept and make of the
  values a Lua configuration script hands them; the registry of definitions and its invariant.
- `src/source.rs` — the decisions of fetching a source into the store (base, patches, prepare
  step) as a state machine, and the environments the container runs with.
- `src/local.rs` — what fetching a local source copies, and its errors.
- `src/report.rs` — how a log record is written (level name in its colour, bar, message), what
  the logger answers when asked whether it is enabled, and the report of a failed run.
- `app/` — the program: the Lua interpreter (mlua), signal handling (nix), logging (log),
  and the drivers that perform the file system and container work the library decides on.
