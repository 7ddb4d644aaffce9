# ai_common

Helpers for in-match player AI mods, verified with Verus.

- `src/input.rs` — the input vocabulary (`Input`, `InputTarget`), intent-first
  constructors and `is_aggressive`.
- `src/cfg.rs` — `Cfg`, a `key = value` configuration reader (`#` starts a
  comment anywhere in a line), with the meaning of a configuration text stated
  as `config_map` and laws on joining texts, on single lines and on comments.
- `src/logger.rs` — the bookkeeping of an append-only logger: its file name and
  the budget that bounds its capped lines.
- `src/snapshot.rs` — `ctx_snapshot`, the one-line text of a player's AI
  context and the native AI's chosen input (whose text form the caller gives,
  as the game's type writes it).
- `src/text.rs` — whitespace trimming, ASCII case folding, decimal digits and
  reading a `usize`, shared by the modules above.
- `app/` — the file-system side (writing log files, finding and reading the
  configuration file, reading a float) and the bridge to the game's `mod_api`
  types, which the game's SDK supplies at build time.
