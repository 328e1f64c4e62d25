# flaky

A settings-menu style terminal UI for NixOS flake configurations: it lists the
NixOS options by category, lets the user toggle, cycle and type values, keeps
the unsaved edits with an undo history, and writes them back into
`configuration.nix` inside a managed block, leaving the rest of the file as it
was.

## Layout

- `src/` — the library, verified with Verus:
  - `text.rs` — string building, searching, splitting, joining, integer
    reading and writing, each against a specification over `Seq<char>`;
  - `string_map.rs` — an insertion-ordered map keyed by strings;
  - `option.rs` — option types, values and their display;
  - `json.rs`, `eval.rs` — the JSON printed by `nix eval` and the options read
    from it; a built-in catalogue of common options;
  - `schema.rs` — the option store: lookup by name, categories, children,
    ranked search;
  - `state.rs` — current values, pending edits and undo;
  - `writer.rs` — Nix rendering of values, the managed block and rewriting a
    configuration source;
  - `parser.rs` — reading current values and choosing the host of a flake;
  - `app.rs` — the navigation and editing state machine of the UI;
  - `render.rs` — what the screens show: labels, wrapped text, layout.
- `tests/` — tests run against the compiled library.
- `app/` — the program: terminal handling, drawing with ratatui, and the
  processes and files (`nix eval`, `nixos-rebuild`, `configuration.nix`).

## Maps

The option store keeps its options and categories in `indexmap::IndexMap`,
reached through a few trusted wrappers whose contracts speak of the map's
entries in insertion order.

Three other maps are held in the library's own `StringMap` (a vector of
entries with distinct keys, kept in insertion order, compared as a map):

- inside the recursive types `OptionValue::Attrs`, `OptionType::Submodule` and
  `JsonValue::Object`, Verus refuses a declared outside map (the recursive
  type would stand in a non-positive position), and a struct that hides the
  map fails the termination check of the recursive view;
- in `ConfigState`, where Verus proves nothing about a `HashMap` keyed by
  `String`, so the pending edits and current values could not be specified.
