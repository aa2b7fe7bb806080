# end_planner

A production planner for a factory game: from a catalog of items, machine
facilities and recipes, and a scenario (`aic.toml`: region, power, external
supply and consumption, outposts that buy goods), it finds the plan that earns
the most, then the smallest or most comfortable plan that still earns it, and
lays out the logistics between machines.

## Layout

- `src/` — the library, verified with Verus. It holds the model and the rules:
  - `text`, `strings`: validated keys and display names; string helpers.
  - `catalog`: ids, definitions, the catalog builder and its invariants.
  - `aic`: scenario inputs (item maps, outposts with distinct keys).
  - `schema`, `loader`, `load_error`, `excerpt`: value checks of the input
    files, building the catalog and scenario from parsed files, and error
    messages that point at the offending line.
  - `plan`, `logistics`: the integer summaries of a solved plan (machine
    totals, orderings, power balance, recipe deltas) and the logistics node
    graph.
  - `report`, `web`: names, labels and orderings shown in the text report and
    in the web payloads.
  - `convert`: turning the game's recipe data into the catalog files.
  - `sorting`: stable sorting used by the above.
  - `brand_lab`, `two_scenario_lab`: small catalogs shared across scenarios.
- `app/` — the command-line program around the library: file and TOML I/O,
  the LP solver, floating-point rates, the text report, JSON output and the
  Lua reader.
- `tests/` — tests of the library on concrete values.

## Commands

- `init [--force] [--aic FILE] [--data-dir DIR]` writes a default `aic.toml`.
- `solve [--lang zh|en] [--data-dir DIR] [--aic FILE]` prints the report.
- `convert [-i DIR] [-o DIR]` converts `facility_power.toml` and
  `recipe/*.lua` into `items.toml`, `facilities.toml` and `recipes.toml`.
- `web-bootstrap [--lang TAG]`, `web-solve [--lang TAG] [--aic FILE]` print
  the web payloads as JSON.

The catalog files are read from `data/` unless `--data-dir` is given.
