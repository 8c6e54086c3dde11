# fdb

A library that turns Figma designs into the semantic screen schema shared by
the device bridges: a frame fetched from the REST API, an offline JSON dump,
or a flat scenegraph capture becomes a list of elements with types, text,
fonts, colours, bounds and asset references. Its logic is written in Verus,
with contracts over mathematical models and proofs that the code meets them.

Layout:

- `src/schema.rs` — the output schema and its model.
- `src/figma.rs` — design trees, classification, colours, font weights,
  slugs, SVG assets and the extraction walk.
- `src/kiwi.rs` — rebuilding a design tree from a scenegraph capture.
- `src/placement.rs` — how positions accumulate down a capture's tree.
- `src/remote.rs` — request addresses, and the steps of fetching a node
  (with its response cache) and of fetching image renders.
- `src/cmd.rs` — the two commands as a runner that asks its caller for I/O
  step by step; token gathering from secrets files.
- `src/calendar.rs` — Gregorian dates and ISO 8601 timestamps.
- `src/fixed.rs`, `src/text.rs` — decimal quantities held as millionths,
  and text helpers.
- `app/` — the command-line program: argument parsing, JSON and YAML
  forms of the types, HTTP, files and the environment.
