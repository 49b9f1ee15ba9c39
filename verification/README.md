# pigeon-diff

The Diff plugin for Done, the orchestrator desk: a run's changes shown as a
diff in a sheet of its own. The desk answers the `run-diff` door call with one
unified text; this crate reads that text and lays it out as lines for the
desk's tree.

## Layout

- `src/diff.rs` parses the unified text (`# ` sections, `--stat` lines,
  `diff --git` files with their `---`/`+++` sides and notes, `@@` hunks, the
  `… ` cut line). `src/diff/model.rs` states, line by line, what the text
  means: `parse` returns exactly `parse_text` of its input.
- `src/sheet.rs` lays a parsed diff out under the sheet's bounds (4,000
  lines, 60,000 text bytes); `src/sheet/layout.rs` states the layout and
  proves what every sheet keeps (the first rows in order, a count of the
  rest, the tree's bounds); `src/sheet/fit.rs` proves that a parsed diff
  always fits the sheet's counters and that the totals count the rows shown.
- `src/context.rs` reads the desk's context JSON through `serde_json`.
- `src/desk.rs` holds the plugin's decisions: when the verb shows, how each
  kind of line is drawn, and the sheet that answers the click.
- `src/chars.rs` and `src/text.rs` are the character and string helpers.
- `app/` is the component glue (`wit_bindgen`): the `command` slot, the click,
  the door call and the tree. It builds for `wasm32-wasip2` only, against the
  plugin's WIT world and the host interfaces it mirrors, which `wit_bindgen`
  reads from a `wit/` directory beside `Cargo.toml`.
