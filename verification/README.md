# a2ui

The data layer of a renderer for the A2UI v0.9 protocol, verified with Verus,
and a small Dioxus application around it.

## Layout

- `src/` — the verified library. Each public function states its result in
  its contract, over the views of the values it handles.
  - `json`: JSON values (objects sorted by key) and their compact text.
  - `pointer`: JSON Pointer lookup, writes with auto-vivification, removal,
    and relative paths; the read-after-write laws.
  - `data_model`, `context`: a surface's data and the resolution of dynamic
    values (literals, `{"path": ...}` bindings, function calls).
  - `component`, `surface`, `processor`, `protocol`: components parsed from
    JSON, surfaces, and the message processor with its laws.
  - `catalog`, `functions`: catalogs of component types and functions.
  - `render`: what the catalog components decide before they are drawn.
  - `incoming`: the framing of newline-delimited message payloads.
- `tests/` — tests of the library on concrete values.
- `app/` — the Dioxus components, the serde encoding of the messages, and the
  demo page.
