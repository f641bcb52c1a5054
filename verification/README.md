# Currawong

The core of a small game engine, written and proved in Verus.

- `src/data`: a virtual filesystem of layered sources with sandboxed paths, and
  the definitions of kinds that are read from it.
- `src/render`: what the renderer keeps and decides between calls of the GPU.
  Meshes and their files, templates of render objects and the live objects made
  from them, hit ids and their readback, materials and their pipelines as plain
  descriptions, emitters, screenshots, and the decisions of the event loop.
- `src/calendar.rs`, `src/digits.rs`, `src/names.rs`, `src/table.rs`,
  `src/text.rs`: dates, numerals, namespaced names, tables and texts.
- `app`: the engine around the library. Windows, the GPU, files, threads, and
  arithmetic on floating-point numbers.
- `tests`: the library from outside.

Floating-point numbers pass through the library as bit patterns. It copies,
negates and compares them; where a rule needs more, the caller hands the
arithmetic in as a function.

Laws that relate several functions are public proof functions whose names start
with `law_`. Calls into other crates go through a few functions marked
`external_body`, each with a comment that says what it is taken to do.
