# nom (verified parsers and their regression properties)

A small set of `&str` parsers — `tag`, `tag_no_case`, `multispace0`,
`recognize`, `count` over a mapped tag, and `recognize_float_or_exceptions` —
written in Verus with contracts over the character sequence of the input,
and the three properties that exercise them (`src/etna.rs`): `multispace0`
consumes an all-whitespace input, the `infinity` literal is recognized as a
whole, and `count` with a zero-sized output neither panics nor loses items.

Layout:

- `src/` — the verified library. `text`, `fmt`, `error` hold shared helpers;
  `bytes`, `character`, `combinator`, `multi`, `number` the parsers; `etna`
  the properties and their laws; `runner` and `report` the harness logic
  (seed expansion, verdict mapping, the JSON report line).
- `tests/` — the witness inputs of the properties and concrete cases.
- `app/` — the command-line runner that drives the properties through
  proptest, quickcheck, crabcheck and hegel, and converts the recognized
  float text to `f32`.
