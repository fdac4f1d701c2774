# bitflate-rs, verified

The planning logic of the `bitflate-rs` attribute macros as a Verus library:
the `repr(C)` layout preview of `#[bitflate]`, the bit-range preview of
`#[bitflate_bits(N)]`, the discriminant preview of `#[bitflate_enum(N)]` and the
plan of `#[podflate]`, each with a contract over a plain model of the item.

- `src/model.rs`: the parts of a struct, enum, field, type and attribute that the
  logic reads.
- `src/widths.rs`, `src/align.rs`, `src/digits.rs`, `src/text.rs`,
  `src/lines.rs`, `src/attrs.rs`: sizes and bit widths of types, rounding to an
  alignment, decimal numbers, padding and truncation of names, line handling,
  attribute queries.
- `src/layout.rs`: the `repr(C)` layout plan and its laws (alignment, tiling,
  size).
- `src/bitflate.rs`, `src/bits.rs`, `src/pod.rs`: the four macros' plans and
  preview texts.
- `app/`: the macro front end over `proc_macro2` token streams, which reads items
  with `syn` and writes expansions with `quote`.
