# ecmd

A type-driven argument parser whose logic is proved with Verus.

- `src/parse.rs`: the scanner (bundles, stuck values, `--`, `+x` polarity,
  GNU long options with prefix matching and permutation, lenient mode), with
  its specification `spec_scan` and the laws proved of it.
- `src/meta.rs`: command metadata, the usage line and the help text.
- `src/derive/`: everything the `Command` derive decides — reading
  `#[command]` / `#[flag]` attributes and doc comments, classifying fields,
  refusing malformed definitions, planning the flag table, and binding the
  scanned flags and operands to the fields.
- `src/error.rs`, `src/operands.rs`, `src/polarity.rs`, `src/style.rs`: the
  small types of the public API.
- `app/lib.rs`: the derive's front end: reads the struct with `syn`, calls
  the library, writes the `impl` with `quote`.
- `tests/`: the scenarios, run against the compiled library.
