# liberty_tools

A reader for Synopsys Liberty (`.lib`, `.lib.gz`) timing libraries, written in
Verus: the lexer, the parser, the cell index and the queries carry contracts
that Verus proves.

## Layout

- `src/text.rs` – strings: UTF-8 decoding, trimming, splitting, joining.
- `src/lexer.rs` – bytes to tokens (words and one-byte symbols) with their
  line and column; comments, whitespace and line continuations are dropped.
- `src/parser.rs` – tokens to a `Document`; groups that are not modelled are
  skipped with balanced braces. The whole grammar is stated as spec functions
  and the executable parser is proved to follow them.
- `src/data.rs` – the data model (`Document`, `CellData`, `PinData`, ...) and
  its mathematical view. Numbers stay text; `src/number.rs` decides which list
  items are floating-point literals.
- `src/boolexpr.rs` – Boolean `when` expressions: parsing and the implication
  check used by `when` filters.
- `src/query.rs`, `src/rows.rs`, `src/tables.rs` – lookups by name, arc and
  power-group filters, and long-form table rows.
- `src/index.rs`, `src/library.rs` – a byte-offset index of the top-level cells
  and the on-demand parse of one cell.
- `src/input.rs` – gzip input (through `flate2`) and the entry points.
- `src/units.rs` – unit strings (`1mA`, `1ps`) split into number and SI prefix.
- `src/selection.rs`, `src/stream.rs` – proofs: a selective parse keeps only the
  named cells, and is the full parse with its cells filtered by name wherever
  skipping a cell group ends where parsing it does; two files with equal token
  streams parse alike.
- `src/narrow.rs` – proof that a narrower table query gives a subsequence of
  the rows of a wider one.
- `src/ranges.rs` – proofs on the cell index: its ranges start at `cell`
  keywords, come in file order without overlap, and lie within the data
  unless it ends in a backslash (the library holds them to the data's length);
  a quoted string ends just past its first unescaped closing quote.
- `src/positions.rs` – proofs on the lexer: a token's line and column are
  those of its first byte, and trivia skipping consumes only whitespace,
  continuations and comments and stops on a byte that starts no trivia.
- `app/lib.rs` – the Python module (pyo3): file reading, float conversion and
  the Python classes over the library.
- `tests/` – tests of the library on concrete inputs.
