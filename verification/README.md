# validator720

A verified library for Modelo 720 files (the AEAT declaration of assets held
abroad, in the fixed-width BOE record format): 500-character records encoded
in windows-1252.

It validates files (structure E001–E007, Tipo 1 record E101–E110, Tipo 2
records E201–E233, cross totals E107–E109, warnings W001–W005), generates
files from editable records, reads them back, and holds the decisions of a
record editor. Every function in `src/` carries a contract proved by Verus.

Layout of `src/`:

- `text`, `encoding`: characters, digits, trimming, decimal numbers, and
  windows-1252 through `encoding_rs`.
- `parser`, `nif`, `structure`, `tipo1`, `tipo2`, `cross`, `report`,
  `validation`: the validator; `validation::validate` is the entry point.
- `generator`, `import`: writing and reading files from `Tipo1Fields` and
  `Tipo2Fields` (amounts in cents).
- `roundtrip`: laws tying them together: what reading a generated file gives
  back, that amounts read back as written, that a generated file has the
  structure the validator asks for, and that the validator agrees with the
  totals the generator writes.
- `display`, `editor`: formatting, the order of the records table, and the
  editor's field defaults and row operations (whose row identifiers never
  repeat).

`app/` is a command-line front end (`validate`, `rewrite`).
