# bad_north_save

Conversion between the binary save files of *Bad North* (a .NET binary object
graph) and JSON, with every step of the conversion specified and proved in
Verus.

## Layout

- `src/parser.rs` reads the binary format into a record graph; `sp_parse` states
  what any byte sequence reads as, or the message of the first fault.
- `src/serializer/` writes a record graph back (`sp_serialize`), checks it first
  (`serialize_checked`), and holds the laws relating writing and reading:
  `readback.rs` and `class_readback.rs` (each piece reads back), `record_roundtrip.rs`
  (whole records), `stream_roundtrip.rs` (graphs without layout metadata) and
  `nested_roundtrip.rs` (graphs whose metadata places records inside others).
- `src/json/` turns a record graph into a JSON document model and back,
  refusing numbers outside the range of their type; the law
  `law_decode_inverts_encode` says decoding gives back what was encoded, for
  graphs whose class records match their class types and whose floats are
  finite.
- `src/records.rs` holds the record graph and its validation, `src/model.rs` the
  game data types, `src/layout_laws.rs` the law that every record read has its
  layout noted.
- `app/` is the command-line program: argument handling, files, and the bridge
  between `serde_json` values and the library's JSON model.
- `tests/` runs the library on concrete inputs.
