# thriftrs2

An Apache Thrift toolkit whose core is verified with Verus: the IDL lexer and
parser, the Binary, Compact and JSON protocols, Thrift values on the wire, and
the messages of a call, each with a contract over a mathematical model, and
laws that what is written is read back.

## Layout

- `src/parser/` — the lexer (`lexer.rs`), the grammar (`grammar.rs`), the
  document model (`ast.rs`) and the ordered name map (`names.rs`).
- `src/protocol/` — wire types (`types.rs`), the Binary, Compact and JSON
  protocols (`binary.rs`, `compact.rs`, `json.rs`, which also parses and
  prints JSON text through `serde_json`), varints and big-endian
  words (`varint.rs`, `wire.rs`), decimal text (`text.rs`), JSON documents
  (`json_value.rs`), the protocol traits (`traits.rs`), and finding where a
  message ends in a byte stream (`framing.rs`).
- `src/codec.rs` — values of declared types through any protocol, written
  by their declared types, and the fields of a struct chosen from values
  given by name (defaults, optional and required fields).
- `src/given.rs` — values as a caller gives them (struct fields by name, some
  with no value), written by their declared types: given values by type,
  defaults as they stand, required fields refused when given no value.
- `src/rpc.rs` — calls, replies and application exceptions, and what a
  server answers.
- `src/roundtrip.rs`, `src/typed_roundtrip.rs`, `src/json_values.rs`,
  `src/rpc_roundtrip.rs` — the laws:
  values and messages read back as they were written, and skipped exactly.
- `tests/` — tests of the library.
- `app/` — what stays outside the verified library: the Python module, TCP
  server and client, reading and writing bytes, error messages.
