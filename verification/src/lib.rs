//! Apache Thrift toolkit: IDL lexer and parser, the Binary, Compact and JSON
//! protocols, Thrift values on the wire, and the messages of a call, with
//! their encodings proved against specifications and read back as written.

pub mod codec;
pub mod given;
pub mod protocol;
pub mod parser;
pub mod roundtrip;
pub mod rpc;
pub mod rpc_roundtrip;
pub mod typed_roundtrip;
pub mod json_values;
