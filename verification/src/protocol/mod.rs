pub mod types;
pub mod wire;
pub mod binary;
pub mod varint;
pub mod compact;
pub mod traits;
pub mod text;
pub mod json_value;
pub mod json;
pub mod framing;


pub use types::{FieldBegin, ListBegin, MapBegin, MessageBegin, SetBegin, TType, ProtocolError, IoErrorKind};

pub use binary::{BinaryProtocolReader, BinaryProtocolWriter, MESSAGE_TYPE_CALL, MESSAGE_TYPE_EXCEPTION, MESSAGE_TYPE_ONEWAY, MESSAGE_TYPE_REPLY};
pub use compact::{CompactProtocolReader, CompactProtocolWriter, COMPACT_PROTOCOL_ID, COMPACT_VERSION};
pub use traits::{TInputProtocol, TOutputProtocol};
pub use json::{JSONProtocolReader, JSONProtocolWriter};
pub use json_value::{JsonNumber, JsonValue};
