use vstd::prelude::*;

verus! {

/// Wire type tags shared by all protocols.
#[derive(Debug, Clone, Copy, PartialEq, Eq, Structural)]
pub enum TType {
    Stop,
    Void,
    Bool,
    Byte,
    Double,
    I16,
    I32,
    I64,
    String,
    Struct,
    MapT,
    SetT,
    List,
}

/// The numeric code of a wire type tag.
pub open spec fn ttype_code(t: TType) -> u8 {
    match t {
        TType::Stop => 0,
        TType::Void => 1,
        TType::Bool => 2,
        TType::Byte => 3,
        TType::Double => 4,
        TType::I16 => 6,
        TType::I32 => 8,
        TType::I64 => 10,
        TType::String => 11,
        TType::Struct => 12,
        TType::MapT => 13,
        TType::SetT => 14,
        TType::List => 15,
    }
}

/// The wire type tag that a code names, if any.
pub open spec fn ttype_of_code(b: u8) -> Option<TType> {
    if b == 0 { Some(TType::Stop) }
    else if b == 1 { Some(TType::Void) }
    else if b == 2 { Some(TType::Bool) }
    else if b == 3 { Some(TType::Byte) }
    else if b == 4 { Some(TType::Double) }
    else if b == 6 { Some(TType::I16) }
    else if b == 8 { Some(TType::I32) }
    else if b == 10 { Some(TType::I64) }
    else if b == 11 { Some(TType::String) }
    else if b == 12 { Some(TType::Struct) }
    else if b == 13 { Some(TType::MapT) }
    else if b == 14 { Some(TType::SetT) }
    else if b == 15 { Some(TType::List) }
    else { None }
}

/// Decoding a tag's code gives the tag back.
pub proof fn lemma_ttype_code_roundtrip(t: TType)
    ensures
        ttype_of_code(ttype_code(t)) == Some(t),
{
}

/// A code decodes to a tag exactly when it is that tag's code.
pub proof fn lemma_ttype_of_code_inverse(b: u8)
    ensures
        ttype_of_code(b) matches Some(t) ==> ttype_code(t) == b,
{
}

impl TType {
    pub fn from_u8(value: u8) -> (r: Option<TType>)
        ensures
            r == ttype_of_code(value),
    {
        match value {
            0 => Some(TType::Stop),
            1 => Some(TType::Void),
            2 => Some(TType::Bool),
            3 => Some(TType::Byte),
            4 => Some(TType::Double),
            6 => Some(TType::I16),
            8 => Some(TType::I32),
            10 => Some(TType::I64),
            11 => Some(TType::String),
            12 => Some(TType::Struct),
            13 => Some(TType::MapT),
            14 => Some(TType::SetT),
            15 => Some(TType::List),
            _ => None,
        }
    }

    pub fn to_u8(self) -> (r: u8)
        ensures
            r == ttype_code(self),
    {
        match self {
            TType::Stop => 0,
            TType::Void => 1,
            TType::Bool => 2,
            TType::Byte => 3,
            TType::Double => 4,
            TType::I16 => 6,
            TType::I32 => 8,
            TType::I64 => 10,
            TType::String => 11,
            TType::Struct => 12,
            TType::MapT => 13,
            TType::SetT => 14,
            TType::List => 15,
        }
    }
}

/// Message header: name, message type and sequence id.
#[derive(Debug, Clone)]
pub struct MessageBegin {
    pub name: String,
    pub message_type: u8,
    pub seq_id: i32,
}

/// Field header: wire type and field id.
#[derive(Debug, Clone)]
pub struct FieldBegin {
    pub name: Option<String>,
    pub field_type: TType,
    pub id: i16,
}

#[derive(Debug, Clone, Copy, PartialEq, Eq, Structural)]
pub struct MapBegin {
    pub key_type: TType,
    pub value_type: TType,
    pub size: i32,
}

#[derive(Debug, Clone, Copy, PartialEq, Eq, Structural)]
pub struct ListBegin {
    pub element_type: TType,
    pub size: i32,
}

#[derive(Debug, Clone, Copy, PartialEq, Eq, Structural)]
pub struct SetBegin {
    pub element_type: TType,
    pub size: i32,
}

impl View for MessageBegin {
    type V = (Seq<char>, u8, i32);

    open spec fn view(&self) -> (Seq<char>, u8, i32) {
        (self.name@, self.message_type, self.seq_id)
    }
}

impl View for FieldBegin {
    type V = (TType, i16);

    open spec fn view(&self) -> (TType, i16) {
        (self.field_type, self.id)
    }
}

impl View for MapBegin {
    type V = MapBegin;

    open spec fn view(&self) -> MapBegin {
        *self
    }
}

impl View for ListBegin {
    type V = ListBegin;

    open spec fn view(&self) -> ListBegin {
        *self
    }
}

impl View for SetBegin {
    type V = SetBegin;

    open spec fn view(&self) -> SetBegin {
        *self
    }
}

/// The kind of a failure of the underlying byte stream.
#[derive(Debug, Clone, Copy, PartialEq, Eq, Structural)]
pub enum IoErrorKind {
    /// The input ended before a value was complete.
    UnexpectedEof,
    /// The bytes do not form a valid value.
    InvalidData,
    /// Any other failure.
    Other,
}

/// Errors of the protocol readers and writers.
#[derive(Debug, Clone, Copy, PartialEq, Eq, Structural)]
pub enum ProtocolError {
    Io(IoErrorKind),
    InvalidType(u8),
    InvalidFieldType,
}

/// The error of a read that ran out of input.
pub open spec fn eof_error() -> ProtocolError {
    ProtocolError::Io(IoErrorKind::UnexpectedEof)
}

/// The error of a read that met malformed input.
pub open spec fn invalid_data_error() -> ProtocolError {
    ProtocolError::Io(IoErrorKind::InvalidData)
}

/// What a read on input `before` that leaves `after` and returns `r` must be,
/// given the specification `spec` of the read and `fail`, how many bytes it
/// takes when it fails: on success the value and the number of bytes
/// consumed; on failure the error, with `fail` bytes consumed.
pub open spec fn read_outcome<V: View>(
    spec: Result<(V::V, int), ProtocolError>,
    fail: int,
    r: Result<V, ProtocolError>,
    before: Seq<u8>,
    after: Seq<u8>,
) -> bool {
    match spec {
        Ok((v, n)) => {
            &&& r matches Ok(x) && x@ == v
            &&& 0 <= n <= before.len()
            &&& after == before.skip(n)
        },
        Err(e) => {
            &&& r == Err::<V, ProtocolError>(e)
            &&& 0 <= fail <= before.len()
            &&& after == before.skip(fail)
        },
    }
}

} // verus!
