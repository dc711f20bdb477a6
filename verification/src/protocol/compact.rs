//! The Thrift Compact protocol: zigzag base-128 integers, field ids written as
//! deltas from the previous field of the same struct, and bool field values
//! folded into the field header.

use super::types::{
    eof_error, invalid_data_error, read_outcome, FieldBegin, IoErrorKind, ListBegin, MapBegin,
    MessageBegin, ProtocolError, SetBegin, TType,
};
use super::varint::{
    lemma_pow128_bounds, lemma_varint_roundtrip, lemma_varint_scan_errors, lemma_varint_enc_len, lemma_zigzag_dec_range, lemma_zigzag_roundtrip,
    peek_varint, varint_enc, varint_scan, write_varint, zigzag_dec, zigzag_decode_u32,
    zigzag_decode_u64, zigzag_enc, zigzag_encode_i32, zigzag_encode_i64,
};
use super::wire::{
    be_u16_bytes, be_u16_value, be_u64_bytes, be_u64_value, lemma_be_u16_roundtrip,
    lemma_be_u64_roundtrip, lemma_signed_casts, str_bytes, string_from_utf8, write_u16,
    write_u64, ByteReader,
};
use super::traits::{pres, ReadStep, WriteStep, TInputProtocol, TOutputProtocol};
use vstd::prelude::*;
use vstd::utf8::{decode_utf8, encode_utf8, encode_utf8_decode_utf8, encode_utf8_valid_utf8, valid_utf8};

verus! {

pub const COMPACT_PROTOCOL_ID: u8 = 0x82;
pub const COMPACT_VERSION: u8 = 1;
pub const COMPACT_VERSION_MASK: u8 = 0x1f;
pub const COMPACT_TYPE_MASK: u8 = 0xe0;
pub const COMPACT_TYPE_SHIFT: u32 = 5;

/// The type nibbles of the Compact protocol.
#[derive(Debug, Clone, Copy, PartialEq, Eq, Structural)]
enum CompactType {
    Stop,
    BooleanTrue,
    BooleanFalse,
    Byte,
    I16,
    I32,
    I64,
    Double,
    Binary,
    List,
    Set_,
    Map_,
    Struct,
}

/// The type that a type nibble names: the low four bits of `b`.
pub open spec fn ttype_of_nibble(b: u8) -> Option<TType> {
    let c = b % 16;
    if c == 0 { Some(TType::Stop) }
    else if c == 1 || c == 2 { Some(TType::Bool) }
    else if c == 3 { Some(TType::Byte) }
    else if c == 4 { Some(TType::I16) }
    else if c == 5 { Some(TType::I32) }
    else if c == 6 { Some(TType::I64) }
    else if c == 7 { Some(TType::Double) }
    else if c == 8 { Some(TType::String) }
    else if c == 9 { Some(TType::List) }
    else if c == 10 { Some(TType::SetT) }
    else if c == 11 { Some(TType::MapT) }
    else if c == 12 { Some(TType::Struct) }
    else { None }
}

/// The type nibble written for a type; a bool outside a field header is
/// written as "true", and `Void` as `Stop`.
pub open spec fn nibble_of_ttype(t: TType) -> u8 {
    match t {
        TType::Stop => 0,
        TType::Void => 0,
        TType::Bool => 1,
        TType::Byte => 3,
        TType::I16 => 4,
        TType::I32 => 5,
        TType::I64 => 6,
        TType::Double => 7,
        TType::String => 8,
        TType::List => 9,
        TType::SetT => 10,
        TType::MapT => 11,
        TType::Struct => 12,
    }
}

/// Every type's nibble names the type back, `Void` reading as `Stop`.
pub proof fn lemma_nibble_roundtrip(t: TType)
    ensures
        nibble_of_ttype(t) < 16,
        t != TType::Void ==> ttype_of_nibble(nibble_of_ttype(t)) == Some(t),
        t == TType::Void ==> ttype_of_nibble(nibble_of_ttype(t)) == Some(TType::Stop),
{
}

impl CompactType {
    fn from_u8(b: u8) -> (r: Option<CompactType>)
        ensures
            r is Some <==> b % 16 <= 12,
            r matches Some(c) ==> c.to_u8() == b % 16,
    {
        let low = b & 0x0f;
        assert(low == b % 16) by (bit_vector)
            requires low == b & 0x0f;
        match low {
            0x00 => Some(CompactType::Stop),
            0x01 => Some(CompactType::BooleanTrue),
            0x02 => Some(CompactType::BooleanFalse),
            0x03 => Some(CompactType::Byte),
            0x04 => Some(CompactType::I16),
            0x05 => Some(CompactType::I32),
            0x06 => Some(CompactType::I64),
            0x07 => Some(CompactType::Double),
            0x08 => Some(CompactType::Binary),
            0x09 => Some(CompactType::List),
            0x0A => Some(CompactType::Set_),
            0x0B => Some(CompactType::Map_),
            0x0C => Some(CompactType::Struct),
            _ => None,
        }
    }

    #[verifier::when_used_as_spec(spec_to_u8)]
    fn to_u8(self) -> (r: u8)
        ensures
            r == self.spec_to_u8(),
    {
        match self {
            CompactType::Stop => 0x00,
            CompactType::BooleanTrue => 0x01,
            CompactType::BooleanFalse => 0x02,
            CompactType::Byte => 0x03,
            CompactType::I16 => 0x04,
            CompactType::I32 => 0x05,
            CompactType::I64 => 0x06,
            CompactType::Double => 0x07,
            CompactType::Binary => 0x08,
            CompactType::List => 0x09,
            CompactType::Set_ => 0x0A,
            CompactType::Map_ => 0x0B,
            CompactType::Struct => 0x0C,
        }
    }

    spec fn spec_to_u8(self) -> u8 {
        match self {
            CompactType::Stop => 0x00,
            CompactType::BooleanTrue => 0x01,
            CompactType::BooleanFalse => 0x02,
            CompactType::Byte => 0x03,
            CompactType::I16 => 0x04,
            CompactType::I32 => 0x05,
            CompactType::I64 => 0x06,
            CompactType::Double => 0x07,
            CompactType::Binary => 0x08,
            CompactType::List => 0x09,
            CompactType::Set_ => 0x0A,
            CompactType::Map_ => 0x0B,
            CompactType::Struct => 0x0C,
        }
    }

    fn to_ttype(self) -> (r: TType)
        ensures
            Some(r) == ttype_of_nibble(self.spec_to_u8()),
    {
        match self {
            CompactType::Stop => TType::Stop,
            CompactType::BooleanTrue | CompactType::BooleanFalse => TType::Bool,
            CompactType::Byte => TType::Byte,
            CompactType::I16 => TType::I16,
            CompactType::I32 => TType::I32,
            CompactType::I64 => TType::I64,
            CompactType::Double => TType::Double,
            CompactType::Binary => TType::String,
            CompactType::List => TType::List,
            CompactType::Set_ => TType::SetT,
            CompactType::Map_ => TType::MapT,
            CompactType::Struct => TType::Struct,
        }
    }

    fn from_ttype(ttype: TType) -> (r: CompactType)
        ensures
            r.spec_to_u8() == nibble_of_ttype(ttype),
    {
        match ttype {
            TType::Stop => CompactType::Stop,
            TType::Bool => CompactType::BooleanTrue,
            TType::Byte => CompactType::Byte,
            TType::I16 => CompactType::I16,
            TType::I32 => CompactType::I32,
            TType::I64 => CompactType::I64,
            TType::Double => CompactType::Double,
            TType::String => CompactType::Binary,
            TType::List => CompactType::List,
            TType::SetT => CompactType::Set_,
            TType::MapT => CompactType::Map_,
            TType::Struct => CompactType::Struct,
            TType::Void => CompactType::Stop,
        }
    }
}

// ─── What a reader accepts ────────────────────────────────────────────────────

/// A zigzag base-128 integer of five bytes at most, taken modulo 2^32.
pub open spec fn compact_read_varint32(s: Seq<u8>) -> Result<(i32, int), ProtocolError> {
    match varint_scan(s, 5) {
        Ok((v, n)) => Ok((zigzag_dec(v % 0x1_0000_0000) as i32, n)),
        Err(e) => Err(e),
    }
}

/// A zigzag base-128 integer of ten bytes at most, taken modulo 2^64.
pub open spec fn compact_read_varint64(s: Seq<u8>) -> Result<(i64, int), ProtocolError> {
    match varint_scan(s, 10) {
        Ok((v, n)) => Ok((zigzag_dec(v % 0x1_0000_0000_0000_0000) as i64, n)),
        Err(e) => Err(e),
    }
}

pub open spec fn compact_read_byte(s: Seq<u8>) -> Result<(i8, int), ProtocolError> {
    if s.len() >= 1 { Ok((s[0] as i8, 1)) } else { Err(eof_error()) }
}

/// A 32-bit varint cut to its low 16 bits.
pub open spec fn compact_read_i16(s: Seq<u8>) -> Result<(i16, int), ProtocolError> {
    match compact_read_varint32(s) {
        Ok((v, n)) => Ok((v as i16, n)),
        Err(e) => Err(e),
    }
}

/// A double is read as the eight big-endian bytes of its IEEE-754 bit pattern.
pub open spec fn compact_read_double_bits(s: Seq<u8>) -> Result<(u64, int), ProtocolError> {
    if s.len() >= 8 { Ok((be_u64_value(s), 8)) } else { Err(eof_error()) }
}

/// A varint length, then that many bytes. A negative length, or one longer
/// than what remains, is an early end of input.
pub open spec fn compact_read_bytes(s: Seq<u8>) -> Result<(Seq<u8>, int), ProtocolError> {
    match compact_read_varint32(s) {
        Err(e) => Err(e),
        Ok((len, n)) => if len < 0 || len > s.len() - n {
            Err(eof_error())
        } else {
            Ok((s.subrange(n, n + len), n + len))
        },
    }
}

pub open spec fn compact_read_string(s: Seq<u8>) -> Result<(Seq<char>, int), ProtocolError> {
    match compact_read_bytes(s) {
        Ok((b, n)) => if valid_utf8(b) { Ok((decode_utf8(b), n)) } else { Err(invalid_data_error()) },
        Err(e) => Err(e),
    }
}

/// Protocol id byte `0x82`; a byte holding the version 1 in its low five bits
/// and the message type in its high three; the sequence id; the name.
pub open spec fn compact_read_message_begin(s: Seq<u8>) -> Result<((Seq<char>, u8, i32), int), ProtocolError> {
    if s.len() < 1 {
        Err(eof_error())
    } else if s[0] != COMPACT_PROTOCOL_ID {
        Err(invalid_data_error())
    } else if s.len() < 2 {
        Err(eof_error())
    } else if s[1] % 32 != 1 {
        Err(invalid_data_error())
    } else {
        match compact_read_varint32(s.skip(2)) {
            Err(e) => Err(e),
            Ok((seq_id, n)) => match compact_read_string(s.skip(2 + n)) {
                Err(e) => Err(e),
                Ok((name, m)) => Ok(((name, (s[1] / 32) as u8, seq_id), 2 + n + m)),
            },
        }
    }
}

/// A field header after a field whose id is `last`: a byte whose low nibble
/// is the type (0 being `Stop`) and whose high nibble, when not 0, is the
/// increase of the id over `last`; when it is 0, a big-endian 16-bit id
/// follows. An increase past the largest 16-bit id makes the input malformed.
/// The result holds the type, the id, and for a bool field its value.
pub open spec fn compact_read_field_begin(s: Seq<u8>, last: i16) -> Result<((TType, i16, Option<bool>), int), ProtocolError> {
    if s.len() < 1 {
        Err(eof_error())
    } else if s[0] % 16 == 0 {
        Ok(((TType::Stop, 0i16, None), 1))
    } else {
        let modifier = s[0] / 16;
        let id_and_len: Result<(i16, int), ProtocolError> = if modifier == 0 {
            if s.len() < 3 { Err(eof_error()) } else { Ok((be_u16_value(s.skip(1)) as i16, 3)) }
        } else if last + modifier > i16::MAX {
            Err(invalid_data_error())
        } else {
            Ok(((last + modifier) as i16, 1))
        };
        match id_and_len {
            Err(e) => Err(e),
            Ok((id, n)) => match ttype_of_nibble(s[0]) {
                None => Err(ProtocolError::InvalidFieldType),
                Some(t) => Ok((
                    (t, id, if s[0] % 16 == 1 { Some(true) } else if s[0] % 16 == 2 { Some(false) } else { None }),
                    n,
                )),
            },
        }
    }
}

/// A bool whose value came in its field header takes no bytes; any other
/// is one byte, true when it is 1.
pub open spec fn compact_read_bool(s: Seq<u8>, pending: Option<bool>) -> Result<(bool, int), ProtocolError> {
    match pending {
        Some(v) => Ok((v, 0)),
        None => if s.len() >= 1 { Ok((s[0] == 1, 1)) } else { Err(eof_error()) },
    }
}

/// The size; when it is not 0, a byte with the key type in its high nibble
/// and the value type in its low nibble. An empty map has `Stop` types.
pub open spec fn compact_read_map_begin(s: Seq<u8>) -> Result<(MapBegin, int), ProtocolError> {
    match compact_read_varint32(s) {
        Err(e) => Err(e),
        Ok((size, n)) => if size == 0 {
            Ok((MapBegin { key_type: TType::Stop, value_type: TType::Stop, size: 0 }, n))
        } else if s.len() < n + 1 {
            Err(eof_error())
        } else {
            match ttype_of_nibble(s[n] / 16) {
                None => Err(ProtocolError::InvalidFieldType),
                Some(k) => match ttype_of_nibble(s[n]) {
                    None => Err(ProtocolError::InvalidFieldType),
                    Some(v) => Ok((MapBegin { key_type: k, value_type: v, size }, n + 1)),
                },
            }
        },
    }
}

/// A byte with the size in its high nibble (15 meaning that a varint size
/// follows) and the element type in its low nibble.
pub open spec fn compact_read_list_begin(s: Seq<u8>) -> Result<(ListBegin, int), ProtocolError> {
    if s.len() < 1 {
        Err(eof_error())
    } else {
        let size_and_len: Result<(i32, int), ProtocolError> = if s[0] / 16 == 15 {
            match compact_read_varint32(s.skip(1)) {
                Ok((v, n)) => Ok((v, n)),
                Err(e) => Err(e),
            }
        } else {
            Ok(((s[0] / 16) as i32, 0))
        };
        match size_and_len {
            Err(e) => Err(e),
            Ok((size, n)) => match ttype_of_nibble(s[0]) {
                None => Err(ProtocolError::InvalidFieldType),
                Some(t) => Ok((ListBegin { element_type: t, size }, 1 + n)),
            },
        }
    }
}

pub open spec fn compact_read_set_begin(s: Seq<u8>) -> Result<(SetBegin, int), ProtocolError> {
    match compact_read_list_begin(s) {
        Err(e) => Err(e),
        Ok((l, n)) => Ok((SetBegin { element_type: l.element_type, size: l.size }, n)),
    }
}

/// How much of `s` a failed varint read of at most `max_bytes` bytes takes:
/// all that is left when the input ran out, the `max_bytes` bytes read when
/// none of them ended the varint.
pub open spec fn cpt_fail_varint(s: Seq<u8>, max_bytes: nat) -> int {
    if varint_scan(s, max_bytes) == Err::<(nat, int), ProtocolError>(invalid_data_error()) { max_bytes as int } else { s.len() as int }
}

/// How much of `s` a failed read takes when it can only run out of input.
pub open spec fn cpt_fail_all(s: Seq<u8>) -> int {
    s.len() as int
}

/// A failed read of varint-length-prefixed bytes.
pub open spec fn cpt_fail_bytes(s: Seq<u8>) -> int {
    match compact_read_varint32(s) {
        Err(_) => cpt_fail_varint(s, 5),
        Ok(_) => s.len() as int,
    }
}

/// A failed read of varint-length-prefixed UTF-8 text: the prefixed bytes
/// when they are there but not valid UTF-8.
pub open spec fn cpt_fail_string(s: Seq<u8>) -> int {
    match compact_read_bytes(s) {
        Ok((_, n)) => n,
        Err(_) => cpt_fail_bytes(s),
    }
}

/// A failed read of a message header: the protocol id when it is wrong, the
/// two header bytes when the version is wrong, then as the sequence id or
/// the name fails.
pub open spec fn cpt_fail_message_begin(s: Seq<u8>) -> int {
    if s.len() < 1 {
        s.len() as int
    } else if s[0] != COMPACT_PROTOCOL_ID {
        1
    } else if s.len() < 2 {
        s.len() as int
    } else if s[1] % 32 != 1 {
        2
    } else {
        match compact_read_varint32(s.skip(2)) {
            Err(_) => 2 + cpt_fail_varint(s.skip(2), 5),
            Ok((_, n)) => 2 + n + cpt_fail_string(s.skip(2 + n)),
        }
    }
}

/// A failed read of a map header: the size and the types byte when a type
/// is unknown.
pub open spec fn cpt_fail_map_begin(s: Seq<u8>) -> int {
    match compact_read_varint32(s) {
        Err(_) => cpt_fail_varint(s, 5),
        Ok((_, n)) => if s.len() < n + 1 { s.len() as int } else { n + 1 },
    }
}

/// A failed read of a list or set header: the header byte and any varint
/// size when the element type is unknown.
pub open spec fn cpt_fail_list_begin(s: Seq<u8>) -> int {
    if s.len() < 1 {
        s.len() as int
    } else if s[0] / 16 == 15 {
        match compact_read_varint32(s.skip(1)) {
            Err(_) => 1 + cpt_fail_varint(s.skip(1), 5),
            Ok((_, n)) => 1 + n,
        }
    } else {
        1
    }
}

/// The reader's state after a failed field header read: a header byte with
/// an id increase and an unknown type has raised the last field id before
/// the type was found unknown, and is consumed; a long-form header with an
/// unknown type is consumed with its id; an id increase past the largest
/// 16-bit id consumes its byte; a header cut short consumes what is left.
pub open spec fn cpt_field_fail_state(s: (Seq<u8>, Seq<i16>, Option<bool>)) -> (Seq<u8>, Seq<i16>, Option<bool>) {
    let b = s.0;
    if b.len() >= 1 && b[0] / 16 != 0 {
        if s.1.last() + b[0] / 16 > i16::MAX {
            (b.skip(1), s.1, s.2)
        } else {
            (b.skip(1), s.1.update(s.1.len() - 1, (s.1.last() + b[0] / 16) as i16), s.2)
        }
    } else if b.len() >= 3 {
        (b.skip(3), s.1, s.2)
    } else {
        (b.skip(b.len() as int), s.1, s.2)
    }
}

// ─── What a writer emits ──────────────────────────────────────────────────────

pub open spec fn compact_enc_varint32(v: i32) -> Seq<u8> {
    varint_enc(zigzag_enc(v as int))
}

pub open spec fn compact_enc_varint64(v: i64) -> Seq<u8> {
    varint_enc(zigzag_enc(v as int))
}

pub open spec fn compact_enc_byte(v: i8) -> Seq<u8> {
    seq![v as u8]
}

pub open spec fn compact_enc_double_bits(v: u64) -> Seq<u8> {
    be_u64_bytes(v)
}

/// The length, cut to 32 bits as `len() as i32` cuts it, then the bytes.
pub open spec fn compact_enc_bytes(b: Seq<u8>) -> Seq<u8> {
    compact_enc_varint32(b.len() as i32) + b
}

pub open spec fn compact_enc_string(t: Seq<char>) -> Seq<u8> {
    compact_enc_bytes(encode_utf8(t))
}

/// The message type keeps its low three bits.
pub open spec fn compact_enc_message_begin(name: Seq<char>, message_type: u8, seq_id: i32) -> Seq<u8> {
    seq![COMPACT_PROTOCOL_ID, (1 + (message_type % 8) * 32) as u8] + compact_enc_varint32(seq_id)
        + compact_enc_string(name)
}

/// A field header with type nibble `nibble` for field `id` after field `last`.
pub open spec fn compact_enc_field_header(nibble: u8, id: i16, last: i16) -> Seq<u8> {
    if 0 < id - last <= 15 {
        seq![((id - last) * 16 + nibble) as u8]
    } else {
        seq![nibble] + be_u16_bytes(id as u16)
    }
}

pub open spec fn compact_enc_standalone_bool(v: bool) -> Seq<u8> {
    seq![if v { 1u8 } else { 2u8 }]
}

pub open spec fn compact_enc_map_begin(m: MapBegin) -> Seq<u8> {
    if m.size == 0 {
        seq![0u8]
    } else {
        compact_enc_varint32(m.size) + seq![(nibble_of_ttype(m.key_type) * 16 + nibble_of_ttype(m.value_type)) as u8]
    }
}

/// Sizes up to 14 share the byte of the element type, shifted into its high
/// nibble (a negative size keeps the low bits of its byte there); larger ones
/// follow as a varint.
pub open spec fn compact_enc_list_begin(element_type: TType, size: i32) -> Seq<u8> {
    if size <= 14 {
        seq![((size as u8) << 4u8) | nibble_of_ttype(element_type)]
    } else {
        seq![(0xf0 + nibble_of_ttype(element_type)) as u8] + compact_enc_varint32(size)
    }
}

// ─── What one write gives back to one read ────────────────────────────────────

/// A 32-bit value written as a zigzag varint takes one to five bytes and is
/// read back; what follows it is left in place.
pub proof fn lemma_compact_varint32_roundtrip(v: i32, rest: Seq<u8>)
    ensures
        1 <= compact_enc_varint32(v).len() <= 5,
        compact_read_varint32(compact_enc_varint32(v) + rest) == Ok::<(i32, int), ProtocolError>(
            (v, compact_enc_varint32(v).len() as int),
        ),
        (compact_enc_varint32(v) + rest).skip(compact_enc_varint32(v).len() as int) == rest,
{
    let z = zigzag_enc(v as int);
    lemma_pow128_bounds();
    lemma_varint_roundtrip(z, 5, rest);
    lemma_varint_enc_len(z, 5);
    lemma_zigzag_roundtrip(v as int);
    assert(z % 0x1_0000_0000 == z);
    assert((compact_enc_varint32(v) + rest).skip(compact_enc_varint32(v).len() as int) =~= rest);
}

/// What the writer's varint32 appends, the reader's varint32 gives back:
/// a Compact reader over those bytes and any that follow reads the value,
/// takes exactly those one to five bytes, and leaves the rest and its field
/// state as they were.
pub proof fn lemma_compact_reader_varint32_roundtrip(v: i32, rest: Seq<u8>, ids: Seq<i16>, pending: Option<bool>)
    ensures
        1 <= compact_enc_varint32(v).len() <= 5,
        CompactProtocolReader::spec_read_i32((compact_enc_varint32(v) + rest, ids, pending))
            == (Ok::<i32, ProtocolError>(v), (rest, ids, pending)),
{
    lemma_compact_varint32_roundtrip(v, rest);
}

/// A 64-bit value written as a zigzag varint is read back; what follows it
/// is left in place.
pub proof fn lemma_compact_varint64_roundtrip(v: i64, rest: Seq<u8>)
    ensures
        compact_read_varint64(compact_enc_varint64(v) + rest) == Ok::<(i64, int), ProtocolError>(
            (v, compact_enc_varint64(v).len() as int),
        ),
        (compact_enc_varint64(v) + rest).skip(compact_enc_varint64(v).len() as int) == rest,
{
    let z = zigzag_enc(v as int);
    lemma_pow128_bounds();
    lemma_varint_roundtrip(z, 10, rest);
    lemma_zigzag_roundtrip(v as int);
    assert(z % 0x1_0000_0000_0000_0000 == z);
    assert((compact_enc_varint64(v) + rest).skip(compact_enc_varint64(v).len() as int) =~= rest);
}

/// A 16-bit value written is read back.
pub proof fn lemma_compact_i16_roundtrip(v: i16, rest: Seq<u8>)
    ensures
        compact_read_i16(compact_enc_varint32(v as i32) + rest) == Ok::<(i16, int), ProtocolError>(
            (v, compact_enc_varint32(v as i32).len() as int),
        ),
{
    lemma_compact_varint32_roundtrip(v as i32, rest);
}

/// A byte written is read back; what follows it is left in place.
pub proof fn lemma_compact_byte_roundtrip(v: i8, rest: Seq<u8>)
    ensures
        compact_read_byte(compact_enc_byte(v) + rest) == Ok::<(i8, int), ProtocolError>((v, 1)),
        (compact_enc_byte(v) + rest).skip(1) == rest,
{
    assert((v as u8) as i8 == v) by (bit_vector);
    assert((compact_enc_byte(v) + rest).skip(1) =~= rest);
}

/// The bits of a double written are read back; what follows is left in place.
pub proof fn lemma_compact_double_bits_roundtrip(v: u64, rest: Seq<u8>)
    ensures
        compact_read_double_bits(compact_enc_double_bits(v) + rest) == Ok::<(u64, int), ProtocolError>((v, 8)),
        (compact_enc_double_bits(v) + rest).skip(8) == rest,
{
    lemma_be_u64_roundtrip(v, rest);
    assert((compact_enc_double_bits(v) + rest).skip(8) =~= rest);
}

/// Bytes written are read back, when their length fits a signed 32-bit
/// value; what follows them is left in place.
pub proof fn lemma_compact_bytes_roundtrip(b: Seq<u8>, rest: Seq<u8>)
    requires
        b.len() <= i32::MAX,
    ensures
        compact_read_bytes(compact_enc_bytes(b) + rest) == Ok::<(Seq<u8>, int), ProtocolError>(
            (b, compact_enc_bytes(b).len() as int),
        ),
        (compact_enc_bytes(b) + rest).skip(compact_enc_bytes(b).len() as int) == rest,
{
    let len = b.len() as i32;
    let head = compact_enc_varint32(len);
    let s = compact_enc_bytes(b) + rest;
    assert(s =~= head + (b + rest));
    lemma_compact_varint32_roundtrip(len, b + rest);
    assert(s.subrange(head.len() as int, head.len() + len) =~= b);
    assert(s.skip(compact_enc_bytes(b).len() as int) =~= rest);
}

/// Text written is read back, when its UTF-8 form's length fits a signed
/// 32-bit value; what follows it is left in place.
pub proof fn lemma_compact_string_roundtrip(t: Seq<char>, rest: Seq<u8>)
    requires
        encode_utf8(t).len() <= i32::MAX,
    ensures
        compact_read_string(compact_enc_string(t) + rest) == Ok::<(Seq<char>, int), ProtocolError>(
            (t, compact_enc_string(t).len() as int),
        ),
        (compact_enc_string(t) + rest).skip(compact_enc_string(t).len() as int) == rest,
{
    lemma_compact_bytes_roundtrip(encode_utf8(t), rest);
    encode_utf8_valid_utf8(t);
    encode_utf8_decode_utf8(t);
}

/// A message header written is read back, when its message type fits the
/// three bits the header keeps and its name's UTF-8 form's length fits a
/// signed 32-bit value; what follows it is left in place.
pub proof fn lemma_compact_message_begin_roundtrip(name: Seq<char>, message_type: u8, seq_id: i32, rest: Seq<u8>)
    requires
        message_type < 8,
        encode_utf8(name).len() <= i32::MAX,
    ensures
        compact_read_message_begin(compact_enc_message_begin(name, message_type, seq_id) + rest)
            == Ok::<((Seq<char>, u8, i32), int), ProtocolError>(
            ((name, message_type, seq_id), compact_enc_message_begin(name, message_type, seq_id).len() as int),
        ),
        (compact_enc_message_begin(name, message_type, seq_id) + rest).skip(
            compact_enc_message_begin(name, message_type, seq_id).len() as int,
        ) == rest,
{
    let s = compact_enc_message_begin(name, message_type, seq_id) + rest;
    let v = compact_enc_varint32(seq_id);
    let t = compact_enc_string(name);
    assert(s.skip(2) =~= v + (t + rest));
    lemma_compact_varint32_roundtrip(seq_id, t + rest);
    assert(s.skip(2 + v.len() as int) =~= t + rest);
    lemma_compact_string_roundtrip(name, rest);
    assert(s.skip(compact_enc_message_begin(name, message_type, seq_id).len() as int) =~= rest);
}

/// The bool value a type nibble carries in a field header.
pub open spec fn nibble_bool(nibble: u8) -> Option<bool> {
    if nibble == 1 { Some(true) } else if nibble == 2 { Some(false) } else { None }
}

/// A field header written after field `last` is read back after field
/// `last`: its type, its id, and for a bool field its value.
pub proof fn lemma_compact_field_header_roundtrip(nibble: u8, id: i16, last: i16, rest: Seq<u8>)
    requires
        1 <= nibble <= 12,
    ensures
        compact_read_field_begin(compact_enc_field_header(nibble, id, last) + rest, last)
            == Ok::<((TType, i16, Option<bool>), int), ProtocolError>(
            ((ttype_of_nibble(nibble).unwrap(), id, nibble_bool(nibble)), compact_enc_field_header(nibble, id, last).len() as int),
        ),
        (compact_enc_field_header(nibble, id, last) + rest).skip(
            compact_enc_field_header(nibble, id, last).len() as int,
        ) == rest,
{
    let s = compact_enc_field_header(nibble, id, last) + rest;
    if 0 < id - last <= 15 {
        assert(s[0] == ((id - last) * 16 + nibble) as u8);
        assert(s[0] % 16 == nibble);
        assert(s[0] / 16 == id - last);
    } else {
        assert(s.skip(1) =~= be_u16_bytes(id as u16) + rest);
        lemma_be_u16_roundtrip(id as u16, rest);
        lemma_signed_casts(id, 0, 0);
    }
    assert(s.skip(compact_enc_field_header(nibble, id, last).len() as int) =~= rest);
}

/// A bool written outside a field header is read back as one byte.
pub proof fn lemma_compact_standalone_bool_roundtrip(v: bool, rest: Seq<u8>)
    ensures
        compact_read_bool(compact_enc_standalone_bool(v) + rest, None) == Ok::<(bool, int), ProtocolError>((v, 1)),
        (compact_enc_standalone_bool(v) + rest).skip(1) == rest,
{
    assert((compact_enc_standalone_bool(v) + rest).skip(1) =~= rest);
}

/// A map header written is read back: exactly when the map is not empty and
/// neither type is `Void`; an empty map's header reads with `Stop` types.
pub proof fn lemma_compact_map_begin_roundtrip(m: MapBegin, rest: Seq<u8>)
    requires
        m.key_type != TType::Void,
        m.value_type != TType::Void,
    ensures
        m.size != 0 ==> compact_read_map_begin(compact_enc_map_begin(m) + rest)
            == Ok::<(MapBegin, int), ProtocolError>((m, compact_enc_map_begin(m).len() as int)),
        m.size == 0 ==> compact_read_map_begin(compact_enc_map_begin(m) + rest)
            == Ok::<(MapBegin, int), ProtocolError>(
            (MapBegin { key_type: TType::Stop, value_type: TType::Stop, size: 0 }, 1),
        ),
        (compact_enc_map_begin(m) + rest).skip(compact_enc_map_begin(m).len() as int) == rest,
{
    let s = compact_enc_map_begin(m) + rest;
    lemma_nibble_roundtrip(m.key_type);
    lemma_nibble_roundtrip(m.value_type);
    if m.size == 0 {
        lemma_compact_varint32_roundtrip(0, rest);
        assert(compact_enc_varint32(0) =~= seq![0u8]) by {
            reveal_with_fuel(varint_enc, 2);
        }
    } else {
        let v = compact_enc_varint32(m.size);
        let tb = (nibble_of_ttype(m.key_type) * 16 + nibble_of_ttype(m.value_type)) as u8;
        assert(s =~= v + (seq![tb] + rest));
        lemma_compact_varint32_roundtrip(m.size, seq![tb] + rest);
        assert(s[v.len() as int] == tb);
        assert(tb / 16 == nibble_of_ttype(m.key_type));
        assert(tb % 16 == nibble_of_ttype(m.value_type));
        assert(ttype_of_nibble(tb / 16) == ttype_of_nibble(nibble_of_ttype(m.key_type)));
    }
    assert(s.skip(compact_enc_map_begin(m).len() as int) =~= rest);
}

/// The Compact type codes: the number that stands for each type in a type
/// nibble, and the type that each code below 13 stands for (1 and 2 both
/// standing for a bool).
pub proof fn lemma_compact_type_codes()
    ensures
        nibble_of_ttype(TType::Stop) == 0,
        nibble_of_ttype(TType::Bool) == 1,
        nibble_of_ttype(TType::Byte) == 3,
        nibble_of_ttype(TType::I16) == 4,
        nibble_of_ttype(TType::I32) == 5,
        nibble_of_ttype(TType::I64) == 6,
        nibble_of_ttype(TType::Double) == 7,
        nibble_of_ttype(TType::String) == 8,
        nibble_of_ttype(TType::List) == 9,
        nibble_of_ttype(TType::SetT) == 10,
        nibble_of_ttype(TType::MapT) == 11,
        nibble_of_ttype(TType::Struct) == 12,
        forall|b: u8| #![trigger ttype_of_nibble(b)]
            (ttype_of_nibble(b) is Some <==> b % 16 <= 12)
            && (b % 16 <= 12 && b % 16 != 2 ==> nibble_of_ttype(ttype_of_nibble(b)->Some_0) == b % 16)
            && (b % 16 == 2 ==> ttype_of_nibble(b) == Some(TType::Bool)),
{
}

/// The layout of a map header as the writer puts it down: an empty map is
/// the single byte 0; any other map is its size as a zigzag varint and then
/// one byte whose high nibble is the key type's code and whose low nibble is
/// the value type's code. The writer appends exactly that to what it holds
/// and leaves its field state alone.
pub proof fn lemma_compact_map_header_layout(s: (Seq<u8>, Seq<i16>, Option<i16>), m: MapBegin)
    ensures
        ({
            let (r, t) = <CompactProtocolWriter as TOutputProtocol>::spec_write_map_begin(s, m);
            &&& r is Ok
            &&& t.1 == s.1
            &&& t.2 == s.2
            &&& t.0.subrange(0, s.0.len() as int) == s.0
            &&& t.0.skip(s.0.len() as int) == compact_enc_map_begin(m)
        }),
        m.size == 0 ==> compact_enc_map_begin(m) == seq![0u8],
        m.size != 0 ==> ({
            let e = compact_enc_map_begin(m);
            let v = compact_enc_varint32(m.size);
            &&& e.len() == v.len() + 1
            &&& e.subrange(0, v.len() as int) == v
            &&& e.last() / 16 == nibble_of_ttype(m.key_type)
            &&& e.last() % 16 == nibble_of_ttype(m.value_type)
        }),
{
    let (r, t) = <CompactProtocolWriter as TOutputProtocol>::spec_write_map_begin(s, m);
    assert(t.0.subrange(0, s.0.len() as int) =~= s.0);
    assert(t.0.skip(s.0.len() as int) =~= compact_enc_map_begin(m));
    lemma_nibble_roundtrip(m.key_type);
    lemma_nibble_roundtrip(m.value_type);
    if m.size != 0 {
        let e = compact_enc_map_begin(m);
        let v = compact_enc_varint32(m.size);
        let tb = (nibble_of_ttype(m.key_type) * 16 + nibble_of_ttype(m.value_type)) as u8;
        assert(e.subrange(0, v.len() as int) =~= v);
        assert(e.last() == tb);
        assert(tb / 16 == nibble_of_ttype(m.key_type));
        assert(tb % 16 == nibble_of_ttype(m.value_type));
    }
}

/// Reading a map header that is not empty: after the size, the high nibble
/// of the next byte gives the key type and its low nibble the value type;
/// the reader takes the size and that byte and keeps its field state. A
/// nibble that is no type code makes the read fail.
pub proof fn lemma_compact_map_header_read(size: i32, tb: u8, rest: Seq<u8>, ids: Seq<i16>, pending: Option<bool>)
    requires
        size != 0,
    ensures
        ({
            let s = compact_enc_varint32(size) + seq![tb] + rest;
            let (r, t) = <CompactProtocolReader as TInputProtocol>::spec_read_map_begin((s, ids, pending));
            &&& tb / 16 <= 12 && tb % 16 <= 12 ==> {
                &&& r == Ok::<MapBegin, ProtocolError>(MapBegin {
                    key_type: ttype_of_nibble(tb / 16)->Some_0,
                    value_type: ttype_of_nibble(tb % 16)->Some_0,
                    size,
                })
                &&& t == (rest, ids, pending)
            }
            &&& !(tb / 16 <= 12 && tb % 16 <= 12) ==> r == Err::<MapBegin, ProtocolError>(ProtocolError::InvalidFieldType)
        }),
{
    let v = compact_enc_varint32(size);
    let s = v + seq![tb] + rest;
    assert(s =~= v + (seq![tb] + rest));
    lemma_compact_varint32_roundtrip(size, seq![tb] + rest);
    assert(s[v.len() as int] == tb);
    assert(tb / 16 % 16 == tb / 16);
    assert(tb % 16 % 16 == tb % 16);
    assert(ttype_of_nibble(tb) == ttype_of_nibble(tb % 16));
    assert(s.skip(v.len() as int + 1) =~= rest);
}

/// The layout of a field header: when the id is 1 to 15 above the previous
/// one, a single byte with that increase in its high nibble and the type
/// code in its low nibble; otherwise the type code alone in a byte, then the
/// id as two big-endian bytes.
pub proof fn lemma_compact_field_header_layout(nibble: u8, id: i16, last: i16)
    requires
        nibble < 16,
    ensures
        0 < id - last <= 15 ==> ({
            let e = compact_enc_field_header(nibble, id, last);
            &&& e.len() == 1
            &&& e[0] / 16 == id - last
            &&& e[0] % 16 == nibble
        }),
        !(0 < id - last <= 15) ==> ({
            let e = compact_enc_field_header(nibble, id, last);
            &&& e.len() == 3
            &&& e[0] == nibble
            &&& be_u16_value(e.skip(1)) as i16 == id
        }),
{
    let e = compact_enc_field_header(nibble, id, last);
    if 0 < id - last <= 15 {
        assert(e[0] == ((id - last) * 16 + nibble) as u8);
    } else {
        assert(e.skip(1) =~= be_u16_bytes(id as u16) + Seq::<u8>::empty());
        lemma_be_u16_roundtrip(id as u16, Seq::<u8>::empty());
        lemma_signed_casts(id, 0, 0);
    }
}

/// Reading a one-byte field header: the high nibble is added to the
/// previous field's id and the low nibble is the type, a bool's value being
/// that nibble (1 true, 2 false); the reader takes that one byte.
pub proof fn lemma_compact_field_header_read(b: u8, last: i16, rest: Seq<u8>)
    requires
        b / 16 != 0,
        1 <= b % 16 <= 12,
        last + b / 16 <= i16::MAX,
    ensures
        compact_read_field_begin(seq![b] + rest, last) == Ok::<((TType, i16, Option<bool>), int), ProtocolError>(
            (
                (
                    ttype_of_nibble(b % 16)->Some_0,
                    (last + b / 16) as i16,
                    if b % 16 == 1 { Some(true) } else if b % 16 == 2 { Some(false) } else { None },
                ),
                1,
            ),
        ),
{
    let s = seq![b] + rest;
    assert(s[0] == b);
    assert(b % 16 % 16 == b % 16);
}

/// A bool goes on the wire as the type nibble of its field header, 1 for
/// `true` and 2 for `false`, when a bool field is pending; otherwise as a
/// byte of its own, again 1 or 2. Read outside a header, a byte is `true`
/// exactly when it is 1.
pub proof fn lemma_compact_bool_encoding(s: (Seq<u8>, Seq<i16>, Option<i16>), v: bool, x: u8, rest: Seq<u8>)
    ensures
        compact_enc_standalone_bool(true) == seq![1u8],
        compact_enc_standalone_bool(false) == seq![2u8],
        s.2 is None ==> <CompactProtocolWriter as TOutputProtocol>::spec_write_bool(s, v).1.0
            == s.0 + seq![if v { 1u8 } else { 2u8 }],
        s.2 matches Some(id) ==> <CompactProtocolWriter as TOutputProtocol>::spec_write_bool(s, v).1.0
            == s.0 + compact_enc_field_header(if v { 1u8 } else { 2u8 }, id, s.1.last()),
        compact_read_bool(seq![x] + rest, None) == Ok::<(bool, int), ProtocolError>((x == 1, 1)),
{
    assert(compact_enc_standalone_bool(true) =~= seq![1u8]);
    assert(compact_enc_standalone_bool(false) =~= seq![2u8]);
    assert((seq![x] + rest)[0] == x);
}

/// The layout of a list or set header: a size from 0 to 14 shares one byte
/// with the element type, the size in the high nibble and the type code in
/// the low one; a larger size puts 15 in the high nibble and follows as a
/// zigzag varint. Read back, a byte whose high nibble is below 15 gives that
/// nibble as the size and its low nibble as the element type.
pub proof fn lemma_compact_list_header_layout(t: TType, size: i32, b: u8, rest: Seq<u8>)
    ensures
        0 <= size <= 14 ==> ({
            let e = compact_enc_list_begin(t, size);
            &&& e.len() == 1
            &&& e[0] / 16 == size
            &&& e[0] % 16 == nibble_of_ttype(t)
        }),
        size > 14 ==> ({
            let e = compact_enc_list_begin(t, size);
            &&& e.len() == 1 + compact_enc_varint32(size).len()
            &&& e[0] / 16 == 15
            &&& e[0] % 16 == nibble_of_ttype(t)
            &&& e.skip(1) == compact_enc_varint32(size)
        }),
        b / 16 < 15 && b % 16 <= 12 ==> compact_read_list_begin(seq![b] + rest)
            == Ok::<(ListBegin, int), ProtocolError>(
            (ListBegin { element_type: ttype_of_nibble(b % 16)->Some_0, size: (b / 16) as i32 }, 1),
        ),
{
    let nib = nibble_of_ttype(t);
    lemma_nibble_roundtrip(t);
    let e = compact_enc_list_begin(t, size);
    if 0 <= size <= 14 {
        let x = ((size as u8) << 4u8) | nib;
        assert(x / 16 == size as u8 && x % 16 == nib) by (bit_vector)
            requires x == ((size as u8) << 4u8) | nib, 0 <= size <= 14, nib < 16;
        assert(e[0] == x);
    } else if size > 14 {
        assert(e.skip(1) =~= compact_enc_varint32(size));
    }
    let s = seq![b] + rest;
    assert(s[0] == b);
    assert(b % 16 % 16 == b % 16);
}

/// A list header written is read back, when its size is not negative and its
/// element type is not `Void`; what follows it is left in place.
pub proof fn lemma_compact_list_begin_roundtrip(element_type: TType, size: i32, rest: Seq<u8>)
    requires
        element_type != TType::Void,
        0 <= size,
    ensures
        compact_read_list_begin(compact_enc_list_begin(element_type, size) + rest)
            == Ok::<(ListBegin, int), ProtocolError>(
            (ListBegin { element_type, size }, compact_enc_list_begin(element_type, size).len() as int),
        ),
        (compact_enc_list_begin(element_type, size) + rest).skip(
            compact_enc_list_begin(element_type, size).len() as int,
        ) == rest,
{
    let s = compact_enc_list_begin(element_type, size) + rest;
    let nib = nibble_of_ttype(element_type);
    lemma_nibble_roundtrip(element_type);
    if size <= 14 {
        let b = ((size as u8) << 4u8) | nib;
        assert(b / 16 == size as u8 && b % 16 == nib) by (bit_vector)
            requires b == ((size as u8) << 4u8) | nib, 0 <= size <= 14, nib < 16;
        assert(s[0] == b);
    } else {
        let b = (0xf0 + nib) as u8;
        assert(s.skip(1) =~= compact_enc_varint32(size) + rest);
        lemma_compact_varint32_roundtrip(size, rest);
        assert(s[0] == b);
        assert(b / 16 == 15);
        assert(b % 16 == nib);
    }
    assert(s.skip(compact_enc_list_begin(element_type, size).len() as int) =~= rest);
}

// ─── Reader ───────────────────────────────────────────────────────────────────

/// Reads Compact-protocol values from a byte buffer. It keeps, for each struct
/// being read, the id of its last field, and the value of a bool field whose
/// header has been read.
pub struct CompactProtocolReader {
    input: ByteReader,
    last_field_id: Vec<i16>,
    boolean_field: Option<bool>,
}

impl CompactProtocolReader {
    /// The bytes not read yet.
    pub closed spec fn rest(self) -> Seq<u8> {
        self.input.rest()
    }

    /// The id of the last field read, for each struct being read, innermost last.
    pub closed spec fn last_ids(self) -> Seq<i16> {
        self.last_field_id@
    }

    /// The value of the bool field whose header was read, until it is read.
    pub closed spec fn pending_bool(self) -> Option<bool> {
        self.boolean_field
    }

    pub fn new(data: Vec<u8>) -> (r: Self)
        ensures
            r.rest() == data@,
            r.last_ids() == seq![0i16],
            r.pending_bool() is None,
            r@ == (data@, seq![0i16], None::<bool>),
    {
        let mut ids = Vec::new();
        ids.push(0i16);
        assert(ids@ =~= seq![0i16]);
        CompactProtocolReader { input: ByteReader::new(data), last_field_id: ids, boolean_field: None }
    }

    /// The zigzag varint of at most five bytes `at` bytes ahead, with its length.
    fn peek_varint32(&self, at: usize) -> (r: Result<(i32, usize), ProtocolError>)
        requires
            at <= self.rest().len(),
        ensures
            match compact_read_varint32(self.rest().skip(at as int)) {
                Ok((v, n)) => r matches Ok((x, m)) && x == v && m == n && at + n <= self.rest().len(),
                Err(e) => r == Err::<(i32, usize), ProtocolError>(e),
            },
    {
        let (v, n) = match peek_varint(&self.input, at, 5) {
            Ok(p) => p,
            Err(e) => return Err(e),
        };
        proof {
            super::varint::lemma_varint_scan_bound(self.rest().skip(at as int), 5);
            lemma_pow128_bounds();
            super::varint::lemma_pow128_mono_pub(n as nat, 5);
            lemma_zigzag_dec_range((v % 0x1_0000_0000) as nat);
        }
        let u = (v % 0x1_0000_0000) as u32;
        Ok((zigzag_decode_u32(u), n))
    }

    /// The zigzag varint of at most ten bytes `at` bytes ahead, with its length.
    fn peek_varint64(&self, at: usize) -> (r: Result<(i64, usize), ProtocolError>)
        requires
            at <= self.rest().len(),
        ensures
            match compact_read_varint64(self.rest().skip(at as int)) {
                Ok((v, n)) => r matches Ok((x, m)) && x == v && m == n && at + n <= self.rest().len(),
                Err(e) => r == Err::<(i64, usize), ProtocolError>(e),
            },
    {
        let (v, n) = match peek_varint(&self.input, at, 10) {
            Ok(p) => p,
            Err(e) => return Err(e),
        };
        proof {
            lemma_zigzag_dec_range((v % 0x1_0000_0000_0000_0000) as nat);
        }
        let u = (v % 0x1_0000_0000_0000_0000) as u64;
        Ok((zigzag_decode_u64(u), n))
    }

    /// The varint-length-prefixed bytes `at` bytes ahead, with the size of the whole.
    fn peek_len_prefixed(&self, at: usize) -> (r: Result<(Vec<u8>, usize), ProtocolError>)
        requires
            at <= self.rest().len(),
        ensures
            match compact_read_bytes(self.rest().skip(at as int)) {
                Ok((b, n)) => r matches Ok((v, m)) && v@ == b && m == n && at + n <= self.rest().len(),
                Err(e) => r == Err::<(Vec<u8>, usize), ProtocolError>(e),
            },
    {
        let ghost s = self.rest().skip(at as int);
        let (len, n) = match self.peek_varint32(at) {
            Ok(p) => p,
            Err(e) => return Err(e),
        };
        if len < 0 {
            return Err(ProtocolError::Io(IoErrorKind::UnexpectedEof));
        }
        let len = len as usize;
        if self.input.rest_len() - at - n < len {
            return Err(ProtocolError::Io(IoErrorKind::UnexpectedEof));
        }
        let b = self.input.peek_bytes(at + n, len);
        assert(b@ =~= s.subrange(n as int, n + len));
        Ok((b, n + len))
    }

    /// Consumes `n` bytes, leaving the field state alone.
    fn advance(&mut self, n: usize)
        requires
            n <= old(self).rest().len(),
        ensures
            final(self).rest() == old(self).rest().skip(n as int),
            final(self).last_ids() == old(self).last_ids(),
            final(self).pending_bool() == old(self).pending_bool(),
    {
        self.input.advance(n);
    }

    /// Gives up on a read that ran out of input: what is left is consumed.
    fn fail_eof<T>(&mut self) -> (r: Result<T, ProtocolError>)
        ensures
            r == Err::<T, ProtocolError>(eof_error()),
            final(self).rest() == old(self).rest().skip(old(self).rest().len() as int),
            final(self).last_ids() == old(self).last_ids(),
            final(self).pending_bool() == old(self).pending_bool(),
    {
        let n = self.input.rest_len();
        self.advance(n);
        Err(ProtocolError::Io(IoErrorKind::UnexpectedEof))
    }

    /// Gives up with `e` on a read that found malformed input after taking
    /// `n` bytes.
    fn fail_after<T>(&mut self, e: ProtocolError, n: usize) -> (r: Result<T, ProtocolError>)
        requires
            n <= old(self).rest().len(),
        ensures
            r == Err::<T, ProtocolError>(e),
            final(self).rest() == old(self).rest().skip(n as int),
            final(self).last_ids() == old(self).last_ids(),
            final(self).pending_bool() == old(self).pending_bool(),
    {
        self.advance(n);
        Err(e)
    }

    /// Gives up with `e`, the error of a varint of at most `max_bytes` bytes
    /// `at` bytes ahead.
    fn fail_varint<T>(&mut self, e: ProtocolError, at: usize, max_bytes: usize) -> (r: Result<T, ProtocolError>)
        requires
            at <= old(self).rest().len(),
            max_bytes <= 10,
            varint_scan(old(self).rest().skip(at as int), max_bytes as nat) == Err::<(nat, int), ProtocolError>(e),
        ensures
            r == Err::<T, ProtocolError>(e),
            final(self).rest() == old(self).rest().skip(at + cpt_fail_varint(old(self).rest().skip(at as int), max_bytes as nat)),
            at <= at + cpt_fail_varint(old(self).rest().skip(at as int), max_bytes as nat) <= old(self).rest().len(),
            final(self).last_ids() == old(self).last_ids(),
            final(self).pending_bool() == old(self).pending_bool(),
    {
        proof { lemma_varint_scan_errors(self.rest().skip(at as int), max_bytes as nat); }
        let total = self.input.rest_len();
        if e == ProtocolError::Io(IoErrorKind::UnexpectedEof) {
            let n = self.input.rest_len();
            proof { assert(at + (self.rest().len() - at) == self.rest().len()); }
            self.advance(n);
            Err(e)
        } else {
            assert(self.rest().skip(at as int).len() > max_bytes);
            self.fail_after(e, at + max_bytes)
        }
    }

    pub fn read_message_begin(&mut self) -> (r: Result<MessageBegin, ProtocolError>)
        ensures
            read_outcome(compact_read_message_begin(old(self).rest()), cpt_fail_message_begin(old(self).rest()), r, old(self).rest(), final(self).rest()),
            final(self).last_ids() == old(self).last_ids(),
            final(self).pending_bool() == old(self).pending_bool(),
    {
        let ghost s = self.rest();
        let total = self.input.rest_len();
        let protocol_id = match self.input.peek_u8(0) {
            Some(b) => b,
            None => return self.fail_eof(),
        };
        if protocol_id != COMPACT_PROTOCOL_ID {
            return self.fail_after(ProtocolError::Io(IoErrorKind::InvalidData), 1);
        }
        let version_and_type = match self.input.peek_u8(1) {
            Some(b) => b,
            None => return self.fail_eof(),
        };
        if version_and_type % 32 != COMPACT_VERSION {
            return self.fail_after(ProtocolError::Io(IoErrorKind::InvalidData), 2);
        }
        let message_type = version_and_type / 32;
        let (seq_id, n) = match self.peek_varint32(2) {
            Ok(p) => p,
            Err(e) => return self.fail_varint(e, 2, 5),
        };
        proof { lemma_varint_scan_errors(s.skip(2 + n), 5); }
        let (bytes, m) = match self.peek_len_prefixed(2 + n) {
            Ok(p) => p,
            Err(e) => return if e == ProtocolError::Io(IoErrorKind::UnexpectedEof) {
                self.fail_eof()
            } else {
                self.fail_after(e, 2 + n + 5)
            },
        };
        let name = match string_from_utf8(bytes) {
            Some(t) => t,
            None => return self.fail_after(ProtocolError::Io(IoErrorKind::InvalidData), 2 + n + m),
        };
        proof {
            assert(s.skip(2).skip(n as int) =~= s.skip(2 + n));
        }
        self.advance(2 + n + m);
        Ok(MessageBegin { name, message_type, seq_id })
    }

    pub fn read_message_end(&mut self) -> (r: Result<(), ProtocolError>)
        ensures
            r is Ok,
            *final(self) == *old(self),
    {
        Ok(())
    }

    /// Starts a struct: its field ids count from 0.
    pub fn read_struct_begin(&mut self) -> (r: Result<(), ProtocolError>)
        ensures
            r is Ok,
            final(self).rest() == old(self).rest(),
            final(self).last_ids() == old(self).last_ids().push(0),
            final(self).pending_bool() == old(self).pending_bool(),
    {
        self.last_field_id.push(0);
        Ok(())
    }

    /// Ends a struct: the enclosing struct's last field id is current again.
    pub fn read_struct_end(&mut self) -> (r: Result<(), ProtocolError>)
        ensures
            r is Ok,
            final(self).rest() == old(self).rest(),
            final(self).last_ids() == (if old(self).last_ids().len() > 0 {
                old(self).last_ids().drop_last()
            } else {
                old(self).last_ids()
            }),
            final(self).pending_bool() == old(self).pending_bool(),
    {
        let _ = self.last_field_id.pop();
        proof {
            assert(old(self).last_ids().len() > 0 ==> self.last_field_id@ =~= old(self).last_ids().drop_last());
        }
        Ok(())
    }

    /// Reads a field header. Every field but `Stop` becomes the last field of
    /// the innermost struct; a bool field's value is kept for `read_bool`.
    pub fn read_field_begin(&mut self) -> (r: Result<FieldBegin, ProtocolError>)
        requires
            old(self).last_ids().len() > 0,
        ensures
            match compact_read_field_begin(old(self).rest(), old(self).last_ids().last()) {
                Ok(((t, id, flag), n)) => {
                    &&& r matches Ok(f) && f@ == (t, id) && f.name is None
                    &&& final(self).rest() == old(self).rest().skip(n)
                    &&& final(self).last_ids() == (if t == TType::Stop {
                        old(self).last_ids()
                    } else {
                        old(self).last_ids().update(old(self).last_ids().len() - 1, id)
                    })
                    &&& final(self).pending_bool() == (if flag is Some { flag } else { old(self).pending_bool() })
                },
                Err(e) => {
                    &&& r == Err::<FieldBegin, ProtocolError>(e)
                    &&& final(self)@ == cpt_field_fail_state(old(self)@)
                },
            },
    {
        let ghost s = self.rest();
        let b = match self.input.peek_u8(0) {
            Some(b) => b,
            None => return self.fail_eof(),
        };
        if b % 16 == 0 {
            self.advance(1);
            return Ok(FieldBegin { name: None, field_type: TType::Stop, id: 0 });
        }
        let modifier = b / 16;
        let top = self.last_field_id.len() - 1;
        let (id, n) = if modifier == 0 {
            match self.input.peek_u16(1) {
                Some(v) => (v as i16, 3usize),
                None => return self.fail_eof(),
            }
        } else {
            let last = self.last_field_id[top];
            if last as i32 + modifier as i32 > i16::MAX as i32 {
                return self.fail_after(ProtocolError::Io(IoErrorKind::InvalidData), 1);
            }
            (last + modifier as i16, 1usize)
        };
        let compact_type = match CompactType::from_u8(b) {
            Some(c) => c,
            None => {
                self.advance(n);
                if modifier != 0 {
                    self.last_field_id.set(top, id);
                }
                return Err(ProtocolError::InvalidFieldType);
            },
        };
        let field_type = compact_type.to_ttype();
        self.advance(n);
        self.last_field_id.set(top, id);
        match compact_type {
            CompactType::BooleanTrue => self.boolean_field = Some(true),
            CompactType::BooleanFalse => self.boolean_field = Some(false),
            _ => {},
        }
        Ok(FieldBegin { name: None, field_type, id })
    }

    pub fn read_field_end(&mut self) -> (r: Result<(), ProtocolError>)
        ensures
            r is Ok,
            *final(self) == *old(self),
    {
        Ok(())
    }

    /// A bool: the value of the last bool field header, if one is waiting;
    /// otherwise one byte.
    pub fn read_bool(&mut self) -> (r: Result<bool, ProtocolError>)
        ensures
            match compact_read_bool(old(self).rest(), old(self).pending_bool()) {
                Ok((v, n)) => {
                    &&& r == Ok::<bool, ProtocolError>(v)
                    &&& final(self).rest() == old(self).rest().skip(n)
                    &&& final(self).pending_bool() is None
                },
                Err(e) => {
                    &&& r == Err::<bool, ProtocolError>(e)
                    &&& final(self).rest() == old(self).rest()
                    &&& final(self).pending_bool() == old(self).pending_bool()
                },
            },
            final(self).last_ids() == old(self).last_ids(),
    {
        match self.boolean_field {
            Some(v) => {
                self.boolean_field = None;
                proof { assert(self.rest().skip(0) =~= self.rest()); }
                Ok(v)
            },
            None => match self.input.peek_u8(0) {
                Some(b) => {
                    self.advance(1);
                    Ok(b == 1)
                },
                None => Err(ProtocolError::Io(IoErrorKind::UnexpectedEof)),
            },
        }
    }

    pub fn read_byte(&mut self) -> (r: Result<i8, ProtocolError>)
        ensures
            read_outcome(compact_read_byte(old(self).rest()), cpt_fail_all(old(self).rest()), r, old(self).rest(), final(self).rest()),
            final(self).last_ids() == old(self).last_ids(),
            final(self).pending_bool() == old(self).pending_bool(),
    {
        match self.input.peek_u8(0) {
            Some(b) => {
                self.advance(1);
                Ok(b as i8)
            },
            None => self.fail_eof(),
        }
    }

    pub fn read_i16(&mut self) -> (r: Result<i16, ProtocolError>)
        ensures
            read_outcome(compact_read_i16(old(self).rest()), cpt_fail_varint(old(self).rest(), 5), r, old(self).rest(), final(self).rest()),
            final(self).last_ids() == old(self).last_ids(),
            final(self).pending_bool() == old(self).pending_bool(),
    {
        proof { assert(self.rest().skip(0) =~= self.rest()); }
        match self.peek_varint32(0) {
            Ok((v, n)) => {
                self.advance(n);
                Ok(v as i16)
            },
            Err(e) => self.fail_varint(e, 0, 5),
        }
    }

    /// Reads a zigzag varint of at most five bytes.
    fn read_varint32(&mut self) -> (r: Result<i32, ProtocolError>)
        ensures
            read_outcome(compact_read_varint32(old(self).rest()), cpt_fail_varint(old(self).rest(), 5), r, old(self).rest(), final(self).rest()),
            final(self).last_ids() == old(self).last_ids(),
            final(self).pending_bool() == old(self).pending_bool(),
    {
        proof { assert(self.rest().skip(0) =~= self.rest()); }
        match self.peek_varint32(0) {
            Ok((v, n)) => {
                self.advance(n);
                Ok(v)
            },
            Err(e) => self.fail_varint(e, 0, 5),
        }
    }

    /// Reads a zigzag varint of at most ten bytes.
    fn read_varint64(&mut self) -> (r: Result<i64, ProtocolError>)
        ensures
            read_outcome(compact_read_varint64(old(self).rest()), cpt_fail_varint(old(self).rest(), 10), r, old(self).rest(), final(self).rest()),
            final(self).last_ids() == old(self).last_ids(),
            final(self).pending_bool() == old(self).pending_bool(),
    {
        proof { assert(self.rest().skip(0) =~= self.rest()); }
        match self.peek_varint64(0) {
            Ok((v, n)) => {
                self.advance(n);
                Ok(v)
            },
            Err(e) => self.fail_varint(e, 0, 10),
        }
    }

    pub fn read_i32(&mut self) -> (r: Result<i32, ProtocolError>)
        ensures
            read_outcome(compact_read_varint32(old(self).rest()), cpt_fail_varint(old(self).rest(), 5), r, old(self).rest(), final(self).rest()),
            final(self).last_ids() == old(self).last_ids(),
            final(self).pending_bool() == old(self).pending_bool(),
    {
        self.read_varint32()
    }

    pub fn read_i64(&mut self) -> (r: Result<i64, ProtocolError>)
        ensures
            read_outcome(compact_read_varint64(old(self).rest()), cpt_fail_varint(old(self).rest(), 10), r, old(self).rest(), final(self).rest()),
            final(self).last_ids() == old(self).last_ids(),
            final(self).pending_bool() == old(self).pending_bool(),
    {
        self.read_varint64()
    }

    /// Reads a double as the bit pattern of its IEEE-754 binary64 value.
    pub fn read_double_bits(&mut self) -> (r: Result<u64, ProtocolError>)
        ensures
            read_outcome(compact_read_double_bits(old(self).rest()), cpt_fail_all(old(self).rest()), r, old(self).rest(), final(self).rest()),
            final(self).last_ids() == old(self).last_ids(),
            final(self).pending_bool() == old(self).pending_bool(),
    {
        match self.input.peek_u64(0) {
            Some(v) => {
                proof { assert(self.rest().skip(0) =~= self.rest()); }
                self.advance(8);
                Ok(v)
            },
            None => self.fail_eof(),
        }
    }

    pub fn read_string(&mut self) -> (r: Result<String, ProtocolError>)
        ensures
            read_outcome(compact_read_string(old(self).rest()), cpt_fail_string(old(self).rest()), r, old(self).rest(), final(self).rest()),
            final(self).last_ids() == old(self).last_ids(),
            final(self).pending_bool() == old(self).pending_bool(),
    {
        proof { assert(self.rest().skip(0) =~= self.rest()); }
        proof { lemma_varint_scan_errors(self.rest(), 5); }
        let (bytes, n) = match self.peek_len_prefixed(0) {
            Ok(p) => p,
            Err(e) => return if e == ProtocolError::Io(IoErrorKind::UnexpectedEof) {
                self.fail_eof()
            } else {
                self.fail_after(e, 5)
            },
        };
        match string_from_utf8(bytes) {
            Some(text) => {
                self.advance(n);
                Ok(text)
            },
            None => self.fail_after(ProtocolError::Io(IoErrorKind::InvalidData), n),
        }
    }

    pub fn read_binary(&mut self) -> (r: Result<Vec<u8>, ProtocolError>)
        ensures
            read_outcome(compact_read_bytes(old(self).rest()), cpt_fail_bytes(old(self).rest()), r, old(self).rest(), final(self).rest()),
            final(self).last_ids() == old(self).last_ids(),
            final(self).pending_bool() == old(self).pending_bool(),
    {
        proof { assert(self.rest().skip(0) =~= self.rest()); }
        proof { lemma_varint_scan_errors(self.rest(), 5); }
        match self.peek_len_prefixed(0) {
            Ok((b, n)) => {
                self.advance(n);
                Ok(b)
            },
            Err(e) => if e == ProtocolError::Io(IoErrorKind::UnexpectedEof) {
                self.fail_eof()
            } else {
                self.fail_after(e, 5)
            },
        }
    }

    pub fn read_map_begin(&mut self) -> (r: Result<MapBegin, ProtocolError>)
        ensures
            read_outcome(compact_read_map_begin(old(self).rest()), cpt_fail_map_begin(old(self).rest()), r, old(self).rest(), final(self).rest()),
            final(self).last_ids() == old(self).last_ids(),
            final(self).pending_bool() == old(self).pending_bool(),
    {
        proof { assert(self.rest().skip(0) =~= self.rest()); }
        let total = self.input.rest_len();
        let (size, n) = match self.peek_varint32(0) {
            Ok(p) => p,
            Err(e) => return self.fail_varint(e, 0, 5),
        };
        if size == 0 {
            self.advance(n);
            return Ok(MapBegin { key_type: TType::Stop, value_type: TType::Stop, size: 0 });
        }
        let types = match self.input.peek_u8(n) {
            Some(b) => b,
            None => return self.fail_eof(),
        };
        let key_type = match CompactType::from_u8(types / 16) {
            Some(c) => c.to_ttype(),
            None => return self.fail_after(ProtocolError::InvalidFieldType, n + 1),
        };
        let value_type = match CompactType::from_u8(types) {
            Some(c) => c.to_ttype(),
            None => return self.fail_after(ProtocolError::InvalidFieldType, n + 1),
        };
        self.advance(n + 1);
        Ok(MapBegin { key_type, value_type, size })
    }

    pub fn read_map_end(&mut self) -> (r: Result<(), ProtocolError>)
        ensures
            r is Ok,
            *final(self) == *old(self),
    {
        Ok(())
    }

    pub fn read_list_begin(&mut self) -> (r: Result<ListBegin, ProtocolError>)
        ensures
            read_outcome(compact_read_list_begin(old(self).rest()), cpt_fail_list_begin(old(self).rest()), r, old(self).rest(), final(self).rest()),
            final(self).last_ids() == old(self).last_ids(),
            final(self).pending_bool() == old(self).pending_bool(),
    {
        let ghost s = self.rest();
        let total = self.input.rest_len();
        let b = match self.input.peek_u8(0) {
            Some(b) => b,
            None => return self.fail_eof(),
        };
        let (size, n) = if b / 16 == 15 {
            match self.peek_varint32(1) {
                Ok(p) => p,
                Err(e) => return self.fail_varint(e, 1, 5),
            }
        } else {
            ((b / 16) as i32, 0usize)
        };
        let element_type = match CompactType::from_u8(b) {
            Some(c) => c.to_ttype(),
            None => return self.fail_after(ProtocolError::InvalidFieldType, 1 + n),
        };
        self.advance(1 + n);
        Ok(ListBegin { element_type, size })
    }

    pub fn read_list_end(&mut self) -> (r: Result<(), ProtocolError>)
        ensures
            r is Ok,
            *final(self) == *old(self),
    {
        Ok(())
    }

    pub fn read_set_begin(&mut self) -> (r: Result<SetBegin, ProtocolError>)
        ensures
            read_outcome(compact_read_set_begin(old(self).rest()), cpt_fail_list_begin(old(self).rest()), r, old(self).rest(), final(self).rest()),
            final(self).last_ids() == old(self).last_ids(),
            final(self).pending_bool() == old(self).pending_bool(),
    {
        match self.read_list_begin() {
            Ok(l) => Ok(SetBegin { element_type: l.element_type, size: l.size }),
            Err(e) => Err(e),
        }
    }

    pub fn read_set_end(&mut self) -> (r: Result<(), ProtocolError>)
        ensures
            r is Ok,
            *final(self) == *old(self),
    {
        Ok(())
    }
}

// ─── Writer ───────────────────────────────────────────────────────────────────

/// Writes Compact-protocol values into a byte buffer. It keeps, for each
/// struct being written, the id of its last field, and the id of a bool field
/// whose header waits for its value.
pub struct CompactProtocolWriter {
    out: Vec<u8>,
    last_field_id: Vec<i16>,
    bool_field_pending: Option<i16>,
}

impl CompactProtocolWriter {
    /// The bytes written so far.
    pub closed spec fn bytes(self) -> Seq<u8> {
        self.out@
    }

    /// The id of the last field written, for each struct being written, innermost last.
    pub closed spec fn last_ids(self) -> Seq<i16> {
        self.last_field_id@
    }

    /// The id of the bool field whose header waits for its value.
    pub closed spec fn pending_field(self) -> Option<i16> {
        self.bool_field_pending
    }

    pub fn new() -> (r: Self)
        ensures
            r.bytes() == Seq::<u8>::empty(),
            r.last_ids() == seq![0i16],
            r.pending_field() is None,
            r@ == (Seq::<u8>::empty(), seq![0i16], None::<i16>),
    {
        let mut ids = Vec::new();
        ids.push(0i16);
        assert(ids@ =~= seq![0i16]);
        CompactProtocolWriter { out: Vec::new(), last_field_id: ids, bool_field_pending: None }
    }

    pub fn into_bytes(self) -> (r: Vec<u8>)
        ensures
            r@ == self.bytes(),
            r@ == self@.0,
    {
        self.out
    }

    /// Writes a field header with type nibble `nibble` for field `field_id`,
    /// which becomes the innermost struct's last field.
    fn write_field_header(&mut self, nibble: u8, field_id: i16)
        requires
            old(self).last_ids().len() > 0,
            nibble < 16,
        ensures
            final(self).bytes() == old(self).bytes() + compact_enc_field_header(
                nibble,
                field_id,
                old(self).last_ids().last(),
            ),
            final(self).last_ids() == old(self).last_ids().update(old(self).last_ids().len() - 1, field_id),
            final(self).pending_field() == old(self).pending_field(),
    {
        let top = self.last_field_id.len() - 1;
        let last_id = self.last_field_id[top];
        let delta = field_id as i32 - last_id as i32;
        if delta > 0 && delta <= 15 {
            self.out.push((delta as u8) * 16 + nibble);
        } else {
            self.out.push(nibble);
            write_u16(&mut self.out, field_id as u16);
        }
        self.last_field_id.set(top, field_id);
        proof {
            assert(self.out@ =~= old(self).out@ + compact_enc_field_header(nibble, field_id, last_id));
        }
    }

    fn write_varint32(&mut self, n: i32)
        ensures
            final(self).bytes() == old(self).bytes() + compact_enc_varint32(n),
            final(self).last_ids() == old(self).last_ids(),
            final(self).pending_field() == old(self).pending_field(),
    {
        let u = zigzag_encode_i32(n);
        write_varint(&mut self.out, u as u64);
    }

    fn write_varint64(&mut self, n: i64)
        ensures
            final(self).bytes() == old(self).bytes() + compact_enc_varint64(n),
            final(self).last_ids() == old(self).last_ids(),
            final(self).pending_field() == old(self).pending_field(),
    {
        let u = zigzag_encode_i64(n);
        write_varint(&mut self.out, u);
    }

    pub fn write_message_begin(&mut self, identifier: &MessageBegin) -> (r: Result<(), ProtocolError>)
        ensures
            r is Ok,
            final(self).bytes() == old(self).bytes() + compact_enc_message_begin(
                identifier.name@,
                identifier.message_type,
                identifier.seq_id,
            ),
            final(self).last_ids() == old(self).last_ids(),
            final(self).pending_field() == old(self).pending_field(),
    {
        self.out.push(COMPACT_PROTOCOL_ID);
        self.out.push(COMPACT_VERSION + (identifier.message_type % 8) * 32);
        self.write_varint32(identifier.seq_id);
        let _ = self.write_string(identifier.name.as_str());
        proof {
            assert(self.out@ =~= old(self).out@ + compact_enc_message_begin(
                identifier.name@,
                identifier.message_type,
                identifier.seq_id,
            ));
        }
        Ok(())
    }

    pub fn write_message_end(&mut self) -> (r: Result<(), ProtocolError>)
        ensures
            r is Ok,
            *final(self) == *old(self),
    {
        Ok(())
    }

    /// Starts a struct: its field ids count from 0.
    pub fn write_struct_begin(&mut self, _name: &str) -> (r: Result<(), ProtocolError>)
        ensures
            r is Ok,
            final(self).bytes() == old(self).bytes(),
            final(self).last_ids() == old(self).last_ids().push(0),
            final(self).pending_field() == old(self).pending_field(),
    {
        self.last_field_id.push(0);
        Ok(())
    }

    /// Ends a struct: the enclosing struct's last field id is current again.
    pub fn write_struct_end(&mut self) -> (r: Result<(), ProtocolError>)
        ensures
            r is Ok,
            final(self).bytes() == old(self).bytes(),
            final(self).last_ids() == (if old(self).last_ids().len() > 0 {
                old(self).last_ids().drop_last()
            } else {
                old(self).last_ids()
            }),
            final(self).pending_field() == old(self).pending_field(),
    {
        let _ = self.last_field_id.pop();
        proof {
            assert(old(self).last_ids().len() > 0 ==> self.last_field_id@ =~= old(self).last_ids().drop_last());
        }
        Ok(())
    }

    /// Writes a field header; that of a bool field waits for `write_bool`,
    /// which folds the value into it.
    pub fn write_field_begin(&mut self, field: &FieldBegin) -> (r: Result<(), ProtocolError>)
        requires
            field.field_type != TType::Bool ==> old(self).last_ids().len() > 0,
        ensures
            r is Ok,
            field.field_type == TType::Bool ==> {
                &&& final(self).bytes() == old(self).bytes()
                &&& final(self).last_ids() == old(self).last_ids()
                &&& final(self).pending_field() == Some(field.id)
            },
            field.field_type != TType::Bool ==> {
                &&& final(self).bytes() == old(self).bytes() + compact_enc_field_header(
                    nibble_of_ttype(field.field_type),
                    field.id,
                    old(self).last_ids().last(),
                )
                &&& final(self).last_ids() == old(self).last_ids().update(
                    old(self).last_ids().len() - 1,
                    field.id,
                )
                &&& final(self).pending_field() == old(self).pending_field()
            },
    {
        if field.field_type == TType::Bool {
            self.bool_field_pending = Some(field.id);
            return Ok(());
        }
        let nibble = CompactType::from_ttype(field.field_type).to_u8();
        proof { lemma_nibble_roundtrip(field.field_type); }
        self.write_field_header(nibble, field.id);
        Ok(())
    }

    pub fn write_field_end(&mut self) -> (r: Result<(), ProtocolError>)
        ensures
            r is Ok,
            *final(self) == *old(self),
    {
        Ok(())
    }

    pub fn write_field_stop(&mut self) -> (r: Result<(), ProtocolError>)
        ensures
            r is Ok,
            final(self).bytes() == old(self).bytes() + seq![0u8],
            final(self).last_ids() == old(self).last_ids(),
            final(self).pending_field() == old(self).pending_field(),
    {
        self.out.push(CompactType::Stop.to_u8());
        Ok(())
    }

    /// Writes a bool: into the waiting bool field header, if there is one
    /// (as type nibble 1 for true, 2 for false); otherwise as one byte, 1 or 2.
    pub fn write_bool(&mut self, value: bool) -> (r: Result<(), ProtocolError>)
        requires
            old(self).pending_field() is Some ==> old(self).last_ids().len() > 0,
        ensures
            r is Ok,
            final(self).pending_field() is None,
            match old(self).pending_field() {
                Some(id) => {
                    &&& final(self).bytes() == old(self).bytes() + compact_enc_field_header(
                        if value { 1u8 } else { 2u8 },
                        id,
                        old(self).last_ids().last(),
                    )
                    &&& final(self).last_ids() == old(self).last_ids().update(
                        old(self).last_ids().len() - 1,
                        id,
                    )
                },
                None => {
                    &&& final(self).bytes() == old(self).bytes() + compact_enc_standalone_bool(value)
                    &&& final(self).last_ids() == old(self).last_ids()
                },
            },
    {
        match self.bool_field_pending {
            Some(field_id) => {
                self.bool_field_pending = None;
                let compact_type = if value { CompactType::BooleanTrue } else { CompactType::BooleanFalse };
                self.write_field_header(compact_type.to_u8(), field_id);
            },
            None => {
                let b = if value { CompactType::BooleanTrue.to_u8() } else { CompactType::BooleanFalse.to_u8() };
                self.out.push(b);
                proof { assert(self.out@ =~= old(self).out@ + compact_enc_standalone_bool(value)); }
            },
        }
        Ok(())
    }

    pub fn write_byte(&mut self, value: i8) -> (r: Result<(), ProtocolError>)
        ensures
            r is Ok,
            final(self).bytes() == old(self).bytes() + compact_enc_byte(value),
            final(self).last_ids() == old(self).last_ids(),
            final(self).pending_field() == old(self).pending_field(),
    {
        self.out.push(value as u8);
        proof { assert(self.out@ =~= old(self).out@ + compact_enc_byte(value)); }
        Ok(())
    }

    pub fn write_i16(&mut self, value: i16) -> (r: Result<(), ProtocolError>)
        ensures
            r is Ok,
            final(self).bytes() == old(self).bytes() + compact_enc_varint32(value as i32),
            final(self).last_ids() == old(self).last_ids(),
            final(self).pending_field() == old(self).pending_field(),
    {
        self.write_varint32(value as i32);
        Ok(())
    }

    pub fn write_i32(&mut self, value: i32) -> (r: Result<(), ProtocolError>)
        ensures
            r is Ok,
            final(self).bytes() == old(self).bytes() + compact_enc_varint32(value),
            final(self).last_ids() == old(self).last_ids(),
            final(self).pending_field() == old(self).pending_field(),
    {
        self.write_varint32(value);
        Ok(())
    }

    pub fn write_i64(&mut self, value: i64) -> (r: Result<(), ProtocolError>)
        ensures
            r is Ok,
            final(self).bytes() == old(self).bytes() + compact_enc_varint64(value),
            final(self).last_ids() == old(self).last_ids(),
            final(self).pending_field() == old(self).pending_field(),
    {
        self.write_varint64(value);
        Ok(())
    }

    /// Writes a double given as the bit pattern of its IEEE-754 binary64 value.
    pub fn write_double_bits(&mut self, bits: u64) -> (r: Result<(), ProtocolError>)
        ensures
            r is Ok,
            final(self).bytes() == old(self).bytes() + compact_enc_double_bits(bits),
            final(self).last_ids() == old(self).last_ids(),
            final(self).pending_field() == old(self).pending_field(),
    {
        write_u64(&mut self.out, bits);
        Ok(())
    }

    fn write_len_prefixed(&mut self, value: &[u8])
        ensures
            final(self).bytes() == old(self).bytes() + compact_enc_bytes(value@),
            final(self).last_ids() == old(self).last_ids(),
            final(self).pending_field() == old(self).pending_field(),
    {
        self.write_varint32(value.len() as i32);
        self.out.extend_from_slice(value);
        proof { assert(self.out@ =~= old(self).out@ + compact_enc_bytes(value@)); }
    }

    pub fn write_string(&mut self, value: &str) -> (r: Result<(), ProtocolError>)
        ensures
            r is Ok,
            final(self).bytes() == old(self).bytes() + compact_enc_string(value@),
            final(self).last_ids() == old(self).last_ids(),
            final(self).pending_field() == old(self).pending_field(),
    {
        self.write_len_prefixed(str_bytes(value));
        Ok(())
    }

    pub fn write_binary(&mut self, value: &[u8]) -> (r: Result<(), ProtocolError>)
        ensures
            r is Ok,
            final(self).bytes() == old(self).bytes() + compact_enc_bytes(value@),
            final(self).last_ids() == old(self).last_ids(),
            final(self).pending_field() == old(self).pending_field(),
    {
        self.write_len_prefixed(value);
        Ok(())
    }

    pub fn write_map_begin(&mut self, identifier: &MapBegin) -> (r: Result<(), ProtocolError>)
        ensures
            r is Ok,
            final(self).bytes() == old(self).bytes() + compact_enc_map_begin(*identifier),
            final(self).last_ids() == old(self).last_ids(),
            final(self).pending_field() == old(self).pending_field(),
    {
        if identifier.size == 0 {
            self.out.push(0);
            proof { assert(self.out@ =~= old(self).out@ + compact_enc_map_begin(*identifier)); }
        } else {
            self.write_varint32(identifier.size);
            let k = CompactType::from_ttype(identifier.key_type).to_u8();
            let v = CompactType::from_ttype(identifier.value_type).to_u8();
            proof {
                lemma_nibble_roundtrip(identifier.key_type);
                lemma_nibble_roundtrip(identifier.value_type);
            }
            self.out.push(k * 16 + v);
            proof { assert(self.out@ =~= old(self).out@ + compact_enc_map_begin(*identifier)); }
        }
        Ok(())
    }

    pub fn write_map_end(&mut self) -> (r: Result<(), ProtocolError>)
        ensures
            r is Ok,
            *final(self) == *old(self),
    {
        Ok(())
    }

    pub fn write_list_begin(&mut self, identifier: &ListBegin) -> (r: Result<(), ProtocolError>)
        ensures
            r is Ok,
            final(self).bytes() == old(self).bytes() + compact_enc_list_begin(identifier.element_type, identifier.size),
            final(self).last_ids() == old(self).last_ids(),
            final(self).pending_field() == old(self).pending_field(),
    {
        let nibble = CompactType::from_ttype(identifier.element_type).to_u8();
        proof { lemma_nibble_roundtrip(identifier.element_type); }
        if identifier.size <= 14 {
            self.out.push(((identifier.size as u8) << 4u8) | nibble);
            proof {
                assert(self.out@ =~= old(self).out@ + compact_enc_list_begin(identifier.element_type, identifier.size));
            }
        } else {
            self.out.push(0xf0 + nibble);
            self.write_varint32(identifier.size);
            proof {
                assert(self.out@ =~= old(self).out@ + compact_enc_list_begin(identifier.element_type, identifier.size));
            }
        }
        Ok(())
    }

    pub fn write_list_end(&mut self) -> (r: Result<(), ProtocolError>)
        ensures
            r is Ok,
            *final(self) == *old(self),
    {
        Ok(())
    }

    pub fn write_set_begin(&mut self, identifier: &SetBegin) -> (r: Result<(), ProtocolError>)
        ensures
            r is Ok,
            final(self).bytes() == old(self).bytes() + compact_enc_list_begin(identifier.element_type, identifier.size),
            final(self).last_ids() == old(self).last_ids(),
            final(self).pending_field() == old(self).pending_field(),
    {
        self.write_list_begin(&ListBegin { element_type: identifier.element_type, size: identifier.size })
    }

    pub fn write_set_end(&mut self) -> (r: Result<(), ProtocolError>)
        ensures
            r is Ok,
            *final(self) == *old(self),
    {
        Ok(())
    }
}

// ─── The reading and writing operations of every protocol ─────────────────────

/// A Compact read step that leaves the field state alone: on success the
/// value, with the bytes it took consumed; on failure the error, with the
/// `fail` bytes it took before failing consumed.
pub open spec fn compact_step<T>(r: Result<(T, int), ProtocolError>, fail: int, s: (Seq<u8>, Seq<i16>, Option<bool>)) -> ReadStep<T, (Seq<u8>, Seq<i16>, Option<bool>)> {
    match r {
        Ok((v, n)) => (Ok(v), (s.0.skip(n), s.1, s.2)),
        Err(e) => (Err(e), (s.0.skip(fail), s.1, s.2)),
    }
}

impl View for CompactProtocolReader {
    type V = (Seq<u8>, Seq<i16>, Option<bool>);

    open spec fn view(&self) -> (Seq<u8>, Seq<i16>, Option<bool>) {
        (self.rest(), self.last_ids(), self.pending_bool())
    }
}

impl TInputProtocol for CompactProtocolReader {
    open spec fn remaining(s: (Seq<u8>, Seq<i16>, Option<bool>)) -> nat {
        s.0.len()
    }

    open spec fn depth(s: (Seq<u8>, Seq<i16>, Option<bool>)) -> nat {
        s.1.len()
    }
    open spec fn spec_read_message_begin(s: (Seq<u8>, Seq<i16>, Option<bool>)) -> ReadStep<(Seq<char>, u8, i32), (Seq<u8>, Seq<i16>, Option<bool>)> {
        compact_step(compact_read_message_begin(s.0), cpt_fail_message_begin(s.0), s)
    }
    open spec fn spec_read_byte(s: (Seq<u8>, Seq<i16>, Option<bool>)) -> ReadStep<i8, (Seq<u8>, Seq<i16>, Option<bool>)> {
        compact_step(compact_read_byte(s.0), cpt_fail_all(s.0), s)
    }
    open spec fn spec_read_i16(s: (Seq<u8>, Seq<i16>, Option<bool>)) -> ReadStep<i16, (Seq<u8>, Seq<i16>, Option<bool>)> {
        compact_step(compact_read_i16(s.0), cpt_fail_varint(s.0, 5), s)
    }
    open spec fn spec_read_i32(s: (Seq<u8>, Seq<i16>, Option<bool>)) -> ReadStep<i32, (Seq<u8>, Seq<i16>, Option<bool>)> {
        compact_step(compact_read_varint32(s.0), cpt_fail_varint(s.0, 5), s)
    }
    open spec fn spec_read_i64(s: (Seq<u8>, Seq<i16>, Option<bool>)) -> ReadStep<i64, (Seq<u8>, Seq<i16>, Option<bool>)> {
        compact_step(compact_read_varint64(s.0), cpt_fail_varint(s.0, 10), s)
    }
    open spec fn spec_read_double_bits(s: (Seq<u8>, Seq<i16>, Option<bool>)) -> ReadStep<u64, (Seq<u8>, Seq<i16>, Option<bool>)> {
        compact_step(compact_read_double_bits(s.0), cpt_fail_all(s.0), s)
    }
    open spec fn spec_read_string(s: (Seq<u8>, Seq<i16>, Option<bool>)) -> ReadStep<Seq<char>, (Seq<u8>, Seq<i16>, Option<bool>)> {
        compact_step(compact_read_string(s.0), cpt_fail_string(s.0), s)
    }
    open spec fn spec_read_binary(s: (Seq<u8>, Seq<i16>, Option<bool>)) -> ReadStep<Seq<u8>, (Seq<u8>, Seq<i16>, Option<bool>)> {
        compact_step(compact_read_bytes(s.0), cpt_fail_bytes(s.0), s)
    }
    open spec fn spec_read_map_begin(s: (Seq<u8>, Seq<i16>, Option<bool>)) -> ReadStep<MapBegin, (Seq<u8>, Seq<i16>, Option<bool>)> {
        compact_step(compact_read_map_begin(s.0), cpt_fail_map_begin(s.0), s)
    }
    open spec fn spec_read_list_begin(s: (Seq<u8>, Seq<i16>, Option<bool>)) -> ReadStep<ListBegin, (Seq<u8>, Seq<i16>, Option<bool>)> {
        compact_step(compact_read_list_begin(s.0), cpt_fail_list_begin(s.0), s)
    }
    open spec fn spec_read_set_begin(s: (Seq<u8>, Seq<i16>, Option<bool>)) -> ReadStep<SetBegin, (Seq<u8>, Seq<i16>, Option<bool>)> {
        compact_step(compact_read_set_begin(s.0), cpt_fail_list_begin(s.0), s)
    }
    open spec fn spec_read_message_end(s: (Seq<u8>, Seq<i16>, Option<bool>)) -> ReadStep<(), (Seq<u8>, Seq<i16>, Option<bool>)> {
        (Ok(()), s)
    }
    open spec fn spec_read_field_end(s: (Seq<u8>, Seq<i16>, Option<bool>)) -> ReadStep<(), (Seq<u8>, Seq<i16>, Option<bool>)> {
        (Ok(()), s)
    }
    open spec fn spec_read_map_end(s: (Seq<u8>, Seq<i16>, Option<bool>)) -> ReadStep<(), (Seq<u8>, Seq<i16>, Option<bool>)> {
        (Ok(()), s)
    }
    open spec fn spec_read_list_end(s: (Seq<u8>, Seq<i16>, Option<bool>)) -> ReadStep<(), (Seq<u8>, Seq<i16>, Option<bool>)> {
        (Ok(()), s)
    }
    open spec fn spec_read_set_end(s: (Seq<u8>, Seq<i16>, Option<bool>)) -> ReadStep<(), (Seq<u8>, Seq<i16>, Option<bool>)> {
        (Ok(()), s)
    }
    open spec fn spec_read_struct_begin(s: (Seq<u8>, Seq<i16>, Option<bool>)) -> ReadStep<(), (Seq<u8>, Seq<i16>, Option<bool>)> {
        (Ok(()), (s.0, s.1.push(0), s.2))
    }

    open spec fn spec_read_struct_end(s: (Seq<u8>, Seq<i16>, Option<bool>)) -> ReadStep<(), (Seq<u8>, Seq<i16>, Option<bool>)> {
        (Ok(()), (s.0, if s.1.len() > 0 { s.1.drop_last() } else { s.1 }, s.2))
    }

    open spec fn spec_read_field_begin(s: (Seq<u8>, Seq<i16>, Option<bool>)) -> ReadStep<(TType, i16), (Seq<u8>, Seq<i16>, Option<bool>)> {
        match compact_read_field_begin(s.0, s.1.last()) {
            Ok(((t, id, flag), n)) => (
                Ok((t, id)),
                (
                    s.0.skip(n),
                    if t == TType::Stop { s.1 } else { s.1.update(s.1.len() - 1, id) },
                    if flag is Some { flag } else { s.2 },
                ),
            ),
            Err(e) => (Err(e), cpt_field_fail_state(s)),
        }
    }

    open spec fn spec_read_bool(s: (Seq<u8>, Seq<i16>, Option<bool>)) -> ReadStep<bool, (Seq<u8>, Seq<i16>, Option<bool>)> {
        match compact_read_bool(s.0, s.2) {
            Ok((v, n)) => (Ok(v), (s.0.skip(n), s.1, None)),
            Err(e) => (Err(e), s),
        }
    }
    fn read_message_begin(&mut self) -> (r: Result<MessageBegin, ProtocolError>) {
        CompactProtocolReader::read_message_begin(self)
    }
    fn read_byte(&mut self) -> (r: Result<i8, ProtocolError>) {
        CompactProtocolReader::read_byte(self)
    }
    fn read_i16(&mut self) -> (r: Result<i16, ProtocolError>) {
        CompactProtocolReader::read_i16(self)
    }
    fn read_i32(&mut self) -> (r: Result<i32, ProtocolError>) {
        CompactProtocolReader::read_i32(self)
    }
    fn read_i64(&mut self) -> (r: Result<i64, ProtocolError>) {
        CompactProtocolReader::read_i64(self)
    }
    fn read_double_bits(&mut self) -> (r: Result<u64, ProtocolError>) {
        CompactProtocolReader::read_double_bits(self)
    }
    fn read_string(&mut self) -> (r: Result<String, ProtocolError>) {
        CompactProtocolReader::read_string(self)
    }
    fn read_binary(&mut self) -> (r: Result<Vec<u8>, ProtocolError>) {
        CompactProtocolReader::read_binary(self)
    }
    fn read_map_begin(&mut self) -> (r: Result<MapBegin, ProtocolError>) {
        proof { super::varint::lemma_varint_scan_bound(self.rest(), 5); }
        CompactProtocolReader::read_map_begin(self)
    }
    fn read_list_begin(&mut self) -> (r: Result<ListBegin, ProtocolError>) {
        proof { super::varint::lemma_varint_scan_bound(self.rest().skip(1), 5); }
        CompactProtocolReader::read_list_begin(self)
    }
    fn read_set_begin(&mut self) -> (r: Result<SetBegin, ProtocolError>) {
        proof { super::varint::lemma_varint_scan_bound(self.rest().skip(1), 5); }
        CompactProtocolReader::read_set_begin(self)
    }
    fn read_field_begin(&mut self) -> (r: Result<FieldBegin, ProtocolError>) {
        CompactProtocolReader::read_field_begin(self)
    }
    fn read_bool(&mut self) -> (r: Result<bool, ProtocolError>) {
        CompactProtocolReader::read_bool(self)
    }
    fn read_message_end(&mut self) -> (r: Result<(), ProtocolError>) {
        let _ = CompactProtocolReader::read_message_end(self);
        Ok(())
    }
    fn read_field_end(&mut self) -> (r: Result<(), ProtocolError>) {
        let _ = CompactProtocolReader::read_field_end(self);
        Ok(())
    }
    fn read_map_end(&mut self) -> (r: Result<(), ProtocolError>) {
        let _ = CompactProtocolReader::read_map_end(self);
        Ok(())
    }
    fn read_list_end(&mut self) -> (r: Result<(), ProtocolError>) {
        let _ = CompactProtocolReader::read_list_end(self);
        Ok(())
    }
    fn read_set_end(&mut self) -> (r: Result<(), ProtocolError>) {
        let _ = CompactProtocolReader::read_set_end(self);
        Ok(())
    }
    fn read_struct_begin(&mut self) -> (r: Result<(), ProtocolError>) {
        let _ = CompactProtocolReader::read_struct_begin(self);
        Ok(())
    }
    fn read_struct_end(&mut self) -> (r: Result<(), ProtocolError>) {
        let _ = CompactProtocolReader::read_struct_end(self);
        Ok(())
    }
}

impl View for CompactProtocolWriter {
    type V = (Seq<u8>, Seq<i16>, Option<i16>);

    open spec fn view(&self) -> (Seq<u8>, Seq<i16>, Option<i16>) {
        (self.bytes(), self.last_ids(), self.pending_field())
    }
}

impl TOutputProtocol for CompactProtocolWriter {
    open spec fn depth(s: (Seq<u8>, Seq<i16>, Option<i16>)) -> nat {
        s.1.len()
    }
    open spec fn spec_write_message_begin(s: (Seq<u8>, Seq<i16>, Option<i16>), m: (Seq<char>, u8, i32)) -> WriteStep<(Seq<u8>, Seq<i16>, Option<i16>)> {
        (Ok(()), (s.0 + compact_enc_message_begin(m.0, m.1, m.2), s.1, s.2))
    }
    open spec fn spec_write_field_stop(s: (Seq<u8>, Seq<i16>, Option<i16>)) -> WriteStep<(Seq<u8>, Seq<i16>, Option<i16>)> {
        (Ok(()), (s.0 + seq![0u8], s.1, s.2))
    }
    open spec fn spec_write_byte(s: (Seq<u8>, Seq<i16>, Option<i16>), v: i8) -> WriteStep<(Seq<u8>, Seq<i16>, Option<i16>)> {
        (Ok(()), (s.0 + compact_enc_byte(v), s.1, s.2))
    }
    open spec fn spec_write_i16(s: (Seq<u8>, Seq<i16>, Option<i16>), v: i16) -> WriteStep<(Seq<u8>, Seq<i16>, Option<i16>)> {
        (Ok(()), (s.0 + compact_enc_varint32(v as i32), s.1, s.2))
    }
    open spec fn spec_write_i32(s: (Seq<u8>, Seq<i16>, Option<i16>), v: i32) -> WriteStep<(Seq<u8>, Seq<i16>, Option<i16>)> {
        (Ok(()), (s.0 + compact_enc_varint32(v), s.1, s.2))
    }
    open spec fn spec_write_i64(s: (Seq<u8>, Seq<i16>, Option<i16>), v: i64) -> WriteStep<(Seq<u8>, Seq<i16>, Option<i16>)> {
        (Ok(()), (s.0 + compact_enc_varint64(v), s.1, s.2))
    }
    open spec fn spec_write_double_bits(s: (Seq<u8>, Seq<i16>, Option<i16>), v: u64) -> WriteStep<(Seq<u8>, Seq<i16>, Option<i16>)> {
        (Ok(()), (s.0 + compact_enc_double_bits(v), s.1, s.2))
    }
    open spec fn spec_write_string(s: (Seq<u8>, Seq<i16>, Option<i16>), v: Seq<char>) -> WriteStep<(Seq<u8>, Seq<i16>, Option<i16>)> {
        (Ok(()), (s.0 + compact_enc_string(v), s.1, s.2))
    }
    open spec fn spec_write_binary(s: (Seq<u8>, Seq<i16>, Option<i16>), v: Seq<u8>) -> WriteStep<(Seq<u8>, Seq<i16>, Option<i16>)> {
        (Ok(()), (s.0 + compact_enc_bytes(v), s.1, s.2))
    }
    open spec fn spec_write_map_begin(s: (Seq<u8>, Seq<i16>, Option<i16>), m: MapBegin) -> WriteStep<(Seq<u8>, Seq<i16>, Option<i16>)> {
        (Ok(()), (s.0 + compact_enc_map_begin(m), s.1, s.2))
    }
    open spec fn spec_write_list_begin(s: (Seq<u8>, Seq<i16>, Option<i16>), l: ListBegin) -> WriteStep<(Seq<u8>, Seq<i16>, Option<i16>)> {
        (Ok(()), (s.0 + compact_enc_list_begin(l.element_type, l.size), s.1, s.2))
    }
    open spec fn spec_write_set_begin(s: (Seq<u8>, Seq<i16>, Option<i16>), l: SetBegin) -> WriteStep<(Seq<u8>, Seq<i16>, Option<i16>)> {
        (Ok(()), (s.0 + compact_enc_list_begin(l.element_type, l.size), s.1, s.2))
    }
    open spec fn spec_write_message_end(s: (Seq<u8>, Seq<i16>, Option<i16>)) -> WriteStep<(Seq<u8>, Seq<i16>, Option<i16>)> {
        (Ok(()), s)
    }
    open spec fn spec_write_field_end(s: (Seq<u8>, Seq<i16>, Option<i16>)) -> WriteStep<(Seq<u8>, Seq<i16>, Option<i16>)> {
        (Ok(()), s)
    }
    open spec fn spec_write_map_end(s: (Seq<u8>, Seq<i16>, Option<i16>)) -> WriteStep<(Seq<u8>, Seq<i16>, Option<i16>)> {
        (Ok(()), s)
    }
    open spec fn spec_write_list_end(s: (Seq<u8>, Seq<i16>, Option<i16>)) -> WriteStep<(Seq<u8>, Seq<i16>, Option<i16>)> {
        (Ok(()), s)
    }
    open spec fn spec_write_set_end(s: (Seq<u8>, Seq<i16>, Option<i16>)) -> WriteStep<(Seq<u8>, Seq<i16>, Option<i16>)> {
        (Ok(()), s)
    }
    open spec fn spec_write_struct_begin(s: (Seq<u8>, Seq<i16>, Option<i16>), name: Seq<char>) -> WriteStep<(Seq<u8>, Seq<i16>, Option<i16>)> {
        (Ok(()), (s.0, s.1.push(0), s.2))
    }

    open spec fn spec_write_struct_end(s: (Seq<u8>, Seq<i16>, Option<i16>)) -> WriteStep<(Seq<u8>, Seq<i16>, Option<i16>)> {
        (Ok(()), (s.0, if s.1.len() > 0 { s.1.drop_last() } else { s.1 }, s.2))
    }

    open spec fn spec_write_field_begin(s: (Seq<u8>, Seq<i16>, Option<i16>), t: TType, id: i16) -> WriteStep<(Seq<u8>, Seq<i16>, Option<i16>)> {
        if t == TType::Bool {
            (Ok(()), (s.0, s.1, Some(id)))
        } else {
            (
                Ok(()),
                (
                    s.0 + compact_enc_field_header(nibble_of_ttype(t), id, s.1.last()),
                    s.1.update(s.1.len() - 1, id),
                    s.2,
                ),
            )
        }
    }

    open spec fn spec_write_bool(s: (Seq<u8>, Seq<i16>, Option<i16>), v: bool) -> WriteStep<(Seq<u8>, Seq<i16>, Option<i16>)> {
        match s.2 {
            Some(id) => (
                Ok(()),
                (
                    s.0 + compact_enc_field_header(if v { 1u8 } else { 2u8 }, id, s.1.last()),
                    s.1.update(s.1.len() - 1, id),
                    None,
                ),
            ),
            None => (Ok(()), (s.0 + compact_enc_standalone_bool(v), s.1, None)),
        }
    }
    fn write_message_begin(&mut self, identifier: &MessageBegin) -> (r: Result<(), ProtocolError>) {
        let _ = CompactProtocolWriter::write_message_begin(self, identifier);
        Ok(())
    }
    fn write_field_stop(&mut self) -> (r: Result<(), ProtocolError>) {
        let _ = CompactProtocolWriter::write_field_stop(self);
        Ok(())
    }
    fn write_byte(&mut self, value: i8) -> (r: Result<(), ProtocolError>) {
        let _ = CompactProtocolWriter::write_byte(self, value);
        Ok(())
    }
    fn write_i16(&mut self, value: i16) -> (r: Result<(), ProtocolError>) {
        let _ = CompactProtocolWriter::write_i16(self, value);
        Ok(())
    }
    fn write_i32(&mut self, value: i32) -> (r: Result<(), ProtocolError>) {
        let _ = CompactProtocolWriter::write_i32(self, value);
        Ok(())
    }
    fn write_i64(&mut self, value: i64) -> (r: Result<(), ProtocolError>) {
        let _ = CompactProtocolWriter::write_i64(self, value);
        Ok(())
    }
    fn write_double_bits(&mut self, bits: u64) -> (r: Result<(), ProtocolError>) {
        let _ = CompactProtocolWriter::write_double_bits(self, bits);
        Ok(())
    }
    fn write_string(&mut self, value: &str) -> (r: Result<(), ProtocolError>) {
        let _ = CompactProtocolWriter::write_string(self, value);
        Ok(())
    }
    fn write_binary(&mut self, value: &[u8]) -> (r: Result<(), ProtocolError>) {
        let _ = CompactProtocolWriter::write_binary(self, value);
        Ok(())
    }
    fn write_map_begin(&mut self, identifier: &MapBegin) -> (r: Result<(), ProtocolError>) {
        let _ = CompactProtocolWriter::write_map_begin(self, identifier);
        Ok(())
    }
    fn write_list_begin(&mut self, identifier: &ListBegin) -> (r: Result<(), ProtocolError>) {
        let _ = CompactProtocolWriter::write_list_begin(self, identifier);
        Ok(())
    }
    fn write_set_begin(&mut self, identifier: &SetBegin) -> (r: Result<(), ProtocolError>) {
        let _ = CompactProtocolWriter::write_set_begin(self, identifier);
        Ok(())
    }
    fn write_field_begin(&mut self, field: &FieldBegin) -> (r: Result<(), ProtocolError>) {
        let _ = CompactProtocolWriter::write_field_begin(self, field);
        Ok(())
    }
    fn write_bool(&mut self, value: bool) -> (r: Result<(), ProtocolError>) {
        let _ = CompactProtocolWriter::write_bool(self, value);
        Ok(())
    }
    fn write_message_end(&mut self) -> (r: Result<(), ProtocolError>) {
        let _ = CompactProtocolWriter::write_message_end(self);
        Ok(())
    }
    fn write_field_end(&mut self) -> (r: Result<(), ProtocolError>) {
        let _ = CompactProtocolWriter::write_field_end(self);
        Ok(())
    }
    fn write_map_end(&mut self) -> (r: Result<(), ProtocolError>) {
        let _ = CompactProtocolWriter::write_map_end(self);
        Ok(())
    }
    fn write_list_end(&mut self) -> (r: Result<(), ProtocolError>) {
        let _ = CompactProtocolWriter::write_list_end(self);
        Ok(())
    }
    fn write_set_end(&mut self) -> (r: Result<(), ProtocolError>) {
        let _ = CompactProtocolWriter::write_set_end(self);
        Ok(())
    }
    fn write_struct_begin(&mut self, name: &str) -> (r: Result<(), ProtocolError>) {
        let _ = CompactProtocolWriter::write_struct_begin(self, name);
        Ok(())
    }

    fn write_struct_end(&mut self) -> (r: Result<(), ProtocolError>) {
        let _ = CompactProtocolWriter::write_struct_end(self);
        Ok(())
    }
}


/// A nested struct keeps its own field-id state: opening it starts a fresh
/// last id of 0, and closing it gives back the state of the struct around
/// it, whatever fields the nested struct wrote or read. So the field after a
/// nested struct is encoded, and decoded, against the id of the field before it.
pub proof fn lemma_compact_nested_struct_restores_ids(
    outer: Seq<i16>,
    inner_last: i16,
    bytes: Seq<u8>,
    pending_field: Option<i16>,
    pending_bool: Option<bool>,
    name: Seq<char>,
)
    ensures
        <CompactProtocolWriter as TOutputProtocol>::spec_write_struct_begin((bytes, outer, pending_field), name).1.1
            == outer.push(0),
        <CompactProtocolWriter as TOutputProtocol>::spec_write_struct_end((bytes, outer.push(inner_last), pending_field)).1.1
            == outer,
        <CompactProtocolReader as TInputProtocol>::spec_read_struct_begin((bytes, outer, pending_bool)).1.1
            == outer.push(0),
        <CompactProtocolReader as TInputProtocol>::spec_read_struct_end((bytes, outer.push(inner_last), pending_bool)).1.1
            == outer,
{
    assert(outer.push(inner_last).drop_last() =~= outer);
}

} // verus!
