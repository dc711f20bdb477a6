//! The Thrift Binary protocol: fixed-width big-endian integers, length-prefixed
//! strings, and one-byte type tags.

use super::types::{
    eof_error, invalid_data_error, read_outcome, ttype_code, ttype_of_code, FieldBegin,
    IoErrorKind, ListBegin, MapBegin, MessageBegin, ProtocolError, SetBegin, TType,
};
use super::wire::{
    be_u16_bytes, be_u16_value, be_u32_bytes, be_u32_value, be_u64_bytes, be_u64_value,
    ByteReader, lemma_be_u16_roundtrip, lemma_be_u32_roundtrip, lemma_be_u64_roundtrip,
    lemma_signed_casts, str_bytes, string_from_utf8, write_u16,
    write_u32, write_u64,
};
use super::traits::{pres, ReadStep, WriteStep, TInputProtocol, TOutputProtocol};
use vstd::prelude::*;
use vstd::utf8::{decode_utf8, encode_utf8, valid_utf8, encode_utf8_decode_utf8, encode_utf8_valid_utf8};

verus! {

pub const MESSAGE_TYPE_CALL: u8 = 1;
pub const MESSAGE_TYPE_REPLY: u8 = 2;
pub const MESSAGE_TYPE_EXCEPTION: u8 = 3;
pub const MESSAGE_TYPE_ONEWAY: u8 = 4;

/// The version word of a strict Binary message header, without its type byte.
pub const THRIFT_VERSION_1: u32 = 0x80010000;

// ─── What a reader accepts: each read on a remaining input `s` ───────────────

pub open spec fn bin_read_bool(s: Seq<u8>) -> Result<(bool, int), ProtocolError> {
    if s.len() >= 1 { Ok((s[0] != 0, 1)) } else { Err(eof_error()) }
}

pub open spec fn bin_read_byte(s: Seq<u8>) -> Result<(i8, int), ProtocolError> {
    if s.len() >= 1 { Ok((s[0] as i8, 1)) } else { Err(eof_error()) }
}

pub open spec fn bin_read_i16(s: Seq<u8>) -> Result<(i16, int), ProtocolError> {
    if s.len() >= 2 { Ok((be_u16_value(s) as i16, 2)) } else { Err(eof_error()) }
}

pub open spec fn bin_read_i32(s: Seq<u8>) -> Result<(i32, int), ProtocolError> {
    if s.len() >= 4 { Ok((be_u32_value(s) as i32, 4)) } else { Err(eof_error()) }
}

pub open spec fn bin_read_i64(s: Seq<u8>) -> Result<(i64, int), ProtocolError> {
    if s.len() >= 8 { Ok((be_u64_value(s) as i64, 8)) } else { Err(eof_error()) }
}

/// A double is read as the eight bytes of its IEEE-754 bit pattern.
pub open spec fn bin_read_double_bits(s: Seq<u8>) -> Result<(u64, int), ProtocolError> {
    if s.len() >= 8 { Ok((be_u64_value(s), 8)) } else { Err(eof_error()) }
}

/// A signed 32-bit length, then that many bytes. A negative length, or one
/// longer than what remains, is an early end of input.
pub open spec fn bin_read_bytes(s: Seq<u8>) -> Result<(Seq<u8>, int), ProtocolError> {
    if s.len() < 4 {
        Err(eof_error())
    } else {
        let len = be_u32_value(s) as i32;
        if len < 0 || len > s.len() - 4 {
            Err(eof_error())
        } else {
            Ok((s.subrange(4, 4 + len), 4 + len))
        }
    }
}

/// Length-prefixed bytes that must be valid UTF-8.
pub open spec fn bin_read_string(s: Seq<u8>) -> Result<(Seq<char>, int), ProtocolError> {
    match bin_read_bytes(s) {
        Ok((b, n)) => if valid_utf8(b) { Ok((decode_utf8(b), n)) } else { Err(invalid_data_error()) },
        Err(e) => Err(e),
    }
}

/// Version word (whose upper half must be `0x8001` and whose low byte is the
/// message type), name, sequence id.
pub open spec fn bin_read_message_begin(s: Seq<u8>) -> Result<((Seq<char>, u8, i32), int), ProtocolError> {
    if s.len() < 4 {
        Err(eof_error())
    } else {
        let word = be_u32_value(s);
        if word & 0xffff0000u32 != THRIFT_VERSION_1 {
            Err(invalid_data_error())
        } else {
            match bin_read_string(s.skip(4)) {
                Err(e) => Err(e),
                Ok((name, n)) => match bin_read_i32(s.skip(4 + n)) {
                    Err(e) => Err(e),
                    Ok((seq_id, m)) => Ok(((name, (word & 0xffu32) as u8, seq_id), 4 + n + m)),
                },
            }
        }
    }
}

/// A type byte, then, unless it is `Stop`, a 16-bit field id.
pub open spec fn bin_read_field_begin(s: Seq<u8>) -> Result<((TType, i16), int), ProtocolError> {
    if s.len() < 1 {
        Err(eof_error())
    } else {
        match ttype_of_code(s[0]) {
            None => Err(ProtocolError::InvalidType(s[0])),
            Some(t) => if t == TType::Stop {
                Ok(((t, 0i16), 1))
            } else {
                match bin_read_i16(s.skip(1)) {
                    Err(e) => Err(e),
                    Ok((id, n)) => Ok(((t, id), 1 + n)),
                }
            },
        }
    }
}

/// A type byte that must name a type.
pub open spec fn bin_read_type(s: Seq<u8>) -> Result<(TType, int), ProtocolError> {
    if s.len() < 1 {
        Err(eof_error())
    } else {
        match ttype_of_code(s[0]) {
            None => Err(ProtocolError::InvalidFieldType),
            Some(t) => Ok((t, 1)),
        }
    }
}

pub open spec fn bin_read_map_begin(s: Seq<u8>) -> Result<(MapBegin, int), ProtocolError> {
    match bin_read_type(s) {
        Err(e) => Err(e),
        Ok((k, _)) => match bin_read_type(s.skip(1)) {
            Err(e) => Err(e),
            Ok((v, _)) => match bin_read_i32(s.skip(2)) {
                Err(e) => Err(e),
                Ok((size, _)) => Ok((MapBegin { key_type: k, value_type: v, size }, 6)),
            },
        },
    }
}

pub open spec fn bin_read_list_begin(s: Seq<u8>) -> Result<(ListBegin, int), ProtocolError> {
    match bin_read_type(s) {
        Err(e) => Err(e),
        Ok((t, _)) => match bin_read_i32(s.skip(1)) {
            Err(e) => Err(e),
            Ok((size, _)) => Ok((ListBegin { element_type: t, size }, 5)),
        },
    }
}

pub open spec fn bin_read_set_begin(s: Seq<u8>) -> Result<(SetBegin, int), ProtocolError> {
    match bin_read_list_begin(s) {
        Err(e) => Err(e),
        Ok((l, n)) => Ok((SetBegin { element_type: l.element_type, size: l.size }, n)),
    }
}

/// How much of `s` a failed read takes. A read that runs out of input takes
/// all that is left; a read that meets malformed input takes what it read up
/// to and with the bytes found malformed.
pub open spec fn bin_fail_all(s: Seq<u8>) -> int {
    s.len() as int
}

/// A failed read of length-prefixed UTF-8 text: the prefixed bytes when they
/// are there but not valid UTF-8.
pub open spec fn bin_fail_string(s: Seq<u8>) -> int {
    match bin_read_bytes(s) {
        Ok((_, n)) => n,
        Err(_) => s.len() as int,
    }
}

/// A failed read of a message header: the version word when it is wrong, the
/// version word and the name when the name is not valid UTF-8.
pub open spec fn bin_fail_message_begin(s: Seq<u8>) -> int {
    if s.len() < 4 {
        s.len() as int
    } else if be_u32_value(s) & 0xffff0000u32 != THRIFT_VERSION_1 {
        4
    } else {
        match bin_read_string(s.skip(4)) {
            Err(_) => 4 + bin_fail_string(s.skip(4)),
            Ok(_) => s.len() as int,
        }
    }
}

/// A failed read of a field header, list header or set header: the type byte
/// when it names no type.
pub open spec fn bin_fail_tagged(s: Seq<u8>) -> int {
    if s.len() >= 1 && ttype_of_code(s[0]) is None { 1 } else { s.len() as int }
}

/// A failed read of a map header: the type bytes up to the first that names
/// no type.
pub open spec fn bin_fail_map_begin(s: Seq<u8>) -> int {
    if s.len() >= 1 && ttype_of_code(s[0]) is None {
        1
    } else if s.len() >= 2 && ttype_of_code(s[1]) is None {
        2
    } else {
        s.len() as int
    }
}

// ─── What a writer emits ──────────────────────────────────────────────────────

pub open spec fn bin_enc_bool(v: bool) -> Seq<u8> {
    seq![if v { 1u8 } else { 0u8 }]
}

pub open spec fn bin_enc_byte(v: i8) -> Seq<u8> {
    seq![v as u8]
}

pub open spec fn bin_enc_i16(v: i16) -> Seq<u8> {
    be_u16_bytes(v as u16)
}

pub open spec fn bin_enc_i32(v: i32) -> Seq<u8> {
    be_u32_bytes(v as u32)
}

pub open spec fn bin_enc_i64(v: i64) -> Seq<u8> {
    be_u64_bytes(v as u64)
}

pub open spec fn bin_enc_double_bits(v: u64) -> Seq<u8> {
    be_u64_bytes(v)
}

/// The length, truncated to 32 bits as the wire field holds it, then the bytes.
pub open spec fn bin_enc_bytes(b: Seq<u8>) -> Seq<u8> {
    be_u32_bytes(b.len() as u32) + b
}

pub open spec fn bin_enc_string(s: Seq<char>) -> Seq<u8> {
    bin_enc_bytes(encode_utf8(s))
}

pub open spec fn bin_enc_message_begin(name: Seq<char>, message_type: u8, seq_id: i32) -> Seq<u8> {
    be_u32_bytes(THRIFT_VERSION_1 | (message_type as u32)) + bin_enc_string(name) + bin_enc_i32(seq_id)
}

pub open spec fn bin_enc_field_begin(t: TType, id: i16) -> Seq<u8> {
    if t == TType::Stop { seq![ttype_code(t)] } else { seq![ttype_code(t)] + bin_enc_i16(id) }
}

pub open spec fn bin_enc_field_stop() -> Seq<u8> {
    seq![0u8]
}

pub open spec fn bin_enc_map_begin(m: MapBegin) -> Seq<u8> {
    seq![ttype_code(m.key_type), ttype_code(m.value_type)] + bin_enc_i32(m.size)
}

pub open spec fn bin_enc_list_begin(l: ListBegin) -> Seq<u8> {
    seq![ttype_code(l.element_type)] + bin_enc_i32(l.size)
}

pub open spec fn bin_enc_set_begin(l: SetBegin) -> Seq<u8> {
    seq![ttype_code(l.element_type)] + bin_enc_i32(l.size)
}

// ─── What one write gives back to one read ────────────────────────────────────

/// A bool written is read back; what follows it is left in place.
pub proof fn lemma_bin_bool_roundtrip(v: bool, rest: Seq<u8>)
    ensures
        bin_read_bool(bin_enc_bool(v) + rest) == Ok::<(bool, int), ProtocolError>((v, 1)),
        (bin_enc_bool(v) + rest).skip(1) == rest,
{
    assert((bin_enc_bool(v) + rest).skip(1) =~= rest);
}

/// A bool goes on the wire as the one byte that a byte write of 1 (true) or
/// 0 (false) puts there: `true` is [1] and `false` is [0].
pub proof fn lemma_bin_bool_written_as_byte(s: (Seq<u8>, nat), v: bool)
    ensures
        <BinaryProtocolWriter as TOutputProtocol>::spec_write_bool(s, v)
            == <BinaryProtocolWriter as TOutputProtocol>::spec_write_byte(s, if v { 1i8 } else { 0i8 }),
        bin_enc_bool(true) == seq![1u8],
        bin_enc_bool(false) == seq![0u8],
{
    assert(bin_enc_bool(v) =~= bin_enc_byte(if v { 1i8 } else { 0i8 }));
    assert(bin_enc_bool(true) =~= seq![1u8]);
    assert(bin_enc_bool(false) =~= seq![0u8]);
}

/// Reading a bool reads one byte as a byte read does, with the same outcome
/// on the input, and gives `true` exactly when that byte is not 0.
pub proof fn lemma_bin_bool_read_as_byte(s: (Seq<u8>, nat))
    ensures
        ({
            let (rb, tb) = <BinaryProtocolReader as TInputProtocol>::spec_read_bool(s);
            let (rx, tx) = <BinaryProtocolReader as TInputProtocol>::spec_read_byte(s);
            &&& tb == tx
            &&& rx matches Ok(x) ==> rb == Ok::<bool, ProtocolError>(x != 0)
            &&& rx matches Err(e) ==> rb == Err::<bool, ProtocolError>(e)
        }),
        forall|x: u8, rest: Seq<u8>| #![trigger bin_read_bool(seq![x] + rest)]
            bin_read_bool(seq![x] + rest) == Ok::<(bool, int), ProtocolError>((x != 0, 1)),
{
    if s.0.len() >= 1 {
        let x = s.0[0];
        assert((x as i8) as u8 == x) by (bit_vector);
        assert(((x as i8) != 0) == (x != 0)) by (bit_vector);
    }
    assert forall|x: u8, rest: Seq<u8>| #![trigger bin_read_bool(seq![x] + rest)]
        bin_read_bool(seq![x] + rest) == Ok::<(bool, int), ProtocolError>((x != 0, 1)) by {
        assert((seq![x] + rest)[0] == x);
    }
}

/// The Binary type codes: the byte that stands for each type in a field,
/// list, set or map header.
pub proof fn lemma_bin_type_codes()
    ensures
        ttype_code(TType::Stop) == 0,
        ttype_code(TType::Void) == 1,
        ttype_code(TType::Bool) == 2,
        ttype_code(TType::Byte) == 3,
        ttype_code(TType::Double) == 4,
        ttype_code(TType::I16) == 6,
        ttype_code(TType::I32) == 8,
        ttype_code(TType::I64) == 10,
        ttype_code(TType::String) == 11,
        ttype_code(TType::Struct) == 12,
        ttype_code(TType::MapT) == 13,
        ttype_code(TType::SetT) == 14,
        ttype_code(TType::List) == 15,
        forall|b: u8| #![trigger ttype_of_code(b)]
            ttype_of_code(b) matches Some(t) ==> ttype_code(t) == b,
{
}

/// The layout of Binary headers: a message begins with the bytes 0x80 0x01
/// 0x00 and its type; a map header is the key type's code, the value type's
/// code, then the size as a big-endian i32; a list or set header is the
/// element type's code then the size; a field header is the type's code then
/// the id as a big-endian i16, `Stop` standing alone. Read back, the first
/// byte of a map header gives the key type and the second the value type.
pub proof fn lemma_bin_header_layout(
    name: Seq<char>,
    message_type: u8,
    seq_id: i32,
    m: MapBegin,
    l: ListBegin,
    t: TType,
    id: i16,
    k: u8,
    v: u8,
    rest: Seq<u8>,
)
    ensures
        bin_enc_message_begin(name, message_type, seq_id).subrange(0, 4)
            == seq![0x80u8, 0x01u8, 0x00u8, message_type],
        bin_enc_map_begin(m).len() == 6,
        bin_enc_map_begin(m)[0] == ttype_code(m.key_type),
        bin_enc_map_begin(m)[1] == ttype_code(m.value_type),
        bin_enc_map_begin(m).skip(2) == bin_enc_i32(m.size),
        bin_enc_list_begin(l).len() == 5,
        bin_enc_list_begin(l)[0] == ttype_code(l.element_type),
        bin_enc_list_begin(l).skip(1) == bin_enc_i32(l.size),
        t == TType::Stop ==> bin_enc_field_begin(t, id) == seq![0u8],
        t != TType::Stop ==> bin_enc_field_begin(t, id) == seq![ttype_code(t)] + bin_enc_i16(id),
        ({
            let s = seq![k, v] + rest;
            ttype_of_code(k) is Some && ttype_of_code(v) is Some && rest.len() >= 4
                ==> bin_read_map_begin(s) == Ok::<(MapBegin, int), ProtocolError>((
                    MapBegin {
                        key_type: ttype_of_code(k)->Some_0,
                        value_type: ttype_of_code(v)->Some_0,
                        size: be_u32_value(rest) as i32,
                    },
                    6,
                ))
        }),
{
    let w = THRIFT_VERSION_1 | (message_type as u32);
    assert(((w >> 24u32) as u8) == 0x80u8 && ((w >> 16u32) as u8) == 0x01u8 && ((w >> 8u32) as u8) == 0x00u8
        && (w as u8) == message_type) by (bit_vector)
        requires w == 0x80010000u32 | (message_type as u32);
    assert(bin_enc_message_begin(name, message_type, seq_id).subrange(0, 4) =~= seq![0x80u8, 0x01u8, 0x00u8, message_type]);
    assert(bin_enc_map_begin(m).skip(2) =~= bin_enc_i32(m.size));
    assert(bin_enc_list_begin(l).skip(1) =~= bin_enc_i32(l.size));
    let s = seq![k, v] + rest;
    assert(s.skip(1)[0] == v);
    assert(s.skip(2) =~= rest);
}

/// A byte written is read back; what follows it is left in place.
pub proof fn lemma_bin_byte_roundtrip(v: i8, rest: Seq<u8>)
    ensures
        bin_read_byte(bin_enc_byte(v) + rest) == Ok::<(i8, int), ProtocolError>((v, 1)),
        (bin_enc_byte(v) + rest).skip(1) == rest,
{
    assert((v as u8) as i8 == v) by (bit_vector);
    assert((bin_enc_byte(v) + rest).skip(1) =~= rest);
}

/// An i16 written is read back; what follows it is left in place.
pub proof fn lemma_bin_i16_roundtrip(v: i16, rest: Seq<u8>)
    ensures
        bin_read_i16(bin_enc_i16(v) + rest) == Ok::<(i16, int), ProtocolError>((v, 2)),
        (bin_enc_i16(v) + rest).skip(2) == rest,
{
    lemma_be_u16_roundtrip(v as u16, rest);
    lemma_signed_casts(v, 0, 0);
    assert((bin_enc_i16(v) + rest).skip(2) =~= rest);
}

/// An i32 written is read back; what follows it is left in place.
pub proof fn lemma_bin_i32_roundtrip(v: i32, rest: Seq<u8>)
    ensures
        bin_read_i32(bin_enc_i32(v) + rest) == Ok::<(i32, int), ProtocolError>((v, 4)),
        (bin_enc_i32(v) + rest).skip(4) == rest,
{
    lemma_be_u32_roundtrip(v as u32, rest);
    lemma_signed_casts(0, v, 0);
    assert((bin_enc_i32(v) + rest).skip(4) =~= rest);
}

/// An i64 written is read back; what follows it is left in place.
pub proof fn lemma_bin_i64_roundtrip(v: i64, rest: Seq<u8>)
    ensures
        bin_read_i64(bin_enc_i64(v) + rest) == Ok::<(i64, int), ProtocolError>((v, 8)),
        (bin_enc_i64(v) + rest).skip(8) == rest,
{
    lemma_be_u64_roundtrip(v as u64, rest);
    lemma_signed_casts(0, 0, v);
    assert((bin_enc_i64(v) + rest).skip(8) =~= rest);
}

/// The bits of a double written are read back; what follows is left in place.
pub proof fn lemma_bin_double_bits_roundtrip(v: u64, rest: Seq<u8>)
    ensures
        bin_read_double_bits(bin_enc_double_bits(v) + rest) == Ok::<(u64, int), ProtocolError>((v, 8)),
        (bin_enc_double_bits(v) + rest).skip(8) == rest,
{
    lemma_be_u64_roundtrip(v, rest);
    assert((bin_enc_double_bits(v) + rest).skip(8) =~= rest);
}

/// Bytes written are read back, when their length fits the signed 32-bit
/// length field; what follows them is left in place.
pub proof fn lemma_bin_bytes_roundtrip(b: Seq<u8>, rest: Seq<u8>)
    requires
        b.len() <= i32::MAX,
    ensures
        bin_read_bytes(bin_enc_bytes(b) + rest) == Ok::<(Seq<u8>, int), ProtocolError>((b, 4 + b.len() as int)),
        (bin_enc_bytes(b) + rest).skip(4 + b.len() as int) == rest,
{
    let s = bin_enc_bytes(b) + rest;
    lemma_be_u32_roundtrip(b.len() as u32, b + rest);
    assert(s =~= be_u32_bytes(b.len() as u32) + (b + rest));
    let l = b.len() as u32;
    assert(l <= 0x7fffffffu32 ==> (l as i32) as int == l as int) by (bit_vector);
    assert(s.subrange(4, 4 + b.len() as int) =~= b);
    assert(s.skip(4 + b.len() as int) =~= rest);
}

/// Text written is read back, when its UTF-8 form fits the signed 32-bit
/// length field; what follows it is left in place.
pub proof fn lemma_bin_string_roundtrip(t: Seq<char>, rest: Seq<u8>)
    requires
        encode_utf8(t).len() <= i32::MAX,
    ensures
        bin_read_string(bin_enc_string(t) + rest) == Ok::<(Seq<char>, int), ProtocolError>(
            (t, 4 + encode_utf8(t).len() as int),
        ),
        (bin_enc_string(t) + rest).skip(4 + encode_utf8(t).len() as int) == rest,
{
    lemma_bin_bytes_roundtrip(encode_utf8(t), rest);
    encode_utf8_valid_utf8(t);
    encode_utf8_decode_utf8(t);
}

/// A message header written is read back, when the name's UTF-8 form fits the
/// signed 32-bit length field; what follows it is left in place.
pub proof fn lemma_bin_message_begin_roundtrip(name: Seq<char>, message_type: u8, seq_id: i32, rest: Seq<u8>)
    requires
        encode_utf8(name).len() <= i32::MAX,
    ensures
        bin_read_message_begin(bin_enc_message_begin(name, message_type, seq_id) + rest)
            == Ok::<((Seq<char>, u8, i32), int), ProtocolError>(
            ((name, message_type, seq_id), 12 + encode_utf8(name).len() as int),
        ),
        (bin_enc_message_begin(name, message_type, seq_id) + rest).skip(12 + encode_utf8(name).len() as int)
            == rest,
{
    let word = THRIFT_VERSION_1 | (message_type as u32);
    let tail = bin_enc_string(name) + bin_enc_i32(seq_id) + rest;
    let s = bin_enc_message_begin(name, message_type, seq_id) + rest;
    assert(s =~= be_u32_bytes(word) + tail);
    lemma_be_u32_roundtrip(word, tail);
    assert(word & 0xffff0000u32 == 0x80010000u32 && (word & 0xffu32) as u8 == message_type) by (bit_vector)
        requires word == 0x80010000u32 | (message_type as u32);
    assert(s.skip(4) =~= tail);
    lemma_bin_string_roundtrip(name, bin_enc_i32(seq_id) + rest);
    assert(tail =~= bin_enc_string(name) + (bin_enc_i32(seq_id) + rest));
    let n = 4 + encode_utf8(name).len() as int;
    assert(s.skip(4 + n) =~= bin_enc_i32(seq_id) + rest);
    lemma_bin_i32_roundtrip(seq_id, rest);
    assert(s.skip(12 + encode_utf8(name).len() as int) =~= rest);
}

/// A field header written is read back: its type, and its id unless the type
/// is `Stop`, whose id reads as 0; what follows it is left in place.
pub proof fn lemma_bin_field_begin_roundtrip(t: TType, id: i16, rest: Seq<u8>)
    ensures
        t == TType::Stop ==> bin_read_field_begin(bin_enc_field_begin(t, id) + rest)
            == Ok::<((TType, i16), int), ProtocolError>(((t, 0i16), 1))
            && (bin_enc_field_begin(t, id) + rest).skip(1) == rest,
        t != TType::Stop ==> bin_read_field_begin(bin_enc_field_begin(t, id) + rest)
            == Ok::<((TType, i16), int), ProtocolError>(((t, id), 3))
            && (bin_enc_field_begin(t, id) + rest).skip(3) == rest,
{
    let s = bin_enc_field_begin(t, id) + rest;
    crate::protocol::types::lemma_ttype_code_roundtrip(t);
    if t == TType::Stop {
        assert(s.skip(1) =~= rest);
    } else {
        assert(s.skip(1) =~= bin_enc_i16(id) + rest);
        lemma_bin_i16_roundtrip(id, rest);
        assert(s.skip(3) =~= rest);
    }
}

/// The field-stop marker reads as a `Stop` field header.
pub proof fn lemma_bin_field_stop_reads_stop(rest: Seq<u8>)
    ensures
        bin_read_field_begin(bin_enc_field_stop() + rest)
            == Ok::<((TType, i16), int), ProtocolError>(((TType::Stop, 0i16), 1)),
        (bin_enc_field_stop() + rest).skip(1) == rest,
{
    assert((bin_enc_field_stop() + rest).skip(1) =~= rest);
}

/// A map header written is read back; what follows it is left in place.
pub proof fn lemma_bin_map_begin_roundtrip(m: MapBegin, rest: Seq<u8>)
    ensures
        bin_read_map_begin(bin_enc_map_begin(m) + rest) == Ok::<(MapBegin, int), ProtocolError>((m, 6)),
        (bin_enc_map_begin(m) + rest).skip(6) == rest,
{
    let s = bin_enc_map_begin(m) + rest;
    crate::protocol::types::lemma_ttype_code_roundtrip(m.key_type);
    crate::protocol::types::lemma_ttype_code_roundtrip(m.value_type);
    assert(s.skip(1)[0] == ttype_code(m.value_type));
    assert(s.skip(2) =~= bin_enc_i32(m.size) + rest);
    lemma_bin_i32_roundtrip(m.size, rest);
    assert(s.skip(6) =~= rest);
}

/// A list header written is read back; what follows it is left in place.
pub proof fn lemma_bin_list_begin_roundtrip(l: ListBegin, rest: Seq<u8>)
    ensures
        bin_read_list_begin(bin_enc_list_begin(l) + rest) == Ok::<(ListBegin, int), ProtocolError>((l, 5)),
        (bin_enc_list_begin(l) + rest).skip(5) == rest,
{
    let s = bin_enc_list_begin(l) + rest;
    crate::protocol::types::lemma_ttype_code_roundtrip(l.element_type);
    assert(s.skip(1) =~= bin_enc_i32(l.size) + rest);
    lemma_bin_i32_roundtrip(l.size, rest);
    assert(s.skip(5) =~= rest);
}

/// A set header written is read back; what follows it is left in place.
pub proof fn lemma_bin_set_begin_roundtrip(l: SetBegin, rest: Seq<u8>)
    ensures
        bin_read_set_begin(bin_enc_set_begin(l) + rest) == Ok::<(SetBegin, int), ProtocolError>((l, 5)),
        (bin_enc_set_begin(l) + rest).skip(5) == rest,
{
    let as_list = ListBegin { element_type: l.element_type, size: l.size };
    assert(bin_enc_set_begin(l) =~= bin_enc_list_begin(as_list));
    lemma_bin_list_begin_roundtrip(as_list, rest);
}

// ─── Reader ───────────────────────────────────────────────────────────────────

/// Reads Binary-protocol values from a byte buffer.
pub struct BinaryProtocolReader {
    input: ByteReader,
    nesting: Ghost<nat>,
}

impl BinaryProtocolReader {
    /// The bytes not read yet.
    pub closed spec fn rest(self) -> Seq<u8> {
        self.input.rest()
    }

    /// How many structs are open, counting the outermost level as one.
    pub closed spec fn nesting(self) -> nat {
        self.nesting@
    }

    pub fn new(data: Vec<u8>) -> (r: Self)
        ensures
            r.rest() == data@,
            r.nesting() == 1,
            r@ == (data@, 1nat),
    {
        BinaryProtocolReader { input: ByteReader::new(data), nesting: Ghost(1) }
    }

    /// The length-prefixed bytes `at` bytes ahead, with the size of the whole.
    fn peek_len_prefixed(&self, at: usize) -> (r: Result<(Vec<u8>, usize), ProtocolError>)
        requires
            at <= self.rest().len(),
        ensures
            match bin_read_bytes(self.rest().skip(at as int)) {
                Ok((b, n)) => r matches Ok((v, m)) && v@ == b && m == n && at + n <= self.rest().len(),
                Err(e) => r == Err::<(Vec<u8>, usize), ProtocolError>(e),
            },
    {
        let ghost s = self.rest().skip(at as int);
        let raw = match self.input.peek_u32(at) {
            Some(v) => v,
            None => return Err(ProtocolError::Io(IoErrorKind::UnexpectedEof)),
        };
        let len = raw as i32;
        if len < 0 {
            return Err(ProtocolError::Io(IoErrorKind::UnexpectedEof));
        }
        let len = len as usize;
        if self.input.rest_len() - at - 4 < len {
            return Err(ProtocolError::Io(IoErrorKind::UnexpectedEof));
        }
        let b = self.input.peek_bytes(at + 4, len);
        assert(b@ =~= s.subrange(4, 4 + len));
        Ok((b, 4 + len))
    }

    /// The type byte `at` bytes ahead, which must name a type.
    fn peek_type(&self, at: usize) -> (r: Result<TType, ProtocolError>)
        requires
            at <= self.rest().len(),
        ensures
            match bin_read_type(self.rest().skip(at as int)) {
                Ok((t, _)) => r == Ok::<TType, ProtocolError>(t),
                Err(e) => r == Err::<TType, ProtocolError>(e),
            },
    {
        match self.input.peek_u8(at) {
            Some(b) => match TType::from_u8(b) {
                Some(t) => Ok(t),
                None => Err(ProtocolError::InvalidFieldType),
            },
            None => Err(ProtocolError::Io(IoErrorKind::UnexpectedEof)),
        }
    }

    /// Gives up on a read that ran out of input: what is left is consumed.
    fn fail_eof<T>(&mut self) -> (r: Result<T, ProtocolError>)
        ensures
            r == Err::<T, ProtocolError>(eof_error()),
            final(self).rest() == old(self).rest().skip(old(self).rest().len() as int),
            final(self).nesting() == old(self).nesting(),
    {
        let n = self.input.rest_len();
        self.input.advance(n);
        Err(ProtocolError::Io(IoErrorKind::UnexpectedEof))
    }

    /// Gives up with `e` on a read that found malformed input after taking
    /// `n` bytes.
    fn fail_after<T>(&mut self, e: ProtocolError, n: usize) -> (r: Result<T, ProtocolError>)
        requires
            n <= old(self).rest().len(),
        ensures
            r == Err::<T, ProtocolError>(e),
            final(self).rest() == old(self).rest().skip(n as int),
            final(self).nesting() == old(self).nesting(),
    {
        self.input.advance(n);
        Err(e)
    }

    pub fn read_message_begin(&mut self) -> (r: Result<MessageBegin, ProtocolError>)
        ensures
            final(self).nesting() == old(self).nesting(),
            read_outcome(bin_read_message_begin(old(self).rest()), bin_fail_message_begin(old(self).rest()), r, old(self).rest(), final(self).rest()),
    {
        let ghost s = self.rest();
        let word = match self.input.peek_u32(0) {
            Some(w) => w,
            None => return self.fail_eof(),
        };
        if word & 0xffff0000u32 != THRIFT_VERSION_1 {
            return self.fail_after(ProtocolError::Io(IoErrorKind::InvalidData), 4);
        }
        let message_type = (word & 0xffu32) as u8;
        let (bytes, n) = match self.peek_len_prefixed(4) {
            Ok(p) => p,
            Err(e) => return self.fail_eof(),
        };
        let name = match string_from_utf8(bytes) {
            Some(t) => t,
            None => return self.fail_after(ProtocolError::Io(IoErrorKind::InvalidData), 4 + n),
        };
        let seq_id = match self.input.peek_u32(4 + n) {
            Some(v) => v as i32,
            None => return self.fail_eof(),
        };
        proof {
            assert(s.skip(4).skip(n as int) =~= s.skip(4 + n));
        }
        self.input.advance(4 + n + 4);
        Ok(MessageBegin { name, message_type, seq_id })
    }

    pub fn read_message_end(&mut self) -> (r: Result<(), ProtocolError>)
        ensures
            final(self).nesting() == old(self).nesting(),
            r is Ok,
            final(self).rest() == old(self).rest(),
    {
        Ok(())
    }

    pub fn read_struct_begin(&mut self) -> (r: Result<(), ProtocolError>)
        ensures
            r is Ok,
            final(self).rest() == old(self).rest(),
            final(self).nesting() == old(self).nesting() + 1,
    {
        self.nesting = Ghost(self.nesting@ + 1);
        Ok(())
    }

    pub fn read_struct_end(&mut self) -> (r: Result<(), ProtocolError>)
        ensures
            r is Ok,
            final(self).rest() == old(self).rest(),
            final(self).nesting() == (if old(self).nesting() > 0 { old(self).nesting() - 1 } else { 0 }),
    {
        self.nesting = Ghost(if self.nesting@ > 0 { (self.nesting@ - 1) as nat } else { 0 });
        Ok(())
    }

    pub fn read_field_begin(&mut self) -> (r: Result<FieldBegin, ProtocolError>)
        ensures
            final(self).nesting() == old(self).nesting(),
            read_outcome(bin_read_field_begin(old(self).rest()), bin_fail_tagged(old(self).rest()), r, old(self).rest(), final(self).rest()),
            r matches Ok(f) ==> f.name is None,
    {
        let b = match self.input.peek_u8(0) {
            Some(b) => b,
            None => return self.fail_eof(),
        };
        let field_type = match TType::from_u8(b) {
            Some(t) => t,
            None => return self.fail_after(ProtocolError::InvalidType(b), 1),
        };
        if field_type == TType::Stop {
            self.input.advance(1);
            return Ok(FieldBegin { name: None, field_type, id: 0 });
        }
        match self.input.peek_u16(1) {
            Some(v) => {
                self.input.advance(3);
                Ok(FieldBegin { name: None, field_type, id: v as i16 })
            },
            None => self.fail_eof(),
        }
    }

    pub fn read_field_end(&mut self) -> (r: Result<(), ProtocolError>)
        ensures
            final(self).nesting() == old(self).nesting(),
            r is Ok,
            final(self).rest() == old(self).rest(),
    {
        Ok(())
    }

    pub fn read_bool(&mut self) -> (r: Result<bool, ProtocolError>)
        ensures
            final(self).nesting() == old(self).nesting(),
            read_outcome(bin_read_bool(old(self).rest()), bin_fail_all(old(self).rest()), r, old(self).rest(), final(self).rest()),
    {
        match self.input.peek_u8(0) {
            Some(b) => {
                self.input.advance(1);
                Ok(b != 0)
            },
            None => self.fail_eof(),
        }
    }

    pub fn read_byte(&mut self) -> (r: Result<i8, ProtocolError>)
        ensures
            final(self).nesting() == old(self).nesting(),
            read_outcome(bin_read_byte(old(self).rest()), bin_fail_all(old(self).rest()), r, old(self).rest(), final(self).rest()),
    {
        match self.input.peek_u8(0) {
            Some(b) => {
                self.input.advance(1);
                Ok(b as i8)
            },
            None => self.fail_eof(),
        }
    }

    pub fn read_i16(&mut self) -> (r: Result<i16, ProtocolError>)
        ensures
            final(self).nesting() == old(self).nesting(),
            read_outcome(bin_read_i16(old(self).rest()), bin_fail_all(old(self).rest()), r, old(self).rest(), final(self).rest()),
    {
        match self.input.peek_u16(0) {
            Some(v) => {
                proof { assert(self.rest().skip(0) =~= self.rest()); }
                self.input.advance(2);
                Ok(v as i16)
            },
            None => self.fail_eof(),
        }
    }

    pub fn read_i32(&mut self) -> (r: Result<i32, ProtocolError>)
        ensures
            final(self).nesting() == old(self).nesting(),
            read_outcome(bin_read_i32(old(self).rest()), bin_fail_all(old(self).rest()), r, old(self).rest(), final(self).rest()),
    {
        match self.input.peek_u32(0) {
            Some(v) => {
                proof { assert(self.rest().skip(0) =~= self.rest()); }
                self.input.advance(4);
                Ok(v as i32)
            },
            None => self.fail_eof(),
        }
    }

    pub fn read_i64(&mut self) -> (r: Result<i64, ProtocolError>)
        ensures
            final(self).nesting() == old(self).nesting(),
            read_outcome(bin_read_i64(old(self).rest()), bin_fail_all(old(self).rest()), r, old(self).rest(), final(self).rest()),
    {
        match self.input.peek_u64(0) {
            Some(v) => {
                proof { assert(self.rest().skip(0) =~= self.rest()); }
                self.input.advance(8);
                Ok(v as i64)
            },
            None => self.fail_eof(),
        }
    }

    /// Reads a double as the bit pattern of its IEEE-754 binary64 value.
    pub fn read_double_bits(&mut self) -> (r: Result<u64, ProtocolError>)
        ensures
            final(self).nesting() == old(self).nesting(),
            read_outcome(bin_read_double_bits(old(self).rest()), bin_fail_all(old(self).rest()), r, old(self).rest(), final(self).rest()),
    {
        match self.input.peek_u64(0) {
            Some(v) => {
                proof { assert(self.rest().skip(0) =~= self.rest()); }
                self.input.advance(8);
                Ok(v)
            },
            None => self.fail_eof(),
        }
    }

    pub fn read_string(&mut self) -> (r: Result<String, ProtocolError>)
        ensures
            final(self).nesting() == old(self).nesting(),
            read_outcome(bin_read_string(old(self).rest()), bin_fail_string(old(self).rest()), r, old(self).rest(), final(self).rest()),
    {
        proof { assert(self.rest().skip(0) =~= self.rest()); }
        let (bytes, n) = match self.peek_len_prefixed(0) {
            Ok(p) => p,
            Err(e) => return self.fail_eof(),
        };
        match string_from_utf8(bytes) {
            Some(text) => {
                self.input.advance(n);
                Ok(text)
            },
            None => self.fail_after(ProtocolError::Io(IoErrorKind::InvalidData), n),
        }
    }

    pub fn read_binary(&mut self) -> (r: Result<Vec<u8>, ProtocolError>)
        ensures
            final(self).nesting() == old(self).nesting(),
            read_outcome(bin_read_bytes(old(self).rest()), bin_fail_all(old(self).rest()), r, old(self).rest(), final(self).rest()),
    {
        proof { assert(self.rest().skip(0) =~= self.rest()); }
        match self.peek_len_prefixed(0) {
            Ok((b, n)) => {
                self.input.advance(n);
                Ok(b)
            },
            Err(e) => self.fail_eof(),
        }
    }

    pub fn read_map_begin(&mut self) -> (r: Result<MapBegin, ProtocolError>)
        ensures
            final(self).nesting() == old(self).nesting(),
            read_outcome(bin_read_map_begin(old(self).rest()), bin_fail_map_begin(old(self).rest()), r, old(self).rest(), final(self).rest()),
    {
        let ghost s = self.rest();
        proof { assert(s.skip(0) =~= s); }
        let key_type = match self.peek_type(0) {
            Ok(t) => t,
            Err(e) => return if self.input.rest_len() < 1 { self.fail_eof() } else { self.fail_after(e, 1) },
        };
        let value_type = match self.peek_type(1) {
            Ok(t) => t,
            Err(e) => return if self.input.rest_len() < 2 { self.fail_eof() } else { self.fail_after(e, 2) },
        };
        let size = match self.input.peek_u32(2) {
            Some(v) => v as i32,
            None => return self.fail_eof(),
        };
        self.input.advance(6);
        Ok(MapBegin { key_type, value_type, size })
    }

    pub fn read_map_end(&mut self) -> (r: Result<(), ProtocolError>)
        ensures
            final(self).nesting() == old(self).nesting(),
            r is Ok,
            final(self).rest() == old(self).rest(),
    {
        Ok(())
    }

    pub fn read_list_begin(&mut self) -> (r: Result<ListBegin, ProtocolError>)
        ensures
            final(self).nesting() == old(self).nesting(),
            read_outcome(bin_read_list_begin(old(self).rest()), bin_fail_tagged(old(self).rest()), r, old(self).rest(), final(self).rest()),
    {
        let ghost s = self.rest();
        proof { assert(s.skip(0) =~= s); }
        let element_type = match self.peek_type(0) {
            Ok(t) => t,
            Err(e) => return if self.input.rest_len() < 1 { self.fail_eof() } else { self.fail_after(e, 1) },
        };
        let size = match self.input.peek_u32(1) {
            Some(v) => v as i32,
            None => return self.fail_eof(),
        };
        self.input.advance(5);
        Ok(ListBegin { element_type, size })
    }

    pub fn read_list_end(&mut self) -> (r: Result<(), ProtocolError>)
        ensures
            final(self).nesting() == old(self).nesting(),
            r is Ok,
            final(self).rest() == old(self).rest(),
    {
        Ok(())
    }

    pub fn read_set_begin(&mut self) -> (r: Result<SetBegin, ProtocolError>)
        ensures
            final(self).nesting() == old(self).nesting(),
            read_outcome(bin_read_set_begin(old(self).rest()), bin_fail_tagged(old(self).rest()), r, old(self).rest(), final(self).rest()),
    {
        match self.read_list_begin() {
            Ok(l) => Ok(SetBegin { element_type: l.element_type, size: l.size }),
            Err(e) => Err(e),
        }
    }

    pub fn read_set_end(&mut self) -> (r: Result<(), ProtocolError>)
        ensures
            final(self).nesting() == old(self).nesting(),
            r is Ok,
            final(self).rest() == old(self).rest(),
    {
        Ok(())
    }
}

// ─── Writer ───────────────────────────────────────────────────────────────────

/// Writes Binary-protocol values into a byte buffer.
pub struct BinaryProtocolWriter {
    out: Vec<u8>,
    nesting: Ghost<nat>,
}

impl BinaryProtocolWriter {
    /// The bytes written so far.
    pub closed spec fn bytes(self) -> Seq<u8> {
        self.out@
    }

    /// How many structs are open, counting the outermost level as one.
    pub closed spec fn nesting(self) -> nat {
        self.nesting@
    }

    pub fn new() -> (r: Self)
        ensures
            r.bytes() == Seq::<u8>::empty(),
            r.nesting() == 1,
            r@ == (Seq::<u8>::empty(), 1nat),
    {
        BinaryProtocolWriter { out: Vec::new(), nesting: Ghost(1) }
    }

    pub fn into_bytes(self) -> (r: Vec<u8>)
        ensures
            r@ == self.bytes(),
            r@ == self@.0,
    {
        self.out
    }

    pub fn write_message_begin(&mut self, identifier: &MessageBegin) -> (r: Result<(), ProtocolError>)
        ensures
            final(self).nesting() == old(self).nesting(),
            r is Ok,
            final(self).bytes() == old(self).bytes() + bin_enc_message_begin(
                identifier.name@,
                identifier.message_type,
                identifier.seq_id,
            ),
    {
        let word = THRIFT_VERSION_1 | (identifier.message_type as u32);
        write_u32(&mut self.out, word);
        let _ = self.write_string(identifier.name.as_str());
        let _ = self.write_i32(identifier.seq_id);
        proof {
            assert(self.out@ =~= old(self).out@ + bin_enc_message_begin(
                identifier.name@,
                identifier.message_type,
                identifier.seq_id,
            ));
        }
        Ok(())
    }

    pub fn write_message_end(&mut self) -> (r: Result<(), ProtocolError>)
        ensures
            final(self).nesting() == old(self).nesting(),
            r is Ok,
            final(self).bytes() == old(self).bytes(),
    {
        Ok(())
    }

    pub fn write_struct_begin(&mut self, _name: &str) -> (r: Result<(), ProtocolError>)
        ensures
            r is Ok,
            final(self).bytes() == old(self).bytes(),
            final(self).nesting() == old(self).nesting() + 1,
    {
        self.nesting = Ghost(self.nesting@ + 1);
        Ok(())
    }

    pub fn write_struct_end(&mut self) -> (r: Result<(), ProtocolError>)
        ensures
            r is Ok,
            final(self).bytes() == old(self).bytes(),
            final(self).nesting() == (if old(self).nesting() > 0 { old(self).nesting() - 1 } else { 0 }),
    {
        self.nesting = Ghost(if self.nesting@ > 0 { (self.nesting@ - 1) as nat } else { 0 });
        Ok(())
    }

    pub fn write_field_begin(&mut self, field: &FieldBegin) -> (r: Result<(), ProtocolError>)
        ensures
            final(self).nesting() == old(self).nesting(),
            r is Ok,
            final(self).bytes() == old(self).bytes() + bin_enc_field_begin(field.field_type, field.id),
    {
        self.out.push(field.field_type.to_u8());
        if field.field_type != TType::Stop {
            write_u16(&mut self.out, field.id as u16);
        }
        proof {
            assert(self.out@ =~= old(self).out@ + bin_enc_field_begin(field.field_type, field.id));
        }
        Ok(())
    }

    pub fn write_field_end(&mut self) -> (r: Result<(), ProtocolError>)
        ensures
            final(self).nesting() == old(self).nesting(),
            r is Ok,
            final(self).bytes() == old(self).bytes(),
    {
        Ok(())
    }

    pub fn write_field_stop(&mut self) -> (r: Result<(), ProtocolError>)
        ensures
            final(self).nesting() == old(self).nesting(),
            r is Ok,
            final(self).bytes() == old(self).bytes() + bin_enc_field_stop(),
    {
        self.out.push(TType::Stop.to_u8());
        proof {
            assert(self.out@ =~= old(self).out@ + bin_enc_field_stop());
        }
        Ok(())
    }

    pub fn write_bool(&mut self, value: bool) -> (r: Result<(), ProtocolError>)
        ensures
            final(self).nesting() == old(self).nesting(),
            r is Ok,
            final(self).bytes() == old(self).bytes() + bin_enc_bool(value),
    {
        self.out.push(if value { 1u8 } else { 0u8 });
        proof {
            assert(self.out@ =~= old(self).out@ + bin_enc_bool(value));
        }
        Ok(())
    }

    pub fn write_byte(&mut self, value: i8) -> (r: Result<(), ProtocolError>)
        ensures
            final(self).nesting() == old(self).nesting(),
            r is Ok,
            final(self).bytes() == old(self).bytes() + bin_enc_byte(value),
    {
        self.out.push(value as u8);
        proof {
            assert(self.out@ =~= old(self).out@ + bin_enc_byte(value));
        }
        Ok(())
    }

    pub fn write_i16(&mut self, value: i16) -> (r: Result<(), ProtocolError>)
        ensures
            final(self).nesting() == old(self).nesting(),
            r is Ok,
            final(self).bytes() == old(self).bytes() + bin_enc_i16(value),
    {
        write_u16(&mut self.out, value as u16);
        Ok(())
    }

    pub fn write_i32(&mut self, value: i32) -> (r: Result<(), ProtocolError>)
        ensures
            final(self).nesting() == old(self).nesting(),
            r is Ok,
            final(self).bytes() == old(self).bytes() + bin_enc_i32(value),
    {
        write_u32(&mut self.out, value as u32);
        Ok(())
    }

    pub fn write_i64(&mut self, value: i64) -> (r: Result<(), ProtocolError>)
        ensures
            final(self).nesting() == old(self).nesting(),
            r is Ok,
            final(self).bytes() == old(self).bytes() + bin_enc_i64(value),
    {
        write_u64(&mut self.out, value as u64);
        Ok(())
    }

    /// Writes a double given as the bit pattern of its IEEE-754 binary64 value.
    pub fn write_double_bits(&mut self, bits: u64) -> (r: Result<(), ProtocolError>)
        ensures
            final(self).nesting() == old(self).nesting(),
            r is Ok,
            final(self).bytes() == old(self).bytes() + bin_enc_double_bits(bits),
    {
        write_u64(&mut self.out, bits);
        Ok(())
    }

    fn write_len_prefixed(&mut self, value: &[u8])
        ensures
            final(self).nesting() == old(self).nesting(),
            final(self).bytes() == old(self).bytes() + bin_enc_bytes(value@),
    {
        write_u32(&mut self.out, value.len() as u32);
        self.out.extend_from_slice(value);
        proof {
            assert(self.out@ =~= old(self).out@ + bin_enc_bytes(value@));
        }
    }

    pub fn write_string(&mut self, value: &str) -> (r: Result<(), ProtocolError>)
        ensures
            final(self).nesting() == old(self).nesting(),
            r is Ok,
            final(self).bytes() == old(self).bytes() + bin_enc_string(value@),
    {
        self.write_len_prefixed(str_bytes(value));
        Ok(())
    }

    pub fn write_binary(&mut self, value: &[u8]) -> (r: Result<(), ProtocolError>)
        ensures
            final(self).nesting() == old(self).nesting(),
            r is Ok,
            final(self).bytes() == old(self).bytes() + bin_enc_bytes(value@),
    {
        self.write_len_prefixed(value);
        Ok(())
    }

    pub fn write_map_begin(&mut self, identifier: &MapBegin) -> (r: Result<(), ProtocolError>)
        ensures
            final(self).nesting() == old(self).nesting(),
            r is Ok,
            final(self).bytes() == old(self).bytes() + bin_enc_map_begin(*identifier),
    {
        self.out.push(identifier.key_type.to_u8());
        self.out.push(identifier.value_type.to_u8());
        write_u32(&mut self.out, identifier.size as u32);
        proof {
            assert(self.out@ =~= old(self).out@ + bin_enc_map_begin(*identifier));
        }
        Ok(())
    }

    pub fn write_map_end(&mut self) -> (r: Result<(), ProtocolError>)
        ensures
            final(self).nesting() == old(self).nesting(),
            r is Ok,
            final(self).bytes() == old(self).bytes(),
    {
        Ok(())
    }

    pub fn write_list_begin(&mut self, identifier: &ListBegin) -> (r: Result<(), ProtocolError>)
        ensures
            final(self).nesting() == old(self).nesting(),
            r is Ok,
            final(self).bytes() == old(self).bytes() + bin_enc_list_begin(*identifier),
    {
        self.out.push(identifier.element_type.to_u8());
        write_u32(&mut self.out, identifier.size as u32);
        proof {
            assert(self.out@ =~= old(self).out@ + bin_enc_list_begin(*identifier));
        }
        Ok(())
    }

    pub fn write_list_end(&mut self) -> (r: Result<(), ProtocolError>)
        ensures
            final(self).nesting() == old(self).nesting(),
            r is Ok,
            final(self).bytes() == old(self).bytes(),
    {
        Ok(())
    }

    pub fn write_set_begin(&mut self, identifier: &SetBegin) -> (r: Result<(), ProtocolError>)
        ensures
            final(self).nesting() == old(self).nesting(),
            r is Ok,
            final(self).bytes() == old(self).bytes() + bin_enc_set_begin(*identifier),
    {
        self.out.push(identifier.element_type.to_u8());
        write_u32(&mut self.out, identifier.size as u32);
        proof {
            assert(self.out@ =~= old(self).out@ + bin_enc_set_begin(*identifier));
        }
        Ok(())
    }

    pub fn write_set_end(&mut self) -> (r: Result<(), ProtocolError>)
        ensures
            final(self).nesting() == old(self).nesting(),
            r is Ok,
            final(self).bytes() == old(self).bytes(),
    {
        Ok(())
    }
}

// ─── The reading and writing operations of every protocol ─────────────────────

/// A Binary read step: on success the value, with the bytes it took consumed;
/// on failure the error, with the `fail` bytes it took before failing consumed.
pub open spec fn bin_step<T>(r: Result<(T, int), ProtocolError>, fail: int, s: (Seq<u8>, nat)) -> ReadStep<T, (Seq<u8>, nat)> {
    match r {
        Ok((v, n)) => (Ok(v), (s.0.skip(n), s.1)),
        Err(e) => (Err(e), (s.0.skip(fail), s.1)),
    }
}

impl View for BinaryProtocolReader {
    type V = (Seq<u8>, nat);

    open spec fn view(&self) -> (Seq<u8>, nat) {
        (self.rest(), self.nesting())
    }
}

impl TInputProtocol for BinaryProtocolReader {
    open spec fn remaining(s: (Seq<u8>, nat)) -> nat {
        s.0.len()
    }

    open spec fn depth(s: (Seq<u8>, nat)) -> nat {
        s.1
    }
    open spec fn spec_read_message_begin(s: (Seq<u8>, nat)) -> ReadStep<(Seq<char>, u8, i32), (Seq<u8>, nat)> {
        bin_step(bin_read_message_begin(s.0), bin_fail_message_begin(s.0), s)
    }
    open spec fn spec_read_field_begin(s: (Seq<u8>, nat)) -> ReadStep<(TType, i16), (Seq<u8>, nat)> {
        bin_step(bin_read_field_begin(s.0), bin_fail_tagged(s.0), s)
    }
    open spec fn spec_read_bool(s: (Seq<u8>, nat)) -> ReadStep<bool, (Seq<u8>, nat)> {
        bin_step(bin_read_bool(s.0), bin_fail_all(s.0), s)
    }
    open spec fn spec_read_byte(s: (Seq<u8>, nat)) -> ReadStep<i8, (Seq<u8>, nat)> {
        bin_step(bin_read_byte(s.0), bin_fail_all(s.0), s)
    }
    open spec fn spec_read_i16(s: (Seq<u8>, nat)) -> ReadStep<i16, (Seq<u8>, nat)> {
        bin_step(bin_read_i16(s.0), bin_fail_all(s.0), s)
    }
    open spec fn spec_read_i32(s: (Seq<u8>, nat)) -> ReadStep<i32, (Seq<u8>, nat)> {
        bin_step(bin_read_i32(s.0), bin_fail_all(s.0), s)
    }
    open spec fn spec_read_i64(s: (Seq<u8>, nat)) -> ReadStep<i64, (Seq<u8>, nat)> {
        bin_step(bin_read_i64(s.0), bin_fail_all(s.0), s)
    }
    open spec fn spec_read_double_bits(s: (Seq<u8>, nat)) -> ReadStep<u64, (Seq<u8>, nat)> {
        bin_step(bin_read_double_bits(s.0), bin_fail_all(s.0), s)
    }
    open spec fn spec_read_string(s: (Seq<u8>, nat)) -> ReadStep<Seq<char>, (Seq<u8>, nat)> {
        bin_step(bin_read_string(s.0), bin_fail_string(s.0), s)
    }
    open spec fn spec_read_binary(s: (Seq<u8>, nat)) -> ReadStep<Seq<u8>, (Seq<u8>, nat)> {
        bin_step(bin_read_bytes(s.0), bin_fail_all(s.0), s)
    }
    open spec fn spec_read_map_begin(s: (Seq<u8>, nat)) -> ReadStep<MapBegin, (Seq<u8>, nat)> {
        bin_step(bin_read_map_begin(s.0), bin_fail_map_begin(s.0), s)
    }
    open spec fn spec_read_list_begin(s: (Seq<u8>, nat)) -> ReadStep<ListBegin, (Seq<u8>, nat)> {
        bin_step(bin_read_list_begin(s.0), bin_fail_tagged(s.0), s)
    }
    open spec fn spec_read_set_begin(s: (Seq<u8>, nat)) -> ReadStep<SetBegin, (Seq<u8>, nat)> {
        bin_step(bin_read_set_begin(s.0), bin_fail_tagged(s.0), s)
    }
    open spec fn spec_read_message_end(s: (Seq<u8>, nat)) -> ReadStep<(), (Seq<u8>, nat)> {
        (Ok(()), s)
    }
    open spec fn spec_read_field_end(s: (Seq<u8>, nat)) -> ReadStep<(), (Seq<u8>, nat)> {
        (Ok(()), s)
    }
    open spec fn spec_read_map_end(s: (Seq<u8>, nat)) -> ReadStep<(), (Seq<u8>, nat)> {
        (Ok(()), s)
    }
    open spec fn spec_read_list_end(s: (Seq<u8>, nat)) -> ReadStep<(), (Seq<u8>, nat)> {
        (Ok(()), s)
    }
    open spec fn spec_read_set_end(s: (Seq<u8>, nat)) -> ReadStep<(), (Seq<u8>, nat)> {
        (Ok(()), s)
    }
    open spec fn spec_read_struct_begin(s: (Seq<u8>, nat)) -> ReadStep<(), (Seq<u8>, nat)> {
        (Ok(()), (s.0, s.1 + 1))
    }

    open spec fn spec_read_struct_end(s: (Seq<u8>, nat)) -> ReadStep<(), (Seq<u8>, nat)> {
        (Ok(()), (s.0, if s.1 > 0 { (s.1 - 1) as nat } else { 0 }))
    }
    fn read_message_begin(&mut self) -> (r: Result<MessageBegin, ProtocolError>) {
        BinaryProtocolReader::read_message_begin(self)
    }
    fn read_field_begin(&mut self) -> (r: Result<FieldBegin, ProtocolError>) {
        BinaryProtocolReader::read_field_begin(self)
    }
    fn read_bool(&mut self) -> (r: Result<bool, ProtocolError>) {
        BinaryProtocolReader::read_bool(self)
    }
    fn read_byte(&mut self) -> (r: Result<i8, ProtocolError>) {
        BinaryProtocolReader::read_byte(self)
    }
    fn read_i16(&mut self) -> (r: Result<i16, ProtocolError>) {
        BinaryProtocolReader::read_i16(self)
    }
    fn read_i32(&mut self) -> (r: Result<i32, ProtocolError>) {
        BinaryProtocolReader::read_i32(self)
    }
    fn read_i64(&mut self) -> (r: Result<i64, ProtocolError>) {
        BinaryProtocolReader::read_i64(self)
    }
    fn read_double_bits(&mut self) -> (r: Result<u64, ProtocolError>) {
        BinaryProtocolReader::read_double_bits(self)
    }
    fn read_string(&mut self) -> (r: Result<String, ProtocolError>) {
        BinaryProtocolReader::read_string(self)
    }
    fn read_binary(&mut self) -> (r: Result<Vec<u8>, ProtocolError>) {
        BinaryProtocolReader::read_binary(self)
    }
    fn read_map_begin(&mut self) -> (r: Result<MapBegin, ProtocolError>) {
        BinaryProtocolReader::read_map_begin(self)
    }
    fn read_list_begin(&mut self) -> (r: Result<ListBegin, ProtocolError>) {
        BinaryProtocolReader::read_list_begin(self)
    }
    fn read_set_begin(&mut self) -> (r: Result<SetBegin, ProtocolError>) {
        BinaryProtocolReader::read_set_begin(self)
    }
    fn read_message_end(&mut self) -> (r: Result<(), ProtocolError>) {
        BinaryProtocolReader::read_message_end(self)
    }
    fn read_field_end(&mut self) -> (r: Result<(), ProtocolError>) {
        BinaryProtocolReader::read_field_end(self)
    }
    fn read_map_end(&mut self) -> (r: Result<(), ProtocolError>) {
        BinaryProtocolReader::read_map_end(self)
    }
    fn read_list_end(&mut self) -> (r: Result<(), ProtocolError>) {
        BinaryProtocolReader::read_list_end(self)
    }
    fn read_set_end(&mut self) -> (r: Result<(), ProtocolError>) {
        BinaryProtocolReader::read_set_end(self)
    }
    fn read_struct_begin(&mut self) -> (r: Result<(), ProtocolError>) {
        BinaryProtocolReader::read_struct_begin(self)
    }
    fn read_struct_end(&mut self) -> (r: Result<(), ProtocolError>) {
        BinaryProtocolReader::read_struct_end(self)
    }
}

impl View for BinaryProtocolWriter {
    type V = (Seq<u8>, nat);

    open spec fn view(&self) -> (Seq<u8>, nat) {
        (self.bytes(), self.nesting())
    }
}

impl TOutputProtocol for BinaryProtocolWriter {
    open spec fn depth(s: (Seq<u8>, nat)) -> nat {
        s.1
    }
    open spec fn spec_write_message_begin(s: (Seq<u8>, nat), m: (Seq<char>, u8, i32)) -> WriteStep<(Seq<u8>, nat)> {
        (Ok(()), (s.0 + bin_enc_message_begin(m.0, m.1, m.2), s.1))
    }
    open spec fn spec_write_field_begin(s: (Seq<u8>, nat), t: TType, id: i16) -> WriteStep<(Seq<u8>, nat)> {
        (Ok(()), (s.0 + bin_enc_field_begin(t, id), s.1))
    }
    open spec fn spec_write_field_stop(s: (Seq<u8>, nat)) -> WriteStep<(Seq<u8>, nat)> {
        (Ok(()), (s.0 + bin_enc_field_stop(), s.1))
    }
    open spec fn spec_write_bool(s: (Seq<u8>, nat), v: bool) -> WriteStep<(Seq<u8>, nat)> {
        (Ok(()), (s.0 + bin_enc_bool(v), s.1))
    }
    open spec fn spec_write_byte(s: (Seq<u8>, nat), v: i8) -> WriteStep<(Seq<u8>, nat)> {
        (Ok(()), (s.0 + bin_enc_byte(v), s.1))
    }
    open spec fn spec_write_i16(s: (Seq<u8>, nat), v: i16) -> WriteStep<(Seq<u8>, nat)> {
        (Ok(()), (s.0 + bin_enc_i16(v), s.1))
    }
    open spec fn spec_write_i32(s: (Seq<u8>, nat), v: i32) -> WriteStep<(Seq<u8>, nat)> {
        (Ok(()), (s.0 + bin_enc_i32(v), s.1))
    }
    open spec fn spec_write_i64(s: (Seq<u8>, nat), v: i64) -> WriteStep<(Seq<u8>, nat)> {
        (Ok(()), (s.0 + bin_enc_i64(v), s.1))
    }
    open spec fn spec_write_double_bits(s: (Seq<u8>, nat), v: u64) -> WriteStep<(Seq<u8>, nat)> {
        (Ok(()), (s.0 + bin_enc_double_bits(v), s.1))
    }
    open spec fn spec_write_string(s: (Seq<u8>, nat), v: Seq<char>) -> WriteStep<(Seq<u8>, nat)> {
        (Ok(()), (s.0 + bin_enc_string(v), s.1))
    }
    open spec fn spec_write_binary(s: (Seq<u8>, nat), v: Seq<u8>) -> WriteStep<(Seq<u8>, nat)> {
        (Ok(()), (s.0 + bin_enc_bytes(v), s.1))
    }
    open spec fn spec_write_map_begin(s: (Seq<u8>, nat), m: MapBegin) -> WriteStep<(Seq<u8>, nat)> {
        (Ok(()), (s.0 + bin_enc_map_begin(m), s.1))
    }
    open spec fn spec_write_list_begin(s: (Seq<u8>, nat), l: ListBegin) -> WriteStep<(Seq<u8>, nat)> {
        (Ok(()), (s.0 + bin_enc_list_begin(l), s.1))
    }
    open spec fn spec_write_set_begin(s: (Seq<u8>, nat), l: SetBegin) -> WriteStep<(Seq<u8>, nat)> {
        (Ok(()), (s.0 + bin_enc_set_begin(l), s.1))
    }
    open spec fn spec_write_message_end(s: (Seq<u8>, nat)) -> WriteStep<(Seq<u8>, nat)> {
        (Ok(()), s)
    }
    open spec fn spec_write_field_end(s: (Seq<u8>, nat)) -> WriteStep<(Seq<u8>, nat)> {
        (Ok(()), s)
    }
    open spec fn spec_write_map_end(s: (Seq<u8>, nat)) -> WriteStep<(Seq<u8>, nat)> {
        (Ok(()), s)
    }
    open spec fn spec_write_list_end(s: (Seq<u8>, nat)) -> WriteStep<(Seq<u8>, nat)> {
        (Ok(()), s)
    }
    open spec fn spec_write_set_end(s: (Seq<u8>, nat)) -> WriteStep<(Seq<u8>, nat)> {
        (Ok(()), s)
    }
    open spec fn spec_write_struct_begin(s: (Seq<u8>, nat), name: Seq<char>) -> WriteStep<(Seq<u8>, nat)> {
        (Ok(()), (s.0, s.1 + 1))
    }

    open spec fn spec_write_struct_end(s: (Seq<u8>, nat)) -> WriteStep<(Seq<u8>, nat)> {
        (Ok(()), (s.0, if s.1 > 0 { (s.1 - 1) as nat } else { 0 }))
    }
    fn write_message_begin(&mut self, identifier: &MessageBegin) -> (r: Result<(), ProtocolError>) {
        let _ = BinaryProtocolWriter::write_message_begin(self, identifier);
        Ok(())
    }
    fn write_field_begin(&mut self, field: &FieldBegin) -> (r: Result<(), ProtocolError>) {
        let _ = BinaryProtocolWriter::write_field_begin(self, field);
        Ok(())
    }
    fn write_field_stop(&mut self) -> (r: Result<(), ProtocolError>) {
        let _ = BinaryProtocolWriter::write_field_stop(self);
        Ok(())
    }
    fn write_bool(&mut self, value: bool) -> (r: Result<(), ProtocolError>) {
        let _ = BinaryProtocolWriter::write_bool(self, value);
        Ok(())
    }
    fn write_byte(&mut self, value: i8) -> (r: Result<(), ProtocolError>) {
        let _ = BinaryProtocolWriter::write_byte(self, value);
        Ok(())
    }
    fn write_i16(&mut self, value: i16) -> (r: Result<(), ProtocolError>) {
        let _ = BinaryProtocolWriter::write_i16(self, value);
        Ok(())
    }
    fn write_i32(&mut self, value: i32) -> (r: Result<(), ProtocolError>) {
        let _ = BinaryProtocolWriter::write_i32(self, value);
        Ok(())
    }
    fn write_i64(&mut self, value: i64) -> (r: Result<(), ProtocolError>) {
        let _ = BinaryProtocolWriter::write_i64(self, value);
        Ok(())
    }
    fn write_double_bits(&mut self, bits: u64) -> (r: Result<(), ProtocolError>) {
        let _ = BinaryProtocolWriter::write_double_bits(self, bits);
        Ok(())
    }
    fn write_string(&mut self, value: &str) -> (r: Result<(), ProtocolError>) {
        let _ = BinaryProtocolWriter::write_string(self, value);
        Ok(())
    }
    fn write_binary(&mut self, value: &[u8]) -> (r: Result<(), ProtocolError>) {
        let _ = BinaryProtocolWriter::write_binary(self, value);
        Ok(())
    }
    fn write_map_begin(&mut self, identifier: &MapBegin) -> (r: Result<(), ProtocolError>) {
        let _ = BinaryProtocolWriter::write_map_begin(self, identifier);
        Ok(())
    }
    fn write_list_begin(&mut self, identifier: &ListBegin) -> (r: Result<(), ProtocolError>) {
        let _ = BinaryProtocolWriter::write_list_begin(self, identifier);
        Ok(())
    }
    fn write_set_begin(&mut self, identifier: &SetBegin) -> (r: Result<(), ProtocolError>) {
        let _ = BinaryProtocolWriter::write_set_begin(self, identifier);
        Ok(())
    }
    fn write_message_end(&mut self) -> (r: Result<(), ProtocolError>) {
        let _ = BinaryProtocolWriter::write_message_end(self);
        Ok(())
    }
    fn write_field_end(&mut self) -> (r: Result<(), ProtocolError>) {
        let _ = BinaryProtocolWriter::write_field_end(self);
        Ok(())
    }
    fn write_map_end(&mut self) -> (r: Result<(), ProtocolError>) {
        let _ = BinaryProtocolWriter::write_map_end(self);
        Ok(())
    }
    fn write_list_end(&mut self) -> (r: Result<(), ProtocolError>) {
        let _ = BinaryProtocolWriter::write_list_end(self);
        Ok(())
    }
    fn write_set_end(&mut self) -> (r: Result<(), ProtocolError>) {
        let _ = BinaryProtocolWriter::write_set_end(self);
        Ok(())
    }
    fn write_struct_begin(&mut self, name: &str) -> (r: Result<(), ProtocolError>) {
        let _ = BinaryProtocolWriter::write_struct_begin(self, name);
        Ok(())
    }

    fn write_struct_end(&mut self) -> (r: Result<(), ProtocolError>) {
        let _ = BinaryProtocolWriter::write_struct_end(self);
        Ok(())
    }
}

} // verus!
