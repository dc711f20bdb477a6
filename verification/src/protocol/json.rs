//! The Thrift JSON protocol.
//!
//! Wire format, as JSON values:
//!   Message  → `[1, "name", type, seqid, {struct_body}]`
//!   Struct   → `{"fid": [type_name, value], ...}`
//!   List/Set → `[type_name, size, v0, v1, ...]`
//!   Map      → `[key_type_name, value_type_name, size, {k: v, ...}]`
//!   Bool     → `1` / `0`
//!   i64      → its decimal text, as a string
//!   binary   → its base64 text, as a string
//!
//! The writer builds each top-level value as a tree of frames and hands out
//! the finished documents, or their text; the reader walks one document,
//! given as such or parsed from text. Parsing and printing the text is
//! `serde_json`'s work.

use vstd::prelude::*;
use byteorder::ByteOrder;
use super::types::{FieldBegin, IoErrorKind, ListBegin, MapBegin, MessageBegin, ProtocolError, SetBegin, TType};
use super::traits::{pres, ReadStep, WriteStep, TInputProtocol, TOutputProtocol};
use super::json_value::{
    JsonNumber, JsonValue, JsonView, json_view, json_items_view, json_entries_view, json_as_i64,
    json_as_u64, json_as_str, json_as_bool, json_size, items_size, entries_size, number_of_int,
    obj_insert, object_insert, lemma_json_items_view_index, lemma_json_entries_view_index,
    lemma_items_size_split, lemma_items_size_first, lemma_entries_size_split, lemma_entries_size_first,
};
use super::text::{i16_of_text, i64_of_text, int_text, nat_text, i64_text, u64_text, parse_i16_text, parse_i64_text};
use crate::parser::names::str_eq;
use super::wire::string_from_utf8;
use vstd::utf8::{decode_utf8, valid_utf8};
use crate::parser::ast::{double_bits_of_int, i64_to_double_bits, u64_to_double_bits};

verus! {

// ─── Type names ───────────────────────────────────────────────────────────────

/// The name under which a wire type is written.
pub open spec fn json_type_name(t: TType) -> Seq<char> {
    match t {
        TType::Bool => "tf"@,
        TType::Byte => "i8"@,
        TType::I16 => "i16"@,
        TType::I32 => "i32"@,
        TType::I64 => "i64"@,
        TType::Double => "dbl"@,
        TType::String => "str"@,
        TType::Struct => "rec"@,
        TType::MapT => "map"@,
        TType::List => "lst"@,
        TType::SetT => "set"@,
        TType::Stop | TType::Void => "stop"@,
    }
}

/// The wire type that a name stands for, if any.
pub open spec fn ttype_of_json_name(s: Seq<char>) -> Option<TType> {
    if s == "tf"@ { Some(TType::Bool) }
    else if s == "i8"@ { Some(TType::Byte) }
    else if s == "i16"@ { Some(TType::I16) }
    else if s == "i32"@ { Some(TType::I32) }
    else if s == "i64"@ { Some(TType::I64) }
    else if s == "dbl"@ { Some(TType::Double) }
    else if s == "str"@ { Some(TType::String) }
    else if s == "rec"@ { Some(TType::Struct) }
    else if s == "map"@ { Some(TType::MapT) }
    else if s == "lst"@ { Some(TType::List) }
    else if s == "set"@ { Some(TType::SetT) }
    else { None }
}

/// The name under which a wire type is written.
pub fn ttype_to_json_name(t: TType) -> (r: String)
    ensures
        r@ == json_type_name(t),
{
    match t {
        TType::Bool => "tf".to_owned(),
        TType::Byte => "i8".to_owned(),
        TType::I16 => "i16".to_owned(),
        TType::I32 => "i32".to_owned(),
        TType::I64 => "i64".to_owned(),
        TType::Double => "dbl".to_owned(),
        TType::String => "str".to_owned(),
        TType::Struct => "rec".to_owned(),
        TType::MapT => "map".to_owned(),
        TType::List => "lst".to_owned(),
        TType::SetT => "set".to_owned(),
        TType::Stop | TType::Void => "stop".to_owned(),
    }
}

/// The wire type that a name stands for, if any.
pub fn json_name_to_ttype(s: &str) -> (r: Option<TType>)
    ensures
        r == ttype_of_json_name(s@),
{
    if str_eq(s, "tf") { Some(TType::Bool) }
    else if str_eq(s, "i8") { Some(TType::Byte) }
    else if str_eq(s, "i16") { Some(TType::I16) }
    else if str_eq(s, "i32") { Some(TType::I32) }
    else if str_eq(s, "i64") { Some(TType::I64) }
    else if str_eq(s, "dbl") { Some(TType::Double) }
    else if str_eq(s, "str") { Some(TType::String) }
    else if str_eq(s, "rec") { Some(TType::Struct) }
    else if str_eq(s, "map") { Some(TType::MapT) }
    else if str_eq(s, "lst") { Some(TType::List) }
    else if str_eq(s, "set") { Some(TType::SetT) }
    else { None }
}

/// Every type that a value can have is read back from its name.
pub proof fn lemma_json_type_name_roundtrip(t: TType)
    requires
        t != TType::Stop,
        t != TType::Void,
    ensures
        ttype_of_json_name(json_type_name(t)) == Some(t),
{
    reveal_strlit("tf");
    reveal_strlit("i8");
    reveal_strlit("i16");
    reveal_strlit("i32");
    reveal_strlit("i64");
    reveal_strlit("dbl");
    reveal_strlit("str");
    reveal_strlit("rec");
    reveal_strlit("map");
    reveal_strlit("lst");
    reveal_strlit("set");
    match t {
        TType::Bool => {
            assert(ttype_of_json_name(json_type_name(t)) == Some(t));
        },
        TType::Byte => {
            assert("i8"@[0] != "tf"@[0]);
            assert("i8"@ != "tf"@);
            assert(ttype_of_json_name(json_type_name(t)) == Some(t));
        },
        TType::I16 => {
            assert("i16"@.len() != "tf"@.len());
            assert("i16"@ != "tf"@);
            assert("i16"@.len() != "i8"@.len());
            assert("i16"@ != "i8"@);
            assert(ttype_of_json_name(json_type_name(t)) == Some(t));
        },
        TType::I32 => {
            assert("i32"@.len() != "tf"@.len());
            assert("i32"@ != "tf"@);
            assert("i32"@.len() != "i8"@.len());
            assert("i32"@ != "i8"@);
            assert("i32"@[1] != "i16"@[1]);
            assert("i32"@ != "i16"@);
            assert(ttype_of_json_name(json_type_name(t)) == Some(t));
        },
        TType::I64 => {
            assert("i64"@.len() != "tf"@.len());
            assert("i64"@ != "tf"@);
            assert("i64"@.len() != "i8"@.len());
            assert("i64"@ != "i8"@);
            assert("i64"@[1] != "i16"@[1]);
            assert("i64"@ != "i16"@);
            assert("i64"@[1] != "i32"@[1]);
            assert("i64"@ != "i32"@);
            assert(ttype_of_json_name(json_type_name(t)) == Some(t));
        },
        TType::Double => {
            assert("dbl"@.len() != "tf"@.len());
            assert("dbl"@ != "tf"@);
            assert("dbl"@.len() != "i8"@.len());
            assert("dbl"@ != "i8"@);
            assert("dbl"@[0] != "i16"@[0]);
            assert("dbl"@ != "i16"@);
            assert("dbl"@[0] != "i32"@[0]);
            assert("dbl"@ != "i32"@);
            assert("dbl"@[0] != "i64"@[0]);
            assert("dbl"@ != "i64"@);
            assert(ttype_of_json_name(json_type_name(t)) == Some(t));
        },
        TType::String => {
            assert("str"@.len() != "tf"@.len());
            assert("str"@ != "tf"@);
            assert("str"@.len() != "i8"@.len());
            assert("str"@ != "i8"@);
            assert("str"@[0] != "i16"@[0]);
            assert("str"@ != "i16"@);
            assert("str"@[0] != "i32"@[0]);
            assert("str"@ != "i32"@);
            assert("str"@[0] != "i64"@[0]);
            assert("str"@ != "i64"@);
            assert("str"@[0] != "dbl"@[0]);
            assert("str"@ != "dbl"@);
            assert(ttype_of_json_name(json_type_name(t)) == Some(t));
        },
        TType::Struct => {
            assert("rec"@.len() != "tf"@.len());
            assert("rec"@ != "tf"@);
            assert("rec"@.len() != "i8"@.len());
            assert("rec"@ != "i8"@);
            assert("rec"@[0] != "i16"@[0]);
            assert("rec"@ != "i16"@);
            assert("rec"@[0] != "i32"@[0]);
            assert("rec"@ != "i32"@);
            assert("rec"@[0] != "i64"@[0]);
            assert("rec"@ != "i64"@);
            assert("rec"@[0] != "dbl"@[0]);
            assert("rec"@ != "dbl"@);
            assert("rec"@[0] != "str"@[0]);
            assert("rec"@ != "str"@);
            assert(ttype_of_json_name(json_type_name(t)) == Some(t));
        },
        TType::MapT => {
            assert("map"@.len() != "tf"@.len());
            assert("map"@ != "tf"@);
            assert("map"@.len() != "i8"@.len());
            assert("map"@ != "i8"@);
            assert("map"@[0] != "i16"@[0]);
            assert("map"@ != "i16"@);
            assert("map"@[0] != "i32"@[0]);
            assert("map"@ != "i32"@);
            assert("map"@[0] != "i64"@[0]);
            assert("map"@ != "i64"@);
            assert("map"@[0] != "dbl"@[0]);
            assert("map"@ != "dbl"@);
            assert("map"@[0] != "str"@[0]);
            assert("map"@ != "str"@);
            assert("map"@[0] != "rec"@[0]);
            assert("map"@ != "rec"@);
            assert(ttype_of_json_name(json_type_name(t)) == Some(t));
        },
        TType::List => {
            assert("lst"@.len() != "tf"@.len());
            assert("lst"@ != "tf"@);
            assert("lst"@.len() != "i8"@.len());
            assert("lst"@ != "i8"@);
            assert("lst"@[0] != "i16"@[0]);
            assert("lst"@ != "i16"@);
            assert("lst"@[0] != "i32"@[0]);
            assert("lst"@ != "i32"@);
            assert("lst"@[0] != "i64"@[0]);
            assert("lst"@ != "i64"@);
            assert("lst"@[0] != "dbl"@[0]);
            assert("lst"@ != "dbl"@);
            assert("lst"@[0] != "str"@[0]);
            assert("lst"@ != "str"@);
            assert("lst"@[0] != "rec"@[0]);
            assert("lst"@ != "rec"@);
            assert("lst"@[0] != "map"@[0]);
            assert("lst"@ != "map"@);
            assert(ttype_of_json_name(json_type_name(t)) == Some(t));
        },
        TType::SetT => {
            assert("set"@.len() != "tf"@.len());
            assert("set"@ != "tf"@);
            assert("set"@.len() != "i8"@.len());
            assert("set"@ != "i8"@);
            assert("set"@[0] != "i16"@[0]);
            assert("set"@ != "i16"@);
            assert("set"@[0] != "i32"@[0]);
            assert("set"@ != "i32"@);
            assert("set"@[0] != "i64"@[0]);
            assert("set"@ != "i64"@);
            assert("set"@[0] != "dbl"@[0]);
            assert("set"@ != "dbl"@);
            assert("set"@[1] != "str"@[1]);
            assert("set"@ != "str"@);
            assert("set"@[0] != "rec"@[0]);
            assert("set"@ != "rec"@);
            assert("set"@[0] != "map"@[0]);
            assert("set"@ != "map"@);
            assert("set"@[0] != "lst"@[0]);
            assert("set"@ != "lst"@);
            assert(ttype_of_json_name(json_type_name(t)) == Some(t));
        },
        _ => {},
    }
}

// ─── Base64 ───────────────────────────────────────────────────────────────────

/// The digit of the standard base64 alphabet with value `i` (0 to 63).
pub open spec fn b64_digit(i: int) -> char {
    if i < 26 {
        (65 + i) as char
    } else if i < 52 {
        (97 + i - 26) as char
    } else if i < 62 {
        (48 + i - 52) as char
    } else if i == 62 {
        '+'
    } else {
        '/'
    }
}

/// Standard base64 (RFC 4648, section 4) with `=` padding: each group of
/// three bytes becomes four digits of six bits each.
pub open spec fn base64_text(b: Seq<u8>) -> Seq<char>
    decreases b.len(),
{
    if b.len() == 0 {
        Seq::empty()
    } else {
        let x0 = b[0] as int;
        let x1 = if b.len() > 1 { b[1] as int } else { 0 };
        let x2 = if b.len() > 2 { b[2] as int } else { 0 };
        let c0 = b64_digit(x0 / 4);
        let c1 = b64_digit((x0 % 4) * 16 + x1 / 16);
        let c2 = b64_digit((x1 % 16) * 4 + x2 / 64);
        let c3 = b64_digit(x2 % 64);
        if b.len() == 1 {
            seq![c0, c1, '=', '=']
        } else if b.len() == 2 {
            seq![c0, c1, c2, '=']
        } else {
            seq![c0, c1, c2, c3] + base64_text(b.skip(3))
        }
    }
}

/// The length of the base64 text of `n` bytes.
pub open spec fn base64_len(n: int) -> int {
    (n / 3) * 4 + if n % 3 > 0 { 4int } else { 0int }
}

/// `base64::DecodeError`, the error of a base64 decoding.
#[verifier::external_type_specification]
#[verifier::external_body]
pub struct ExDecodeError(base64::DecodeError);

/// What the standard base64 engine decodes `text` to: the bytes whose padded
/// standard base64 text is `text`, when there are such bytes (there is at
/// most one: `lemma_base64_text_injective`).
pub open spec fn base64_standard_decode(text: Seq<char>) -> Option<Seq<u8>> {
    if exists|b: Seq<u8>| base64_text(b) == text {
        Some(choose|b: Seq<u8>| base64_text(b) == text)
    } else {
        None
    }
}

/// The base64 digits are 64 distinct characters, none of them `=`.
proof fn lemma_b64_digit(i: int, j: int)
    requires
        0 <= i < 64,
        0 <= j < 64,
    ensures
        b64_digit(i) != '=',
        b64_digit(i) == b64_digit(j) ==> i == j,
{
}

/// Three bytes are fixed by the four six-bit digits of their group.
proof fn lemma_b64_group(x0: int, x1: int, x2: int, y0: int, y1: int, y2: int)
    requires
        0 <= x0 < 256, 0 <= x1 < 256, 0 <= x2 < 256,
        0 <= y0 < 256, 0 <= y1 < 256, 0 <= y2 < 256,
        x0 / 4 == y0 / 4,
        (x0 % 4) * 16 + x1 / 16 == (y0 % 4) * 16 + y1 / 16,
        (x1 % 16) * 4 + x2 / 64 == (y1 % 16) * 4 + y2 / 64,
        x2 % 64 == y2 % 64,
    ensures
        x0 == y0,
        x1 == y1,
        x2 == y2,
{
    assert(x1 / 16 < 16 && y1 / 16 < 16 && x2 / 64 < 4 && y2 / 64 < 4);
    assert(x0 % 4 == y0 % 4);
    assert(x1 / 16 == y1 / 16);
    assert(x1 % 16 == y1 % 16);
    assert(x2 / 64 == y2 / 64);
}

/// Different bytes have different base64 texts.
pub proof fn lemma_base64_text_injective(a: Seq<u8>, b: Seq<u8>)
    requires
        base64_text(a) == base64_text(b),
    ensures
        a == b,
    decreases a.len(),
{
    let ta = base64_text(a);
    let tb = base64_text(b);
    if a.len() == 0 || b.len() == 0 {
        if a.len() != 0 || b.len() != 0 {
            assert(ta.len() != tb.len());
        }
        assert(a =~= b);
    } else {
        let x0 = a[0] as int;
        let x1 = if a.len() > 1 { a[1] as int } else { 0 };
        let x2 = if a.len() > 2 { a[2] as int } else { 0 };
        let y0 = b[0] as int;
        let y1 = if b.len() > 1 { b[1] as int } else { 0 };
        let y2 = if b.len() > 2 { b[2] as int } else { 0 };
        lemma_b64_digit(x0 / 4, y0 / 4);
        lemma_b64_digit((x0 % 4) * 16 + x1 / 16, (y0 % 4) * 16 + y1 / 16);
        lemma_b64_digit((x1 % 16) * 4 + x2 / 64, (y1 % 16) * 4 + y2 / 64);
        lemma_b64_digit(x2 % 64, y2 % 64);
        assert(ta[0] == tb[0] && ta[1] == tb[1] && ta[2] == tb[2] && ta[3] == tb[3]);
        assert((a.len() == 1) == (b.len() == 1));
        assert((a.len() == 2) == (b.len() == 2));
        if a.len() == 1 {
            lemma_b64_group(x0, 0, 0, y0, 0, 0);
            assert(a =~= b);
        } else if a.len() == 2 {
            lemma_b64_group(x0, x1, 0, y0, y1, 0);
            assert(a =~= b);
        } else {
            lemma_b64_group(x0, x1, x2, y0, y1, y2);
            assert(ta.skip(4) =~= base64_text(a.skip(3)));
            assert(tb.skip(4) =~= base64_text(b.skip(3)));
            lemma_base64_text_injective(a.skip(3), b.skip(3));
            assert(a =~= seq![a[0], a[1], a[2]] + a.skip(3));
            assert(b =~= seq![b[0], b[1], b[2]] + b.skip(3));
        }
    }
}

/// The standard engine decodes the base64 text of bytes to those bytes.
pub proof fn lemma_base64_decode_text(b: Seq<u8>)
    ensures
        base64_standard_decode(base64_text(b)) == Some(b),
{
    let t = base64_text(b);
    assert(exists|x: Seq<u8>| base64_text(x) == t);
    let c = choose|x: Seq<u8>| base64_text(x) == t;
    lemma_base64_text_injective(c, b);
}

/// `base64::engine::general_purpose::STANDARD.encode`: the padded standard
/// base64 text of the bytes. It panics when that length overflows `usize`,
/// which the `requires` leaves out.
#[verifier::external_body]
fn base64_encode_standard(bytes: &[u8]) -> (r: String)
    requires
        base64_len(bytes@.len() as int) <= usize::MAX,
    ensures
        r@ == base64_text(bytes@),
{
    base64::Engine::encode(&base64::engine::general_purpose::STANDARD, bytes)
}

/// `base64::engine::general_purpose::STANDARD.decode`: the bytes of a padded
/// standard base64 text, or an error. The engine requires canonical padding
/// and refuses trailing bits that are not zero, so it accepts exactly the
/// texts that are the padded standard base64 texts of some bytes, and gives
/// those bytes.
#[verifier::external_body]
fn base64_decode_standard(text: &str) -> (r: Result<Vec<u8>, base64::DecodeError>)
    ensures
        r is Ok <==> exists|b: Seq<u8>| base64_text(b) == text@,
        r matches Ok(v) ==> base64_text(v@) == text@,
{
    base64::Engine::decode(&base64::engine::general_purpose::STANDARD, text)
}

// ─── Writer frames ────────────────────────────────────────────────────────────

/// An open container of the writer.
pub enum WriteFrame {
    /// A message `[1, name, type, seqid, body]`, whose body is the frame above.
    Message { name: String, message_type: u8, seq_id: i32 },
    /// A struct body, and the field whose value comes next.
    Struct { obj: Vec<(String, JsonValue)>, current_field: Option<(i16, TType)> },
    /// A list or set.
    List { elem_type: TType, items: Vec<JsonValue> },
    /// A map: the pairs so far, and a key that waits for its value.
    Pairs { key_type: TType, val_type: TType, pairs: Vec<(JsonValue, JsonValue)>, pending_key: Option<JsonValue> },
}

pub enum WriteFrameView {
    Message(Seq<char>, u8, i32),
    Struct(Seq<(Seq<char>, JsonView)>, Option<(i16, TType)>),
    List(TType, Seq<JsonView>),
    Pairs(TType, TType, Seq<(JsonView, JsonView)>, Option<JsonView>),
}

pub open spec fn json_pairs_view(s: Seq<(JsonValue, JsonValue)>) -> Seq<(JsonView, JsonView)> {
    s.map_values(|p: (JsonValue, JsonValue)| (json_view(p.0), json_view(p.1)))
}

pub open spec fn opt_json_view(v: Option<JsonValue>) -> Option<JsonView> {
    match v {
        Some(x) => Some(json_view(x)),
        None => None,
    }
}

pub open spec fn write_frame_view(f: WriteFrame) -> WriteFrameView {
    match f {
        WriteFrame::Message { name, message_type, seq_id } => WriteFrameView::Message(name@, message_type, seq_id),
        WriteFrame::Struct { obj, current_field } => WriteFrameView::Struct(json_entries_view(obj@), current_field),
        WriteFrame::List { elem_type, items } => WriteFrameView::List(elem_type, json_items_view(items@)),
        WriteFrame::Pairs { key_type, val_type, pairs, pending_key } =>
            WriteFrameView::Pairs(key_type, val_type, json_pairs_view(pairs@), opt_json_view(pending_key)),
    }
}

/// The writer as the specifications see it: its open frames, the documents
/// finished so far, and the number of open structs.
#[verifier::ext_equal]
pub struct JsonWriterView {
    pub stack: Seq<WriteFrameView>,
    pub out: Seq<JsonView>,
    pub nesting: nat,
}

/// The key under which a map key is written: a string as it is, an integer
/// as its decimal text. Other keys (doubles, containers) have no key text here.
pub open spec fn key_text(k: JsonView) -> Option<Seq<char>> {
    match k {
        JsonView::String(s) => Some(s),
        JsonView::Number(JsonNumber::PosInt(u)) => Some(nat_text(u as nat)),
        JsonView::Number(JsonNumber::NegInt(i)) => Some(int_text(i as int)),
        _ => None,
    }
}

/// The object of a map's pairs, set one after the other; `None` when a key
/// has no key text.
pub open spec fn map_object(pairs: Seq<(JsonView, JsonView)>) -> Option<Seq<(Seq<char>, JsonView)>>
    decreases pairs.len(),
{
    if pairs.len() == 0 {
        Some(Seq::empty())
    } else {
        match (map_object(pairs.drop_last()), key_text(pairs.last().0)) {
            (Some(o), Some(k)) => Some(obj_insert(o, k, pairs.last().1)),
            _ => None,
        }
    }
}

pub open spec fn name_json(t: TType) -> JsonView {
    JsonView::String(json_type_name(t))
}

pub open spec fn count_json(n: nat) -> JsonView {
    JsonView::Number(JsonNumber::PosInt(n as u64))
}

/// The value of a finished frame.
pub open spec fn frame_json(f: WriteFrameView) -> Option<JsonView> {
    match f {
        WriteFrameView::Struct(obj, _) => Some(JsonView::Object(obj)),
        WriteFrameView::List(t, items) => Some(JsonView::Array(seq![name_json(t), count_json(items.len())] + items)),
        WriteFrameView::Pairs(kt, vt, pairs, _) => match map_object(pairs) {
            Some(obj) => Some(JsonView::Array(seq![
                name_json(kt), name_json(vt), count_json(obj.len()), JsonView::Object(obj),
            ])),
            None => None,
        },
        WriteFrameView::Message(name, mt, seq) => Some(JsonView::Array(seq![
            count_json(1), JsonView::String(name), count_json(mt as nat), JsonView::Number(number_of_int(seq as int)),
        ])),
    }
}

/// The writer after a value is given to its innermost frame: with no frame
/// open it is a finished document; a struct sets it as the pending field's
/// entry `[type_name, value]` (dropping it when no field is pending); a list
/// appends it; a map takes it as a key, or as the value of the waiting key;
/// a message frame drops it.
pub open spec fn push_json(s: JsonWriterView, v: JsonView) -> JsonWriterView {
    if s.stack.len() == 0 {
        JsonWriterView { out: s.out.push(v), ..s }
    } else {
        let rest = s.stack.drop_last();
        match s.stack.last() {
            WriteFrameView::Struct(obj, Some((fid, ft))) => JsonWriterView {
                stack: rest.push(WriteFrameView::Struct(
                    obj_insert(obj, int_text(fid as int), JsonView::Array(seq![name_json(ft), v])),
                    None,
                )),
                ..s
            },
            WriteFrameView::List(t, items) => JsonWriterView {
                stack: rest.push(WriteFrameView::List(t, items.push(v))),
                ..s
            },
            WriteFrameView::Pairs(kt, vt, pairs, Some(k)) => JsonWriterView {
                stack: rest.push(WriteFrameView::Pairs(kt, vt, pairs.push((k, v)), None)),
                ..s
            },
            WriteFrameView::Pairs(kt, vt, pairs, None) => JsonWriterView {
                stack: rest.push(WriteFrameView::Pairs(kt, vt, pairs, Some(v))),
                ..s
            },
            _ => s,
        }
    }
}

pub open spec fn underflow() -> ProtocolError {
    ProtocolError::Io(IoErrorKind::Other)
}

/// The error of a map key that has no key text.
pub open spec fn bad_key() -> ProtocolError {
    ProtocolError::Io(IoErrorKind::InvalidData)
}

/// Closing the innermost frame and giving its value to the frame below.
pub open spec fn json_close_frame(s: JsonWriterView) -> WriteStep<JsonWriterView> {
    if s.stack.len() == 0 {
        (Err(underflow()), s)
    } else {
        let s1 = JsonWriterView { stack: s.stack.drop_last(), ..s };
        match frame_json(s.stack.last()) {
            Some(v) => (Ok(()), push_json(s1, v)),
            None => (Err(bad_key()), s1),
        }
    }
}

pub open spec fn json_write_message_end(s: JsonWriterView) -> WriteStep<JsonWriterView> {
    if s.stack.len() == 0 {
        (Err(underflow()), s)
    } else {
        let s1 = JsonWriterView { stack: s.stack.drop_last(), ..s };
        match frame_json(s.stack.last()) {
            None => (Err(bad_key()), s1),
            Some(body) => if s1.stack.len() == 0 {
                (Err(underflow()), s1)
            } else {
                let s2 = JsonWriterView { stack: s1.stack.drop_last(), ..s1 };
                match s1.stack.last() {
                    WriteFrameView::Message(name, mt, seq) => (Ok(()), JsonWriterView {
                        out: s2.out.push(JsonView::Array(seq![
                            count_json(1), JsonView::String(name), count_json(mt as nat),
                            JsonView::Number(number_of_int(seq as int)), body,
                        ])),
                        ..s2
                    }),
                    _ => (Ok(()), s2),
                }
            },
        }
    }
}

pub open spec fn json_write_struct_end(s: JsonWriterView) -> WriteStep<JsonWriterView> {
    let s0 = JsonWriterView { nesting: if s.nesting > 0 { (s.nesting - 1) as nat } else { 0 }, ..s };
    json_close_frame(s0)
}

pub open spec fn json_write_field_begin(s: JsonWriterView, t: TType, id: i16) -> WriteStep<JsonWriterView> {
    if s.stack.len() > 0 && s.stack.last() is Struct {
        match s.stack.last() {
            WriteFrameView::Struct(obj, _) => (Ok(()), JsonWriterView {
                stack: s.stack.drop_last().push(WriteFrameView::Struct(obj, Some((id, t)))),
                ..s
            }),
            _ => (Ok(()), s),
        }
    } else {
        (Ok(()), s)
    }
}

/// A binary64 bit pattern that is not an infinity or a NaN.
pub open spec fn finite_bits(bits: u64) -> bool {
    (bits / 0x10_0000_0000_0000) % 0x800 != 0x7ff
}

/// A double is written as a number; one that is not finite as `0`.
pub open spec fn double_json(bits: u64) -> JsonView {
    JsonView::Number(if finite_bits(bits) { JsonNumber::Float(bits) } else { JsonNumber::PosInt(0) })
}

pub open spec fn json_write_binary(s: JsonWriterView, v: Seq<u8>) -> WriteStep<JsonWriterView> {
    if base64_len(v.len() as int) > usize::MAX {
        (Err(underflow()), s)
    } else {
        (Ok(()), push_json(s, JsonView::String(base64_text(v))))
    }
}

pub open spec fn push_frame(s: JsonWriterView, f: WriteFrameView) -> JsonWriterView {
    JsonWriterView { stack: s.stack.push(f), ..s }
}

// ─── Writer ───────────────────────────────────────────────────────────────────

/// Builds JSON documents from protocol calls.
pub struct JSONProtocolWriter {
    stack: Vec<WriteFrame>,
    out: Vec<JsonValue>,
    nesting: Ghost<nat>,
}

impl View for JSONProtocolWriter {
    type V = JsonWriterView;

    closed spec fn view(&self) -> JsonWriterView {
        JsonWriterView {
            stack: self.stack@.map_values(|f: WriteFrame| write_frame_view(f)),
            out: json_items_view(self.out@),
            nesting: self.nesting@,
        }
    }
}

impl JSONProtocolWriter {
    /// A writer with no open frame and no document.
    pub fn new() -> (r: JSONProtocolWriter)
        ensures
            r@.stack.len() == 0,
            r@.out.len() == 0,
            r@.nesting == 1,
    {
        let r = JSONProtocolWriter { stack: Vec::new(), out: Vec::new(), nesting: Ghost(1) };
        assert(r@.stack =~= Seq::<WriteFrameView>::empty());
        r
    }

    /// Hands out the finished documents, in the order they were finished.
    pub fn take_documents(&mut self) -> (r: Vec<JsonValue>)
        ensures
            json_items_view(r@) == old(self)@.out,
            final(self)@ == (JsonWriterView { out: Seq::empty(), ..old(self)@ }),
    {
        let mut r: Vec<JsonValue> = Vec::new();
        std::mem::swap(&mut r, &mut self.out);
        assert(json_items_view(self.out@) =~= Seq::<JsonView>::empty());
        r
    }

    proof fn lemma_view_push(&self, f: WriteFrame)
        ensures
            self.stack@.push(f).map_values(|f: WriteFrame| write_frame_view(f))
                == self@.stack.push(write_frame_view(f)),
    {
        assert(self.stack@.push(f).map_values(|f: WriteFrame| write_frame_view(f))
            =~= self@.stack.push(write_frame_view(f)));
    }

    /// Pops the innermost frame.
    fn pop_frame(&mut self) -> (r: Option<WriteFrame>)
        ensures
            old(self)@.stack.len() == 0 ==> r is None && final(self)@ == old(self)@,
            old(self)@.stack.len() > 0 ==> (r matches Some(f) && write_frame_view(f) == old(self)@.stack.last()
                && final(self)@ == (JsonWriterView { stack: old(self)@.stack.drop_last(), ..old(self)@ })),
    {
        let r = self.stack.pop();
        proof {
            if old(self)@.stack.len() > 0 {
                assert(self@.stack =~= old(self)@.stack.drop_last());
            }
        }
        r
    }

    /// Opens a frame.
    fn push_frame(&mut self, f: WriteFrame)
        ensures
            final(self)@ == push_frame(old(self)@, write_frame_view(f)),
    {
        proof {
            self.lemma_view_push(f);
        }
        self.stack.push(f);
    }

    /// Gives a value to the innermost frame.
    fn push_value(&mut self, v: JsonValue)
        ensures
            final(self)@ == push_json(old(self)@, v@),
    {
        let ghost s0 = self@;
        match self.pop_frame() {
            None => {
                let ghost o = self.out@;
                self.out.push(v);
                proof {
                    lemma_json_items_view_index(o);
                    lemma_json_items_view_index(self.out@);
                    assert(json_items_view(self.out@) =~= s0.out.push(v@));
                }
            },
            Some(f) => {
                let g = match f {
                    WriteFrame::Struct { obj, current_field } => {
                        match current_field {
                            Some((fid, ft)) => {
                                let mut obj = obj;
                                let mut entry: Vec<JsonValue> = Vec::new();
                                entry.push(JsonValue::String(ttype_to_json_name(ft)));
                                entry.push(v);
                                proof {
                                    lemma_json_items_view_index(entry@);
                                    assert(json_items_view(entry@) =~= seq![name_json(ft), v@]);
                                }
                                object_insert(&mut obj, i64_text(fid as i64), JsonValue::Array(entry));
                                WriteFrame::Struct { obj, current_field: None }
                            },
                            None => WriteFrame::Struct { obj, current_field: None },
                        }
                    },
                    WriteFrame::List { elem_type, items } => {
                        let mut items = items;
                        let ghost before = items@;
                        items.push(v);
                        proof {
                            lemma_json_items_view_index(before);
                            lemma_json_items_view_index(items@);
                            assert(json_items_view(items@) =~= json_items_view(before).push(v@));
                        }
                        WriteFrame::List { elem_type, items }
                    },
                    WriteFrame::Pairs { key_type, val_type, pairs, pending_key } => {
                        match pending_key {
                            Some(k) => {
                                let mut pairs = pairs;
                                let ghost before = pairs@;
                                pairs.push((k, v));
                                assert(json_pairs_view(pairs@) =~= json_pairs_view(before).push((k@, v@)));
                                WriteFrame::Pairs { key_type, val_type, pairs, pending_key: None }
                            },
                            None => WriteFrame::Pairs { key_type, val_type, pairs, pending_key: Some(v) },
                        }
                    },
                    WriteFrame::Message { name, message_type, seq_id } =>
                        WriteFrame::Message { name, message_type, seq_id },
                };
                self.push_frame(g);
                proof {
                    let rest = s0.stack.drop_last();
                    match s0.stack.last() {
                        WriteFrameView::Struct(_, None) => {
                            assert(rest.push(s0.stack.last()) =~= s0.stack);
                        },
                        WriteFrameView::Message(..) => {
                            assert(rest.push(s0.stack.last()) =~= s0.stack);
                        },
                        _ => {},
                    }
                }
            },
        }
    }

    /// The value of a finished frame; `None` when a map key has no key text.
    fn frame_to_value(f: WriteFrame) -> (r: Option<JsonValue>)
        ensures
            opt_json_view(r) == frame_json(write_frame_view(f)),
    {
        match f {
            WriteFrame::Struct { obj, .. } => Some(JsonValue::Object(obj)),
            WriteFrame::List { elem_type, items } => {
                let mut arr: Vec<JsonValue> = Vec::new();
                arr.push(JsonValue::String(ttype_to_json_name(elem_type)));
                arr.push(JsonValue::Number(JsonNumber::PosInt(items.len() as u64)));
                let ghost head = arr@;
                let mut items = items;
                let ghost iv = items@;
                arr.append(&mut items);
                proof {
                    lemma_json_items_view_index(iv);
                    lemma_json_items_view_index(head);
                    lemma_json_items_view_index(arr@);
                    assert(json_items_view(arr@)
                        =~= seq![name_json(elem_type), count_json(iv.len())] + json_items_view(iv));
                }
                Some(JsonValue::Array(arr))
            },
            WriteFrame::Pairs { key_type, val_type, pairs, .. } => {
                match Self::pairs_object(&pairs) {
                    Some(obj) => {
                        let n = obj.len();
                        proof {
                            lemma_json_entries_view_index(obj@);
                        }
                        let mut arr: Vec<JsonValue> = Vec::new();
                        arr.push(JsonValue::String(ttype_to_json_name(key_type)));
                        arr.push(JsonValue::String(ttype_to_json_name(val_type)));
                        arr.push(JsonValue::Number(JsonNumber::PosInt(n as u64)));
                        arr.push(JsonValue::Object(obj));
                        proof {
                            lemma_json_items_view_index(arr@);
                            assert(json_items_view(arr@) =~= seq![
                                name_json(key_type), name_json(val_type),
                                count_json(json_entries_view(obj@).len()), JsonView::Object(json_entries_view(obj@)),
                            ]);
                        }
                        Some(JsonValue::Array(arr))
                    },
                    None => None,
                }
            },
            WriteFrame::Message { name, message_type, seq_id } => {
                let mut arr: Vec<JsonValue> = Vec::new();
                arr.push(JsonValue::Number(JsonNumber::PosInt(1)));
                arr.push(JsonValue::String(name));
                arr.push(JsonValue::Number(JsonNumber::PosInt(message_type as u64)));
                arr.push(JsonValue::Number(JsonNumber::from_i64(seq_id as i64)));
                proof {
                    lemma_json_items_view_index(arr@);
                }
                let r = JsonValue::Array(arr);
                assert(json_items_view(arr@) =~= seq![
                    count_json(1), JsonView::String(name@), count_json(message_type as nat),
                    JsonView::Number(number_of_int(seq_id as int)),
                ]);
                Some(r)
            },
        }
    }

    /// The key text of a map key, if it has one.
    fn key_string(k: &JsonValue) -> (r: Option<String>)
        ensures
            match r {
                Some(s) => key_text(k@) == Some(s@),
                None => key_text(k@) is None,
            },
    {
        match k {
            JsonValue::String(s) => Some(s.clone()),
            JsonValue::Number(JsonNumber::PosInt(u)) => Some(u64_text(*u)),
            JsonValue::Number(JsonNumber::NegInt(i)) => Some(i64_text(*i)),
            _ => None,
        }
    }

    /// The object of a map's pairs.
    fn pairs_object(pairs: &Vec<(JsonValue, JsonValue)>) -> (r: Option<Vec<(String, JsonValue)>>)
        ensures
            match r {
                Some(o) => map_object(json_pairs_view(pairs@)) == Some(json_entries_view(o@)),
                None => map_object(json_pairs_view(pairs@)) is None,
            },
    {
        let ghost pv = json_pairs_view(pairs@);
        let mut obj: Vec<(String, JsonValue)> = Vec::new();
        let mut i: usize = 0;
        assert(pv.take(0) =~= Seq::<(JsonView, JsonView)>::empty());
        assert(json_entries_view(obj@) =~= Seq::<(Seq<char>, JsonView)>::empty());
        while i < pairs.len()
            invariant
                i <= pairs@.len(),
                pv == json_pairs_view(pairs@),
                pv.len() == pairs@.len(),
                map_object(pv.take(i as int)) == Some(json_entries_view(obj@)),
            decreases pairs@.len() - i,
        {
            assert(pv.take(i + 1).drop_last() =~= pv.take(i as int));
            assert(pv.take(i + 1).last() == pv[i as int]);
            match Self::key_string(&pairs[i].0) {
                Some(k) => {
                    let v = pairs[i].1.deep_copy();
                    object_insert(&mut obj, k, v);
                },
                None => {
                    proof {
                        lemma_map_object_none(pv, i as int + 1);
                        assert(pv.take(pv.len() as int) =~= pv);
                    }
                    return None;
                },
            }
            i = i + 1;
        }
        assert(pv.take(i as int) =~= pv);
        Some(obj)
    }
}

/// Once a prefix of the pairs has a key with no key text, so has every longer one.
proof fn lemma_map_object_none(pv: Seq<(JsonView, JsonView)>, i: int)
    requires
        0 <= i <= pv.len(),
        map_object(pv.take(i)) is None,
    ensures
        map_object(pv.take(pv.len() as int)) is None,
    decreases pv.len() - i,
{
    if i < pv.len() {
        assert(pv.take(i + 1).drop_last() =~= pv.take(i));
        lemma_map_object_none(pv, i + 1);
    }
}


impl JSONProtocolWriter {
    /// Closes the innermost frame and gives its value to the frame below.
    fn close_frame(&mut self) -> (r: Result<(), ProtocolError>)
        ensures
            (r, final(self)@) == json_close_frame(old(self)@),
    {
        match self.pop_frame() {
            None => Err(ProtocolError::Io(IoErrorKind::Other)),
            Some(f) => match Self::frame_to_value(f) {
                None => Err(ProtocolError::Io(IoErrorKind::InvalidData)),
                Some(v) => {
                    self.push_value(v);
                    Ok(())
                },
            },
        }
    }

    /// Gives a scalar to the innermost frame.
    fn put(&mut self, v: JsonValue) -> (r: Result<(), ProtocolError>)
        ensures
            r == Ok::<(), ProtocolError>(()),
            final(self)@ == push_json(old(self)@, v@),
    {
        self.push_value(v);
        Ok(())
    }
}

impl TOutputProtocol for JSONProtocolWriter {
    open spec fn depth(s: JsonWriterView) -> nat {
        s.nesting
    }

    open spec fn spec_write_message_begin(s: JsonWriterView, m: (Seq<char>, u8, i32)) -> WriteStep<JsonWriterView> {
        (Ok(()), push_frame(
            push_frame(s, WriteFrameView::Message(m.0, m.1, m.2)),
            WriteFrameView::Struct(Seq::empty(), None),
        ))
    }

    open spec fn spec_write_message_end(s: JsonWriterView) -> WriteStep<JsonWriterView> {
        json_write_message_end(s)
    }

    open spec fn spec_write_struct_begin(s: JsonWriterView, name: Seq<char>) -> WriteStep<JsonWriterView> {
        (Ok(()), JsonWriterView {
            nesting: s.nesting + 1,
            ..push_frame(s, WriteFrameView::Struct(Seq::empty(), None))
        })
    }

    open spec fn spec_write_struct_end(s: JsonWriterView) -> WriteStep<JsonWriterView> {
        json_write_struct_end(s)
    }

    open spec fn spec_write_field_begin(s: JsonWriterView, t: TType, id: i16) -> WriteStep<JsonWriterView> {
        json_write_field_begin(s, t, id)
    }

    open spec fn spec_write_field_end(s: JsonWriterView) -> WriteStep<JsonWriterView> {
        (Ok(()), s)
    }

    open spec fn spec_write_field_stop(s: JsonWriterView) -> WriteStep<JsonWriterView> {
        (Ok(()), s)
    }

    open spec fn spec_write_bool(s: JsonWriterView, v: bool) -> WriteStep<JsonWriterView> {
        (Ok(()), push_json(s, count_json(if v { 1 } else { 0 })))
    }

    open spec fn spec_write_byte(s: JsonWriterView, v: i8) -> WriteStep<JsonWriterView> {
        (Ok(()), push_json(s, JsonView::Number(number_of_int(v as int))))
    }

    open spec fn spec_write_i16(s: JsonWriterView, v: i16) -> WriteStep<JsonWriterView> {
        (Ok(()), push_json(s, JsonView::Number(number_of_int(v as int))))
    }

    open spec fn spec_write_i32(s: JsonWriterView, v: i32) -> WriteStep<JsonWriterView> {
        (Ok(()), push_json(s, JsonView::Number(number_of_int(v as int))))
    }

    open spec fn spec_write_i64(s: JsonWriterView, v: i64) -> WriteStep<JsonWriterView> {
        (Ok(()), push_json(s, JsonView::String(int_text(v as int))))
    }

    open spec fn spec_write_double_bits(s: JsonWriterView, v: u64) -> WriteStep<JsonWriterView> {
        (Ok(()), push_json(s, double_json(v)))
    }

    open spec fn spec_write_string(s: JsonWriterView, v: Seq<char>) -> WriteStep<JsonWriterView> {
        (Ok(()), push_json(s, JsonView::String(v)))
    }

    open spec fn spec_write_binary(s: JsonWriterView, v: Seq<u8>) -> WriteStep<JsonWriterView> {
        json_write_binary(s, v)
    }

    open spec fn spec_write_map_begin(s: JsonWriterView, m: MapBegin) -> WriteStep<JsonWriterView> {
        (Ok(()), push_frame(s, WriteFrameView::Pairs(m.key_type, m.value_type, Seq::empty(), None)))
    }

    open spec fn spec_write_map_end(s: JsonWriterView) -> WriteStep<JsonWriterView> {
        json_close_frame(s)
    }

    open spec fn spec_write_list_begin(s: JsonWriterView, l: ListBegin) -> WriteStep<JsonWriterView> {
        (Ok(()), push_frame(s, WriteFrameView::List(l.element_type, Seq::empty())))
    }

    open spec fn spec_write_list_end(s: JsonWriterView) -> WriteStep<JsonWriterView> {
        json_close_frame(s)
    }

    open spec fn spec_write_set_begin(s: JsonWriterView, l: SetBegin) -> WriteStep<JsonWriterView> {
        (Ok(()), push_frame(s, WriteFrameView::List(l.element_type, Seq::empty())))
    }

    open spec fn spec_write_set_end(s: JsonWriterView) -> WriteStep<JsonWriterView> {
        json_close_frame(s)
    }

    fn write_message_begin(&mut self, identifier: &MessageBegin) -> (r: Result<(), ProtocolError>) {
        self.push_frame(WriteFrame::Message {
            name: identifier.name.clone(),
            message_type: identifier.message_type,
            seq_id: identifier.seq_id,
        });
        let obj: Vec<(String, JsonValue)> = Vec::new();
        assert(json_entries_view(obj@) =~= Seq::<(Seq<char>, JsonView)>::empty());
        self.push_frame(WriteFrame::Struct { obj, current_field: None });
        Ok(())
    }

    fn write_message_end(&mut self) -> (r: Result<(), ProtocolError>) {
        let body_frame = match self.pop_frame() {
            Some(f) => f,
            None => return Err(ProtocolError::Io(IoErrorKind::Other)),
        };
        let body = match Self::frame_to_value(body_frame) {
            Some(v) => v,
            None => return Err(ProtocolError::Io(IoErrorKind::InvalidData)),
        };
        let msg_frame = match self.pop_frame() {
            Some(f) => f,
            None => return Err(ProtocolError::Io(IoErrorKind::Other)),
        };
        match msg_frame {
            WriteFrame::Message { name, message_type, seq_id } => {
                let mut arr: Vec<JsonValue> = Vec::new();
                arr.push(JsonValue::Number(JsonNumber::PosInt(1)));
                arr.push(JsonValue::String(name));
                arr.push(JsonValue::Number(JsonNumber::PosInt(message_type as u64)));
                arr.push(JsonValue::Number(JsonNumber::from_i64(seq_id as i64)));
                arr.push(body);
                proof {
                    lemma_json_items_view_index(arr@);
                    assert(json_items_view(arr@) =~= seq![
                        count_json(1), JsonView::String(name@), count_json(message_type as nat),
                        JsonView::Number(number_of_int(seq_id as int)), body@,
                    ]);
                }
                let ghost o = self.out@;
                self.out.push(JsonValue::Array(arr));
                proof {
                    lemma_json_items_view_index(o);
                    lemma_json_items_view_index(self.out@);
                    assert(json_items_view(self.out@) =~= json_items_view(o).push(json_view(JsonValue::Array(arr))));
                }
            },
            _ => {},
        }
        Ok(())
    }

    fn write_struct_begin(&mut self, name: &str) -> (r: Result<(), ProtocolError>) {
        let obj: Vec<(String, JsonValue)> = Vec::new();
        assert(json_entries_view(obj@) =~= Seq::<(Seq<char>, JsonView)>::empty());
        self.push_frame(WriteFrame::Struct { obj, current_field: None });
        self.nesting = Ghost(self.nesting@ + 1);
        Ok(())
    }

    fn write_struct_end(&mut self) -> (r: Result<(), ProtocolError>) {
        self.nesting = Ghost(if self.nesting@ > 0 { (self.nesting@ - 1) as nat } else { 0 });
        self.close_frame()
    }

    fn write_field_begin(&mut self, field: &FieldBegin) -> (r: Result<(), ProtocolError>) {
        let ghost s0 = self@;
        match self.pop_frame() {
            None => {},
            Some(f) => {
                let g = match f {
                    WriteFrame::Struct { obj, .. } => WriteFrame::Struct { obj, current_field: Some((field.id, field.field_type)) },
                    other => other,
                };
                self.push_frame(g);
                proof {
                    if !(s0.stack.last() is Struct) {
                        assert(s0.stack.drop_last().push(s0.stack.last()) =~= s0.stack);
                    }
                }
            },
        }
        Ok(())
    }

    fn write_field_end(&mut self) -> (r: Result<(), ProtocolError>) {
        Ok(())
    }

    fn write_field_stop(&mut self) -> (r: Result<(), ProtocolError>) {
        Ok(())
    }

    fn write_bool(&mut self, value: bool) -> (r: Result<(), ProtocolError>) {
        self.put(JsonValue::Number(JsonNumber::PosInt(if value { 1 } else { 0 })))
    }

    fn write_byte(&mut self, value: i8) -> (r: Result<(), ProtocolError>) {
        self.put(JsonValue::Number(JsonNumber::from_i64(value as i64)))
    }

    fn write_i16(&mut self, value: i16) -> (r: Result<(), ProtocolError>) {
        self.put(JsonValue::Number(JsonNumber::from_i64(value as i64)))
    }

    fn write_i32(&mut self, value: i32) -> (r: Result<(), ProtocolError>) {
        self.put(JsonValue::Number(JsonNumber::from_i64(value as i64)))
    }

    fn write_i64(&mut self, value: i64) -> (r: Result<(), ProtocolError>) {
        self.put(JsonValue::String(i64_text(value)))
    }

    fn write_double_bits(&mut self, bits: u64) -> (r: Result<(), ProtocolError>) {
        let n = if (bits / 0x10_0000_0000_0000) % 0x800 != 0x7ff {
            JsonNumber::Float(bits)
        } else {
            JsonNumber::PosInt(0)
        };
        self.put(JsonValue::Number(n))
    }

    fn write_string(&mut self, value: &str) -> (r: Result<(), ProtocolError>) {
        self.put(JsonValue::String(value.to_owned()))
    }

    fn write_binary(&mut self, value: &[u8]) -> (r: Result<(), ProtocolError>) {
        let n = value.len();
        let chunks = n / 3;
        let extra: usize = if n % 3 > 0 { 4 } else { 0 };
        if chunks > (usize::MAX - extra) / 4 {
            assert(base64_len(n as int) > usize::MAX) by (nonlinear_arith)
                requires
                    chunks == n / 3,
                    extra == (if n % 3 > 0 { 4int } else { 0int }),
                    chunks > (usize::MAX - extra) / 4,
            ;
            return Err(ProtocolError::Io(IoErrorKind::Other));
        }
        assert(base64_len(n as int) <= usize::MAX) by (nonlinear_arith)
            requires
                chunks == n / 3,
                extra == (if n % 3 > 0 { 4int } else { 0int }),
                chunks <= (usize::MAX - extra) / 4,
        ;
        self.put(JsonValue::String(base64_encode_standard(value)))
    }

    fn write_map_begin(&mut self, identifier: &MapBegin) -> (r: Result<(), ProtocolError>) {
        let pairs: Vec<(JsonValue, JsonValue)> = Vec::new();
        assert(json_pairs_view(pairs@) =~= Seq::<(JsonView, JsonView)>::empty());
        self.push_frame(WriteFrame::Pairs {
            key_type: identifier.key_type,
            val_type: identifier.value_type,
            pairs,
            pending_key: None,
        });
        Ok(())
    }

    fn write_map_end(&mut self) -> (r: Result<(), ProtocolError>) {
        self.close_frame()
    }

    fn write_list_begin(&mut self, identifier: &ListBegin) -> (r: Result<(), ProtocolError>) {
        let items: Vec<JsonValue> = Vec::new();
        assert(json_items_view(items@) =~= Seq::<JsonView>::empty());
        self.push_frame(WriteFrame::List { elem_type: identifier.element_type, items });
        Ok(())
    }

    fn write_list_end(&mut self) -> (r: Result<(), ProtocolError>) {
        self.close_frame()
    }

    fn write_set_begin(&mut self, identifier: &SetBegin) -> (r: Result<(), ProtocolError>) {
        let items: Vec<JsonValue> = Vec::new();
        assert(json_items_view(items@) =~= Seq::<JsonView>::empty());
        self.push_frame(WriteFrame::List { elem_type: identifier.element_type, items });
        Ok(())
    }

    fn write_set_end(&mut self) -> (r: Result<(), ProtocolError>) {
        self.close_frame()
    }
}


// ─── Reader frames ────────────────────────────────────────────────────────────

/// An open container of the reader, and where the reader stands in it.
pub enum ReadFrame {
    /// A struct body: its entries, the next entry, and the value of the field just begun.
    Struct { fields: Vec<(String, JsonValue)>, index: usize, current_type: Option<TType>, current_value: Option<JsonValue> },
    /// A list or set: its items and the next one.
    List { elem_type: TType, items: Vec<JsonValue>, index: usize },
    /// A map: its pairs, the next one, and whether its key comes next.
    Pairs { key_type: TType, val_type: TType, pairs: Vec<(JsonValue, JsonValue)>, index: usize, reading_key: bool },
}

pub enum ReadFrameView {
    Struct(Seq<(Seq<char>, JsonView)>, int, Option<TType>, Option<JsonView>),
    List(TType, Seq<JsonView>, int),
    Pairs(TType, TType, Seq<(JsonView, JsonView)>, int, bool),
}

pub open spec fn read_frame_view(f: ReadFrame) -> ReadFrameView {
    match f {
        ReadFrame::Struct { fields, index, current_type, current_value } =>
            ReadFrameView::Struct(json_entries_view(fields@), index as int, current_type, opt_json_view(current_value)),
        ReadFrame::List { elem_type, items, index } =>
            ReadFrameView::List(elem_type, json_items_view(items@), index as int),
        ReadFrame::Pairs { key_type, val_type, pairs, index, reading_key } =>
            ReadFrameView::Pairs(key_type, val_type, json_pairs_view(pairs@), index as int, reading_key),
    }
}

/// The reader as the specifications see it: the document not yet taken, the
/// open frames, and the number of open structs.
#[verifier::ext_equal]
pub struct JsonReaderView {
    pub root: Option<JsonView>,
    pub stack: Seq<ReadFrameView>,
    pub nesting: nat,
}

pub open spec fn opt_size(v: Option<JsonView>) -> nat {
    match v {
        Some(x) => json_size(x),
        None => 0,
    }
}

pub open spec fn pairs_size(s: Seq<(JsonView, JsonView)>) -> nat
    decreases s.len(),
{
    if s.len() == 0 {
        0
    } else {
        pairs_size(s.drop_last()) + json_size(s.last().0) + json_size(s.last().1)
    }
}

/// What a frame has left to give.
pub open spec fn frame_measure(f: ReadFrameView) -> nat {
    match f {
        ReadFrameView::Struct(fs, i, _, cv) =>
            (if 0 <= i <= fs.len() { entries_size(fs.skip(i)) } else { 0 }) + opt_size(cv),
        ReadFrameView::List(_, items, i) =>
            if 0 <= i <= items.len() { items_size(items.skip(i)) } else { 0 },
        ReadFrameView::Pairs(_, _, ps, i, rk) =>
            if 0 <= i < ps.len() {
                (if rk { json_size(ps[i].0) } else { 0 }) + json_size(ps[i].1) + pairs_size(ps.skip(i + 1))
            } else {
                0
            },
    }
}

pub open spec fn stack_measure(st: Seq<ReadFrameView>) -> nat
    decreases st.len(),
{
    if st.len() == 0 {
        0
    } else {
        stack_measure(st.drop_last()) + frame_measure(st.last())
    }
}

/// What the reader has left to give.
pub open spec fn json_remaining(s: JsonReaderView) -> nat {
    opt_size(s.root) + stack_measure(s.stack)
}

pub open spec fn with_top(s: JsonReaderView, f: ReadFrameView) -> JsonReaderView {
    JsonReaderView { stack: s.stack.drop_last().push(f), ..s }
}

pub open spec fn field_type_error() -> ProtocolError {
    ProtocolError::InvalidFieldType
}

/// The next value of the innermost frame, or the document itself when no
/// frame is open.
pub open spec fn pop_json(s: JsonReaderView) -> ReadStep<JsonView, JsonReaderView> {
    if s.stack.len() == 0 {
        match s.root {
            Some(v) => (Ok(v), JsonReaderView { root: None, ..s }),
            None => (Err(field_type_error()), s),
        }
    } else {
        match s.stack.last() {
            ReadFrameView::Struct(fs, i, ct, cv) => match cv {
                Some(v) => (Ok(v), with_top(s, ReadFrameView::Struct(fs, i, ct, None))),
                None => (Err(field_type_error()), s),
            },
            ReadFrameView::List(t, items, i) => if 0 <= i < items.len() {
                (Ok(items[i]), with_top(s, ReadFrameView::List(t, items, i + 1)))
            } else {
                (Err(field_type_error()), s)
            },
            ReadFrameView::Pairs(kt, vt, ps, i, rk) => if 0 <= i < ps.len() {
                if rk {
                    (Ok(ps[i].0), with_top(s, ReadFrameView::Pairs(kt, vt, ps, i, false)))
                } else {
                    (Ok(ps[i].1), with_top(s, ReadFrameView::Pairs(kt, vt, ps, i + 1, true)))
                }
            } else {
                (Err(field_type_error()), s)
            },
        }
    }
}

pub open spec fn str_or_empty(v: JsonView) -> Seq<char> {
    match json_as_str(v) {
        Some(t) => t,
        None => Seq::empty(),
    }
}

pub open spec fn int_or_zero(v: JsonView) -> int {
    match json_as_i64(v) {
        Some(i) => i as int,
        None => 0,
    }
}

pub open spec fn struct_frame(fs: Seq<(Seq<char>, JsonView)>) -> ReadFrameView {
    ReadFrameView::Struct(fs, 0, None, None)
}

pub open spec fn json_read_message_begin(s: JsonReaderView) -> ReadStep<(Seq<char>, u8, i32), JsonReaderView> {
    match s.root {
        None => (Err(ProtocolError::Io(IoErrorKind::InvalidData)), s),
        Some(JsonView::Array(arr)) => if arr.len() < 5 {
            (Err(ProtocolError::Io(IoErrorKind::InvalidData)), s)
        } else {
            let name = str_or_empty(arr[1]);
            let mt: u8 = match json_as_u64(arr[2]) { Some(u) => u as u8, None => 1 };
            let seq: i32 = match json_as_i64(arr[3]) { Some(i) => i as i32, None => 0 };
            let s1 = match arr[4] {
                JsonView::Object(fs) => JsonReaderView { stack: s.stack.push(struct_frame(fs)), ..s },
                _ => s,
            };
            (Ok((name, mt, seq)), s1)
        },
        Some(_) => (Err(field_type_error()), s),
    }
}

pub open spec fn pop_frame_json(s: JsonReaderView) -> JsonReaderView {
    if s.stack.len() > 0 { JsonReaderView { stack: s.stack.drop_last(), ..s } } else { s }
}

/// A struct begins at `v`, which must be an object.
pub open spec fn open_struct(s: JsonReaderView, v: JsonView) -> ReadStep<(), JsonReaderView> {
    match v {
        JsonView::Object(fs) => (Ok(()), JsonReaderView {
            stack: s.stack.push(struct_frame(fs)),
            nesting: s.nesting + 1,
            ..s
        }),
        _ => (Err(field_type_error()), s),
    }
}

pub open spec fn json_read_struct_begin(s: JsonReaderView) -> ReadStep<(), JsonReaderView> {
    if s.stack.len() == 0 {
        match s.root {
            None => (Err(ProtocolError::Io(IoErrorKind::InvalidData)), s),
            Some(v) => open_struct(JsonReaderView { root: None, ..s }, v),
        }
    } else {
        match pop_json(s) {
            (Ok(v), s1) => open_struct(s1, v),
            (Err(e), s1) => (Err(e), s1),
        }
    }
}

pub open spec fn json_read_struct_end(s: JsonReaderView) -> ReadStep<(), JsonReaderView> {
    (Ok(()), JsonReaderView {
        nesting: if s.nesting > 0 { (s.nesting - 1) as nat } else { 0 },
        ..pop_frame_json(s)
    })
}

pub open spec fn json_read_field_begin(s: JsonReaderView) -> ReadStep<(TType, i16), JsonReaderView> {
    if s.stack.len() > 0 && s.stack.last() is Struct {
        match s.stack.last() {
            ReadFrameView::Struct(fs, i, ct, cv) => if !(0 <= i < fs.len()) {
                (Ok((TType::Stop, 0i16)), s)
            } else {
                let fid: i16 = match i16_of_text(fs[i].0) { Some(n) => n, None => 0 };
                match fs[i].1 {
                    JsonView::Array(arr) => if arr.len() < 2 {
                        (Err(field_type_error()), s)
                    } else {
                        match ttype_of_json_name(str_or_empty(arr[0])) {
                            Some(t) => (Ok((t, fid)), with_top(s, ReadFrameView::Struct(fs, i + 1, Some(t), Some(arr[1])))),
                            None => (Err(field_type_error()), s),
                        }
                    },
                    _ => (Err(field_type_error()), s),
                }
            },
            _ => (Ok((TType::Stop, 0i16)), s),
        }
    } else {
        (Ok((TType::Stop, 0i16)), s)
    }
}

/// A scalar read: the next value, taken through `f`.
pub open spec fn read_json_with<T>(s: JsonReaderView, f: spec_fn(JsonView) -> T) -> ReadStep<T, JsonReaderView> {
    match pop_json(s) {
        (Ok(v), s1) => (Ok(f(v)), s1),
        (Err(e), s1) => (Err(e), s1),
    }
}

/// ASCII letters in lower case; any other character as it is.
pub open spec fn ascii_lower(c: char) -> char {
    if 'A' <= c <= 'Z' { ((c as u32) + 32) as char } else { c }
}

/// Whether `t` is `true` in any mix of cases.
pub open spec fn is_true_text(t: Seq<char>) -> bool {
    t.len() == 4 && ascii_lower(t[0]) == 't' && ascii_lower(t[1]) == 'r'
        && ascii_lower(t[2]) == 'u' && ascii_lower(t[3]) == 'e'
}

/// A bool: a nonzero integer or `true`; a string (a map key's text) is true
/// when it is `1` or `true` in any case.
pub open spec fn bool_of_json(v: JsonView) -> bool {
    match v {
        JsonView::String(t) => t == seq!['1'] || is_true_text(t),
        _ => int_or_zero(v) != 0 || json_as_bool(v) == Some(true),
    }
}

pub open spec fn i64_of_json(v: JsonView) -> i64 {
    match json_as_str(v) {
        Some(t) => match i64_of_text(t) { Some(n) => n, None => 0 },
        None => int_or_zero(v) as i64,
    }
}

/// A double: a number by its nearest binary64 value. Any other value,
/// a string among them, reads as `0.0`.
pub open spec fn double_bits_of_json(v: JsonView) -> u64 {
    match v {
        JsonView::Number(JsonNumber::PosInt(u)) => double_bits_of_int(u as int),
        JsonView::Number(JsonNumber::NegInt(i)) => double_bits_of_int(i as int),
        JsonView::Number(JsonNumber::Float(b)) => b,
        _ => 0,
    }
}

pub open spec fn json_read_binary(s: JsonReaderView) -> ReadStep<Seq<u8>, JsonReaderView> {
    match pop_json(s) {
        (Ok(v), s1) => match base64_standard_decode(str_or_empty(v)) {
            Some(b) => (Ok(b), s1),
            None => (Err(ProtocolError::Io(IoErrorKind::InvalidData)), s1),
        },
        (Err(e), s1) => (Err(e), s1),
    }
}

/// The pairs of a map object: each key as a string value.
pub open spec fn keyed_pairs(es: Seq<(Seq<char>, JsonView)>) -> Seq<(JsonView, JsonView)> {
    es.map_values(|e: (Seq<char>, JsonView)| (JsonView::String(e.0), e.1))
}

pub open spec fn json_read_map_begin(s: JsonReaderView) -> ReadStep<MapBegin, JsonReaderView> {
    match pop_json(s) {
        (Ok(JsonView::Array(arr)), s1) => if arr.len() < 4 {
            (Err(field_type_error()), s1)
        } else {
            match (ttype_of_json_name(str_or_empty(arr[0])), ttype_of_json_name(str_or_empty(arr[1])), arr[3]) {
                (Some(kt), Some(vt), JsonView::Object(es)) => (
                    Ok(MapBegin { key_type: kt, value_type: vt, size: int_or_zero(arr[2]) as i32 }),
                    JsonReaderView { stack: s1.stack.push(ReadFrameView::Pairs(kt, vt, keyed_pairs(es), 0, true)), ..s1 },
                ),
                _ => (Err(field_type_error()), s1),
            }
        },
        (Ok(_), s1) => (Err(field_type_error()), s1),
        (Err(e), s1) => (Err(e), s1),
    }
}

pub open spec fn json_read_list_begin(s: JsonReaderView) -> ReadStep<ListBegin, JsonReaderView> {
    match pop_json(s) {
        (Ok(JsonView::Array(arr)), s1) => if arr.len() < 2 {
            (Err(field_type_error()), s1)
        } else {
            match ttype_of_json_name(str_or_empty(arr[0])) {
                Some(et) => (
                    Ok(ListBegin { element_type: et, size: int_or_zero(arr[1]) as i32 }),
                    JsonReaderView { stack: s1.stack.push(ReadFrameView::List(et, arr.skip(2), 0)), ..s1 },
                ),
                None => (Err(field_type_error()), s1),
            }
        },
        (Ok(_), s1) => (Err(field_type_error()), s1),
        (Err(e), s1) => (Err(e), s1),
    }
}

pub open spec fn json_read_set_begin(s: JsonReaderView) -> ReadStep<SetBegin, JsonReaderView> {
    match json_read_list_begin(s) {
        (Ok(l), s1) => (Ok(SetBegin { element_type: l.element_type, size: l.size }), s1),
        (Err(e), s1) => (Err(e), s1),
    }
}


// ─── Measures ─────────────────────────────────────────────────────────────────

pub(crate) proof fn lemma_pairs_size_split(s: Seq<(JsonView, JsonView)>, i: int)
    requires
        0 <= i <= s.len(),
    ensures
        pairs_size(s) == pairs_size(s.take(i)) + pairs_size(s.skip(i)),
    decreases s.len(),
{
    if i < s.len() {
        lemma_pairs_size_split(s.drop_last(), i);
        assert(s.drop_last().take(i) =~= s.take(i));
        assert(s.skip(i).drop_last() =~= s.drop_last().skip(i));
        assert(s.skip(i).last() == s.last());
    } else {
        assert(s.take(i) =~= s);
        assert(s.skip(i) =~= Seq::<(JsonView, JsonView)>::empty());
    }
}

pub(crate) proof fn lemma_pairs_size_first(s: Seq<(JsonView, JsonView)>)
    requires
        s.len() > 0,
    ensures
        pairs_size(s) == json_size(s[0].0) + json_size(s[0].1) + pairs_size(s.skip(1)),
{
    lemma_pairs_size_split(s, 1);
    let t = s.take(1);
    assert(t.drop_last() =~= Seq::<(JsonView, JsonView)>::empty());
    assert(t.last() == s[0]);
    assert(pairs_size(t) == pairs_size(t.drop_last()) + json_size(t.last().0) + json_size(t.last().1));
}

/// The pairs of a map object measure what its entries do.
pub(crate) proof fn lemma_keyed_pairs_size(es: Seq<(Seq<char>, JsonView)>)
    ensures
        pairs_size(keyed_pairs(es)) == entries_size(es),
    decreases es.len(),
{
    if es.len() > 0 {
        lemma_keyed_pairs_size(es.drop_last());
        assert(keyed_pairs(es).drop_last() =~= keyed_pairs(es.drop_last()));
    }
}

/// An item of an array measures less than the array.
pub(crate) proof fn lemma_item_smaller(arr: Seq<JsonView>, i: int)
    requires
        0 <= i < arr.len(),
    ensures
        json_size(arr[i]) + items_size(arr.skip(i + 1)) <= items_size(arr),
        items_size(arr.skip(i)) <= items_size(arr),
{
    lemma_items_size_split(arr, i);
    lemma_items_size_first(arr.skip(i));
    assert(arr.skip(i).skip(1) =~= arr.skip(i + 1));
}

pub(crate) proof fn lemma_stack_push(st: Seq<ReadFrameView>, f: ReadFrameView)
    ensures
        stack_measure(st.push(f)) == stack_measure(st) + frame_measure(f),
{
    assert(st.push(f).drop_last() =~= st);
}

pub(crate) proof fn lemma_with_top(s: JsonReaderView, f: ReadFrameView)
    requires
        s.stack.len() > 0,
    ensures
        json_remaining(with_top(s, f)) + frame_measure(s.stack.last()) == json_remaining(s) + frame_measure(f),
{
    lemma_stack_push(s.stack.drop_last(), f);
}

/// What a value taken from the reader measures is what the reader loses.
pub(crate) proof fn lemma_pop_json(s: JsonReaderView)
    ensures
        pop_json(s).0 matches Ok(v) ==> json_remaining(pop_json(s).1) + json_size(v) == json_remaining(s),
        pop_json(s).0 is Err ==> pop_json(s).1 == s,
        pop_json(s).1.nesting == s.nesting,
{
    if s.stack.len() > 0 {
        match s.stack.last() {
            ReadFrameView::Struct(fs, i, ct, cv) => {
                lemma_with_top(s, ReadFrameView::Struct(fs, i, ct, None));
            },
            ReadFrameView::List(t, items, i) => {
                if 0 <= i < items.len() {
                    lemma_with_top(s, ReadFrameView::List(t, items, i + 1));
                    lemma_items_size_first(items.skip(i));
                    assert(items.skip(i).skip(1) =~= items.skip(i + 1));
                }
            },
            ReadFrameView::Pairs(kt, vt, ps, i, rk) => {
                if 0 <= i < ps.len() {
                    if rk {
                        lemma_with_top(s, ReadFrameView::Pairs(kt, vt, ps, i, false));
                    } else {
                        lemma_with_top(s, ReadFrameView::Pairs(kt, vt, ps, i + 1, true));
                        if i + 1 < ps.len() {
                            lemma_pairs_size_first(ps.skip(i + 1));
                            assert(ps.skip(i + 1).skip(1) =~= ps.skip(i + 2));
                        } else {
                            assert(ps.skip(i + 1) =~= Seq::<(JsonView, JsonView)>::empty());
                        }
                    }
                }
            },
        }
    }
}

/// Opening a struct at a value leaves less than the value measured.
pub(crate) proof fn lemma_open_struct(s: JsonReaderView, v: JsonView)
    ensures
        open_struct(s, v).0 is Ok ==> json_remaining(open_struct(s, v).1) < json_remaining(s) + json_size(v),
        open_struct(s, v).0 is Err ==> open_struct(s, v).1 == s,
{
    if let JsonView::Object(fs) = v {
        lemma_stack_push(s.stack, struct_frame(fs));
        assert(fs.skip(0) =~= fs);
    }
}

// ─── Reader ───────────────────────────────────────────────────────────────────

/// Walks one JSON document with protocol calls.
pub struct JSONProtocolReader {
    root: Option<JsonValue>,
    stack: Vec<ReadFrame>,
    nesting: Ghost<nat>,
}

impl View for JSONProtocolReader {
    type V = JsonReaderView;

    closed spec fn view(&self) -> JsonReaderView {
        JsonReaderView {
            root: opt_json_view(self.root),
            stack: self.stack@.map_values(|f: ReadFrame| read_frame_view(f)),
            nesting: self.nesting@,
        }
    }
}

impl JSONProtocolReader {
    /// A reader of the document `document`, with no frame open.
    pub fn new(document: JsonValue) -> (r: JSONProtocolReader)
        ensures
            r@.root == Some(document@),
            r@.stack.len() == 0,
            r@.nesting == 1,
    {
        let r = JSONProtocolReader { root: Some(document), stack: Vec::new(), nesting: Ghost(1) };
        assert(r@.stack =~= Seq::<ReadFrameView>::empty());
        r
    }

    /// Opens a frame.
    fn push_frame(&mut self, f: ReadFrame)
        ensures
            final(self)@ == (JsonReaderView { stack: old(self)@.stack.push(read_frame_view(f)), ..old(self)@ }),
    {
        self.stack.push(f);
        assert(self@.stack =~= old(self)@.stack.push(read_frame_view(f)));
    }

    /// Takes the innermost frame off.
    fn pop_frame(&mut self) -> (r: Option<ReadFrame>)
        ensures
            old(self)@.stack.len() == 0 ==> r is None && final(self)@ == old(self)@,
            old(self)@.stack.len() > 0 ==> (r matches Some(f) && read_frame_view(f) == old(self)@.stack.last()
                && final(self)@ == (JsonReaderView { stack: old(self)@.stack.drop_last(), ..old(self)@ })),
    {
        let r = self.stack.pop();
        proof {
            if old(self)@.stack.len() > 0 {
                assert(self@.stack =~= old(self)@.stack.drop_last());
            }
        }
        r
    }

    /// The next value of the innermost frame, or the document when no frame is open.
    fn pop_scalar(&mut self) -> (r: Result<JsonValue, ProtocolError>)
        ensures
            (pres(r), final(self)@) == pop_json(old(self)@),
    {
        let ghost s0 = self@;
        match self.pop_frame() {
            None => match self.root.take() {
                Some(v) => Ok(v),
                None => Err(ProtocolError::InvalidFieldType),
            },
            Some(f) => match f {
                ReadFrame::Struct { fields, index, current_type, current_value } => match current_value {
                    Some(v) => {
                        self.push_frame(ReadFrame::Struct { fields, index, current_type, current_value: None });
                        Ok(v)
                    },
                    None => {
                        self.push_frame(ReadFrame::Struct { fields, index, current_type, current_value: None });
                        proof {
                            assert(s0.stack.drop_last().push(s0.stack.last()) =~= s0.stack);
                        }
                        Err(ProtocolError::InvalidFieldType)
                    },
                },
                ReadFrame::List { elem_type, items, index } => {
                    proof {
                        lemma_json_items_view_index(items@);
                    }
                    if index < items.len() {
                        let v = items[index].deep_copy();
                        self.push_frame(ReadFrame::List { elem_type, items, index: index + 1 });
                        Ok(v)
                    } else {
                        self.push_frame(ReadFrame::List { elem_type, items, index });
                        proof {
                            assert(s0.stack.drop_last().push(s0.stack.last()) =~= s0.stack);
                        }
                        Err(ProtocolError::InvalidFieldType)
                    }
                },
                ReadFrame::Pairs { key_type, val_type, pairs, index, reading_key } => {
                    if index < pairs.len() {
                        if reading_key {
                            let v = pairs[index].0.deep_copy();
                            self.push_frame(ReadFrame::Pairs { key_type, val_type, pairs, index, reading_key: false });
                            Ok(v)
                        } else {
                            let v = pairs[index].1.deep_copy();
                            self.push_frame(ReadFrame::Pairs { key_type, val_type, pairs, index: index + 1, reading_key: true });
                            Ok(v)
                        }
                    } else {
                        self.push_frame(ReadFrame::Pairs { key_type, val_type, pairs, index, reading_key });
                        proof {
                            assert(s0.stack.drop_last().push(s0.stack.last()) =~= s0.stack);
                        }
                        Err(ProtocolError::InvalidFieldType)
                    }
                },
            },
        }
    }

    /// Begins a struct at `v`, which must be an object.
    fn open_struct(&mut self, v: JsonValue) -> (r: Result<(), ProtocolError>)
        ensures
            (r, final(self)@) == open_struct(old(self)@, v@),
    {
        match v {
            JsonValue::Object(fields) => {
                self.push_frame(ReadFrame::Struct { fields, index: 0, current_type: None, current_value: None });
                self.nesting = Ghost(self.nesting@ + 1);
                Ok(())
            },
            _ => Err(ProtocolError::InvalidFieldType),
        }
    }

    /// The pairs of a map object, each key as a string value.
    fn object_pairs(es: &Vec<(String, JsonValue)>) -> (r: Vec<(JsonValue, JsonValue)>)
        ensures
            json_pairs_view(r@) == keyed_pairs(json_entries_view(es@)),
    {
        proof {
            lemma_json_entries_view_index(es@);
        }
        let mut r: Vec<(JsonValue, JsonValue)> = Vec::new();
        let mut i: usize = 0;
        while i < es.len()
            invariant
                i <= es@.len(),
                r@.len() == i,
                json_entries_view(es@).len() == es@.len(),
                forall|j: int| 0 <= j < es@.len() ==> #[trigger] json_entries_view(es@)[j] == (es@[j].0@, json_view(es@[j].1)),
                forall|j: int| 0 <= j < i ==> json_view((#[trigger] r@[j]).0) == JsonView::String(es@[j].0@)
                    && json_view(r@[j].1) == json_view(es@[j].1),
            decreases es@.len() - i,
        {
            let k = es[i].0.clone();
            let v = es[i].1.deep_copy();
            r.push((JsonValue::String(k), v));
            i = i + 1;
        }
        assert(json_pairs_view(r@) =~= keyed_pairs(json_entries_view(es@)));
        r
    }
}


/// An integer: a number's value, or the decimal text of a string (a map
/// key's text); `0` for anything else.
fn json_integer(v: &JsonValue) -> (r: i64)
    ensures
        r == i64_of_json(v@),
{
    match v {
        JsonValue::String(t) => match parse_i64_text(t.as_str()) {
            Some(x) => x,
            None => 0,
        },
        _ => match v.as_i64() {
            Some(x) => x,
            None => 0,
        },
    }
}

/// Whether a text is `true` in any mix of cases.
fn true_text(t: &str) -> (r: bool)
    ensures
        r == is_true_text(t@),
{
    let cs = crate::parser::lexer::chars_of(t);
    if cs.len() != 4 {
        return false;
    }
    let want = ['t', 'r', 'u', 'e'];
    let mut i: usize = 0;
    while i < 4
        invariant
            cs@ == t@,
            cs@.len() == 4,
            i <= 4,
            want@ == seq!['t', 'r', 'u', 'e'],
            forall|j: int| 0 <= j < i ==> ascii_lower(cs@[j]) == want@[j],
        decreases 4 - i,
    {
        let c = cs[i];
        let l: char = if 'A' <= c && c <= 'Z' { ((c as u32) + 32) as u8 as char } else { c };
        assert(l == ascii_lower(c));
        if l != want[i] {
            return false;
        }
        i = i + 1;
    }
    true
}

/// A bool, as `bool_of_json` reads it.
fn json_bool(v: &JsonValue) -> (r: bool)
    ensures
        r == bool_of_json(v@),
{
    match v {
        JsonValue::String(t) => {
            proof {
                reveal_strlit("1");
                assert("1"@ =~= seq!['1']);
            }
            str_eq(t.as_str(), "1") || true_text(t.as_str())
        },
        _ => {
            let n: i64 = match v.as_i64() {
                Some(x) => x,
                None => 0,
            };
            let b: bool = match v.as_bool() {
                Some(x) => x,
                None => false,
            };
            n != 0 || b
        },
    }
}

impl TInputProtocol for JSONProtocolReader {
    open spec fn remaining(s: JsonReaderView) -> nat {
        json_remaining(s)
    }

    open spec fn depth(s: JsonReaderView) -> nat {
        s.nesting
    }

    open spec fn spec_read_message_begin(s: JsonReaderView) -> ReadStep<(Seq<char>, u8, i32), JsonReaderView> {
        json_read_message_begin(s)
    }

    open spec fn spec_read_message_end(s: JsonReaderView) -> ReadStep<(), JsonReaderView> {
        (Ok(()), pop_frame_json(s))
    }

    open spec fn spec_read_struct_begin(s: JsonReaderView) -> ReadStep<(), JsonReaderView> {
        json_read_struct_begin(s)
    }

    open spec fn spec_read_struct_end(s: JsonReaderView) -> ReadStep<(), JsonReaderView> {
        json_read_struct_end(s)
    }

    open spec fn spec_read_field_begin(s: JsonReaderView) -> ReadStep<(TType, i16), JsonReaderView> {
        json_read_field_begin(s)
    }

    open spec fn spec_read_field_end(s: JsonReaderView) -> ReadStep<(), JsonReaderView> {
        (Ok(()), s)
    }

    open spec fn spec_read_bool(s: JsonReaderView) -> ReadStep<bool, JsonReaderView> {
        read_json_with(s, |v: JsonView| bool_of_json(v))
    }

    open spec fn spec_read_byte(s: JsonReaderView) -> ReadStep<i8, JsonReaderView> {
        read_json_with(s, |v: JsonView| i64_of_json(v) as i8)
    }

    open spec fn spec_read_i16(s: JsonReaderView) -> ReadStep<i16, JsonReaderView> {
        read_json_with(s, |v: JsonView| i64_of_json(v) as i16)
    }

    open spec fn spec_read_i32(s: JsonReaderView) -> ReadStep<i32, JsonReaderView> {
        read_json_with(s, |v: JsonView| i64_of_json(v) as i32)
    }

    open spec fn spec_read_i64(s: JsonReaderView) -> ReadStep<i64, JsonReaderView> {
        read_json_with(s, |v: JsonView| i64_of_json(v))
    }

    open spec fn spec_read_double_bits(s: JsonReaderView) -> ReadStep<u64, JsonReaderView> {
        read_json_with(s, |v: JsonView| double_bits_of_json(v))
    }

    open spec fn spec_read_string(s: JsonReaderView) -> ReadStep<Seq<char>, JsonReaderView> {
        read_json_with(s, |v: JsonView| str_or_empty(v))
    }

    open spec fn spec_read_binary(s: JsonReaderView) -> ReadStep<Seq<u8>, JsonReaderView> {
        json_read_binary(s)
    }

    open spec fn spec_read_map_begin(s: JsonReaderView) -> ReadStep<MapBegin, JsonReaderView> {
        json_read_map_begin(s)
    }

    open spec fn spec_read_map_end(s: JsonReaderView) -> ReadStep<(), JsonReaderView> {
        (Ok(()), pop_frame_json(s))
    }

    open spec fn spec_read_list_begin(s: JsonReaderView) -> ReadStep<ListBegin, JsonReaderView> {
        json_read_list_begin(s)
    }

    open spec fn spec_read_list_end(s: JsonReaderView) -> ReadStep<(), JsonReaderView> {
        (Ok(()), pop_frame_json(s))
    }

    open spec fn spec_read_set_begin(s: JsonReaderView) -> ReadStep<SetBegin, JsonReaderView> {
        json_read_set_begin(s)
    }

    open spec fn spec_read_set_end(s: JsonReaderView) -> ReadStep<(), JsonReaderView> {
        (Ok(()), pop_frame_json(s))
    }

    fn read_message_begin(&mut self) -> (r: Result<MessageBegin, ProtocolError>) {
        let (name, message_type, seq_id, body) = match &self.root {
            None => return Err(ProtocolError::Io(IoErrorKind::InvalidData)),
            Some(JsonValue::Array(arr)) => {
                proof {
                    lemma_json_items_view_index(arr@);
                }
                if arr.len() < 5 {
                    return Err(ProtocolError::Io(IoErrorKind::InvalidData));
                }
                let name = arr[1].str_or_empty();
                let mt: u8 = match arr[2].as_u64() {
                    Some(u) => u as u8,
                    None => 1,
                };
                let seq: i32 = match arr[3].as_i64() {
                    Some(i) => i as i32,
                    None => 0,
                };
                (name, mt, seq, arr[4].deep_copy())
            },
            Some(_) => return Err(ProtocolError::InvalidFieldType),
        };
        match body {
            JsonValue::Object(fields) => {
                self.push_frame(ReadFrame::Struct { fields, index: 0, current_type: None, current_value: None });
            },
            _ => {},
        }
        Ok(MessageBegin { name, message_type, seq_id })
    }

    fn read_message_end(&mut self) -> (r: Result<(), ProtocolError>) {
        let _ = self.pop_frame();
        Ok(())
    }

    fn read_struct_begin(&mut self) -> (r: Result<(), ProtocolError>) {
        let ghost s0 = self@;
        if self.stack.len() == 0 {
            match self.root.take() {
                None => Err(ProtocolError::Io(IoErrorKind::InvalidData)),
                Some(v) => {
                    proof {
                        lemma_open_struct(self@, v@);
                    }
                    self.open_struct(v)
                },
            }
        } else {
            proof {
                lemma_pop_json(s0);
            }
            match self.pop_scalar() {
                Ok(v) => {
                    proof {
                        lemma_open_struct(self@, v@);
                    }
                    self.open_struct(v)
                },
                Err(e) => Err(e),
            }
        }
    }

    fn read_struct_end(&mut self) -> (r: Result<(), ProtocolError>) {
        let _ = self.pop_frame();
        self.nesting = Ghost(if self.nesting@ > 0 { (self.nesting@ - 1) as nat } else { 0 });
        Ok(())
    }

    fn read_field_begin(&mut self) -> (r: Result<FieldBegin, ProtocolError>) {
        let ghost s0 = self@;
        let stop = FieldBegin { name: None, field_type: TType::Stop, id: 0 };
        match self.pop_frame() {
            None => Ok(stop),
            Some(ReadFrame::Struct { fields, index, current_type, current_value }) => {
                proof {
                    lemma_json_entries_view_index(fields@);
                }
                if index >= fields.len() {
                    self.push_frame(ReadFrame::Struct { fields, index, current_type, current_value });
                    proof {
                        assert(s0.stack.drop_last().push(s0.stack.last()) =~= s0.stack);
                    }
                    return Ok(stop);
                }
                let fid: i16 = match parse_i16_text(fields[index].0.as_str()) {
                    Some(n) => n,
                    None => 0,
                };
                let found: Option<(TType, JsonValue)> = match &fields[index].1 {
                    JsonValue::Array(arr) => {
                        proof {
                            lemma_json_items_view_index(arr@);
                        }
                        if arr.len() < 2 {
                            None
                        } else {
                            let tname = arr[0].str_or_empty();
                            match json_name_to_ttype(tname.as_str()) {
                                Some(t) => Some((t, arr[1].deep_copy())),
                                None => None,
                            }
                        }
                    },
                    _ => None,
                };
                let ghost fs = json_entries_view(fields@);
                let ghost i = index as int;
                match found {
                    Some((t, val)) => {
                        proof {
                            let f_old = ReadFrameView::Struct(fs, i, current_type, opt_json_view(current_value));
                            let f_new = ReadFrameView::Struct(fs, i + 1, Some(t), Some(val@));
                            lemma_with_top(s0, f_new);
                            lemma_entries_size_first(fs.skip(i));
                            assert(fs.skip(i).skip(1) =~= fs.skip(i + 1));
                            if let JsonView::Array(arr) = fs[i].1 {
                                lemma_item_smaller(arr, 1);
                            }
                        }
                        self.push_frame(ReadFrame::Struct { fields, index: index + 1, current_type: Some(t), current_value: Some(val) });
                        Ok(FieldBegin { name: None, field_type: t, id: fid })
                    },
                    None => {
                        self.push_frame(ReadFrame::Struct { fields, index, current_type, current_value });
                        proof {
                            assert(s0.stack.drop_last().push(s0.stack.last()) =~= s0.stack);
                        }
                        Err(ProtocolError::InvalidFieldType)
                    },
                }
            },
            Some(other) => {
                self.push_frame(other);
                proof {
                    assert(s0.stack.drop_last().push(s0.stack.last()) =~= s0.stack);
                }
                Ok(stop)
            },
        }
    }

    fn read_field_end(&mut self) -> (r: Result<(), ProtocolError>) {
        Ok(())
    }

    fn read_bool(&mut self) -> (r: Result<bool, ProtocolError>) {
        proof {
            lemma_pop_json(self@);
        }
        match self.pop_scalar() {
            Ok(v) => {
                Ok(json_bool(&v))
            },
            Err(e) => Err(e),
        }
    }

    fn read_byte(&mut self) -> (r: Result<i8, ProtocolError>) {
        proof {
            lemma_pop_json(self@);
        }
        match self.pop_scalar() {
            Ok(v) => {
                let n: i64 = json_integer(&v);
                Ok(n as i8)
            },
            Err(e) => Err(e),
        }
    }

    fn read_i16(&mut self) -> (r: Result<i16, ProtocolError>) {
        proof {
            lemma_pop_json(self@);
        }
        match self.pop_scalar() {
            Ok(v) => {
                let n: i64 = json_integer(&v);
                Ok(n as i16)
            },
            Err(e) => Err(e),
        }
    }

    fn read_i32(&mut self) -> (r: Result<i32, ProtocolError>) {
        proof {
            lemma_pop_json(self@);
        }
        match self.pop_scalar() {
            Ok(v) => {
                let n: i64 = json_integer(&v);
                Ok(n as i32)
            },
            Err(e) => Err(e),
        }
    }

    fn read_i64(&mut self) -> (r: Result<i64, ProtocolError>) {
        proof {
            lemma_pop_json(self@);
        }
        match self.pop_scalar() {
            Ok(v) => {
                Ok(json_integer(&v))
            },
            Err(e) => Err(e),
        }
    }

    fn read_double_bits(&mut self) -> (r: Result<u64, ProtocolError>) {
        proof {
            lemma_pop_json(self@);
        }
        match self.pop_scalar() {
            Ok(v) => {
                let b: u64 = match v {
                    JsonValue::Number(JsonNumber::PosInt(u)) => u64_to_double_bits(u),
                    JsonValue::Number(JsonNumber::NegInt(i)) => i64_to_double_bits(i),
                    JsonValue::Number(JsonNumber::Float(x)) => x,
                    _ => 0,
                };
                Ok(b)
            },
            Err(e) => Err(e),
        }
    }

    fn read_string(&mut self) -> (r: Result<String, ProtocolError>) {
        proof {
            lemma_pop_json(self@);
        }
        match self.pop_scalar() {
            Ok(v) => Ok(v.str_or_empty()),
            Err(e) => Err(e),
        }
    }

    fn read_binary(&mut self) -> (r: Result<Vec<u8>, ProtocolError>) {
        proof {
            lemma_pop_json(self@);
        }
        match self.pop_scalar() {
            Ok(v) => {
                let text = v.str_or_empty();
                match base64_decode_standard(text.as_str()) {
                    Ok(b) => {
                        proof { lemma_base64_decode_text(b@); }
                        Ok(b)
                    },
                    Err(_) => Err(ProtocolError::Io(IoErrorKind::InvalidData)),
                }
            },
            Err(e) => Err(e),
        }
    }

    fn read_map_begin(&mut self) -> (r: Result<MapBegin, ProtocolError>) {
        let ghost s0 = self@;
        proof {
            lemma_pop_json(s0);
        }
        let v = match self.pop_scalar() {
            Ok(v) => v,
            Err(e) => return Err(e),
        };
        let ghost s1 = self@;
        match v {
            JsonValue::Array(arr) => {
                proof {
                    lemma_json_items_view_index(arr@);
                }
                if arr.len() < 4 {
                    return Err(ProtocolError::InvalidFieldType);
                }
                let kname = arr[0].str_or_empty();
                let vname = arr[1].str_or_empty();
                let kt = json_name_to_ttype(kname.as_str());
                let vt = json_name_to_ttype(vname.as_str());
                match (kt, vt) {
                    (Some(kt), Some(vt)) => match &arr[3] {
                        JsonValue::Object(es) => {
                            let size: i64 = match arr[2].as_i64() {
                                Some(x) => x,
                                None => 0,
                            };
                            let pairs = Self::object_pairs(es);
                            proof {
                                let av = json_items_view(arr@);
                                let ev = json_entries_view(es@);
                                lemma_keyed_pairs_size(ev);
                                lemma_item_smaller(av, 3);
                                lemma_stack_push(s1.stack, ReadFrameView::Pairs(kt, vt, keyed_pairs(ev), 0, true));
                                if ev.len() > 0 {
                                    lemma_pairs_size_first(keyed_pairs(ev));
                                    assert(keyed_pairs(ev).skip(0int + 1) =~= keyed_pairs(ev).skip(1));
                                }
                            }
                            self.push_frame(ReadFrame::Pairs { key_type: kt, val_type: vt, pairs, index: 0, reading_key: true });
                            Ok(MapBegin { key_type: kt, value_type: vt, size: size as i32 })
                        },
                        _ => Err(ProtocolError::InvalidFieldType),
                    },
                    _ => Err(ProtocolError::InvalidFieldType),
                }
            },
            _ => Err(ProtocolError::InvalidFieldType),
        }
    }

    fn read_map_end(&mut self) -> (r: Result<(), ProtocolError>) {
        let _ = self.pop_frame();
        Ok(())
    }

    fn read_list_begin(&mut self) -> (r: Result<ListBegin, ProtocolError>) {
        let ghost s0 = self@;
        proof {
            lemma_pop_json(s0);
        }
        let v = match self.pop_scalar() {
            Ok(v) => v,
            Err(e) => return Err(e),
        };
        let ghost s1 = self@;
        match v {
            JsonValue::Array(arr) => {
                proof {
                    lemma_json_items_view_index(arr@);
                }
                if arr.len() < 2 {
                    return Err(ProtocolError::InvalidFieldType);
                }
                let ename = arr[0].str_or_empty();
                match json_name_to_ttype(ename.as_str()) {
                    Some(et) => {
                        let size: i64 = match arr[1].as_i64() {
                            Some(x) => x,
                            None => 0,
                        };
                        let ghost av = json_items_view(arr@);
                        let mut arr = arr;
                        let items = arr.split_off(2);
                        proof {
                            lemma_json_items_view_index(items@);
                            assert(json_items_view(items@) =~= av.skip(2));
                            lemma_items_size_split(av, 2);
                            lemma_stack_push(s1.stack, ReadFrameView::List(et, av.skip(2), 0));
                            assert(av.skip(2).skip(0) =~= av.skip(2));
                        }
                        self.push_frame(ReadFrame::List { elem_type: et, items, index: 0 });
                        Ok(ListBegin { element_type: et, size: size as i32 })
                    },
                    None => Err(ProtocolError::InvalidFieldType),
                }
            },
            _ => Err(ProtocolError::InvalidFieldType),
        }
    }

    fn read_list_end(&mut self) -> (r: Result<(), ProtocolError>) {
        let _ = self.pop_frame();
        Ok(())
    }

    fn read_set_begin(&mut self) -> (r: Result<SetBegin, ProtocolError>) {
        match self.read_list_begin() {
            Ok(l) => Ok(SetBegin { element_type: l.element_type, size: l.size }),
            Err(e) => Err(e),
        }
    }

    fn read_set_end(&mut self) -> (r: Result<(), ProtocolError>) {
        let _ = self.pop_frame();
        Ok(())
    }
}


// ─── Laws ─────────────────────────────────────────────────────────────────────

/// Each scalar that the writer gives a frame is read back as that scalar: a
/// bool, an integer of each width, a string, and a finite double.
pub proof fn lemma_json_scalar_roundtrip(
    b: bool,
    x8: i8,
    x16: i16,
    x32: i32,
    x64: i64,
    text: Seq<char>,
    bits: u64,
)
    ensures
        bool_of_json(count_json(if b { 1 } else { 0 })) == b,
        i64_of_json(JsonView::Number(number_of_int(x8 as int))) as i8 == x8,
        i64_of_json(JsonView::Number(number_of_int(x16 as int))) as i16 == x16,
        i64_of_json(JsonView::Number(number_of_int(x32 as int))) as i32 == x32,
        i64_of_json(JsonView::String(int_text(x64 as int))) == x64,
        str_or_empty(JsonView::String(text)) == text,
        finite_bits(bits) ==> double_bits_of_json(double_json(bits)) == bits,
{
    super::text::lemma_i64_text_roundtrip(x64);
}


// ─── Text ─────────────────────────────────────────────────────────────────────

/// `serde_json::Value`, the documents that `serde_json` parses and prints.
#[verifier::external_type_specification]
#[verifier::external_body]
pub struct ExSerdeValue(serde_json::Value);

/// The document that `serde_json` parses from `text`, when it accepts it.
pub uninterp spec fn json_parse_text(text: Seq<char>) -> Option<JsonView>;

/// The text that `serde_json` prints for the document `v`.
pub uninterp spec fn json_print_text(v: JsonView) -> Seq<char>;

/// `serde_json::Number`.
#[verifier::external_type_specification]
#[verifier::external_body]
pub struct ExSerdeNumber(serde_json::Number);

/// A `serde_json` number: one that fits a `u64` or an `i64` as that integer,
/// any other as the bit pattern of its binary64 value.
#[verifier::external_body]
fn json_number_from_serde(n: &serde_json::Number) -> JsonNumber {
    match (n.as_u64(), n.as_i64()) {
        (Some(u), _) => JsonNumber::PosInt(u),
        (None, Some(i)) => JsonNumber::NegInt(i),
        (None, None) => JsonNumber::Float(n.as_f64().map_or(0u64, |x| x.to_bits())),
    }
}

/// A number as a `serde_json` number; a binary64 that JSON cannot hold (not
/// finite) becomes 0, as the protocol's writer of doubles leaves it.
#[verifier::external_body]
fn json_number_to_serde(x: &JsonNumber) -> serde_json::Number {
    match x {
        JsonNumber::PosInt(u) => serde_json::Number::from(*u),
        JsonNumber::NegInt(i) => serde_json::Number::from(*i),
        JsonNumber::Float(bits) => serde_json::Number::from_f64(byteorder::BigEndian::read_f64(&bits.to_be_bytes()))
            .unwrap_or_else(|| serde_json::Number::from(0i64)),
    }
}

/// A `serde_json` value as a document, node for node.
#[verifier::external_body]
fn json_from_serde(v: &serde_json::Value) -> JsonValue {
    match v {
        serde_json::Value::Null => JsonValue::Null,
        serde_json::Value::Bool(b) => JsonValue::Bool(*b),
        serde_json::Value::Number(n) => JsonValue::Number(json_number_from_serde(n)),
        serde_json::Value::String(t) => JsonValue::String(t.clone()),
        serde_json::Value::Array(items) => JsonValue::Array(items.iter().map(json_from_serde).collect()),
        serde_json::Value::Object(o) => JsonValue::Object(o.iter().map(|(k, x)| (k.clone(), json_from_serde(x))).collect()),
    }
}

/// A document as a `serde_json` value, node for node.
#[verifier::external_body]
fn json_to_serde(v: &JsonValue) -> serde_json::Value {
    match v {
        JsonValue::Null => serde_json::Value::Null,
        JsonValue::Bool(b) => serde_json::Value::Bool(*b),
        JsonValue::Number(x) => serde_json::Value::Number(json_number_to_serde(x)),
        JsonValue::String(t) => serde_json::Value::String(t.clone()),
        JsonValue::Array(items) => serde_json::Value::Array(items.iter().map(json_to_serde).collect()),
        JsonValue::Object(e) => serde_json::Value::Object(e.iter().map(|(k, x)| (k.clone(), json_to_serde(x))).collect()),
    }
}

/// `serde_json::from_str` into a `serde_json::Value`: the document of a JSON
/// text, or `None` when `serde_json` refuses the text. What it accepts and
/// what it gives are named, not stated.
#[verifier::external_body]
pub fn parse_json_text(text: &str) -> (r: Option<JsonValue>)
    ensures
        r matches Some(v) ==> json_parse_text(text@) == Some(v@),
        r is None ==> json_parse_text(text@) is None,
{
    serde_json::from_str::<serde_json::Value>(text).ok().map(|v| json_from_serde(&v))
}

/// `serde_json::to_string` of a document: its compact JSON text. Printing a
/// `serde_json::Value` does not fail. What it prints is named, not stated.
#[verifier::external_body]
pub fn json_text(doc: &JsonValue) -> (r: String)
    ensures
        r@ == json_print_text(doc@),
{
    serde_json::to_string(&json_to_serde(doc)).unwrap_or_default()
}

impl JSONProtocolReader {
    /// A reader of the document that the bytes `data` hold as UTF-8 JSON
    /// text, or `None` when they are not UTF-8 or `serde_json` refuses the
    /// text.
    pub fn from_text(data: Vec<u8>) -> (r: Option<JSONProtocolReader>)
        ensures
            r is Some <==> valid_utf8(data@) && json_parse_text(decode_utf8(data@)) is Some,
            r matches Some(rd) ==> {
                &&& rd@.root == json_parse_text(decode_utf8(data@))
                &&& rd@.stack.len() == 0
                &&& rd@.nesting == 1
            },
    {
        let ghost bytes = data@;
        let text = match string_from_utf8(data) {
            Some(t) => t,
            None => return None,
        };
        match parse_json_text(text.as_str()) {
            Some(doc) => Some(JSONProtocolReader::new(doc)),
            None => None,
        }
    }
}

impl JSONProtocolWriter {
    /// Hands out the text of each finished document, in the order they were
    /// finished.
    pub fn take_texts(&mut self) -> (r: Vec<String>)
        ensures
            r@.len() == old(self)@.out.len(),
            forall|i: int| 0 <= i < r@.len() ==> #[trigger] r@[i]@ == json_print_text(old(self)@.out[i]),
            final(self)@ == (JsonWriterView { out: Seq::empty(), ..old(self)@ }),
    {
        let docs = self.take_documents();
        proof { lemma_json_items_view_index(docs@); }
        let mut r: Vec<String> = Vec::new();
        let mut i: usize = 0;
        while i < docs.len()
            invariant
                i <= docs@.len(),
                r@.len() == i,
                forall|j: int| 0 <= j < i ==> #[trigger] r@[j]@ == json_print_text(docs@[j]@),
            decreases docs@.len() - i,
        {
            r.push(json_text(&docs[i]));
            i = i + 1;
        }
        r
    }
}

} // verus!
