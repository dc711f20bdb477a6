//! Calls and replies through the Binary and Compact protocols: what a server
//! decodes of the call a client wrote, and what a client decodes of the reply
//! or the application exception a server wrote.

use vstd::prelude::*;
use vstd::utf8::encode_utf8;
use crate::codec::{spec_read_struct_fields, type_ttype, SpecValueError};
use crate::parser::ast::{SpecField, SpecMethod, SpecStruct, SpecType, SpecValue};
use crate::parser::names::{assoc_get, assoc_insert, lemma_assoc_index_from_bounds};
use crate::protocol::binary::{
    BinaryProtocolReader, BinaryProtocolWriter, bin_enc_message_begin, bin_enc_field_begin,
    bin_enc_field_stop, bin_enc_string, bin_enc_i32, lemma_bin_message_begin_roundtrip,
    lemma_bin_field_begin_roundtrip, lemma_bin_field_stop_reads_stop, lemma_bin_string_roundtrip,
    lemma_bin_i32_roundtrip, MESSAGE_TYPE_CALL, MESSAGE_TYPE_EXCEPTION, MESSAGE_TYPE_REPLY,
};
use crate::protocol::types::{ProtocolError, TType};
use crate::roundtrip::{bin_carries, bin_value_bytes, distinct_fields, lemma_binary_read_value, lemma_binary_write_value, lemma_last_id};
use crate::protocol::compact::{
    CompactProtocolReader, CompactProtocolWriter, compact_enc_message_begin, compact_enc_field_header,
    compact_enc_string, compact_enc_varint32, nibble_of_ttype, nibble_bool, lemma_nibble_roundtrip,
    lemma_compact_message_begin_roundtrip, lemma_compact_field_header_roundtrip,
    lemma_compact_string_roundtrip, lemma_compact_varint32_roundtrip,
};
use crate::roundtrip::{cpt_value_bytes, lemma_compact_read_value, lemma_compact_write_value};
use crate::codec::{spec_read_value, spec_write_value};
use crate::rpc::{
    spec_exception_reply, spec_decode_reply, spec_reply, spec_app_exception, spec_call_args, spec_call_frame,
    spec_decode_request, spec_declared_exception, first_method_from, is_void, SpecReply, declared_field_type,
};

verus! {

/// The Binary bytes of an application exception.
pub open spec fn bin_exception_bytes(name: Seq<char>, seq_id: i32, kind: i32, msg: Seq<char>) -> Seq<u8> {
    bin_enc_message_begin(name, MESSAGE_TYPE_EXCEPTION, seq_id)
        + bin_enc_field_begin(TType::String, 1) + bin_enc_string(msg)
        + bin_enc_field_begin(TType::I32, 2) + bin_enc_i32(kind)
        + bin_enc_field_stop()
}

/// The Binary bytes of a reply that returns `v` (nothing for a method that
/// returns nothing).
pub open spec fn bin_reply_bytes(
    name: Seq<char>,
    seq_id: i32,
    return_type: SpecType,
    v: SpecValue,
    structs: Seq<(Seq<char>, SpecStruct)>,
) -> Seq<u8> {
    bin_enc_message_begin(name, MESSAGE_TYPE_REPLY, seq_id)
        + (if is_void(return_type) {
            Seq::empty()
        } else {
            bin_enc_field_begin(type_ttype(return_type), 0) + bin_value_bytes(v, structs)
        })
        + bin_enc_field_stop()
}

/// Writing an application exception with the Binary protocol appends its bytes.
pub proof fn lemma_binary_write_exception_reply(name: Seq<char>, seq_id: i32, kind: i32, msg: Seq<char>, b: Seq<u8>, d: nat)
    ensures
        spec_exception_reply::<BinaryProtocolWriter>((b, d), name, seq_id, kind, msg)
            == (Ok::<(), ProtocolError>(()), (b + bin_exception_bytes(name, seq_id, kind, msg), d)),
{
    assert(b + bin_enc_message_begin(name, MESSAGE_TYPE_EXCEPTION, seq_id)
        + bin_enc_field_begin(TType::String, 1) + bin_enc_string(msg)
        + bin_enc_field_begin(TType::I32, 2) + bin_enc_i32(kind)
        + bin_enc_field_stop() =~= b + bin_exception_bytes(name, seq_id, kind, msg));
}

/// An application exception that a server writes is what a client reads of
/// the reply, whatever the method returns: its text and its kind, with the
/// bytes after it left unread.
#[verifier::rlimit(60)]
pub proof fn lemma_binary_read_exception_reply(
    name: Seq<char>,
    seq_id: i32,
    kind: i32,
    msg: Seq<char>,
    return_type: SpecType,
    exceptions: Seq<SpecField>,
    structs: Seq<(Seq<char>, SpecStruct)>,
    tail: Seq<u8>,
    d: nat,
)
    requires
        encode_utf8(name).len() <= i32::MAX,
        encode_utf8(msg).len() <= i32::MAX,
    ensures
        spec_decode_reply::<BinaryProtocolReader>((bin_exception_bytes(name, seq_id, kind, msg) + tail, d), return_type, exceptions, structs)
            == (Ok::<SpecReply, SpecValueError>(SpecReply::ApplicationException(msg, kind)), (tail, d)),
{
    let body = bin_enc_field_begin(TType::String, 1) + bin_enc_string(msg)
        + bin_enc_field_begin(TType::I32, 2) + bin_enc_i32(kind) + bin_enc_field_stop();
    let r1 = body + tail;
    let s = bin_exception_bytes(name, seq_id, kind, msg) + tail;
    assert(s =~= bin_enc_message_begin(name, MESSAGE_TYPE_EXCEPTION, seq_id) + r1);
    lemma_bin_message_begin_roundtrip(name, MESSAGE_TYPE_EXCEPTION, seq_id, r1);
    lemma_binary_exception_body(kind, msg, tail, d);
}

/// The body of an application exception reads as its text and kind.
proof fn lemma_binary_exception_body(kind: i32, msg: Seq<char>, tail: Seq<u8>, d: nat)
    requires
        encode_utf8(msg).len() <= i32::MAX,
    ensures
        spec_app_exception::<BinaryProtocolReader>(
            (bin_enc_field_begin(TType::String, 1) + bin_enc_string(msg)
                + bin_enc_field_begin(TType::I32, 2) + bin_enc_i32(kind) + bin_enc_field_stop() + tail, d),
            Seq::empty(),
            0,
        ) == (Ok::<(Seq<char>, i32), ProtocolError>((msg, kind)), (tail, d)),
{
    let r5 = bin_enc_field_stop() + tail;
    let r3 = bin_enc_field_begin(TType::I32, 2) + bin_enc_i32(kind) + r5;
    let r1 = bin_enc_field_begin(TType::String, 1) + bin_enc_string(msg) + r3;
    assert(bin_enc_field_begin(TType::String, 1) + bin_enc_string(msg)
        + bin_enc_field_begin(TType::I32, 2) + bin_enc_i32(kind) + bin_enc_field_stop() + tail =~= r1);
    lemma_bin_field_stop_reads_stop(tail);
    lemma_binary_exception_kind(kind, msg, r5, d);
    lemma_binary_exception_text(msg, r3, d);
}

/// The kind field of an application exception's body is read as its kind.
#[verifier::rlimit(30)]
proof fn lemma_binary_exception_kind(kind: i32, msg: Seq<char>, rest: Seq<u8>, d: nat)
    ensures
        spec_app_exception::<BinaryProtocolReader>((bin_enc_field_begin(TType::I32, 2) + bin_enc_i32(kind) + rest, d), msg, 0)
            == spec_app_exception::<BinaryProtocolReader>((rest, d), msg, kind),
{
    let r4 = bin_enc_i32(kind) + rest;
    assert(bin_enc_field_begin(TType::I32, 2) + bin_enc_i32(kind) + rest =~= bin_enc_field_begin(TType::I32, 2) + r4);
    lemma_bin_field_begin_roundtrip(TType::I32, 2, r4);
    lemma_bin_i32_roundtrip(kind, rest);
}

/// The text field of an application exception's body is read as its text.
#[verifier::rlimit(30)]
proof fn lemma_binary_exception_text(msg: Seq<char>, rest: Seq<u8>, d: nat)
    requires
        encode_utf8(msg).len() <= i32::MAX,
    ensures
        spec_app_exception::<BinaryProtocolReader>((bin_enc_field_begin(TType::String, 1) + bin_enc_string(msg) + rest, d), Seq::empty(), 0)
            == spec_app_exception::<BinaryProtocolReader>((rest, d), msg, 0),
{
    let r2 = bin_enc_string(msg) + rest;
    assert(bin_enc_field_begin(TType::String, 1) + bin_enc_string(msg) + rest =~= bin_enc_field_begin(TType::String, 1) + r2);
    lemma_bin_field_begin_roundtrip(TType::String, 1, r2);
    lemma_bin_string_roundtrip(msg, rest);
}

/// Writing a reply with the Binary protocol appends its bytes.
pub proof fn lemma_binary_write_reply(
    name: Seq<char>,
    seq_id: i32,
    return_type: SpecType,
    v: SpecValue,
    structs: Seq<(Seq<char>, SpecStruct)>,
    b: Seq<u8>,
    d: nat,
)
    ensures
        spec_reply::<BinaryProtocolWriter>((b, d), name, seq_id, return_type, v, structs)
            == (Ok::<(), ProtocolError>(()), (b + bin_reply_bytes(name, seq_id, return_type, v, structs), d)),
{
    let b1 = b + bin_enc_message_begin(name, MESSAGE_TYPE_REPLY, seq_id);
    if is_void(return_type) {
        assert(b1 + bin_enc_field_stop() =~= b + bin_reply_bytes(name, seq_id, return_type, v, structs));
    } else {
        let b2 = b1 + bin_enc_field_begin(type_ttype(return_type), 0);
        lemma_binary_write_value(v, structs, b2, d);
        assert(b2 + bin_value_bytes(v, structs) + bin_enc_field_stop() =~= b + bin_reply_bytes(name, seq_id, return_type, v, structs));
    }
}

/// The reply that a server writes for a method that returns `v` is what a
/// client reads of it: nothing for a method that returns nothing, else `v`,
/// when the Binary protocol carries `v` exactly as a value of the return
/// type; the field stop that ends the reply and what follows are left unread.
pub proof fn lemma_binary_read_reply(
    name: Seq<char>,
    seq_id: i32,
    return_type: SpecType,
    exceptions: Seq<SpecField>,
    v: SpecValue,
    structs: Seq<(Seq<char>, SpecStruct)>,
    tail: Seq<u8>,
    d: nat,
)
    requires
        encode_utf8(name).len() <= i32::MAX,
        !is_void(return_type) ==> bin_carries(v, return_type, structs),
    ensures
        spec_decode_reply::<BinaryProtocolReader>((bin_reply_bytes(name, seq_id, return_type, v, structs) + tail, d), return_type, exceptions, structs)
            == (Ok::<SpecReply, SpecValueError>(if is_void(return_type) { SpecReply::Void } else { SpecReply::Value(v) }),
                (if is_void(return_type) { tail } else { bin_enc_field_stop() + tail }, d)),
{
    let s = bin_reply_bytes(name, seq_id, return_type, v, structs) + tail;
    let after = bin_enc_field_stop() + tail;
    if is_void(return_type) {
        assert(s =~= bin_enc_message_begin(name, MESSAGE_TYPE_REPLY, seq_id) + after);
        lemma_bin_message_begin_roundtrip(name, MESSAGE_TYPE_REPLY, seq_id, after);
        lemma_bin_field_stop_reads_stop(tail);
    } else {
        let t = type_ttype(return_type);
        let r2 = bin_value_bytes(v, structs) + after;
        let r1 = bin_enc_field_begin(t, 0) + r2;
        assert(s =~= bin_enc_message_begin(name, MESSAGE_TYPE_REPLY, seq_id) + r1);
        lemma_bin_message_begin_roundtrip(name, MESSAGE_TYPE_REPLY, seq_id, r1);
        assert(t != TType::Stop);
        lemma_bin_field_begin_roundtrip(t, 0, r2);
        lemma_binary_read_value(v, return_type, structs, after, d);
    }
}

/// The Binary bytes of a reply that carries a declared exception `v` under
/// the exception's field id.
pub open spec fn bin_declared_exception_bytes(
    name: Seq<char>,
    seq_id: i32,
    exception_field: SpecField,
    v: SpecValue,
    structs: Seq<(Seq<char>, SpecStruct)>,
) -> Seq<u8> {
    bin_enc_message_begin(name, MESSAGE_TYPE_REPLY, seq_id)
        + bin_enc_field_begin(type_ttype(exception_field.field_type), exception_field.id)
        + bin_value_bytes(v, structs) + bin_enc_field_stop()
}

/// A declared exception that a server writes with the Binary protocol, under
/// a field id other than 0, is decoded by a client of a method that declares
/// that exception as a service exception of that field id, holding the value
/// read with the exception's own declared type: `v` itself when the protocol
/// carries `v` exactly as a value of that type.
#[verifier::rlimit(40)]
pub proof fn lemma_binary_declared_exception_roundtrip(
    name: Seq<char>,
    seq_id: i32,
    exception_field: SpecField,
    v: SpecValue,
    return_type: SpecType,
    exceptions: Seq<SpecField>,
    structs: Seq<(Seq<char>, SpecStruct)>,
    before: Seq<u8>,
    dw: nat,
    tail: Seq<u8>,
    dr: nat,
)
    requires
        encode_utf8(name).len() <= i32::MAX,
        exception_field.id != 0,
        declared_field_type(exceptions, exception_field.id, return_type) == exception_field.field_type,
        bin_carries(v, exception_field.field_type, structs),
    ensures
        spec_declared_exception::<BinaryProtocolWriter>((before, dw), name, seq_id, exception_field, v, structs).0 is Ok,
        spec_decode_reply::<BinaryProtocolReader>(
            (spec_declared_exception::<BinaryProtocolWriter>((before, dw), name, seq_id, exception_field, v, structs).1.0.skip(
                before.len() as int,
            ) + tail, dr),
            return_type,
            exceptions,
            structs,
        ) == (
            Ok::<SpecReply, SpecValueError>(SpecReply::ServiceException(exception_field.id, v)),
            (bin_enc_field_stop() + tail, dr),
        ),
{
    let t = type_ttype(exception_field.field_type);
    let bytes = bin_declared_exception_bytes(name, seq_id, exception_field, v, structs);
    let b1 = before + bin_enc_message_begin(name, MESSAGE_TYPE_REPLY, seq_id) + bin_enc_field_begin(t, exception_field.id);
    lemma_binary_write_value(v, structs, b1, dw);
    assert(b1 + bin_value_bytes(v, structs) + bin_enc_field_stop() =~= before + bytes);
    assert((before + bytes).skip(before.len() as int) =~= bytes);
    let after = bin_enc_field_stop() + tail;
    let r2 = bin_value_bytes(v, structs) + after;
    let r1 = bin_enc_field_begin(t, exception_field.id) + r2;
    assert(bytes + tail =~= bin_enc_message_begin(name, MESSAGE_TYPE_REPLY, seq_id) + r1);
    lemma_bin_message_begin_roundtrip(name, MESSAGE_TYPE_REPLY, seq_id, r1);
    assert(t != TType::Stop);
    lemma_bin_field_begin_roundtrip(t, exception_field.id, r2);
    lemma_binary_read_value(v, exception_field.field_type, structs, after, dr);
}

// ─── Calls ────────────────────────────────────────────────────────────────────

/// The Binary bytes of the argument fields of a call from the `k`-th
/// argument on: each argument that `values` holds, under its id.
pub open spec fn bin_call_args_bytes(
    args: Seq<SpecField>,
    values: Seq<(Seq<char>, SpecValue)>,
    k: int,
    structs: Seq<(Seq<char>, SpecStruct)>,
) -> Seq<u8>
    decreases args.len() - k,
{
    if k < 0 || k >= args.len() {
        Seq::empty()
    } else {
        match assoc_get(values, args[k].name) {
            None => bin_call_args_bytes(args, values, k + 1, structs),
            Some(v) => bin_enc_field_begin(type_ttype(args[k].field_type), args[k].id) + bin_value_bytes(v, structs)
                + bin_call_args_bytes(args, values, k + 1, structs),
        }
    }
}

/// The Binary bytes of a call.
pub open spec fn bin_call_bytes(
    name: Seq<char>,
    seq_id: i32,
    args: Seq<SpecField>,
    values: Seq<(Seq<char>, SpecValue)>,
    structs: Seq<(Seq<char>, SpecStruct)>,
) -> Seq<u8> {
    bin_enc_message_begin(name, MESSAGE_TYPE_CALL, seq_id) + bin_call_args_bytes(args, values, 0, structs)
        + bin_enc_field_stop()
}

/// The arguments that `values` holds, from the `k`-th argument on, each
/// under its name, in the order of the arguments.
pub open spec fn given_args(args: Seq<SpecField>, values: Seq<(Seq<char>, SpecValue)>, k: int) -> Seq<(Seq<char>, SpecValue)>
    decreases args.len() - k,
{
    if k < 0 || k >= args.len() {
        Seq::empty()
    } else {
        match assoc_get(values, args[k].name) {
            None => given_args(args, values, k + 1),
            Some(v) => seq![(args[k].name, v)] + given_args(args, values, k + 1),
        }
    }
}

/// Whether the Binary protocol carries each argument that `values` holds
/// exactly, as a value of the argument's type.
pub open spec fn bin_carries_args(args: Seq<SpecField>, values: Seq<(Seq<char>, SpecValue)>, structs: Seq<(Seq<char>, SpecStruct)>) -> bool {
    forall|j: int| 0 <= j < args.len() ==> match #[trigger] assoc_get(values, args[j].name) {
        Some(x) => bin_carries(x, args[j].field_type, structs),
        None => true,
    }
}

/// Writing the argument fields with the Binary protocol appends their bytes.
pub proof fn lemma_binary_write_call_args(
    args: Seq<SpecField>,
    values: Seq<(Seq<char>, SpecValue)>,
    k: int,
    structs: Seq<(Seq<char>, SpecStruct)>,
    b: Seq<u8>,
    d: nat,
)
    ensures
        spec_call_args::<BinaryProtocolWriter>((b, d), args, values, k, structs)
            == (Ok::<(), ProtocolError>(()), (b + bin_call_args_bytes(args, values, k, structs), d)),
    decreases args.len() - k,
{
    if 0 <= k < args.len() {
        match assoc_get(values, args[k].name) {
            None => {
                lemma_binary_write_call_args(args, values, k + 1, structs, b, d);
            },
            Some(v) => {
                let b1 = b + bin_enc_field_begin(type_ttype(args[k].field_type), args[k].id);
                lemma_binary_write_value(v, structs, b1, d);
                let b2 = b1 + bin_value_bytes(v, structs);
                lemma_binary_write_call_args(args, values, k + 1, structs, b2, d);
                assert(b2 + bin_call_args_bytes(args, values, k + 1, structs) =~= b + bin_call_args_bytes(args, values, k, structs));
            },
        }
    } else {
        assert(b + Seq::<u8>::empty() =~= b);
    }
}

/// Writing a call with the Binary protocol appends its bytes.
pub proof fn lemma_binary_write_call(
    name: Seq<char>,
    seq_id: i32,
    args: Seq<SpecField>,
    values: Seq<(Seq<char>, SpecValue)>,
    structs: Seq<(Seq<char>, SpecStruct)>,
    b: Seq<u8>,
    d: nat,
)
    ensures
        spec_call_frame::<BinaryProtocolWriter>((b, d), name, seq_id, args, values, structs)
            == (Ok::<(), ProtocolError>(()), (b + bin_call_bytes(name, seq_id, args, values, structs), d)),
{
    let b1 = b + bin_enc_message_begin(name, MESSAGE_TYPE_CALL, seq_id);
    lemma_binary_write_call_args(args, values, 0, structs, b1, d);
    assert(b1 + bin_call_args_bytes(args, values, 0, structs) + bin_enc_field_stop() =~= b + bin_call_bytes(name, seq_id, args, values, structs));
}

#[verifier::rlimit(40)]
proof fn lemma_binary_read_call_args(
    args: Seq<SpecField>,
    values: Seq<(Seq<char>, SpecValue)>,
    structs: Seq<(Seq<char>, SpecStruct)>,
    k: int,
    acc: Seq<(Seq<char>, SpecValue)>,
    tail: Seq<u8>,
    d: nat,
)
    requires
        distinct_fields(args),
        bin_carries_args(args, values, structs),
        0 <= k <= args.len(),
        forall|x: int, j: int| 0 <= x < acc.len() && k <= j < args.len() ==> #[trigger] acc[x].0 != #[trigger] args[j].name,
    ensures
        spec_read_struct_fields::<BinaryProtocolReader>(
            (bin_call_args_bytes(args, values, k, structs) + bin_enc_field_stop() + tail, d),
            args,
            structs,
            acc,
        ) == (Ok::<Seq<(Seq<char>, SpecValue)>, SpecValueError>(acc + given_args(args, values, k)), (tail, d)),
    decreases args.len() - k,
{
    if k < args.len() {
        let name = args[k].name;
        match assoc_get(values, name) {
            None => {
                lemma_binary_read_call_args(args, values, structs, k + 1, acc, tail, d);
            },
            Some(v) => {
                let t = type_ttype(args[k].field_type);
                let id = args[k].id;
                let after = bin_call_args_bytes(args, values, k + 1, structs) + bin_enc_field_stop() + tail;
                let vb = bin_value_bytes(v, structs) + after;
                let s = bin_call_args_bytes(args, values, k, structs) + bin_enc_field_stop() + tail;
                assert(s =~= bin_enc_field_begin(t, id) + vb);
                assert(t != TType::Stop);
                lemma_bin_field_begin_roundtrip(t, id, vb);
                lemma_last_id(args, k, args.len() as int);
                assert(bin_carries(v, args[k].field_type, structs));
                lemma_binary_read_value(v, args[k].field_type, structs, after, d);
                lemma_assoc_index_from_bounds(acc, name, 0);
                assert forall|x: int| 0 <= x < acc.len() implies acc[x].0 != name by {
                    assert(acc[x].0 != args[k].name);
                }
                let acc2 = acc.push((name, v));
                assert(assoc_insert(acc, name, v) =~= acc2);
                assert forall|x: int, j: int| 0 <= x < acc2.len() && k + 1 <= j < args.len()
                    implies #[trigger] acc2[x].0 != #[trigger] args[j].name by {
                    if x < acc.len() {
                        assert(acc2[x] == acc[x]);
                        assert(acc[x].0 != args[j].name);
                    } else {
                        assert(args[k].name != args[j].name);
                    }
                }
                assert(spec_read_struct_fields::<BinaryProtocolReader>((s, d), args, structs, acc)
                    == spec_read_struct_fields::<BinaryProtocolReader>((after, d), args, structs, acc2));
                lemma_binary_read_call_args(args, values, structs, k + 1, acc2, tail, d);
                assert(acc2 + given_args(args, values, k + 1) =~= acc + given_args(args, values, k));
            },
        }
    } else {
        lemma_bin_field_stop_reads_stop(tail);
        assert(acc + given_args(args, values, k) =~= acc);
        assert(bin_call_args_bytes(args, values, k, structs) + bin_enc_field_stop() + tail =~= bin_enc_field_stop() + tail);
    }
}

/// A call that a client writes is what a server decodes of it: the call's
/// header, the method it names (the service's first method of that name),
/// and the arguments given, each under its name in the order of the
/// method's arguments, when the method's arguments have distinct ids and
/// names and the Binary protocol carries each argument given exactly; the
/// bytes after the call are left unread.
pub proof fn lemma_binary_read_call(
    name: Seq<char>,
    seq_id: i32,
    ms: Seq<SpecMethod>,
    i: int,
    values: Seq<(Seq<char>, SpecValue)>,
    structs: Seq<(Seq<char>, SpecStruct)>,
    tail: Seq<u8>,
    d: nat,
)
    requires
        encode_utf8(name).len() <= i32::MAX,
        0 <= i < ms.len(),
        first_method_from(ms, name, 0) == Some(i),
        distinct_fields(ms[i].arguments),
        bin_carries_args(ms[i].arguments, values, structs),
    ensures
        spec_decode_request::<BinaryProtocolReader>(
            (bin_call_bytes(name, seq_id, ms[i].arguments, values, structs) + tail, d),
            ms,
            structs,
        ) == (
            Ok::<((Seq<char>, u8, i32), Option<(int, Seq<(Seq<char>, SpecValue)>)>), SpecValueError>(
                ((name, MESSAGE_TYPE_CALL, seq_id), Some((i, given_args(ms[i].arguments, values, 0)))),
            ),
            (tail, d),
        ),
{
    let args = ms[i].arguments;
    let rest = bin_call_args_bytes(args, values, 0, structs) + bin_enc_field_stop() + tail;
    let s = bin_call_bytes(name, seq_id, args, values, structs) + tail;
    assert(s =~= bin_enc_message_begin(name, MESSAGE_TYPE_CALL, seq_id) + rest);
    lemma_bin_message_begin_roundtrip(name, MESSAGE_TYPE_CALL, seq_id, rest);
    lemma_binary_read_call_args(args, values, structs, 0, Seq::empty(), tail, d);
    assert(Seq::<(Seq<char>, SpecValue)>::empty() + given_args(args, values, 0) =~= given_args(args, values, 0));
}

// ─── From writer to reader ────────────────────────────────────────────────────

/// A call that a client writes with the Binary protocol is decoded by a
/// server as written: writing it succeeds, and decoding the bytes it added,
/// whatever follows them, gives the call's header, the method it names and
/// the arguments given (see `lemma_binary_read_call`), leaving what follows.
pub proof fn lemma_binary_call_roundtrip(
    name: Seq<char>,
    seq_id: i32,
    ms: Seq<SpecMethod>,
    i: int,
    values: Seq<(Seq<char>, SpecValue)>,
    structs: Seq<(Seq<char>, SpecStruct)>,
    before: Seq<u8>,
    dw: nat,
    tail: Seq<u8>,
    dr: nat,
)
    requires
        encode_utf8(name).len() <= i32::MAX,
        0 <= i < ms.len(),
        first_method_from(ms, name, 0) == Some(i),
        distinct_fields(ms[i].arguments),
        bin_carries_args(ms[i].arguments, values, structs),
    ensures
        spec_call_frame::<BinaryProtocolWriter>((before, dw), name, seq_id, ms[i].arguments, values, structs).0 is Ok,
        spec_decode_request::<BinaryProtocolReader>(
            (spec_call_frame::<BinaryProtocolWriter>((before, dw), name, seq_id, ms[i].arguments, values, structs).1.0.skip(
                before.len() as int,
            ) + tail, dr),
            ms,
            structs,
        ) == (
            Ok::<((Seq<char>, u8, i32), Option<(int, Seq<(Seq<char>, SpecValue)>)>), SpecValueError>(
                ((name, MESSAGE_TYPE_CALL, seq_id), Some((i, given_args(ms[i].arguments, values, 0)))),
            ),
            (tail, dr),
        ),
{
    let bytes = bin_call_bytes(name, seq_id, ms[i].arguments, values, structs);
    lemma_binary_write_call(name, seq_id, ms[i].arguments, values, structs, before, dw);
    assert((before + bytes).skip(before.len() as int) =~= bytes);
    lemma_binary_read_call(name, seq_id, ms, i, values, structs, tail, dr);
}

/// A reply that a server writes with the Binary protocol is decoded by a
/// client as written: nothing for a method that returns nothing, else the
/// value returned, when the protocol carries it exactly as a value of the
/// return type.
pub proof fn lemma_binary_reply_roundtrip(
    name: Seq<char>,
    seq_id: i32,
    return_type: SpecType,
    exceptions: Seq<SpecField>,
    v: SpecValue,
    structs: Seq<(Seq<char>, SpecStruct)>,
    before: Seq<u8>,
    dw: nat,
    tail: Seq<u8>,
    dr: nat,
)
    requires
        encode_utf8(name).len() <= i32::MAX,
        !is_void(return_type) ==> bin_carries(v, return_type, structs),
    ensures
        spec_reply::<BinaryProtocolWriter>((before, dw), name, seq_id, return_type, v, structs).0 is Ok,
        spec_decode_reply::<BinaryProtocolReader>(
            (spec_reply::<BinaryProtocolWriter>((before, dw), name, seq_id, return_type, v, structs).1.0.skip(
                before.len() as int,
            ) + tail, dr),
            return_type,
            exceptions,
            structs,
        ).0 == Ok::<SpecReply, SpecValueError>(if is_void(return_type) { SpecReply::Void } else { SpecReply::Value(v) }),
{
    let bytes = bin_reply_bytes(name, seq_id, return_type, v, structs);
    lemma_binary_write_reply(name, seq_id, return_type, v, structs, before, dw);
    assert((before + bytes).skip(before.len() as int) =~= bytes);
    lemma_binary_read_reply(name, seq_id, return_type, exceptions, v, structs, tail, dr);
}

/// An application exception that a server writes with the Binary protocol
/// is decoded by a client as written, whatever the method returns: its text
/// and its kind.
pub proof fn lemma_binary_exception_reply_roundtrip(
    name: Seq<char>,
    seq_id: i32,
    kind: i32,
    msg: Seq<char>,
    return_type: SpecType,
    exceptions: Seq<SpecField>,
    structs: Seq<(Seq<char>, SpecStruct)>,
    before: Seq<u8>,
    dw: nat,
    tail: Seq<u8>,
    dr: nat,
)
    requires
        encode_utf8(name).len() <= i32::MAX,
        encode_utf8(msg).len() <= i32::MAX,
    ensures
        spec_exception_reply::<BinaryProtocolWriter>((before, dw), name, seq_id, kind, msg).0 is Ok,
        spec_decode_reply::<BinaryProtocolReader>(
            (spec_exception_reply::<BinaryProtocolWriter>((before, dw), name, seq_id, kind, msg).1.0.skip(
                before.len() as int,
            ) + tail, dr),
            return_type,
            exceptions,
            structs,
        ) == (Ok::<SpecReply, SpecValueError>(SpecReply::ApplicationException(msg, kind)), (tail, dr)),
{
    let bytes = bin_exception_bytes(name, seq_id, kind, msg);
    lemma_binary_write_exception_reply(name, seq_id, kind, msg, before, dw);
    assert((before + bytes).skip(before.len() as int) =~= bytes);
    lemma_binary_read_exception_reply(name, seq_id, kind, msg, return_type, exceptions, structs, tail, dr);
}

// ─── The Compact protocol ─────────────────────────────────────────────────────

/// The Compact header and value of an argument or result field with id `id`
/// after a field with id `last`: a bool in the header's type nibble, any
/// other value after a header of its declared type.
pub open spec fn cpt_field_bytes(t: SpecType, v: SpecValue, id: i16, last: i16, structs: Seq<(Seq<char>, SpecStruct)>) -> Seq<u8> {
    match v {
        SpecValue::Bool(b) => compact_enc_field_header(if b { 1u8 } else { 2u8 }, id, last),
        _ => compact_enc_field_header(nibble_of_ttype(type_ttype(t)), id, last) + cpt_value_bytes(v, structs),
    }
}

/// The Compact bytes of the argument fields of a call from the `k`-th
/// argument on, after a field with id `last`.
pub open spec fn cpt_call_args_bytes(
    args: Seq<SpecField>,
    values: Seq<(Seq<char>, SpecValue)>,
    k: int,
    last: i16,
    structs: Seq<(Seq<char>, SpecStruct)>,
) -> Seq<u8>
    decreases args.len() - k,
{
    if k < 0 || k >= args.len() {
        Seq::empty()
    } else {
        match assoc_get(values, args[k].name) {
            None => cpt_call_args_bytes(args, values, k + 1, last, structs),
            Some(v) => cpt_field_bytes(args[k].field_type, v, args[k].id, last, structs)
                + cpt_call_args_bytes(args, values, k + 1, args[k].id, structs),
        }
    }
}

/// The id of the last argument field written from the `k`-th argument on,
/// after a field with id `last`.
pub open spec fn cpt_call_args_last(args: Seq<SpecField>, values: Seq<(Seq<char>, SpecValue)>, k: int, last: i16) -> i16
    decreases args.len() - k,
{
    if k < 0 || k >= args.len() {
        last
    } else {
        match assoc_get(values, args[k].name) {
            None => cpt_call_args_last(args, values, k + 1, last),
            Some(v) => cpt_call_args_last(args, values, k + 1, args[k].id),
        }
    }
}

/// Writing one field of a carried value with the Compact protocol appends
/// its header and value, and records its id as the last.
proof fn lemma_compact_write_field(
    t: SpecType,
    v: SpecValue,
    id: i16,
    structs: Seq<(Seq<char>, SpecStruct)>,
    b: Seq<u8>,
    ids: Seq<i16>,
    last: i16,
)
    requires
        bin_carries(v, t, structs),
    ensures
        ({
            let s1 = <CompactProtocolWriter as crate::protocol::traits::TOutputProtocol>::spec_write_field_begin(
                (b, ids.push(last), None), type_ttype(t), id).1;
            spec_write_value::<CompactProtocolWriter>(s1, v, structs)
                == (Ok::<(), ProtocolError>(()), (b + cpt_field_bytes(t, v, id, last, structs), ids.push(id), None::<i16>))
        }),
{
    assert(ids.push(last).update(ids.len() as int, id) =~= ids.push(id));
    assert(ids.push(last).last() == last);
    match v {
        SpecValue::Bool(x) => {},
        _ => {
            lemma_compact_write_value(v, structs, b + compact_enc_field_header(nibble_of_ttype(type_ttype(t)), id, last), ids.push(id));
            assert(b + compact_enc_field_header(nibble_of_ttype(type_ttype(t)), id, last) + cpt_value_bytes(v, structs)
                =~= b + cpt_field_bytes(t, v, id, last, structs));
        },
    }
}

/// Writing the argument fields with the Compact protocol appends their bytes.
pub proof fn lemma_compact_write_call_args(
    args: Seq<SpecField>,
    values: Seq<(Seq<char>, SpecValue)>,
    k: int,
    structs: Seq<(Seq<char>, SpecStruct)>,
    b: Seq<u8>,
    ids: Seq<i16>,
    last: i16,
)
    requires
        bin_carries_args(args, values, structs),
    ensures
        spec_call_args::<CompactProtocolWriter>((b, ids.push(last), None), args, values, k, structs) == (
            Ok::<(), ProtocolError>(()),
            (b + cpt_call_args_bytes(args, values, k, last, structs), ids.push(cpt_call_args_last(args, values, k, last)), None::<i16>),
        ),
    decreases args.len() - k,
{
    if 0 <= k < args.len() {
        match assoc_get(values, args[k].name) {
            None => {
                lemma_compact_write_call_args(args, values, k + 1, structs, b, ids, last);
            },
            Some(v) => {
                assert(bin_carries(v, args[k].field_type, structs));
                lemma_compact_write_field(args[k].field_type, v, args[k].id, structs, b, ids, last);
                let b2 = b + cpt_field_bytes(args[k].field_type, v, args[k].id, last, structs);
                lemma_compact_write_call_args(args, values, k + 1, structs, b2, ids, args[k].id);
                assert(b2 + cpt_call_args_bytes(args, values, k + 1, args[k].id, structs)
                    =~= b + cpt_call_args_bytes(args, values, k, last, structs));
            },
        }
    } else {
        assert(b + Seq::<u8>::empty() =~= b);
    }
}

/// The Compact bytes of a call.
pub open spec fn cpt_call_bytes(
    name: Seq<char>,
    seq_id: i32,
    args: Seq<SpecField>,
    values: Seq<(Seq<char>, SpecValue)>,
    last: i16,
    structs: Seq<(Seq<char>, SpecStruct)>,
) -> Seq<u8> {
    compact_enc_message_begin(name, MESSAGE_TYPE_CALL, seq_id) + cpt_call_args_bytes(args, values, 0, last, structs) + seq![0u8]
}

/// Writing a call with the Compact protocol appends its bytes.
pub proof fn lemma_compact_write_call(
    name: Seq<char>,
    seq_id: i32,
    args: Seq<SpecField>,
    values: Seq<(Seq<char>, SpecValue)>,
    structs: Seq<(Seq<char>, SpecStruct)>,
    b: Seq<u8>,
    ids: Seq<i16>,
    last: i16,
)
    requires
        bin_carries_args(args, values, structs),
    ensures
        spec_call_frame::<CompactProtocolWriter>((b, ids.push(last), None), name, seq_id, args, values, structs) == (
            Ok::<(), ProtocolError>(()),
            (b + cpt_call_bytes(name, seq_id, args, values, last, structs), ids.push(cpt_call_args_last(args, values, 0, last)), None::<i16>),
        ),
{
    let b1 = b + compact_enc_message_begin(name, MESSAGE_TYPE_CALL, seq_id);
    lemma_compact_write_call_args(args, values, 0, structs, b1, ids, last);
    assert(b1 + cpt_call_args_bytes(args, values, 0, last, structs) + seq![0u8] =~= b + cpt_call_bytes(name, seq_id, args, values, last, structs));
}

/// Reading one field of a carried value with the Compact protocol: its
/// header gives its type and id, and the value of its declared type follows.
#[verifier::rlimit(40)]
proof fn lemma_compact_read_field(
    t: SpecType,
    v: SpecValue,
    id: i16,
    structs: Seq<(Seq<char>, SpecStruct)>,
    after: Seq<u8>,
    ids: Seq<i16>,
    last: i16,
)
    requires
        bin_carries(v, t, structs),
    ensures
        <CompactProtocolReader as crate::protocol::traits::TInputProtocol>::spec_read_field_begin(
            (cpt_field_bytes(t, v, id, last, structs) + after, ids.push(last), None)).0
            == Ok::<(TType, i16), ProtocolError>((type_ttype(t), id)),
        spec_read_value::<CompactProtocolReader>(
            <CompactProtocolReader as crate::protocol::traits::TInputProtocol>::spec_read_field_begin(
                (cpt_field_bytes(t, v, id, last, structs) + after, ids.push(last), None)).1,
            t,
            structs,
        ) == (Ok::<SpecValue, SpecValueError>(v), (after, ids.push(id), None::<bool>)),
        type_ttype(t) != TType::Stop,
{
    let tt = type_ttype(t);
    lemma_nibble_roundtrip(tt);
    assert(ids.push(last).last() == last);
    assert(ids.push(last).update(ids.len() as int, id) =~= ids.push(id));
    match v {
        SpecValue::Bool(b) => {
            let nib: u8 = if b { 1u8 } else { 2u8 };
            lemma_compact_field_header_roundtrip(nib, id, last, after);
            assert(t == SpecType::Bool);
            assert(after.skip(0) =~= after);
        },
        _ => {
            let nib = nibble_of_ttype(tt);
            let vb = cpt_value_bytes(v, structs) + after;
            assert(cpt_field_bytes(t, v, id, last, structs) + after =~= compact_enc_field_header(nib, id, last) + vb);
            assert(t != SpecType::Bool);
            assert(1 <= nib <= 12 && nibble_bool(nib) is None);
            lemma_compact_field_header_roundtrip(nib, id, last, vb);
            lemma_compact_read_value(v, t, structs, after, ids.push(id));
        },
    }
}

#[verifier::rlimit(40)]
proof fn lemma_compact_read_call_args(
    args: Seq<SpecField>,
    values: Seq<(Seq<char>, SpecValue)>,
    structs: Seq<(Seq<char>, SpecStruct)>,
    k: int,
    acc: Seq<(Seq<char>, SpecValue)>,
    tail: Seq<u8>,
    ids: Seq<i16>,
    last: i16,
)
    requires
        distinct_fields(args),
        bin_carries_args(args, values, structs),
        0 <= k <= args.len(),
        forall|x: int, j: int| 0 <= x < acc.len() && k <= j < args.len() ==> #[trigger] acc[x].0 != #[trigger] args[j].name,
    ensures
        spec_read_struct_fields::<CompactProtocolReader>(
            (cpt_call_args_bytes(args, values, k, last, structs) + seq![0u8] + tail, ids.push(last), None),
            args,
            structs,
            acc,
        ) == (
            Ok::<Seq<(Seq<char>, SpecValue)>, SpecValueError>(acc + given_args(args, values, k)),
            (tail, ids.push(cpt_call_args_last(args, values, k, last)), None::<bool>),
        ),
    decreases args.len() - k,
{
    if k < args.len() {
        let name = args[k].name;
        match assoc_get(values, name) {
            None => {
                lemma_compact_read_call_args(args, values, structs, k + 1, acc, tail, ids, last);
            },
            Some(v) => {
                let id = args[k].id;
                let after = cpt_call_args_bytes(args, values, k + 1, id, structs) + seq![0u8] + tail;
                let s = cpt_call_args_bytes(args, values, k, last, structs) + seq![0u8] + tail;
                assert(s =~= cpt_field_bytes(args[k].field_type, v, id, last, structs) + after);
                assert(bin_carries(v, args[k].field_type, structs));
                lemma_compact_read_field(args[k].field_type, v, id, structs, after, ids, last);
                lemma_last_id(args, k, args.len() as int);
                lemma_assoc_index_from_bounds(acc, name, 0);
                assert forall|x: int| 0 <= x < acc.len() implies acc[x].0 != name by {
                    assert(acc[x].0 != args[k].name);
                }
                let acc2 = acc.push((name, v));
                assert(assoc_insert(acc, name, v) =~= acc2);
                assert forall|x: int, j: int| 0 <= x < acc2.len() && k + 1 <= j < args.len()
                    implies #[trigger] acc2[x].0 != #[trigger] args[j].name by {
                    if x < acc.len() {
                        assert(acc2[x] == acc[x]);
                        assert(acc[x].0 != args[j].name);
                    } else {
                        assert(args[k].name != args[j].name);
                    }
                }
                assert(spec_read_struct_fields::<CompactProtocolReader>((s, ids.push(last), None), args, structs, acc)
                    == spec_read_struct_fields::<CompactProtocolReader>((after, ids.push(id), None), args, structs, acc2));
                lemma_compact_read_call_args(args, values, structs, k + 1, acc2, tail, ids, id);
                assert(acc2 + given_args(args, values, k + 1) =~= acc + given_args(args, values, k));
            },
        }
    } else {
        assert(acc + given_args(args, values, k) =~= acc);
        let s = cpt_call_args_bytes(args, values, k, last, structs) + seq![0u8] + tail;
        assert(s =~= seq![0u8] + tail);
        assert(s.skip(1) =~= tail);
    }
}

/// A call that a client writes with the Compact protocol is what a server
/// decodes of it, when both start after the same last field id: the call's
/// header, the method it names, and the arguments given, as for the Binary
/// protocol (see `lemma_binary_read_call`); the bytes after the call are
/// left unread.
pub proof fn lemma_compact_call_roundtrip(
    name: Seq<char>,
    seq_id: i32,
    ms: Seq<SpecMethod>,
    i: int,
    values: Seq<(Seq<char>, SpecValue)>,
    structs: Seq<(Seq<char>, SpecStruct)>,
    before: Seq<u8>,
    ids: Seq<i16>,
    last: i16,
    tail: Seq<u8>,
    read_ids: Seq<i16>,
)
    requires
        encode_utf8(name).len() <= i32::MAX,
        0 <= i < ms.len(),
        first_method_from(ms, name, 0) == Some(i),
        distinct_fields(ms[i].arguments),
        bin_carries_args(ms[i].arguments, values, structs),
    ensures
        spec_call_frame::<CompactProtocolWriter>((before, ids.push(last), None), name, seq_id, ms[i].arguments, values, structs).0 is Ok,
        spec_decode_request::<CompactProtocolReader>(
            (spec_call_frame::<CompactProtocolWriter>((before, ids.push(last), None), name, seq_id, ms[i].arguments, values, structs).1.0.skip(
                before.len() as int,
            ) + tail, read_ids.push(last), None),
            ms,
            structs,
        ).0 == Ok::<((Seq<char>, u8, i32), Option<(int, Seq<(Seq<char>, SpecValue)>)>), SpecValueError>(
            ((name, MESSAGE_TYPE_CALL, seq_id), Some((i, given_args(ms[i].arguments, values, 0)))),
        ),
{
    let args = ms[i].arguments;
    let bytes = cpt_call_bytes(name, seq_id, args, values, last, structs);
    lemma_compact_write_call(name, seq_id, args, values, structs, before, ids, last);
    assert((before + bytes).skip(before.len() as int) =~= bytes);
    let rest = cpt_call_args_bytes(args, values, 0, last, structs) + seq![0u8] + tail;
    assert(bytes + tail =~= compact_enc_message_begin(name, MESSAGE_TYPE_CALL, seq_id) + rest);
    lemma_compact_message_begin_roundtrip(name, MESSAGE_TYPE_CALL, seq_id, rest);
    lemma_compact_read_call_args(args, values, structs, 0, Seq::empty(), tail, read_ids, last);
    assert(Seq::<(Seq<char>, SpecValue)>::empty() + given_args(args, values, 0) =~= given_args(args, values, 0));
}

/// The Compact bytes of a reply that returns `v`, after a field with id `last`.
pub open spec fn cpt_reply_bytes(
    name: Seq<char>,
    seq_id: i32,
    return_type: SpecType,
    v: SpecValue,
    last: i16,
    structs: Seq<(Seq<char>, SpecStruct)>,
) -> Seq<u8> {
    compact_enc_message_begin(name, MESSAGE_TYPE_REPLY, seq_id)
        + (if is_void(return_type) { Seq::empty() } else { cpt_field_bytes(return_type, v, 0, last, structs) })
        + seq![0u8]
}

/// Writing a reply with the Compact protocol appends its bytes.
#[verifier::rlimit(30)]
pub proof fn lemma_compact_write_reply(
    name: Seq<char>,
    seq_id: i32,
    return_type: SpecType,
    v: SpecValue,
    structs: Seq<(Seq<char>, SpecStruct)>,
    b: Seq<u8>,
    ids: Seq<i16>,
    last: i16,
)
    requires
        !is_void(return_type) ==> bin_carries(v, return_type, structs),
    ensures
        spec_reply::<CompactProtocolWriter>((b, ids.push(last), None), name, seq_id, return_type, v, structs) == (
            Ok::<(), ProtocolError>(()),
            (b + cpt_reply_bytes(name, seq_id, return_type, v, last, structs), ids.push(if is_void(return_type) { last } else { 0i16 }), None::<i16>),
        ),
{
    let b1 = b + compact_enc_message_begin(name, MESSAGE_TYPE_REPLY, seq_id);
    if is_void(return_type) {
        assert(b1 + seq![0u8] =~= b + cpt_reply_bytes(name, seq_id, return_type, v, last, structs));
    } else {
        lemma_compact_write_field(return_type, v, 0, structs, b1, ids, last);
        assert(b1 + cpt_field_bytes(return_type, v, 0, last, structs) + seq![0u8]
            =~= b + cpt_reply_bytes(name, seq_id, return_type, v, last, structs));
    }
}

/// The reply that a server writes with the Compact protocol for a method
/// that returns `v` is what a client reads of it, when both start after the
/// same last field id: nothing for a method that returns nothing, else `v`,
/// when the protocol carries `v` exactly as a value of the return type.
#[verifier::rlimit(30)]
pub proof fn lemma_compact_read_reply(
    name: Seq<char>,
    seq_id: i32,
    return_type: SpecType,
    exceptions: Seq<SpecField>,
    v: SpecValue,
    structs: Seq<(Seq<char>, SpecStruct)>,
    tail: Seq<u8>,
    ids: Seq<i16>,
    last: i16,
)
    requires
        encode_utf8(name).len() <= i32::MAX,
        !is_void(return_type) ==> bin_carries(v, return_type, structs),
    ensures
        spec_decode_reply::<CompactProtocolReader>(
            (cpt_reply_bytes(name, seq_id, return_type, v, last, structs) + tail, ids.push(last), None),
            return_type,
            exceptions,
            structs,
        ).0 == Ok::<SpecReply, SpecValueError>(if is_void(return_type) { SpecReply::Void } else { SpecReply::Value(v) }),
{
    let bytes = cpt_reply_bytes(name, seq_id, return_type, v, last, structs);
    let after = seq![0u8] + tail;
    let rest = if is_void(return_type) { after } else { cpt_field_bytes(return_type, v, 0, last, structs) + after };
    assert(bytes + tail =~= compact_enc_message_begin(name, MESSAGE_TYPE_REPLY, seq_id) + rest);
    lemma_compact_message_begin_roundtrip(name, MESSAGE_TYPE_REPLY, seq_id, rest);
    if is_void(return_type) {
        assert(after.skip(1) =~= tail);
    } else {
        lemma_compact_read_field(return_type, v, 0, structs, after, ids, last);
    }
}

/// A reply that a server writes with the Compact protocol is decoded by a
/// client as written, when both start after the same last field id: nothing
/// for a method that returns nothing, else the value returned, when the
/// protocol carries it exactly as a value of the return type.
pub proof fn lemma_compact_reply_roundtrip(
    name: Seq<char>,
    seq_id: i32,
    return_type: SpecType,
    exceptions: Seq<SpecField>,
    v: SpecValue,
    structs: Seq<(Seq<char>, SpecStruct)>,
    before: Seq<u8>,
    ids: Seq<i16>,
    last: i16,
    tail: Seq<u8>,
    read_ids: Seq<i16>,
)
    requires
        encode_utf8(name).len() <= i32::MAX,
        !is_void(return_type) ==> bin_carries(v, return_type, structs),
    ensures
        spec_reply::<CompactProtocolWriter>((before, ids.push(last), None), name, seq_id, return_type, v, structs).0 is Ok,
        spec_decode_reply::<CompactProtocolReader>(
            (spec_reply::<CompactProtocolWriter>((before, ids.push(last), None), name, seq_id, return_type, v, structs).1.0.skip(
                before.len() as int,
            ) + tail, read_ids.push(last), None),
            return_type,
            exceptions,
            structs,
        ).0 == Ok::<SpecReply, SpecValueError>(if is_void(return_type) { SpecReply::Void } else { SpecReply::Value(v) }),
{
    let bytes = cpt_reply_bytes(name, seq_id, return_type, v, last, structs);
    lemma_compact_write_reply(name, seq_id, return_type, v, structs, before, ids, last);
    assert((before + bytes).skip(before.len() as int) =~= bytes);
    lemma_compact_read_reply(name, seq_id, return_type, exceptions, v, structs, tail, read_ids, last);
}

/// The Compact bytes of an application exception's body, after a field with id `last`.
pub open spec fn cpt_exception_body(kind: i32, msg: Seq<char>, last: i16) -> Seq<u8> {
    compact_enc_field_header(8, 1, last) + compact_enc_string(msg)
        + compact_enc_field_header(5, 2, 1) + compact_enc_varint32(kind) + seq![0u8]
}

#[verifier::rlimit(30)]
proof fn lemma_compact_exception_kind(kind: i32, msg: Seq<char>, rest: Seq<u8>, ids: Seq<i16>)
    ensures
        spec_app_exception::<CompactProtocolReader>(
            (compact_enc_field_header(5, 2, 1) + compact_enc_varint32(kind) + rest, ids.push(1), None), msg, 0)
            == spec_app_exception::<CompactProtocolReader>((rest, ids.push(2), None), msg, kind),
{
    let r = compact_enc_varint32(kind) + rest;
    assert(compact_enc_field_header(5, 2, 1) + compact_enc_varint32(kind) + rest =~= compact_enc_field_header(5, 2, 1) + r);
    lemma_compact_field_header_roundtrip(5, 2, 1, r);
    lemma_compact_varint32_roundtrip(kind, rest);
    assert(ids.push(1).update(ids.len() as int, 2) =~= ids.push(2));
}

#[verifier::rlimit(30)]
proof fn lemma_compact_exception_text(msg: Seq<char>, rest: Seq<u8>, ids: Seq<i16>, last: i16)
    requires
        encode_utf8(msg).len() <= i32::MAX,
    ensures
        spec_app_exception::<CompactProtocolReader>(
            (compact_enc_field_header(8, 1, last) + compact_enc_string(msg) + rest, ids.push(last), None), Seq::empty(), 0)
            == spec_app_exception::<CompactProtocolReader>((rest, ids.push(1), None), msg, 0),
{
    let r = compact_enc_string(msg) + rest;
    assert(compact_enc_field_header(8, 1, last) + compact_enc_string(msg) + rest =~= compact_enc_field_header(8, 1, last) + r);
    lemma_compact_field_header_roundtrip(8, 1, last, r);
    lemma_compact_string_roundtrip(msg, rest);
    assert(ids.push(last).last() == last);
    assert(ids.push(last).update(ids.len() as int, 1) =~= ids.push(1));
}

proof fn lemma_compact_exception_body(kind: i32, msg: Seq<char>, tail: Seq<u8>, ids: Seq<i16>, last: i16)
    requires
        encode_utf8(msg).len() <= i32::MAX,
    ensures
        spec_app_exception::<CompactProtocolReader>((cpt_exception_body(kind, msg, last) + tail, ids.push(last), None), Seq::empty(), 0).0
            == Ok::<(Seq<char>, i32), ProtocolError>((msg, kind)),
{
    let r5 = seq![0u8] + tail;
    let r3 = compact_enc_field_header(5, 2, 1) + compact_enc_varint32(kind) + r5;
    assert(cpt_exception_body(kind, msg, last) + tail =~= compact_enc_field_header(8, 1, last) + compact_enc_string(msg) + r3);
    lemma_compact_exception_text(msg, r3, ids, last);
    lemma_compact_exception_kind(kind, msg, r5, ids);
    assert(ids.push(2).last() == 2);
    assert(r5.skip(1) =~= tail);
}

/// The Compact bytes of an application exception, after a field with id `last`.
pub open spec fn cpt_exception_bytes(name: Seq<char>, seq_id: i32, kind: i32, msg: Seq<char>, last: i16) -> Seq<u8> {
    compact_enc_message_begin(name, MESSAGE_TYPE_EXCEPTION, seq_id) + cpt_exception_body(kind, msg, last)
}

/// Writing an application exception with the Compact protocol appends its bytes.
#[verifier::rlimit(30)]
pub proof fn lemma_compact_write_exception_reply(
    name: Seq<char>,
    seq_id: i32,
    kind: i32,
    msg: Seq<char>,
    b: Seq<u8>,
    ids: Seq<i16>,
    last: i16,
)
    ensures
        spec_exception_reply::<CompactProtocolWriter>((b, ids.push(last), None), name, seq_id, kind, msg)
            == (Ok::<(), ProtocolError>(()), (b + cpt_exception_bytes(name, seq_id, kind, msg, last), ids.push(2), None::<i16>)),
{
    assert(ids.push(last).last() == last);
    assert(ids.push(last).update(ids.len() as int, 1) =~= ids.push(1));
    assert(ids.push(1).update(ids.len() as int, 2) =~= ids.push(2));
    assert(ids.push(1).last() == 1);
    assert(b + compact_enc_message_begin(name, MESSAGE_TYPE_EXCEPTION, seq_id)
        + compact_enc_field_header(8, 1, last) + compact_enc_string(msg)
        + compact_enc_field_header(5, 2, 1) + compact_enc_varint32(kind) + seq![0u8]
        =~= b + cpt_exception_bytes(name, seq_id, kind, msg, last));
}

/// An application exception that a server writes with the Compact protocol
/// is what a client reads of the reply, when both start after the same last
/// field id, whatever the method returns: its text and its kind.
pub proof fn lemma_compact_read_exception_reply(
    name: Seq<char>,
    seq_id: i32,
    kind: i32,
    msg: Seq<char>,
    return_type: SpecType,
    exceptions: Seq<SpecField>,
    structs: Seq<(Seq<char>, SpecStruct)>,
    tail: Seq<u8>,
    ids: Seq<i16>,
    last: i16,
)
    requires
        encode_utf8(name).len() <= i32::MAX,
        encode_utf8(msg).len() <= i32::MAX,
    ensures
        spec_decode_reply::<CompactProtocolReader>(
            (cpt_exception_bytes(name, seq_id, kind, msg, last) + tail, ids.push(last), None),
            return_type,
            exceptions,
            structs,
        ).0 == Ok::<SpecReply, SpecValueError>(SpecReply::ApplicationException(msg, kind)),
{
    let body = cpt_exception_body(kind, msg, last);
    assert(cpt_exception_bytes(name, seq_id, kind, msg, last) + tail
        =~= compact_enc_message_begin(name, MESSAGE_TYPE_EXCEPTION, seq_id) + (body + tail));
    lemma_compact_message_begin_roundtrip(name, MESSAGE_TYPE_EXCEPTION, seq_id, body + tail);
    lemma_compact_exception_body(kind, msg, tail, ids, last);
}

/// An application exception that a server writes with the Compact protocol
/// is decoded by a client as written, when both start after the same last
/// field id, whatever the method returns: its text and its kind.
pub proof fn lemma_compact_exception_reply_roundtrip(
    name: Seq<char>,
    seq_id: i32,
    kind: i32,
    msg: Seq<char>,
    return_type: SpecType,
    exceptions: Seq<SpecField>,
    structs: Seq<(Seq<char>, SpecStruct)>,
    before: Seq<u8>,
    ids: Seq<i16>,
    last: i16,
    tail: Seq<u8>,
    read_ids: Seq<i16>,
)
    requires
        encode_utf8(name).len() <= i32::MAX,
        encode_utf8(msg).len() <= i32::MAX,
    ensures
        spec_exception_reply::<CompactProtocolWriter>((before, ids.push(last), None), name, seq_id, kind, msg).0 is Ok,
        spec_decode_reply::<CompactProtocolReader>(
            (spec_exception_reply::<CompactProtocolWriter>((before, ids.push(last), None), name, seq_id, kind, msg).1.0.skip(
                before.len() as int,
            ) + tail, read_ids.push(last), None),
            return_type,
            exceptions,
            structs,
        ).0 == Ok::<SpecReply, SpecValueError>(SpecReply::ApplicationException(msg, kind)),
{
    let bytes = cpt_exception_bytes(name, seq_id, kind, msg, last);
    lemma_compact_write_exception_reply(name, seq_id, kind, msg, before, ids, last);
    assert((before + bytes).skip(before.len() as int) =~= bytes);
    lemma_compact_read_exception_reply(name, seq_id, kind, msg, return_type, exceptions, structs, tail, read_ids, last);
}


} // verus!
