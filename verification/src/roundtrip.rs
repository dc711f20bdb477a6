//! Values through the Binary and Compact protocols: the bytes that writing a
//! value gives, reading those bytes back, and finding where they end.

use vstd::prelude::*;
use crate::codec::{
    spec_skip, spec_skip_items, spec_skip_pairs, spec_skip_fields, spec_write_value, spec_write_items, spec_write_pairs, spec_write_entries, spec_read_value,
    spec_read_items, spec_read_pairs, spec_read_struct_fields, elem_ttype, pair_ttypes,
    value_ttype, struct_entries, struct_def, item_count, last_with_id, field_id_of, def_entries,
};
use crate::parser::ast::{SpecField, SpecStruct, SpecType, SpecValue};
use crate::parser::names::{assoc_get, assoc_index, assoc_index_from, assoc_insert, lemma_assoc_index_from_bounds};
use crate::protocol::binary::{
    BinaryProtocolReader, BinaryProtocolWriter, bin_enc_bool, bin_enc_byte, bin_enc_i16,
    bin_enc_i32, bin_enc_i64, bin_enc_double_bits, bin_enc_string, bin_enc_bytes,
    bin_enc_list_begin, bin_enc_set_begin, bin_enc_map_begin, bin_enc_field_begin,
    bin_enc_field_stop, lemma_bin_bool_roundtrip, lemma_bin_byte_roundtrip, lemma_bin_i16_roundtrip,
    lemma_bin_i32_roundtrip, lemma_bin_i64_roundtrip, lemma_bin_double_bits_roundtrip,
    lemma_bin_string_roundtrip, lemma_bin_bytes_roundtrip, lemma_bin_list_begin_roundtrip,
    lemma_bin_set_begin_roundtrip, lemma_bin_map_begin_roundtrip, lemma_bin_field_begin_roundtrip,
    lemma_bin_field_stop_reads_stop,
};
use vstd::utf8::{encode_utf8, valid_utf8};
use crate::protocol::types::{ListBegin, MapBegin, ProtocolError, SetBegin, TType, ttype_code};
use crate::protocol::traits::{TInputProtocol, TOutputProtocol};
use crate::protocol::compact::{
    CompactProtocolReader, CompactProtocolWriter, compact_enc_standalone_bool, compact_enc_byte,
    compact_enc_varint32, compact_enc_varint64, compact_enc_double_bits, compact_enc_string,
    compact_enc_bytes, compact_enc_list_begin, compact_enc_map_begin, compact_enc_field_header,
    nibble_of_ttype, ttype_of_nibble, nibble_bool, lemma_nibble_roundtrip, lemma_compact_varint32_roundtrip,
    lemma_compact_varint64_roundtrip, lemma_compact_i16_roundtrip, lemma_compact_byte_roundtrip,
    lemma_compact_double_bits_roundtrip, lemma_compact_bytes_roundtrip, lemma_compact_string_roundtrip,
    lemma_compact_field_header_roundtrip, lemma_compact_standalone_bool_roundtrip,
    lemma_compact_map_begin_roundtrip, lemma_compact_list_begin_roundtrip,
};
use crate::protocol::framing::{value_extent, elems_extent, struct_extent, shift, ExtentView};
use crate::protocol::wire::{be_u32_bytes, be_u32_value, lemma_be_u32_roundtrip, lemma_signed_casts};
use crate::codec::type_ttype;

verus! {

/// The Binary bytes of `v`, as writing it gives them.
pub open spec fn bin_value_bytes(v: SpecValue, structs: Seq<(Seq<char>, SpecStruct)>) -> Seq<u8>
    decreases v, 0int,
{
    match v {
        SpecValue::Bool(b) => bin_enc_bool(b),
        SpecValue::Byte(b) => bin_enc_byte(b),
        SpecValue::I16(b) => bin_enc_i16(b),
        SpecValue::I32(b) => bin_enc_i32(b),
        SpecValue::I64(b) => bin_enc_i64(b),
        SpecValue::Double(b) => bin_enc_double_bits(b),
        SpecValue::String(t) => bin_enc_string(t),
        SpecValue::Binary(b) => bin_enc_bytes(b),
        SpecValue::List(items) => bin_enc_list_begin(ListBegin { element_type: elem_ttype(items), size: items.len() as i32 })
            + bin_items_bytes(items, 0, structs),
        SpecValue::SetT(items) => bin_enc_set_begin(SetBegin { element_type: elem_ttype(items), size: items.len() as i32 })
            + bin_items_bytes(items, 0, structs),
        SpecValue::MapT(pairs) => {
            let (kt, vt) = pair_ttypes(pairs);
            bin_enc_map_begin(MapBegin { key_type: kt, value_type: vt, size: pairs.len() as i32 })
                + bin_pairs_bytes(pairs, 0, structs)
        },
        SpecValue::Struct(name, fields) => bin_entries_bytes(fields, struct_entries(struct_def(name, structs), fields), structs)
            + bin_enc_field_stop(),
    }
}

/// The Binary bytes of the items from index `k` on.
pub open spec fn bin_items_bytes(items: Seq<SpecValue>, k: int, structs: Seq<(Seq<char>, SpecStruct)>) -> Seq<u8>
    decreases items, items.len() - k,
{
    if 0 <= k < items.len() {
        bin_value_bytes(items[k], structs) + bin_items_bytes(items, k + 1, structs)
    } else {
        Seq::empty()
    }
}

/// The Binary bytes of the pairs from index `k` on.
pub open spec fn bin_pairs_bytes(pairs: Seq<(SpecValue, SpecValue)>, k: int, structs: Seq<(Seq<char>, SpecStruct)>) -> Seq<u8>
    decreases pairs, pairs.len() - k,
{
    if 0 <= k < pairs.len() {
        bin_value_bytes(pairs[k].0, structs) + bin_value_bytes(pairs[k].1, structs) + bin_pairs_bytes(pairs, k + 1, structs)
    } else {
        Seq::empty()
    }
}

/// The Binary bytes of the fields named by `entries`, each after its header.
pub open spec fn bin_entries_bytes(fields: Seq<(Seq<char>, SpecValue)>, entries: Seq<(i16, int)>, structs: Seq<(Seq<char>, SpecStruct)>) -> Seq<u8>
    decreases fields, entries.len(),
{
    if entries.len() == 0 {
        Seq::empty()
    } else {
        let i = entries[0].1;
        if 0 <= i < fields.len() {
            bin_enc_field_begin(value_ttype(fields[i].1), entries[0].0) + bin_value_bytes(fields[i].1, structs)
                + bin_entries_bytes(fields, entries.drop_first(), structs)
        } else {
            Seq::empty()
        }
    }
}

// ─── Writing gives those bytes ────────────────────────────────────────────────

/// Writing `v` with the Binary protocol appends `bin_value_bytes(v)` and
/// leaves the nesting as it was.
pub proof fn lemma_binary_write_value(v: SpecValue, structs: Seq<(Seq<char>, SpecStruct)>, b: Seq<u8>, d: nat)
    ensures
        spec_write_value::<BinaryProtocolWriter>((b, d), v, structs) == (Ok::<(), crate::protocol::types::ProtocolError>(()), (b + bin_value_bytes(v, structs), d)),
    decreases v, 0int,
{
    match v {
        SpecValue::List(items) => {
            let h = bin_enc_list_begin(ListBegin { element_type: elem_ttype(items), size: items.len() as i32 });
            lemma_binary_write_items(items, 0, structs, b + h, d);
            assert(b + h + bin_items_bytes(items, 0, structs) =~= b + bin_value_bytes(v, structs));
        },
        SpecValue::SetT(items) => {
            let h = bin_enc_set_begin(SetBegin { element_type: elem_ttype(items), size: items.len() as i32 });
            lemma_binary_write_items(items, 0, structs, b + h, d);
            assert(b + h + bin_items_bytes(items, 0, structs) =~= b + bin_value_bytes(v, structs));
        },
        SpecValue::MapT(pairs) => {
            let (kt, vt) = pair_ttypes(pairs);
            let h = bin_enc_map_begin(MapBegin { key_type: kt, value_type: vt, size: pairs.len() as i32 });
            lemma_binary_write_pairs(pairs, 0, structs, b + h, d);
            assert(b + h + bin_pairs_bytes(pairs, 0, structs) =~= b + bin_value_bytes(v, structs));
        },
        SpecValue::Struct(name, fields) => {
            let entries = struct_entries(struct_def(name, structs), fields);
            lemma_binary_write_entries(fields, entries, structs, b, d + 1);
            assert(b + bin_entries_bytes(fields, entries, structs) + bin_enc_field_stop() =~= b + bin_value_bytes(v, structs));
        },
        _ => {},
    }
}

/// Writing the items from index `k` on appends their Binary bytes.
pub proof fn lemma_binary_write_items(items: Seq<SpecValue>, k: int, structs: Seq<(Seq<char>, SpecStruct)>, b: Seq<u8>, d: nat)
    ensures
        spec_write_items::<BinaryProtocolWriter>((b, d), items, k, structs) == (Ok::<(), crate::protocol::types::ProtocolError>(()), (b + bin_items_bytes(items, k, structs), d)),
    decreases items, items.len() - k,
{
    if 0 <= k < items.len() {
        lemma_binary_write_value(items[k], structs, b, d);
        let b1 = b + bin_value_bytes(items[k], structs);
        lemma_binary_write_items(items, k + 1, structs, b1, d);
        assert(b1 + bin_items_bytes(items, k + 1, structs) =~= b + bin_items_bytes(items, k, structs));
    } else {
        assert(b + bin_items_bytes(items, k, structs) =~= b);
    }
}

/// Writing the pairs from index `k` on appends their Binary bytes.
pub proof fn lemma_binary_write_pairs(pairs: Seq<(SpecValue, SpecValue)>, k: int, structs: Seq<(Seq<char>, SpecStruct)>, b: Seq<u8>, d: nat)
    ensures
        spec_write_pairs::<BinaryProtocolWriter>((b, d), pairs, k, structs) == (Ok::<(), crate::protocol::types::ProtocolError>(()), (b + bin_pairs_bytes(pairs, k, structs), d)),
    decreases pairs, pairs.len() - k,
{
    if 0 <= k < pairs.len() {
        lemma_binary_write_value(pairs[k].0, structs, b, d);
        let b1 = b + bin_value_bytes(pairs[k].0, structs);
        lemma_binary_write_value(pairs[k].1, structs, b1, d);
        let b2 = b1 + bin_value_bytes(pairs[k].1, structs);
        lemma_binary_write_pairs(pairs, k + 1, structs, b2, d);
        assert(b2 + bin_pairs_bytes(pairs, k + 1, structs) =~= b + bin_pairs_bytes(pairs, k, structs));
    } else {
        assert(b + bin_pairs_bytes(pairs, k, structs) =~= b);
    }
}

/// Writing the fields named by `entries` appends their Binary bytes.
pub proof fn lemma_binary_write_entries(fields: Seq<(Seq<char>, SpecValue)>, entries: Seq<(i16, int)>, structs: Seq<(Seq<char>, SpecStruct)>, b: Seq<u8>, d: nat)
    ensures
        spec_write_entries::<BinaryProtocolWriter>((b, d), fields, entries, structs) == (Ok::<(), crate::protocol::types::ProtocolError>(()), (b + bin_entries_bytes(fields, entries, structs), d)),
    decreases fields, entries.len(),
{
    if entries.len() == 0 {
        assert(b + bin_entries_bytes(fields, entries, structs) =~= b);
    } else {
        let i = entries[0].1;
        if 0 <= i < fields.len() {
            let fv = fields[i].1;
            let b1 = b + bin_enc_field_begin(value_ttype(fv), entries[0].0);
            lemma_binary_write_value(fv, structs, b1, d);
            let b2 = b1 + bin_value_bytes(fv, structs);
            lemma_binary_write_entries(fields, entries.drop_first(), structs, b2, d);
            assert(b2 + bin_entries_bytes(fields, entries.drop_first(), structs) =~= b + bin_entries_bytes(fields, entries, structs));
        } else {
            assert(b + bin_entries_bytes(fields, entries, structs) =~= b);
        }
    }
}

// ─── Reading those bytes back ─────────────────────────────────────────────────

/// Whether the fields of a definition have distinct ids and distinct names.
pub open spec fn distinct_fields(fds: Seq<SpecField>) -> bool {
    forall|i: int, j: int| 0 <= i < j < fds.len() ==> fds[i].id != fds[j].id && fds[i].name != fds[j].name
}

/// Whether `v` is a value of type `t` that the Binary protocol carries
/// exactly: strings, binaries, lists, sets and maps whose lengths fit its
/// signed 32-bit length fields; structs of a definition in `structs` with
/// distinct field ids and names, holding a value of each of its fields, in
/// the order of the definition.
pub open spec fn bin_carries(v: SpecValue, t: SpecType, structs: Seq<(Seq<char>, SpecStruct)>) -> bool
    decreases v,
{
    match v {
        SpecValue::Bool(_) => t == SpecType::Bool,
        SpecValue::Byte(_) => t == SpecType::Byte,
        SpecValue::I16(_) => t == SpecType::I16,
        SpecValue::I32(_) => t == SpecType::I32,
        SpecValue::I64(_) => t == SpecType::I64,
        SpecValue::Double(_) => t == SpecType::Double,
        SpecValue::String(x) => t == SpecType::String && encode_utf8(x).len() <= i32::MAX,
        SpecValue::Binary(b) => t == SpecType::Binary && b.len() <= i32::MAX,
        SpecValue::List(items) => match t {
            SpecType::List(e) => items.len() <= i32::MAX
                && forall|k: int| 0 <= k < items.len() ==> bin_carries(#[trigger] items[k], *e, structs),
            _ => false,
        },
        SpecValue::SetT(items) => match t {
            SpecType::SetT(e) => items.len() <= i32::MAX
                && forall|k: int| 0 <= k < items.len() ==> bin_carries(#[trigger] items[k], *e, structs),
            _ => false,
        },
        SpecValue::MapT(pairs) => match t {
            SpecType::MapT(kt, vt) => pairs.len() <= i32::MAX
                && forall|k: int| 0 <= k < pairs.len() ==> bin_carries(#[trigger] pairs[k].0, *kt, structs)
                    && bin_carries(pairs[k].1, *vt, structs),
            _ => false,
        },
        SpecValue::Struct(name, fields) => match t {
            SpecType::Struct(n) => name == Some(n) && match assoc_get(structs, n) {
                Some(d) => distinct_fields(d.fields) && fields.len() == d.fields.len()
                    && forall|k: int| 0 <= k < fields.len() ==> (#[trigger] fields[k]).0 == d.fields[k].name
                        && bin_carries(fields[k].1, d.fields[k].field_type, structs),
                None => false,
            },
            _ => false,
        },
    }
}

/// The entries of a struct value that holds each field of its definition in
/// order: each field with its own id.
pub open spec fn canonical_entries(fds: Seq<SpecField>) -> Seq<(i16, int)> {
    Seq::new(fds.len(), |k: int| (fds[k].id, k))
}

pub(crate) proof fn lemma_first_name(fields: Seq<(Seq<char>, SpecValue)>, fds: Seq<SpecField>, m: int, i: int)
    requires
        distinct_fields(fds),
        fields.len() == fds.len(),
        forall|k: int| 0 <= k < fields.len() ==> (#[trigger] fields[k]).0 == fds[k].name,
        0 <= i <= m < fields.len(),
    ensures
        assoc_index_from(fields, fds[m].name, i) == Some(m),
    decreases m - i,
{
    if i < m {
        assert(fields[i].0 == fds[i].name);
        lemma_first_name(fields, fds, m, i + 1);
    }
}

pub(crate) proof fn lemma_first_id(fds: Seq<SpecField>, m: int)
    requires
        distinct_fields(fds),
        0 <= m < fds.len(),
    ensures
        field_id_of(fds, fds[m].name) == fds[m].id,
    decreases m,
{
    if m > 0 {
        let rest = fds.drop_first();
        assert forall|i: int, j: int| 0 <= i < j < rest.len() implies rest[i].id != rest[j].id && rest[i].name != rest[j].name by {
            assert(rest[i] == fds[i + 1] && rest[j] == fds[j + 1]);
        }
        lemma_first_id(rest, m - 1);
        assert(rest[m - 1] == fds[m]);
        assert(fds[0].name != fds[m].name);
    }
}

pub(crate) proof fn lemma_last_id(fds: Seq<SpecField>, m: int, k: int)
    requires
        distinct_fields(fds),
        0 <= m < k <= fds.len(),
    ensures
        last_with_id(fds, fds[m].id, k) == Some(m),
    decreases k,
{
    if k - 1 > m {
        assert(fds[m].id != fds[k - 1].id);
        lemma_last_id(fds, m, k - 1);
    }
}

pub(crate) proof fn lemma_canonical_entries(fields: Seq<(Seq<char>, SpecValue)>, fds: Seq<SpecField>, m: int)
    requires
        distinct_fields(fds),
        fields.len() == fds.len(),
        forall|k: int| 0 <= k < fields.len() ==> (#[trigger] fields[k]).0 == fds[k].name,
        0 <= m <= fds.len(),
    ensures
        def_entries(fds.take(m), fds, fields) == canonical_entries(fds).take(m),
    decreases m,
{
    if m > 0 {
        lemma_canonical_entries(fields, fds, m - 1);
        assert(fds.take(m).drop_last() =~= fds.take(m - 1));
        assert(fds.take(m).last() == fds[m - 1]);
        lemma_first_name(fields, fds, m - 1, 0);
        lemma_first_id(fds, m - 1);
        assert(canonical_entries(fds).take(m) =~= canonical_entries(fds).take(m - 1).push((fds[m - 1].id, m - 1)));
    } else {
        assert(canonical_entries(fds).take(0) =~= Seq::<(i16, int)>::empty());
    }
}

/// Reading a value of type `t` from the Binary bytes of a value `v` that
/// the protocol carries exactly gives `v` back, and leaves what follows.
pub proof fn lemma_binary_read_value(v: SpecValue, t: SpecType, structs: Seq<(Seq<char>, SpecStruct)>, tail: Seq<u8>, d: nat)
    requires
        bin_carries(v, t, structs),
    ensures
        spec_read_value::<BinaryProtocolReader>((bin_value_bytes(v, structs) + tail, d), t, structs)
            == (Ok::<SpecValue, crate::codec::SpecValueError>(v), (tail, d)),
    decreases v, 1int,
{
    match v {
        SpecValue::Bool(b) => { lemma_bin_bool_roundtrip(b, tail); },
        SpecValue::Byte(b) => { lemma_bin_byte_roundtrip(b, tail); },
        SpecValue::I16(b) => { lemma_bin_i16_roundtrip(b, tail); },
        SpecValue::I32(b) => { lemma_bin_i32_roundtrip(b, tail); },
        SpecValue::I64(b) => { lemma_bin_i64_roundtrip(b, tail); },
        SpecValue::Double(b) => { lemma_bin_double_bits_roundtrip(b, tail); },
        SpecValue::String(x) => { lemma_bin_string_roundtrip(x, tail); },
        SpecValue::Binary(b) => { lemma_bin_bytes_roundtrip(b, tail); },
        SpecValue::List(items) => { lemma_binary_read_list(v, t, structs, tail, d); },
        SpecValue::SetT(items) => { lemma_binary_read_set(v, t, structs, tail, d); },
        SpecValue::MapT(pairs) => { lemma_binary_read_map(v, t, structs, tail, d); },
        SpecValue::Struct(name, fields) => { lemma_binary_read_struct(v, t, structs, tail, d); },
    }
}

proof fn lemma_binary_read_list(v: SpecValue, t: SpecType, structs: Seq<(Seq<char>, SpecStruct)>, tail: Seq<u8>, d: nat)
    requires
        bin_carries(v, t, structs),
        v is List,
    ensures
        spec_read_value::<BinaryProtocolReader>((bin_value_bytes(v, structs) + tail, d), t, structs)
            == (Ok::<SpecValue, crate::codec::SpecValueError>(v), (tail, d)),
    decreases v, 0int,
{
    let items = v->List_0;
    let e = t->List_0;
    let h = ListBegin { element_type: elem_ttype(items), size: items.len() as i32 };
    let rest = bin_items_bytes(items, 0, structs) + tail;
    assert(bin_value_bytes(v, structs) + tail =~= bin_enc_list_begin(h) + rest);
    lemma_bin_list_begin_roundtrip(h, rest);
    lemma_binary_read_items(items, *e, structs, 0, tail, d);
    assert(items.take(0) =~= Seq::<SpecValue>::empty());
}

#[verifier::rlimit(40)]
proof fn lemma_binary_read_set(v: SpecValue, t: SpecType, structs: Seq<(Seq<char>, SpecStruct)>, tail: Seq<u8>, d: nat)
    requires
        bin_carries(v, t, structs),
        v is SetT,
    ensures
        spec_read_value::<BinaryProtocolReader>((bin_value_bytes(v, structs) + tail, d), t, structs)
            == (Ok::<SpecValue, crate::codec::SpecValueError>(v), (tail, d)),
    decreases v, 0int,
{
    let items = v->SetT_0;
    let e = t->SetT_0;
    let h = SetBegin { element_type: elem_ttype(items), size: items.len() as i32 };
    let rest = bin_items_bytes(items, 0, structs) + tail;
    assert(bin_value_bytes(v, structs) + tail =~= bin_enc_set_begin(h) + rest);
    lemma_bin_set_begin_roundtrip(h, rest);
    lemma_binary_read_items(items, *e, structs, 0, tail, d);
    assert(items.take(0) =~= Seq::<SpecValue>::empty());
}

proof fn lemma_binary_read_map(v: SpecValue, t: SpecType, structs: Seq<(Seq<char>, SpecStruct)>, tail: Seq<u8>, d: nat)
    requires
        bin_carries(v, t, structs),
        v is MapT,
    ensures
        spec_read_value::<BinaryProtocolReader>((bin_value_bytes(v, structs) + tail, d), t, structs)
            == (Ok::<SpecValue, crate::codec::SpecValueError>(v), (tail, d)),
    decreases v, 0int,
{
    let pairs = v->MapT_0;
    let kt = t->MapT_0;
    let vt = t->MapT_1;
    let (a, b) = pair_ttypes(pairs);
    let h = MapBegin { key_type: a, value_type: b, size: pairs.len() as i32 };
    let rest = bin_pairs_bytes(pairs, 0, structs) + tail;
    assert(bin_value_bytes(v, structs) + tail =~= bin_enc_map_begin(h) + rest);
    lemma_bin_map_begin_roundtrip(h, rest);
    lemma_binary_read_pairs(pairs, *kt, *vt, structs, 0, tail, d);
    assert(pairs.take(0) =~= Seq::<(SpecValue, SpecValue)>::empty());
}

proof fn lemma_binary_read_struct(v: SpecValue, t: SpecType, structs: Seq<(Seq<char>, SpecStruct)>, tail: Seq<u8>, d: nat)
    requires
        bin_carries(v, t, structs),
        v is Struct,
    ensures
        spec_read_value::<BinaryProtocolReader>((bin_value_bytes(v, structs) + tail, d), t, structs)
            == (Ok::<SpecValue, crate::codec::SpecValueError>(v), (tail, d)),
    decreases v, 0int,
{
    let fields = v->Struct_1;
    let n = t->Struct_0;
    let dd = assoc_get(structs, n).unwrap();
    lemma_canonical_entries(fields, dd.fields, dd.fields.len() as int);
    assert(dd.fields.take(dd.fields.len() as int) =~= dd.fields);
    let ce = canonical_entries(dd.fields);
    assert(ce.take(dd.fields.len() as int) =~= ce);
    assert(ce.skip(0) =~= ce);
    assert(fields.take(0) =~= Seq::<(Seq<char>, SpecValue)>::empty());
    lemma_binary_read_fields(fields, dd.fields, structs, 0, tail, d + 1);
}

/// Reading the remaining items from their Binary bytes gives all the items.
pub proof fn lemma_binary_read_items(items: Seq<SpecValue>, e: SpecType, structs: Seq<(Seq<char>, SpecStruct)>, k: int, tail: Seq<u8>, d: nat)
    requires
        forall|j: int| 0 <= j < items.len() ==> bin_carries(#[trigger] items[j], e, structs),
        0 <= k <= items.len(),
    ensures
        spec_read_items::<BinaryProtocolReader>((bin_items_bytes(items, k, structs) + tail, d), e, (items.len() - k) as nat, items.take(k), structs)
            == (Ok::<Seq<SpecValue>, crate::codec::SpecValueError>(items), (tail, d)),
    decreases items, items.len() - k,
{
    if k < items.len() {
        let rest = bin_items_bytes(items, k + 1, structs) + tail;
        lemma_binary_read_value(items[k], e, structs, rest, d);
        assert(bin_items_bytes(items, k, structs) + tail =~= bin_value_bytes(items[k], structs) + rest);
        lemma_binary_read_items(items, e, structs, k + 1, tail, d);
        assert(items.take(k).push(items[k]) =~= items.take(k + 1));
    } else {
        assert(items.take(k) =~= items);
        assert(bin_items_bytes(items, k, structs) + tail =~= tail);
    }
}

/// Reading the remaining pairs from their Binary bytes gives all the pairs.
#[verifier::rlimit(40)]
pub proof fn lemma_binary_read_pairs(
    pairs: Seq<(SpecValue, SpecValue)>,
    kt: SpecType,
    vt: SpecType,
    structs: Seq<(Seq<char>, SpecStruct)>,
    k: int,
    tail: Seq<u8>,
    d: nat,
)
    requires
        forall|j: int| 0 <= j < pairs.len() ==> bin_carries(#[trigger] pairs[j].0, kt, structs)
            && bin_carries(pairs[j].1, vt, structs),
        0 <= k <= pairs.len(),
    ensures
        spec_read_pairs::<BinaryProtocolReader>((bin_pairs_bytes(pairs, k, structs) + tail, d), kt, vt, (pairs.len() - k) as nat, pairs.take(k), structs)
            == (Ok::<Seq<(SpecValue, SpecValue)>, crate::codec::SpecValueError>(pairs), (tail, d)),
    decreases pairs, pairs.len() - k,
{
    if k < pairs.len() {
        let rest = bin_pairs_bytes(pairs, k + 1, structs) + tail;
        let mid = bin_value_bytes(pairs[k].1, structs) + rest;
        let s0: (Seq<u8>, nat) = (bin_pairs_bytes(pairs, k, structs) + tail, d);
        assert(s0.0 =~= bin_value_bytes(pairs[k].0, structs) + mid);
        lemma_binary_read_value(pairs[k].0, kt, structs, mid, d);
        lemma_binary_read_value(pairs[k].1, vt, structs, rest, d);
        let acc2 = pairs.take(k).push((pairs[k].0, pairs[k].1));
        assert(acc2 =~= pairs.take(k + 1));
        assert(spec_read_pairs::<BinaryProtocolReader>(s0, kt, vt, (pairs.len() - k) as nat, pairs.take(k), structs)
            == spec_read_pairs::<BinaryProtocolReader>((rest, d), kt, vt, (pairs.len() - (k + 1)) as nat, acc2, structs));
        lemma_binary_read_pairs(pairs, kt, vt, structs, k + 1, tail, d);
    } else {
        assert(pairs.take(k) =~= pairs);
        assert(bin_pairs_bytes(pairs, k, structs) + tail =~= tail);
    }
}

/// Reading the remaining fields of a struct from their Binary bytes, up to
/// the stop, gives all its fields.
#[verifier::rlimit(40)]
pub proof fn lemma_binary_read_fields(
    fields: Seq<(Seq<char>, SpecValue)>,
    fds: Seq<SpecField>,
    structs: Seq<(Seq<char>, SpecStruct)>,
    k: int,
    tail: Seq<u8>,
    d: nat,
)
    requires
        distinct_fields(fds),
        fields.len() == fds.len(),
        forall|j: int| 0 <= j < fields.len() ==> (#[trigger] fields[j]).0 == fds[j].name
            && bin_carries(fields[j].1, fds[j].field_type, structs),
        0 <= k <= fields.len(),
    ensures
        spec_read_struct_fields::<BinaryProtocolReader>(
            (bin_entries_bytes(fields, canonical_entries(fds).skip(k), structs) + bin_enc_field_stop() + tail, d),
            fds,
            structs,
            fields.take(k),
        ) == (Ok::<Seq<(Seq<char>, SpecValue)>, crate::codec::SpecValueError>(fields), (tail, d)),
    decreases fields, fields.len() - k,
{
    let ce = canonical_entries(fds);
    if k < fields.len() {
        let fv = fields[k].1;
        let id = fds[k].id;
        assert(ce.skip(k)[0] == (id, k));
        assert(ce.skip(k).drop_first() =~= ce.skip(k + 1));
        let after = bin_entries_bytes(fields, ce.skip(k + 1), structs) + bin_enc_field_stop() + tail;
        let vb = bin_value_bytes(fv, structs) + after;
        let s = bin_entries_bytes(fields, ce.skip(k), structs) + bin_enc_field_stop() + tail;
        assert(s =~= bin_enc_field_begin(value_ttype(fv), id) + vb);
        lemma_bin_field_begin_roundtrip(value_ttype(fv), id, vb);
        lemma_last_id(fds, k, fds.len() as int);
        lemma_binary_read_value(fv, fds[k].field_type, structs, after, d);
        lemma_assoc_index_from_bounds(fields.take(k), fds[k].name, 0);
        assert forall|j: int| 0 <= j < fields.take(k).len() implies fields.take(k)[j].0 != fds[k].name by {
            assert(fields[j].0 == fds[j].name);
        }
        assert(assoc_insert(fields.take(k), fds[k].name, fv) =~= fields.take(k + 1));
        lemma_binary_read_fields(fields, fds, structs, k + 1, tail, d);
    } else {
        assert(ce.skip(k) =~= Seq::<(i16, int)>::empty());
        lemma_bin_field_stop_reads_stop(tail);
        assert(fields.take(k) =~= fields);
        assert(bin_entries_bytes(fields, ce.skip(k), structs) + bin_enc_field_stop() + tail =~= bin_enc_field_stop() + tail);
    }
}

/// A value that the Binary protocol carries exactly is read back as it was
/// written: writing `v` with a Binary writer succeeds, and reading a value of
/// type `t` from the bytes it added, whatever follows them, gives `v` and
/// leaves what follows.
pub proof fn lemma_binary_value_roundtrip(
    v: SpecValue,
    t: SpecType,
    structs: Seq<(Seq<char>, SpecStruct)>,
    before: Seq<u8>,
    d: nat,
    tail: Seq<u8>,
    dr: nat,
)
    requires
        bin_carries(v, t, structs),
    ensures
        spec_write_value::<BinaryProtocolWriter>((before, d), v, structs).0 is Ok,
        spec_read_value::<BinaryProtocolReader>(
            (spec_write_value::<BinaryProtocolWriter>((before, d), v, structs).1.0.skip(before.len() as int) + tail, dr),
            t,
            structs,
        ) == (Ok::<SpecValue, crate::codec::SpecValueError>(v), (tail, dr)),
{
    lemma_binary_write_value(v, structs, before, d);
    assert((before + bin_value_bytes(v, structs)).skip(before.len() as int) =~= bin_value_bytes(v, structs));
    lemma_binary_read_value(v, t, structs, tail, dr);
}


// ─── Skipping those bytes ─────────────────────────────────────────────────────

/// Whether every binary in `v` is valid UTF-8 text: skipping reads a binary
/// as a string, which must be UTF-8.
pub open spec fn binaries_are_text(v: SpecValue) -> bool
    decreases v,
{
    match v {
        SpecValue::Binary(b) => valid_utf8(b),
        SpecValue::List(items) => forall|k: int| 0 <= k < items.len() ==> binaries_are_text(#[trigger] items[k]),
        SpecValue::SetT(items) => forall|k: int| 0 <= k < items.len() ==> binaries_are_text(#[trigger] items[k]),
        SpecValue::MapT(pairs) => forall|k: int| 0 <= k < pairs.len() ==> binaries_are_text(#[trigger] pairs[k].0)
            && binaries_are_text(pairs[k].1),
        SpecValue::Struct(_, fields) => forall|k: int| 0 <= k < fields.len() ==> binaries_are_text(#[trigger] fields[k].1),
        _ => true,
    }
}

/// Skipping a value of type `t` over the Binary bytes of a value `v` that
/// the protocol carries exactly, and whose binaries are UTF-8 text, takes
/// exactly those bytes and leaves what follows.
pub proof fn lemma_binary_skip_value(v: SpecValue, t: SpecType, structs: Seq<(Seq<char>, SpecStruct)>, rest: Seq<u8>, d: nat)
    requires
        bin_carries(v, t, structs),
        binaries_are_text(v),
    ensures
        spec_skip::<BinaryProtocolReader>((bin_value_bytes(v, structs) + rest, d), type_ttype(t)) == (Ok::<(), ProtocolError>(()), (rest, d)),
    decreases v, 1int,
{
    lemma_carries_ttype(v, t, structs);
    match v {
        SpecValue::Bool(b) => { lemma_bin_bool_roundtrip(b, rest); },
        SpecValue::Byte(b) => { lemma_bin_byte_roundtrip(b, rest); },
        SpecValue::I16(b) => { lemma_bin_i16_roundtrip(b, rest); },
        SpecValue::I32(b) => { lemma_bin_i32_roundtrip(b, rest); },
        SpecValue::I64(b) => { lemma_bin_i64_roundtrip(b, rest); },
        SpecValue::Double(b) => { lemma_bin_double_bits_roundtrip(b, rest); },
        SpecValue::String(x) => { lemma_bin_string_roundtrip(x, rest); },
        SpecValue::Binary(b) => { lemma_bin_bytes_roundtrip(b, rest); },
        SpecValue::List(_) => { lemma_binary_skip_list(v, t, structs, rest, d); },
        SpecValue::SetT(_) => { lemma_binary_skip_set(v, t, structs, rest, d); },
        SpecValue::MapT(_) => { lemma_binary_skip_map(v, t, structs, rest, d); },
        SpecValue::Struct(_, _) => { lemma_binary_skip_struct(v, t, structs, rest, d); },
    }
}

proof fn lemma_binary_skip_list(v: SpecValue, t: SpecType, structs: Seq<(Seq<char>, SpecStruct)>, rest: Seq<u8>, d: nat)
    requires
        bin_carries(v, t, structs),
        binaries_are_text(v),
        v is List,
    ensures
        spec_skip::<BinaryProtocolReader>((bin_value_bytes(v, structs) + rest, d), type_ttype(t)) == (Ok::<(), ProtocolError>(()), (rest, d)),
    decreases v, 0int,
{
    let items = v->List_0;
    let e = t->List_0;
    let h = ListBegin { element_type: elem_ttype(items), size: items.len() as i32 };
    let body = bin_items_bytes(items, 0, structs) + rest;
    assert(bin_value_bytes(v, structs) + rest =~= bin_enc_list_begin(h) + body);
    lemma_bin_list_begin_roundtrip(h, body);
    if items.len() > 0 {
        lemma_carries_ttype(items[0], *e, structs);
    }
    lemma_binary_skip_items(items, *e, structs, 0, rest, d);
}

proof fn lemma_binary_skip_set(v: SpecValue, t: SpecType, structs: Seq<(Seq<char>, SpecStruct)>, rest: Seq<u8>, d: nat)
    requires
        bin_carries(v, t, structs),
        binaries_are_text(v),
        v is SetT,
    ensures
        spec_skip::<BinaryProtocolReader>((bin_value_bytes(v, structs) + rest, d), type_ttype(t)) == (Ok::<(), ProtocolError>(()), (rest, d)),
    decreases v, 0int,
{
    let items = v->SetT_0;
    let e = t->SetT_0;
    let h = SetBegin { element_type: elem_ttype(items), size: items.len() as i32 };
    let body = bin_items_bytes(items, 0, structs) + rest;
    assert(bin_value_bytes(v, structs) + rest =~= bin_enc_set_begin(h) + body);
    lemma_bin_set_begin_roundtrip(h, body);
    if items.len() > 0 {
        lemma_carries_ttype(items[0], *e, structs);
    }
    lemma_binary_skip_items(items, *e, structs, 0, rest, d);
}

proof fn lemma_binary_skip_map(v: SpecValue, t: SpecType, structs: Seq<(Seq<char>, SpecStruct)>, rest: Seq<u8>, d: nat)
    requires
        bin_carries(v, t, structs),
        binaries_are_text(v),
        v is MapT,
    ensures
        spec_skip::<BinaryProtocolReader>((bin_value_bytes(v, structs) + rest, d), type_ttype(t)) == (Ok::<(), ProtocolError>(()), (rest, d)),
    decreases v, 0int,
{
    let pairs = v->MapT_0;
    let kt = t->MapT_0;
    let vt = t->MapT_1;
    let (a, b) = pair_ttypes(pairs);
    let h = MapBegin { key_type: a, value_type: b, size: pairs.len() as i32 };
    let body = bin_pairs_bytes(pairs, 0, structs) + rest;
    assert(bin_value_bytes(v, structs) + rest =~= bin_enc_map_begin(h) + body);
    lemma_bin_map_begin_roundtrip(h, body);
    if pairs.len() > 0 {
        lemma_carries_ttype(pairs[0].0, *kt, structs);
        lemma_carries_ttype(pairs[0].1, *vt, structs);
    }
    lemma_binary_skip_pairs(pairs, *kt, *vt, structs, 0, rest, d);
}

proof fn lemma_binary_skip_struct(v: SpecValue, t: SpecType, structs: Seq<(Seq<char>, SpecStruct)>, rest: Seq<u8>, d: nat)
    requires
        bin_carries(v, t, structs),
        binaries_are_text(v),
        v is Struct,
    ensures
        spec_skip::<BinaryProtocolReader>((bin_value_bytes(v, structs) + rest, d), type_ttype(t)) == (Ok::<(), ProtocolError>(()), (rest, d)),
    decreases v, 0int,
{
    let fields = v->Struct_1;
    let n = t->Struct_0;
    let dd = assoc_get(structs, n).unwrap();
    lemma_canonical_entries(fields, dd.fields, dd.fields.len() as int);
    assert(dd.fields.take(dd.fields.len() as int) =~= dd.fields);
    let ce = canonical_entries(dd.fields);
    assert(ce.take(dd.fields.len() as int) =~= ce);
    assert(ce.skip(0) =~= ce);
    lemma_binary_skip_fields(fields, dd.fields, structs, 0, rest, d + 1);
}

/// Skipping `n` items over their Binary bytes takes exactly those bytes.
pub proof fn lemma_binary_skip_items(items: Seq<SpecValue>, e: SpecType, structs: Seq<(Seq<char>, SpecStruct)>, k: int, rest: Seq<u8>, d: nat)
    requires
        forall|j: int| 0 <= j < items.len() ==> bin_carries(#[trigger] items[j], e, structs) && binaries_are_text(items[j]),
        0 <= k <= items.len(),
    ensures
        spec_skip_items::<BinaryProtocolReader>((bin_items_bytes(items, k, structs) + rest, d), type_ttype(e), (items.len() - k) as nat)
            == (Ok::<(), ProtocolError>(()), (rest, d)),
    decreases items, items.len() - k,
{
    if k < items.len() {
        let after = bin_items_bytes(items, k + 1, structs) + rest;
        assert(bin_items_bytes(items, k, structs) + rest =~= bin_value_bytes(items[k], structs) + after);
        lemma_binary_skip_value(items[k], e, structs, after, d);
        lemma_binary_skip_items(items, e, structs, k + 1, rest, d);
    } else {
        assert(bin_items_bytes(items, k, structs) + rest =~= rest);
    }
}

/// Skipping `n` pairs over their Binary bytes takes exactly those bytes.
#[verifier::rlimit(40)]
pub proof fn lemma_binary_skip_pairs(
    pairs: Seq<(SpecValue, SpecValue)>,
    kt: SpecType,
    vt: SpecType,
    structs: Seq<(Seq<char>, SpecStruct)>,
    k: int,
    rest: Seq<u8>,
    d: nat,
)
    requires
        forall|j: int| 0 <= j < pairs.len() ==> bin_carries(#[trigger] pairs[j].0, kt, structs)
            && bin_carries(pairs[j].1, vt, structs) && binaries_are_text(pairs[j].0) && binaries_are_text(pairs[j].1),
        0 <= k <= pairs.len(),
    ensures
        spec_skip_pairs::<BinaryProtocolReader>((bin_pairs_bytes(pairs, k, structs) + rest, d), type_ttype(kt), type_ttype(vt), (pairs.len() - k) as nat)
            == (Ok::<(), ProtocolError>(()), (rest, d)),
    decreases pairs, pairs.len() - k,
{
    if k < pairs.len() {
        let after = bin_pairs_bytes(pairs, k + 1, structs) + rest;
        let mid = bin_value_bytes(pairs[k].1, structs) + after;
        assert(bin_pairs_bytes(pairs, k, structs) + rest =~= bin_value_bytes(pairs[k].0, structs) + mid);
        lemma_binary_skip_value(pairs[k].0, kt, structs, mid, d);
        lemma_binary_skip_value(pairs[k].1, vt, structs, after, d);
        lemma_binary_skip_pairs(pairs, kt, vt, structs, k + 1, rest, d);
    } else {
        assert(bin_pairs_bytes(pairs, k, structs) + rest =~= rest);
    }
}

/// Skipping the remaining fields of a struct over their Binary bytes, up to
/// the stop, takes exactly those bytes.
#[verifier::rlimit(40)]
pub proof fn lemma_binary_skip_fields(
    fields: Seq<(Seq<char>, SpecValue)>,
    fds: Seq<SpecField>,
    structs: Seq<(Seq<char>, SpecStruct)>,
    k: int,
    rest: Seq<u8>,
    d: nat,
)
    requires
        fields.len() == fds.len(),
        forall|j: int| 0 <= j < fields.len() ==> bin_carries(#[trigger] fields[j].1, fds[j].field_type, structs)
            && binaries_are_text(fields[j].1),
        0 <= k <= fields.len(),
    ensures
        spec_skip_fields::<BinaryProtocolReader>(
            (bin_entries_bytes(fields, canonical_entries(fds).skip(k), structs) + bin_enc_field_stop() + rest, d),
        ) == (Ok::<(), ProtocolError>(()), (rest, d)),
    decreases fields, fields.len() - k,
{
    let ce = canonical_entries(fds);
    if k < fields.len() {
        let fv = fields[k].1;
        let id = fds[k].id;
        assert(ce.skip(k)[0] == (id, k));
        assert(ce.skip(k).drop_first() =~= ce.skip(k + 1));
        let after = bin_entries_bytes(fields, ce.skip(k + 1), structs) + bin_enc_field_stop() + rest;
        let vb = bin_value_bytes(fv, structs) + after;
        let s = bin_entries_bytes(fields, ce.skip(k), structs) + bin_enc_field_stop() + rest;
        assert(s =~= bin_enc_field_begin(value_ttype(fv), id) + vb);
        lemma_bin_field_begin_roundtrip(value_ttype(fv), id, vb);
        lemma_carries_ttype(fv, fds[k].field_type, structs);
        lemma_binary_skip_value(fv, fds[k].field_type, structs, after, d);
        lemma_binary_skip_fields(fields, fds, structs, k + 1, rest, d);
    } else {
        assert(ce.skip(k) =~= Seq::<(i16, int)>::empty());
        lemma_bin_field_stop_reads_stop(rest);
        assert(bin_entries_bytes(fields, ce.skip(k), structs) + bin_enc_field_stop() + rest =~= bin_enc_field_stop() + rest);
    }
}

// ─── Finding the end of written bytes ─────────────────────────────────────────

/// A value that a type carries goes on the wire with that type's tag.
proof fn lemma_carries_ttype(v: SpecValue, t: SpecType, structs: Seq<(Seq<char>, SpecStruct)>)
    requires
        bin_carries(v, t, structs),
    ensures
        value_ttype(v) == type_ttype(t),
{
}

/// The framing walk over the bytes of one value of type `t` ends exactly
/// where they do, whatever follows them.
#[verifier::rlimit(50)]
pub proof fn lemma_extent_value(v: SpecValue, t: SpecType, structs: Seq<(Seq<char>, SpecStruct)>, rest: Seq<u8>)
    requires
        bin_carries(v, t, structs),
    ensures
        value_extent(bin_value_bytes(v, structs) + rest, ttype_code(type_ttype(t)))
            == ExtentView::Complete(bin_value_bytes(v, structs).len()),
    decreases v, 0int, 1int,
{
    let b = bin_value_bytes(v, structs);
    let s = b + rest;
    match v {
        SpecValue::String(x) => {
            lemma_extent_bytes(encode_utf8(x), rest);
        },
        SpecValue::Binary(x) => {
            lemma_extent_bytes(x, rest);
        },
        SpecValue::List(items) => {
            let e = t->List_0;
            lemma_extent_list_like(items, *e, structs, rest);
            assert(s =~= bin_enc_list_begin(ListBegin { element_type: elem_ttype(items), size: items.len() as i32 })
                + (bin_items_bytes(items, 0, structs) + rest));
        },
        SpecValue::SetT(items) => {
            let e = t->SetT_0;
            lemma_extent_list_like(items, *e, structs, rest);
            assert(s =~= bin_enc_set_begin(SetBegin { element_type: elem_ttype(items), size: items.len() as i32 })
                + (bin_items_bytes(items, 0, structs) + rest));
        },
        SpecValue::MapT(pairs) => {
            lemma_extent_map(v, t, structs, rest);
        },
        SpecValue::Struct(name, fields) => {
            lemma_extent_struct(v, t, structs, rest);
        },
        _ => {},
    }
}

proof fn lemma_extent_struct(v: SpecValue, t: SpecType, structs: Seq<(Seq<char>, SpecStruct)>, rest: Seq<u8>)
    requires
        bin_carries(v, t, structs),
        v is Struct,
    ensures
        value_extent(bin_value_bytes(v, structs) + rest, ttype_code(type_ttype(t)))
            == ExtentView::Complete(bin_value_bytes(v, structs).len()),
    decreases v, 0int, 0int,
{
    let name = v->Struct_0;
    let fields = v->Struct_1;
    let n = t->Struct_0;
    let dd = assoc_get(structs, n).unwrap();
    let entries = struct_entries(struct_def(name, structs), fields);
    lemma_extent_entries(fields, entries, dd, structs, rest);
    assert(bin_value_bytes(v, structs) + rest =~= bin_entries_bytes(fields, entries, structs) + bin_enc_field_stop() + rest);
}

/// Length-prefixed bytes.
proof fn lemma_extent_bytes(u: Seq<u8>, rest: Seq<u8>)
    requires
        u.len() <= i32::MAX,
    ensures
        value_extent(bin_enc_bytes(u) + rest, 11) == ExtentView::Complete(bin_enc_bytes(u).len()),
{
    let s = bin_enc_bytes(u) + rest;
    lemma_be_u32_roundtrip(u.len() as u32, u + rest);
    assert(s =~= be_u32_bytes(u.len() as u32) + (u + rest));
}

/// A list or set header followed by the bytes of its items.
proof fn lemma_extent_list_like(items: Seq<SpecValue>, e: SpecType, structs: Seq<(Seq<char>, SpecStruct)>, rest: Seq<u8>)
    requires
        items.len() <= i32::MAX,
        forall|k: int| 0 <= k < items.len() ==> bin_carries(#[trigger] items[k], e, structs),
    ensures
        ({
            let h = seq![ttype_code(elem_ttype(items))] + bin_enc_i32(items.len() as i32);
            let s = h + (bin_items_bytes(items, 0, structs) + rest);
            &&& s.len() >= 5
            &&& s.skip(5) == bin_items_bytes(items, 0, structs) + rest
            &&& be_u32_value(s.skip(1)) as i32 as int == items.len()
            &&& elems_extent(s.skip(5), s[0], s[0], items.len() as int)
                == ExtentView::Complete(bin_items_bytes(items, 0, structs).len())
        }),
    decreases items, items.len() + 1, 0int,
{
    let h = seq![ttype_code(elem_ttype(items))] + bin_enc_i32(items.len() as i32);
    let tail = bin_items_bytes(items, 0, structs) + rest;
    let s = h + tail;
    assert(s.skip(1) =~= bin_enc_i32(items.len() as i32) + tail);
    lemma_be_u32_roundtrip((items.len() as i32) as u32, tail);
    lemma_signed_casts(0, items.len() as i32, 0);
    assert(s.skip(5) =~= tail);
    if items.len() > 0 {
        lemma_carries_ttype(items[0], e, structs);
        lemma_extent_items(items, e, structs, 0, rest);
    } else {
        assert(bin_items_bytes(items, 0, structs) =~= Seq::<u8>::empty());
    }
}

proof fn lemma_extent_map(v: SpecValue, t: SpecType, structs: Seq<(Seq<char>, SpecStruct)>, rest: Seq<u8>)
    requires
        bin_carries(v, t, structs),
        v is MapT,
    ensures
        value_extent(bin_value_bytes(v, structs) + rest, ttype_code(type_ttype(t)))
            == ExtentView::Complete(bin_value_bytes(v, structs).len()),
    decreases v, 0int, 0int,
{
    let pairs = v->MapT_0;
    let kt = t->MapT_0;
    let vt = t->MapT_1;
    let (a, b) = pair_ttypes(pairs);
    let tail = bin_pairs_bytes(pairs, 0, structs) + rest;
    let h = bin_enc_map_begin(MapBegin { key_type: a, value_type: b, size: pairs.len() as i32 });
    let s = bin_value_bytes(v, structs) + rest;
    assert(s =~= h + tail);
    assert(s.skip(2) =~= bin_enc_i32(pairs.len() as i32) + tail);
    lemma_be_u32_roundtrip((pairs.len() as i32) as u32, tail);
    lemma_signed_casts(0, pairs.len() as i32, 0);
    assert(s.skip(6) =~= tail);
    if pairs.len() > 0 {
        lemma_carries_ttype(pairs[0].0, *kt, structs);
        lemma_carries_ttype(pairs[0].1, *vt, structs);
        lemma_extent_pairs(pairs, *kt, *vt, structs, 0, rest);
    } else {
        assert(bin_pairs_bytes(pairs, 0, structs) =~= Seq::<u8>::empty());
    }
}

proof fn lemma_extent_items(items: Seq<SpecValue>, e: SpecType, structs: Seq<(Seq<char>, SpecStruct)>, k: int, rest: Seq<u8>)
    requires
        forall|j: int| 0 <= j < items.len() ==> bin_carries(#[trigger] items[j], e, structs),
        0 <= k <= items.len(),
    ensures
        elems_extent(bin_items_bytes(items, k, structs) + rest, ttype_code(type_ttype(e)), ttype_code(type_ttype(e)), items.len() - k)
            == ExtentView::Complete(bin_items_bytes(items, k, structs).len()),
    decreases items, items.len() - k, 0int,
{
    let a = ttype_code(type_ttype(e));
    if k < items.len() {
        let after = bin_items_bytes(items, k + 1, structs) + rest;
        let vb = bin_value_bytes(items[k], structs);
        lemma_extent_value(items[k], e, structs, after);
        let s = bin_items_bytes(items, k, structs) + rest;
        assert(s =~= vb + after);
        assert(s.skip(vb.len() as int) =~= after);
        lemma_extent_items(items, e, structs, k + 1, rest);
    } else {
        assert(bin_items_bytes(items, k, structs) =~= Seq::<u8>::empty());
    }
}

proof fn lemma_extent_pairs(
    pairs: Seq<(SpecValue, SpecValue)>,
    kt: SpecType,
    vt: SpecType,
    structs: Seq<(Seq<char>, SpecStruct)>,
    k: int,
    rest: Seq<u8>,
)
    requires
        forall|j: int| 0 <= j < pairs.len() ==> bin_carries(#[trigger] pairs[j].0, kt, structs)
            && bin_carries(pairs[j].1, vt, structs),
        0 <= k <= pairs.len(),
    ensures
        elems_extent(bin_pairs_bytes(pairs, k, structs) + rest, ttype_code(type_ttype(kt)), ttype_code(type_ttype(vt)), 2 * (pairs.len() - k))
            == ExtentView::Complete(bin_pairs_bytes(pairs, k, structs).len()),
    decreases pairs, pairs.len() - k, 0int,
{
    let a = ttype_code(type_ttype(kt));
    let b = ttype_code(type_ttype(vt));
    if k < pairs.len() {
        let after = bin_pairs_bytes(pairs, k + 1, structs) + rest;
        let kb = bin_value_bytes(pairs[k].0, structs);
        let vb = bin_value_bytes(pairs[k].1, structs);
        lemma_extent_value(pairs[k].1, vt, structs, after);
        lemma_extent_value(pairs[k].0, kt, structs, vb + after);
        let s = bin_pairs_bytes(pairs, k, structs) + rest;
        assert(s =~= kb + (vb + after));
        assert(s.skip(kb.len() as int) =~= vb + after);
        assert((vb + after).skip(vb.len() as int) =~= after);
        lemma_extent_pairs(pairs, kt, vt, structs, k + 1, rest);
        assert(elems_extent(vb + after, b, a, 2 * (pairs.len() - k) - 1)
            == shift(vb.len(), elems_extent(after, a, b, 2 * (pairs.len() - (k + 1)))));
    } else {
        assert(bin_pairs_bytes(pairs, k, structs) =~= Seq::<u8>::empty());
    }
}

/// The fields of a struct value, then its stop byte.
proof fn lemma_extent_entries(
    fields: Seq<(Seq<char>, SpecValue)>,
    entries: Seq<(i16, int)>,
    d: SpecStruct,
    structs: Seq<(Seq<char>, SpecStruct)>,
    rest: Seq<u8>,
)
    requires
        fields.len() == d.fields.len(),
        forall|k: int| 0 <= k < fields.len() ==> bin_carries((#[trigger] fields[k]).1, d.fields[k].field_type, structs),
    ensures
        struct_extent(bin_entries_bytes(fields, entries, structs) + bin_enc_field_stop() + rest)
            == ExtentView::Complete(bin_entries_bytes(fields, entries, structs).len() + 1),
    decreases fields, entries.len(), 0int,
{
    let s = bin_entries_bytes(fields, entries, structs) + bin_enc_field_stop() + rest;
    if entries.len() > 0 && 0 <= entries[0].1 < fields.len() {
        let i = entries[0].1;
        let fv = fields[i].1;
        let ft = d.fields[i].field_type;
        let after = bin_entries_bytes(fields, entries.drop_first(), structs) + bin_enc_field_stop() + rest;
        let vb = bin_value_bytes(fv, structs);
        assert(bin_carries(fields[i].1, ft, structs));
        lemma_carries_ttype(fv, ft, structs);
        lemma_extent_value(fv, ft, structs, after);
        let fb = bin_enc_field_begin(value_ttype(fv), entries[0].0);
        assert(fb.len() == 3);
        assert(s =~= fb + (vb + after));
        assert(s.skip(3) =~= vb + after);
        assert(s.skip(3 + vb.len() as int) =~= after);
        lemma_extent_entries(fields, entries.drop_first(), d, structs, rest);
    } else {
        assert(s =~= bin_enc_field_stop() + rest);
    }
}

/// The bytes that a Binary writer gives for a value that the protocol carries
/// are one whole value to the framing walk: it ends exactly where they end,
/// whatever follows them.
pub proof fn lemma_binary_value_extent(
    v: SpecValue,
    t: SpecType,
    structs: Seq<(Seq<char>, SpecStruct)>,
    before: Seq<u8>,
    d: nat,
    rest: Seq<u8>,
)
    requires
        bin_carries(v, t, structs),
    ensures
        ({
            let written = spec_write_value::<BinaryProtocolWriter>((before, d), v, structs).1.0.skip(before.len() as int);
            value_extent(written + rest, ttype_code(type_ttype(t))) == ExtentView::Complete(written.len())
        }),
{
    lemma_binary_write_value(v, structs, before, d);
    assert((before + bin_value_bytes(v, structs)).skip(before.len() as int) =~= bin_value_bytes(v, structs));
    lemma_extent_value(v, t, structs, rest);
}


// ─── The Compact protocol ─────────────────────────────────────────────────────

/// The Compact bytes of `v`, as writing it gives them. A struct's field
/// headers carry each id as an increase over the field before it (the first
/// after 0), and a bool field's value rides in its header.
pub open spec fn cpt_value_bytes(v: SpecValue, structs: Seq<(Seq<char>, SpecStruct)>) -> Seq<u8>
    decreases v, 0int,
{
    match v {
        SpecValue::Bool(b) => compact_enc_standalone_bool(b),
        SpecValue::Byte(b) => compact_enc_byte(b),
        SpecValue::I16(b) => compact_enc_varint32(b as i32),
        SpecValue::I32(b) => compact_enc_varint32(b),
        SpecValue::I64(b) => compact_enc_varint64(b),
        SpecValue::Double(b) => compact_enc_double_bits(b),
        SpecValue::String(t) => compact_enc_string(t),
        SpecValue::Binary(b) => compact_enc_bytes(b),
        SpecValue::List(items) => compact_enc_list_begin(elem_ttype(items), items.len() as i32)
            + cpt_items_bytes(items, 0, structs),
        SpecValue::SetT(items) => compact_enc_list_begin(elem_ttype(items), items.len() as i32)
            + cpt_items_bytes(items, 0, structs),
        SpecValue::MapT(pairs) => {
            let (kt, vt) = pair_ttypes(pairs);
            compact_enc_map_begin(MapBegin { key_type: kt, value_type: vt, size: pairs.len() as i32 })
                + cpt_pairs_bytes(pairs, 0, structs)
        },
        SpecValue::Struct(name, fields) => cpt_entries_bytes(fields, struct_entries(struct_def(name, structs), fields), 0, structs)
            + seq![0u8],
    }
}

pub open spec fn cpt_items_bytes(items: Seq<SpecValue>, k: int, structs: Seq<(Seq<char>, SpecStruct)>) -> Seq<u8>
    decreases items, items.len() - k,
{
    if 0 <= k < items.len() {
        cpt_value_bytes(items[k], structs) + cpt_items_bytes(items, k + 1, structs)
    } else {
        Seq::empty()
    }
}

pub open spec fn cpt_pairs_bytes(pairs: Seq<(SpecValue, SpecValue)>, k: int, structs: Seq<(Seq<char>, SpecStruct)>) -> Seq<u8>
    decreases pairs, pairs.len() - k,
{
    if 0 <= k < pairs.len() {
        cpt_value_bytes(pairs[k].0, structs) + cpt_value_bytes(pairs[k].1, structs) + cpt_pairs_bytes(pairs, k + 1, structs)
    } else {
        Seq::empty()
    }
}

/// The Compact bytes of the fields named by `entries`, after a field with id `last`.
pub open spec fn cpt_entries_bytes(fields: Seq<(Seq<char>, SpecValue)>, entries: Seq<(i16, int)>, last: i16, structs: Seq<(Seq<char>, SpecStruct)>) -> Seq<u8>
    decreases fields, entries.len(),
{
    if entries.len() == 0 {
        Seq::empty()
    } else {
        let id = entries[0].0;
        let i = entries[0].1;
        if 0 <= i < fields.len() {
            let fv = fields[i].1;
            let head: Seq<u8> = match fv {
                SpecValue::Bool(b) => compact_enc_field_header(if b { 1u8 } else { 2u8 }, id, last),
                _ => compact_enc_field_header(nibble_of_ttype(value_ttype(fv)), id, last) + cpt_value_bytes(fv, structs),
            };
            head + cpt_entries_bytes(fields, entries.drop_first(), id, structs)
        } else {
            Seq::empty()
        }
    }
}

/// The id of the last field that `entries` writes, after a field with id `last`.
pub open spec fn cpt_entries_last(fields: Seq<(Seq<char>, SpecValue)>, entries: Seq<(i16, int)>, last: i16) -> i16
    decreases entries.len(),
{
    if entries.len() == 0 {
        last
    } else if 0 <= entries[0].1 < fields.len() {
        cpt_entries_last(fields, entries.drop_first(), entries[0].0)
    } else {
        last
    }
}

/// Writing `v` with the Compact protocol, with no bool field waiting,
/// appends `cpt_value_bytes(v)` and leaves the field-id state as it was.
pub proof fn lemma_compact_write_value(v: SpecValue, structs: Seq<(Seq<char>, SpecStruct)>, b: Seq<u8>, ids: Seq<i16>)
    requires
        ids.len() > 0,
    ensures
        spec_write_value::<CompactProtocolWriter>((b, ids, None), v, structs)
            == (Ok::<(), crate::protocol::types::ProtocolError>(()), (b + cpt_value_bytes(v, structs), ids, None::<i16>)),
    decreases v, 0int,
{
    match v {
        SpecValue::List(items) => {
            let h = compact_enc_list_begin(elem_ttype(items), items.len() as i32);
            lemma_compact_write_items(items, 0, structs, b + h, ids);
            assert(b + h + cpt_items_bytes(items, 0, structs) =~= b + cpt_value_bytes(v, structs));
        },
        SpecValue::SetT(items) => {
            let h = compact_enc_list_begin(elem_ttype(items), items.len() as i32);
            lemma_compact_write_items(items, 0, structs, b + h, ids);
            assert(b + h + cpt_items_bytes(items, 0, structs) =~= b + cpt_value_bytes(v, structs));
        },
        SpecValue::MapT(pairs) => {
            let (kt, vt) = pair_ttypes(pairs);
            let h = compact_enc_map_begin(MapBegin { key_type: kt, value_type: vt, size: pairs.len() as i32 });
            lemma_compact_write_pairs(pairs, 0, structs, b + h, ids);
            assert(b + h + cpt_pairs_bytes(pairs, 0, structs) =~= b + cpt_value_bytes(v, structs));
        },
        SpecValue::Struct(name, fields) => {
            let entries = struct_entries(struct_def(name, structs), fields);
            lemma_compact_write_entries(fields, entries, 0, structs, b, ids);
            let last = cpt_entries_last(fields, entries, 0);
            assert(ids.push(last).drop_last() =~= ids);
            assert(b + cpt_entries_bytes(fields, entries, 0, structs) + seq![0u8] =~= b + cpt_value_bytes(v, structs));
        },
        _ => {},
    }
}

/// Writing the items from index `k` on appends their Compact bytes.
pub proof fn lemma_compact_write_items(items: Seq<SpecValue>, k: int, structs: Seq<(Seq<char>, SpecStruct)>, b: Seq<u8>, ids: Seq<i16>)
    requires
        ids.len() > 0,
    ensures
        spec_write_items::<CompactProtocolWriter>((b, ids, None), items, k, structs)
            == (Ok::<(), crate::protocol::types::ProtocolError>(()), (b + cpt_items_bytes(items, k, structs), ids, None::<i16>)),
    decreases items, items.len() - k,
{
    if 0 <= k < items.len() {
        lemma_compact_write_value(items[k], structs, b, ids);
        let b1 = b + cpt_value_bytes(items[k], structs);
        lemma_compact_write_items(items, k + 1, structs, b1, ids);
        assert(b1 + cpt_items_bytes(items, k + 1, structs) =~= b + cpt_items_bytes(items, k, structs));
    } else {
        assert(b + cpt_items_bytes(items, k, structs) =~= b);
    }
}

/// Writing the pairs from index `k` on appends their Compact bytes.
pub proof fn lemma_compact_write_pairs(pairs: Seq<(SpecValue, SpecValue)>, k: int, structs: Seq<(Seq<char>, SpecStruct)>, b: Seq<u8>, ids: Seq<i16>)
    requires
        ids.len() > 0,
    ensures
        spec_write_pairs::<CompactProtocolWriter>((b, ids, None), pairs, k, structs)
            == (Ok::<(), crate::protocol::types::ProtocolError>(()), (b + cpt_pairs_bytes(pairs, k, structs), ids, None::<i16>)),
    decreases pairs, pairs.len() - k,
{
    if 0 <= k < pairs.len() {
        lemma_compact_write_value(pairs[k].0, structs, b, ids);
        let b1 = b + cpt_value_bytes(pairs[k].0, structs);
        lemma_compact_write_value(pairs[k].1, structs, b1, ids);
        let b2 = b1 + cpt_value_bytes(pairs[k].1, structs);
        lemma_compact_write_pairs(pairs, k + 1, structs, b2, ids);
        assert(b2 + cpt_pairs_bytes(pairs, k + 1, structs) =~= b + cpt_pairs_bytes(pairs, k, structs));
    } else {
        assert(b + cpt_pairs_bytes(pairs, k, structs) =~= b);
    }
}

/// Writing the fields named by `entries` after a field with id `last`
/// appends their Compact bytes and records the last id written.
pub proof fn lemma_compact_write_entries(
    fields: Seq<(Seq<char>, SpecValue)>,
    entries: Seq<(i16, int)>,
    last: i16,
    structs: Seq<(Seq<char>, SpecStruct)>,
    b: Seq<u8>,
    ids: Seq<i16>,
)
    ensures
        spec_write_entries::<CompactProtocolWriter>((b, ids.push(last), None), fields, entries, structs)
            == (Ok::<(), crate::protocol::types::ProtocolError>(()), (
                b + cpt_entries_bytes(fields, entries, last, structs),
                ids.push(cpt_entries_last(fields, entries, last)),
                None::<i16>,
            )),
    decreases fields, entries.len(),
{
    if entries.len() == 0 {
        assert(b + cpt_entries_bytes(fields, entries, last, structs) =~= b);
    } else {
        let id = entries[0].0;
        let i = entries[0].1;
        if 0 <= i < fields.len() {
            let fv = fields[i].1;
            let s0: (Seq<u8>, Seq<i16>, Option<i16>) = (b, ids.push(last), None);
            assert(s0.1.last() == last);
            assert(s0.1.update(s0.1.len() - 1, id) =~= ids.push(id));
            let b2 = match fv {
                SpecValue::Bool(x) => {
                    let s1: (Seq<u8>, Seq<i16>, Option<i16>) = (b, ids.push(last), Some(id));
                    assert(<CompactProtocolWriter as TOutputProtocol>::spec_write_field_begin(s0, TType::Bool, id) == (Ok::<(), crate::protocol::types::ProtocolError>(()), s1));
                    let b2 = b + compact_enc_field_header(if x { 1u8 } else { 2u8 }, id, last);
                    assert(<CompactProtocolWriter as TOutputProtocol>::spec_write_bool(s1, x)
                        == (Ok::<(), crate::protocol::types::ProtocolError>(()), (b2, ids.push(id), None::<i16>)));
                    assert(spec_write_value::<CompactProtocolWriter>(s1, fv, structs)
                        == (Ok::<(), crate::protocol::types::ProtocolError>(()), (b2, ids.push(id), None::<i16>)));
                    b2
                },
                _ => {
                    let b1 = b + compact_enc_field_header(nibble_of_ttype(value_ttype(fv)), id, last);
                    assert(value_ttype(fv) != TType::Bool);
                    assert(<CompactProtocolWriter as TOutputProtocol>::spec_write_field_begin(s0, value_ttype(fv), id)
                        == (Ok::<(), crate::protocol::types::ProtocolError>(()), (b1, ids.push(id), None::<i16>)));
                    lemma_compact_write_value(fv, structs, b1, ids.push(id));
                    b1 + cpt_value_bytes(fv, structs)
                },
            };
            assert(spec_write_entries::<CompactProtocolWriter>(s0, fields, entries, structs)
                == spec_write_entries::<CompactProtocolWriter>((b2, ids.push(id), None), fields, entries.drop_first(), structs));
            lemma_compact_write_entries(fields, entries.drop_first(), id, structs, b2, ids);
            assert(b2 + cpt_entries_bytes(fields, entries.drop_first(), id, structs)
                =~= b + cpt_entries_bytes(fields, entries, last, structs));
            assert(cpt_entries_last(fields, entries, last) == cpt_entries_last(fields, entries.drop_first(), id));
        } else {
            assert(b + cpt_entries_bytes(fields, entries, last, structs) =~= b);
        }
    }
}


/// Reading a value of type `t` from the Compact bytes of a value `v` that
/// the protocol carries exactly gives `v` back, and leaves what follows.
pub proof fn lemma_compact_read_value(v: SpecValue, t: SpecType, structs: Seq<(Seq<char>, SpecStruct)>, tail: Seq<u8>, ids: Seq<i16>)
    requires
        bin_carries(v, t, structs),
        ids.len() > 0,
    ensures
        spec_read_value::<CompactProtocolReader>((cpt_value_bytes(v, structs) + tail, ids, None), t, structs)
            == (Ok::<SpecValue, crate::codec::SpecValueError>(v), (tail, ids, None::<bool>)),
    decreases v, 1int,
{
    let s = cpt_value_bytes(v, structs) + tail;
    match v {
        SpecValue::Bool(b) => { lemma_compact_standalone_bool_roundtrip(b, tail); },
        SpecValue::Byte(b) => { lemma_compact_byte_roundtrip(b, tail); },
        SpecValue::I16(b) => {
            lemma_compact_i16_roundtrip(b, tail);
            lemma_compact_varint32_roundtrip(b as i32, tail);
        },
        SpecValue::I32(b) => { lemma_compact_varint32_roundtrip(b, tail); },
        SpecValue::I64(b) => { lemma_compact_varint64_roundtrip(b, tail); },
        SpecValue::Double(b) => { lemma_compact_double_bits_roundtrip(b, tail); },
        SpecValue::String(x) => { lemma_compact_string_roundtrip(x, tail); },
        SpecValue::Binary(b) => { lemma_compact_bytes_roundtrip(b, tail); },
        SpecValue::List(items) => { lemma_compact_read_list(v, t, structs, tail, ids); },
        SpecValue::SetT(items) => { lemma_compact_read_set(v, t, structs, tail, ids); },
        SpecValue::MapT(pairs) => { lemma_compact_read_map(v, t, structs, tail, ids); },
        SpecValue::Struct(name, fields) => { lemma_compact_read_struct(v, t, structs, tail, ids); },
    }
}

/// A list's or set's element type is never `Void`.
proof fn lemma_elem_not_void(items: Seq<SpecValue>)
    ensures
        elem_ttype(items) != TType::Void,
        elem_ttype(items) != TType::Stop,
{
}

proof fn lemma_compact_read_list(v: SpecValue, t: SpecType, structs: Seq<(Seq<char>, SpecStruct)>, tail: Seq<u8>, ids: Seq<i16>)
    requires
        bin_carries(v, t, structs),
        ids.len() > 0,
        v is List,
    ensures
        spec_read_value::<CompactProtocolReader>((cpt_value_bytes(v, structs) + tail, ids, None), t, structs)
            == (Ok::<SpecValue, crate::codec::SpecValueError>(v), (tail, ids, None::<bool>)),
    decreases v, 0int,
{
    let items = v->List_0;
    let e = t->List_0;
    let h = compact_enc_list_begin(elem_ttype(items), items.len() as i32);
    let rest = cpt_items_bytes(items, 0, structs) + tail;
    assert(cpt_value_bytes(v, structs) + tail =~= h + rest);
    lemma_elem_not_void(items);
    lemma_compact_list_begin_roundtrip(elem_ttype(items), items.len() as i32, rest);
    lemma_compact_read_items(items, *e, structs, 0, tail, ids);
    assert(items.take(0) =~= Seq::<SpecValue>::empty());
}

proof fn lemma_compact_read_set(v: SpecValue, t: SpecType, structs: Seq<(Seq<char>, SpecStruct)>, tail: Seq<u8>, ids: Seq<i16>)
    requires
        bin_carries(v, t, structs),
        ids.len() > 0,
        v is SetT,
    ensures
        spec_read_value::<CompactProtocolReader>((cpt_value_bytes(v, structs) + tail, ids, None), t, structs)
            == (Ok::<SpecValue, crate::codec::SpecValueError>(v), (tail, ids, None::<bool>)),
    decreases v, 0int,
{
    let items = v->SetT_0;
    let e = t->SetT_0;
    let h = compact_enc_list_begin(elem_ttype(items), items.len() as i32);
    let rest = cpt_items_bytes(items, 0, structs) + tail;
    assert(cpt_value_bytes(v, structs) + tail =~= h + rest);
    lemma_elem_not_void(items);
    lemma_compact_list_begin_roundtrip(elem_ttype(items), items.len() as i32, rest);
    lemma_compact_read_items(items, *e, structs, 0, tail, ids);
    assert(items.take(0) =~= Seq::<SpecValue>::empty());
}

proof fn lemma_compact_read_map(v: SpecValue, t: SpecType, structs: Seq<(Seq<char>, SpecStruct)>, tail: Seq<u8>, ids: Seq<i16>)
    requires
        bin_carries(v, t, structs),
        ids.len() > 0,
        v is MapT,
    ensures
        spec_read_value::<CompactProtocolReader>((cpt_value_bytes(v, structs) + tail, ids, None), t, structs)
            == (Ok::<SpecValue, crate::codec::SpecValueError>(v), (tail, ids, None::<bool>)),
    decreases v, 0int,
{
    let pairs = v->MapT_0;
    let kt = t->MapT_0;
    let vt = t->MapT_1;
    let (a, b) = pair_ttypes(pairs);
    let m = MapBegin { key_type: a, value_type: b, size: pairs.len() as i32 };
    let h = compact_enc_map_begin(m);
    let rest = cpt_pairs_bytes(pairs, 0, structs) + tail;
    assert(cpt_value_bytes(v, structs) + tail =~= h + rest);
    lemma_compact_map_begin_roundtrip(m, rest);
    if pairs.len() == 0 {
        assert((h + rest).skip(1) =~= rest);
    } else {
        assert((h + rest).skip(h.len() as int) =~= rest);
    }
    lemma_compact_read_pairs(pairs, *kt, *vt, structs, 0, tail, ids);
    assert(pairs.take(0) =~= Seq::<(SpecValue, SpecValue)>::empty());
}

proof fn lemma_compact_read_struct(v: SpecValue, t: SpecType, structs: Seq<(Seq<char>, SpecStruct)>, tail: Seq<u8>, ids: Seq<i16>)
    requires
        bin_carries(v, t, structs),
        ids.len() > 0,
        v is Struct,
    ensures
        spec_read_value::<CompactProtocolReader>((cpt_value_bytes(v, structs) + tail, ids, None), t, structs)
            == (Ok::<SpecValue, crate::codec::SpecValueError>(v), (tail, ids, None::<bool>)),
    decreases v, 0int,
{
    let fields = v->Struct_1;
    let n = t->Struct_0;
    let dd = assoc_get(structs, n).unwrap();
    lemma_canonical_entries(fields, dd.fields, dd.fields.len() as int);
    assert(dd.fields.take(dd.fields.len() as int) =~= dd.fields);
    let ce = canonical_entries(dd.fields);
    assert(ce.take(dd.fields.len() as int) =~= ce);
    assert(ce.skip(0) =~= ce);
    assert(fields.take(0) =~= Seq::<(Seq<char>, SpecValue)>::empty());
    lemma_compact_read_fields(fields, dd.fields, structs, 0, tail, ids, 0);
    let last = cpt_entries_last(fields, ce, 0);
    assert(ids.push(last).drop_last() =~= ids);
}

/// Reading the remaining items from their Compact bytes gives all the items.
pub proof fn lemma_compact_read_items(items: Seq<SpecValue>, e: SpecType, structs: Seq<(Seq<char>, SpecStruct)>, k: int, tail: Seq<u8>, ids: Seq<i16>)
    requires
        forall|j: int| 0 <= j < items.len() ==> bin_carries(#[trigger] items[j], e, structs),
        0 <= k <= items.len(),
        ids.len() > 0,
    ensures
        spec_read_items::<CompactProtocolReader>((cpt_items_bytes(items, k, structs) + tail, ids, None), e, (items.len() - k) as nat, items.take(k), structs)
            == (Ok::<Seq<SpecValue>, crate::codec::SpecValueError>(items), (tail, ids, None::<bool>)),
    decreases items, items.len() - k,
{
    if k < items.len() {
        let rest = cpt_items_bytes(items, k + 1, structs) + tail;
        lemma_compact_read_value(items[k], e, structs, rest, ids);
        assert(cpt_items_bytes(items, k, structs) + tail =~= cpt_value_bytes(items[k], structs) + rest);
        lemma_compact_read_items(items, e, structs, k + 1, tail, ids);
        assert(items.take(k).push(items[k]) =~= items.take(k + 1));
    } else {
        assert(items.take(k) =~= items);
        assert(cpt_items_bytes(items, k, structs) + tail =~= tail);
    }
}

/// Reading the remaining pairs from their Compact bytes gives all the pairs.
#[verifier::rlimit(40)]
pub proof fn lemma_compact_read_pairs(
    pairs: Seq<(SpecValue, SpecValue)>,
    kt: SpecType,
    vt: SpecType,
    structs: Seq<(Seq<char>, SpecStruct)>,
    k: int,
    tail: Seq<u8>,
    ids: Seq<i16>,
)
    requires
        forall|j: int| 0 <= j < pairs.len() ==> bin_carries(#[trigger] pairs[j].0, kt, structs)
            && bin_carries(pairs[j].1, vt, structs),
        0 <= k <= pairs.len(),
        ids.len() > 0,
    ensures
        spec_read_pairs::<CompactProtocolReader>((cpt_pairs_bytes(pairs, k, structs) + tail, ids, None), kt, vt, (pairs.len() - k) as nat, pairs.take(k), structs)
            == (Ok::<Seq<(SpecValue, SpecValue)>, crate::codec::SpecValueError>(pairs), (tail, ids, None::<bool>)),
    decreases pairs, pairs.len() - k,
{
    if k < pairs.len() {
        let rest = cpt_pairs_bytes(pairs, k + 1, structs) + tail;
        let mid = cpt_value_bytes(pairs[k].1, structs) + rest;
        let s0: (Seq<u8>, Seq<i16>, Option<bool>) = (cpt_pairs_bytes(pairs, k, structs) + tail, ids, None);
        assert(s0.0 =~= cpt_value_bytes(pairs[k].0, structs) + mid);
        lemma_compact_read_value(pairs[k].0, kt, structs, mid, ids);
        lemma_compact_read_value(pairs[k].1, vt, structs, rest, ids);
        let acc2 = pairs.take(k).push((pairs[k].0, pairs[k].1));
        assert(acc2 =~= pairs.take(k + 1));
        assert(spec_read_pairs::<CompactProtocolReader>(s0, kt, vt, (pairs.len() - k) as nat, pairs.take(k), structs)
            == spec_read_pairs::<CompactProtocolReader>((rest, ids, None), kt, vt, (pairs.len() - (k + 1)) as nat, acc2, structs));
        lemma_compact_read_pairs(pairs, kt, vt, structs, k + 1, tail, ids);
    } else {
        assert(pairs.take(k) =~= pairs);
        assert(cpt_pairs_bytes(pairs, k, structs) + tail =~= tail);
    }
}

/// The type nibble of a field header that carries `fv`.
pub open spec fn cpt_field_nibble(fv: SpecValue) -> u8 {
    match fv {
        SpecValue::Bool(b) => if b { 1u8 } else { 2u8 },
        _ => nibble_of_ttype(value_ttype(fv)),
    }
}

/// Reading the remaining fields of a struct from their Compact bytes, up to
/// the stop, gives all its fields and the id of the last one.
#[verifier::rlimit(60)]
pub proof fn lemma_compact_read_fields(
    fields: Seq<(Seq<char>, SpecValue)>,
    fds: Seq<SpecField>,
    structs: Seq<(Seq<char>, SpecStruct)>,
    k: int,
    tail: Seq<u8>,
    ids: Seq<i16>,
    last: i16,
)
    requires
        distinct_fields(fds),
        fields.len() == fds.len(),
        forall|j: int| 0 <= j < fields.len() ==> (#[trigger] fields[j]).0 == fds[j].name
            && bin_carries(fields[j].1, fds[j].field_type, structs),
        0 <= k <= fields.len(),
    ensures
        spec_read_struct_fields::<CompactProtocolReader>(
            (cpt_entries_bytes(fields, canonical_entries(fds).skip(k), last, structs) + seq![0u8] + tail, ids.push(last), None),
            fds,
            structs,
            fields.take(k),
        ) == (Ok::<Seq<(Seq<char>, SpecValue)>, crate::codec::SpecValueError>(fields), (
            tail,
            ids.push(cpt_entries_last(fields, canonical_entries(fds).skip(k), last)),
            None::<bool>,
        )),
    decreases fields, fields.len() - k,
{
    let ce = canonical_entries(fds);
    if k < fields.len() {
        let fv = fields[k].1;
        let id = fds[k].id;
        assert(ce.skip(k)[0] == (id, k));
        assert(ce.skip(k).drop_first() =~= ce.skip(k + 1));
        let after = cpt_entries_bytes(fields, ce.skip(k + 1), id, structs) + seq![0u8] + tail;
        let nib = cpt_field_nibble(fv);
        let hd = compact_enc_field_header(nib, id, last);
        let s = cpt_entries_bytes(fields, ce.skip(k), last, structs) + seq![0u8] + tail;
        let s0: (Seq<u8>, Seq<i16>, Option<bool>) = (s, ids.push(last), None);
        lemma_nibble_roundtrip(value_ttype(fv));
        assert(1 <= nib <= 12);
        assert(ids.push(last).last() == last);
        assert(ids.push(last).update(ids.len() as int, id) =~= ids.push(id));
        lemma_last_id(fds, k, fds.len() as int);
        lemma_assoc_index_from_bounds(fields.take(k), fds[k].name, 0);
        assert forall|j: int| 0 <= j < fields.take(k).len() implies fields.take(k)[j].0 != fds[k].name by {
            assert(fields[j].0 == fds[j].name);
        }
        assert(assoc_insert(fields.take(k), fds[k].name, fv) =~= fields.take(k + 1));
        match fv {
            SpecValue::Bool(b) => {
                assert(s =~= hd + after);
                lemma_compact_field_header_roundtrip(nib, id, last, after);
                assert(fds[k].field_type == SpecType::Bool);
                let s1: (Seq<u8>, Seq<i16>, Option<bool>) = (after, ids.push(id), Some(b));
                assert(<CompactProtocolReader as TInputProtocol>::spec_read_field_begin(s0)
                    == (Ok::<(TType, i16), crate::protocol::types::ProtocolError>((TType::Bool, id)), s1));
                assert(after.skip(0) =~= after);
                assert(spec_read_value::<CompactProtocolReader>(s1, fds[k].field_type, structs)
                    == (Ok::<SpecValue, crate::codec::SpecValueError>(fv), (after, ids.push(id), None::<bool>)));
            },
            _ => {
                let vb = cpt_value_bytes(fv, structs) + after;
                assert(s =~= hd + vb);
                lemma_compact_field_header_roundtrip(nib, id, last, vb);
                assert(nibble_bool(nib) is None);
                lemma_compact_read_value(fv, fds[k].field_type, structs, after, ids.push(id));
                let s1: (Seq<u8>, Seq<i16>, Option<bool>) = (vb, ids.push(id), None);
                assert(<CompactProtocolReader as TInputProtocol>::spec_read_field_begin(s0)
                    == (Ok::<(TType, i16), crate::protocol::types::ProtocolError>((value_ttype(fv), id)), s1));
            },
        }
        lemma_compact_read_fields(fields, fds, structs, k + 1, tail, ids, id);
    } else {
        assert(ce.skip(k) =~= Seq::<(i16, int)>::empty());
        assert(fields.take(k) =~= fields);
        let s = cpt_entries_bytes(fields, ce.skip(k), last, structs) + seq![0u8] + tail;
        assert(s =~= seq![0u8] + tail);
        assert(s.skip(1) =~= tail);
    }
}

/// A value that the Compact protocol carries exactly is read back as it was
/// written: writing `v` with a Compact writer inside a struct succeeds, and
/// reading a value of type `t` from the bytes it added, whatever follows
/// them, gives `v`, leaves what follows, and leaves the field-id state as it was.
pub proof fn lemma_compact_value_roundtrip(
    v: SpecValue,
    t: SpecType,
    structs: Seq<(Seq<char>, SpecStruct)>,
    before: Seq<u8>,
    ids: Seq<i16>,
    tail: Seq<u8>,
    read_ids: Seq<i16>,
)
    requires
        bin_carries(v, t, structs),
        ids.len() > 0,
        read_ids.len() > 0,
    ensures
        spec_write_value::<CompactProtocolWriter>((before, ids, None), v, structs).0 is Ok,
        spec_read_value::<CompactProtocolReader>(
            (spec_write_value::<CompactProtocolWriter>((before, ids, None), v, structs).1.0.skip(before.len() as int) + tail, read_ids, None),
            t,
            structs,
        ) == (Ok::<SpecValue, crate::codec::SpecValueError>(v), (tail, read_ids, None::<bool>)),
{
    lemma_compact_write_value(v, structs, before, ids);
    assert((before + cpt_value_bytes(v, structs)).skip(before.len() as int) =~= cpt_value_bytes(v, structs));
    lemma_compact_read_value(v, t, structs, tail, read_ids);
}

} // verus!
