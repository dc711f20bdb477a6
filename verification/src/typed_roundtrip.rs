//! Values written by their declared types through the Binary protocol: the
//! bytes that writing gives, and reading them back with the same type.

use vstd::prelude::*;
use crate::codec::{
    spec_write_typed, spec_write_typed_items, spec_write_typed_pairs, spec_write_typed_fields,
    spec_read_value, spec_read_items, spec_read_pairs, spec_read_struct_fields, type_ttype, SpecValueError,
};
use crate::parser::ast::{SpecField, SpecStruct, SpecType, SpecValue};
use crate::parser::names::{assoc_get, assoc_index, assoc_insert, lemma_assoc_index_from_bounds};
use crate::protocol::binary::{
    BinaryProtocolReader, BinaryProtocolWriter, bin_enc_bool, bin_enc_byte, bin_enc_i16,
    bin_enc_i32, bin_enc_i64, bin_enc_double_bits, bin_enc_string, bin_enc_bytes,
    bin_enc_list_begin, bin_enc_set_begin, bin_enc_map_begin, bin_enc_field_begin,
    bin_enc_field_stop, lemma_bin_bool_roundtrip, lemma_bin_byte_roundtrip, lemma_bin_i16_roundtrip,
    lemma_bin_i32_roundtrip, lemma_bin_i64_roundtrip, lemma_bin_double_bits_roundtrip,
    lemma_bin_string_roundtrip, lemma_bin_bytes_roundtrip, lemma_bin_list_begin_roundtrip,
    lemma_bin_set_begin_roundtrip, lemma_bin_map_begin_roundtrip, lemma_bin_field_begin_roundtrip,
    lemma_bin_field_stop_reads_stop,
};
use crate::protocol::types::{ListBegin, MapBegin, SetBegin};
use crate::roundtrip::{bin_carries, distinct_fields, lemma_first_name, lemma_last_id};
use crate::given::{spec_write_given, plain_entries, lemma_given_plain_struct, SpecGiven};

verus! {

/// The Binary bytes of `v` written as a value of type `t`, for a value that
/// the protocol carries exactly as such a value: container headers name the
/// declared types, and struct fields go under their declared ids and types.
pub open spec fn bin_typed_bytes(t: SpecType, v: SpecValue, structs: Seq<(Seq<char>, SpecStruct)>) -> Seq<u8>
    decreases v, 0int,
{
    match v {
        SpecValue::Bool(b) => bin_enc_bool(b),
        SpecValue::Byte(b) => bin_enc_byte(b),
        SpecValue::I16(b) => bin_enc_i16(b),
        SpecValue::I32(b) => bin_enc_i32(b),
        SpecValue::I64(b) => bin_enc_i64(b),
        SpecValue::Double(b) => bin_enc_double_bits(b),
        SpecValue::String(x) => bin_enc_string(x),
        SpecValue::Binary(b) => bin_enc_bytes(b),
        SpecValue::List(items) => match t {
            SpecType::List(e) => bin_enc_list_begin(ListBegin { element_type: type_ttype(*e), size: items.len() as i32 })
                + bin_typed_items_bytes(*e, items, 0, structs),
            _ => Seq::empty(),
        },
        SpecValue::SetT(items) => match t {
            SpecType::SetT(e) => bin_enc_set_begin(SetBegin { element_type: type_ttype(*e), size: items.len() as i32 })
                + bin_typed_items_bytes(*e, items, 0, structs),
            _ => Seq::empty(),
        },
        SpecValue::MapT(pairs) => match t {
            SpecType::MapT(k, w) => bin_enc_map_begin(MapBegin { key_type: type_ttype(*k), value_type: type_ttype(*w), size: pairs.len() as i32 })
                + bin_typed_pairs_bytes(*k, *w, pairs, 0, structs),
            _ => Seq::empty(),
        },
        SpecValue::Struct(_, fields) => match t {
            SpecType::Struct(n) => match assoc_get(structs, n) {
                Some(d) => bin_typed_fields_bytes(d.fields, fields, 0, structs) + bin_enc_field_stop(),
                None => Seq::empty(),
            },
            _ => Seq::empty(),
        },
    }
}

/// The Binary bytes of the items from index `k` on, each of type `e`.
pub open spec fn bin_typed_items_bytes(e: SpecType, items: Seq<SpecValue>, k: int, structs: Seq<(Seq<char>, SpecStruct)>) -> Seq<u8>
    decreases items, items.len() - k,
{
    if 0 <= k < items.len() {
        bin_typed_bytes(e, items[k], structs) + bin_typed_items_bytes(e, items, k + 1, structs)
    } else {
        Seq::empty()
    }
}

/// The Binary bytes of the pairs from index `k` on.
pub open spec fn bin_typed_pairs_bytes(
    kt: SpecType,
    vt: SpecType,
    pairs: Seq<(SpecValue, SpecValue)>,
    k: int,
    structs: Seq<(Seq<char>, SpecStruct)>,
) -> Seq<u8>
    decreases pairs, pairs.len() - k,
{
    if 0 <= k < pairs.len() {
        bin_typed_bytes(kt, pairs[k].0, structs) + bin_typed_bytes(vt, pairs[k].1, structs)
            + bin_typed_pairs_bytes(kt, vt, pairs, k + 1, structs)
    } else {
        Seq::empty()
    }
}

/// The Binary bytes of the fields from the `k`-th on of a struct value that
/// holds each field of the definition `fds` in order.
pub open spec fn bin_typed_fields_bytes(
    fds: Seq<SpecField>,
    fields: Seq<(Seq<char>, SpecValue)>,
    k: int,
    structs: Seq<(Seq<char>, SpecStruct)>,
) -> Seq<u8>
    decreases fields, fds.len() - k,
{
    if 0 <= k < fds.len() && k < fields.len() {
        bin_enc_field_begin(type_ttype(fds[k].field_type), fds[k].id)
            + bin_typed_bytes(fds[k].field_type, fields[k].1, structs)
            + bin_typed_fields_bytes(fds, fields, k + 1, structs)
    } else {
        Seq::empty()
    }
}

// ─── Writing gives those bytes ────────────────────────────────────────────────

/// Writing `v` as a value of type `t` with the Binary protocol appends
/// `bin_typed_bytes(t, v)`, when the protocol carries `v` exactly as such a
/// value.
pub proof fn lemma_binary_write_typed(t: SpecType, v: SpecValue, structs: Seq<(Seq<char>, SpecStruct)>, b: Seq<u8>, d: nat)
    requires
        bin_carries(v, t, structs),
    ensures
        spec_write_typed::<BinaryProtocolWriter>((b, d), t, v, structs) == (Ok::<(), SpecValueError>(()), (b + bin_typed_bytes(t, v, structs), d)),
    decreases v, 0int,
{
    match v {
        SpecValue::List(items) => {
            let e = t->List_0;
            let h = bin_enc_list_begin(ListBegin { element_type: type_ttype(*e), size: items.len() as i32 });
            lemma_binary_write_typed_items(*e, items, 0, structs, b + h, d);
            assert(b + h + bin_typed_items_bytes(*e, items, 0, structs) =~= b + bin_typed_bytes(t, v, structs));
        },
        SpecValue::SetT(items) => {
            let e = t->SetT_0;
            let h = bin_enc_set_begin(SetBegin { element_type: type_ttype(*e), size: items.len() as i32 });
            lemma_binary_write_typed_items(*e, items, 0, structs, b + h, d);
            assert(b + h + bin_typed_items_bytes(*e, items, 0, structs) =~= b + bin_typed_bytes(t, v, structs));
        },
        SpecValue::MapT(pairs) => {
            let kt = t->MapT_0;
            let vt = t->MapT_1;
            let h = bin_enc_map_begin(MapBegin { key_type: type_ttype(*kt), value_type: type_ttype(*vt), size: pairs.len() as i32 });
            lemma_binary_write_typed_pairs(*kt, *vt, pairs, 0, structs, b + h, d);
            assert(b + h + bin_typed_pairs_bytes(*kt, *vt, pairs, 0, structs) =~= b + bin_typed_bytes(t, v, structs));
        },
        SpecValue::Struct(_, fields) => {
            let n = t->Struct_0;
            let dd = assoc_get(structs, n).unwrap();
            lemma_binary_write_typed_fields(dd.fields, fields, 0, structs, b, d + 1);
            assert(b + bin_typed_fields_bytes(dd.fields, fields, 0, structs) + bin_enc_field_stop() =~= b + bin_typed_bytes(t, v, structs));
        },
        _ => {},
    }
}

/// Writing the items from index `k` on appends their Binary bytes.
pub proof fn lemma_binary_write_typed_items(e: SpecType, items: Seq<SpecValue>, k: int, structs: Seq<(Seq<char>, SpecStruct)>, b: Seq<u8>, d: nat)
    requires
        forall|j: int| 0 <= j < items.len() ==> bin_carries(#[trigger] items[j], e, structs),
    ensures
        spec_write_typed_items::<BinaryProtocolWriter>((b, d), e, items, k, structs)
            == (Ok::<(), SpecValueError>(()), (b + bin_typed_items_bytes(e, items, k, structs), d)),
    decreases items, items.len() - k,
{
    if 0 <= k < items.len() {
        lemma_binary_write_typed(e, items[k], structs, b, d);
        let b1 = b + bin_typed_bytes(e, items[k], structs);
        lemma_binary_write_typed_items(e, items, k + 1, structs, b1, d);
        assert(b1 + bin_typed_items_bytes(e, items, k + 1, structs) =~= b + bin_typed_items_bytes(e, items, k, structs));
    } else {
        assert(b + bin_typed_items_bytes(e, items, k, structs) =~= b);
    }
}

/// Writing the pairs from index `k` on appends their Binary bytes.
pub proof fn lemma_binary_write_typed_pairs(
    kt: SpecType,
    vt: SpecType,
    pairs: Seq<(SpecValue, SpecValue)>,
    k: int,
    structs: Seq<(Seq<char>, SpecStruct)>,
    b: Seq<u8>,
    d: nat,
)
    requires
        forall|j: int| 0 <= j < pairs.len() ==> bin_carries(#[trigger] pairs[j].0, kt, structs)
            && bin_carries(pairs[j].1, vt, structs),
    ensures
        spec_write_typed_pairs::<BinaryProtocolWriter>((b, d), kt, vt, pairs, k, structs)
            == (Ok::<(), SpecValueError>(()), (b + bin_typed_pairs_bytes(kt, vt, pairs, k, structs), d)),
    decreases pairs, pairs.len() - k,
{
    if 0 <= k < pairs.len() {
        lemma_binary_write_typed(kt, pairs[k].0, structs, b, d);
        let b1 = b + bin_typed_bytes(kt, pairs[k].0, structs);
        lemma_binary_write_typed(vt, pairs[k].1, structs, b1, d);
        let b2 = b1 + bin_typed_bytes(vt, pairs[k].1, structs);
        lemma_binary_write_typed_pairs(kt, vt, pairs, k + 1, structs, b2, d);
        assert(b2 + bin_typed_pairs_bytes(kt, vt, pairs, k + 1, structs) =~= b + bin_typed_pairs_bytes(kt, vt, pairs, k, structs));
    } else {
        assert(b + bin_typed_pairs_bytes(kt, vt, pairs, k, structs) =~= b);
    }
}

/// Writing the fields of a struct value that holds each field of its
/// definition in order, from the `k`-th on, appends their Binary bytes.
pub proof fn lemma_binary_write_typed_fields(
    fds: Seq<SpecField>,
    fields: Seq<(Seq<char>, SpecValue)>,
    k: int,
    structs: Seq<(Seq<char>, SpecStruct)>,
    b: Seq<u8>,
    d: nat,
)
    requires
        distinct_fields(fds),
        fields.len() == fds.len(),
        forall|j: int| 0 <= j < fields.len() ==> (#[trigger] fields[j]).0 == fds[j].name
            && bin_carries(fields[j].1, fds[j].field_type, structs),
        0 <= k,
    ensures
        spec_write_typed_fields::<BinaryProtocolWriter>((b, d), fds, k, fields, structs)
            == (Ok::<(), SpecValueError>(()), (b + bin_typed_fields_bytes(fds, fields, k, structs), d)),
    decreases fields, fds.len() - k,
{
    if k < fds.len() {
        lemma_first_name(fields, fds, k, 0);
        assert(assoc_index(fields, fds[k].name) == Some(k));
        let ft = fds[k].field_type;
        let b1 = b + bin_enc_field_begin(type_ttype(ft), fds[k].id);
        lemma_binary_write_typed(ft, fields[k].1, structs, b1, d);
        let b2 = b1 + bin_typed_bytes(ft, fields[k].1, structs);
        lemma_binary_write_typed_fields(fds, fields, k + 1, structs, b2, d);
        assert(b2 + bin_typed_fields_bytes(fds, fields, k + 1, structs) =~= b + bin_typed_fields_bytes(fds, fields, k, structs));
    } else {
        assert(b + bin_typed_fields_bytes(fds, fields, k, structs) =~= b);
    }
}

// ─── Reading those bytes back ─────────────────────────────────────────────────

/// Reading a value of type `t` from the Binary bytes of `v` written as such a
/// value gives `v` back and leaves what follows, when the protocol carries `v`
/// exactly as a value of type `t`.
pub proof fn lemma_binary_read_typed(t: SpecType, v: SpecValue, structs: Seq<(Seq<char>, SpecStruct)>, tail: Seq<u8>, d: nat)
    requires
        bin_carries(v, t, structs),
    ensures
        spec_read_value::<BinaryProtocolReader>((bin_typed_bytes(t, v, structs) + tail, d), t, structs)
            == (Ok::<SpecValue, SpecValueError>(v), (tail, d)),
    decreases v, 1int,
{
    match v {
        SpecValue::Bool(b) => { lemma_bin_bool_roundtrip(b, tail); },
        SpecValue::Byte(b) => { lemma_bin_byte_roundtrip(b, tail); },
        SpecValue::I16(b) => { lemma_bin_i16_roundtrip(b, tail); },
        SpecValue::I32(b) => { lemma_bin_i32_roundtrip(b, tail); },
        SpecValue::I64(b) => { lemma_bin_i64_roundtrip(b, tail); },
        SpecValue::Double(b) => { lemma_bin_double_bits_roundtrip(b, tail); },
        SpecValue::String(x) => { lemma_bin_string_roundtrip(x, tail); },
        SpecValue::Binary(b) => { lemma_bin_bytes_roundtrip(b, tail); },
        SpecValue::List(_) => { lemma_binary_read_typed_list(t, v, structs, tail, d); },
        SpecValue::SetT(_) => { lemma_binary_read_typed_set(t, v, structs, tail, d); },
        SpecValue::MapT(_) => { lemma_binary_read_typed_map(t, v, structs, tail, d); },
        SpecValue::Struct(_, _) => { lemma_binary_read_typed_struct(t, v, structs, tail, d); },
    }
}

proof fn lemma_binary_read_typed_list(t: SpecType, v: SpecValue, structs: Seq<(Seq<char>, SpecStruct)>, tail: Seq<u8>, d: nat)
    requires
        bin_carries(v, t, structs),
        v is List,
    ensures
        spec_read_value::<BinaryProtocolReader>((bin_typed_bytes(t, v, structs) + tail, d), t, structs)
            == (Ok::<SpecValue, SpecValueError>(v), (tail, d)),
    decreases v, 0int,
{
    let items = v->List_0;
    let e = t->List_0;
    let h = ListBegin { element_type: type_ttype(*e), size: items.len() as i32 };
    let rest = bin_typed_items_bytes(*e, items, 0, structs) + tail;
    assert(bin_typed_bytes(t, v, structs) + tail =~= bin_enc_list_begin(h) + rest);
    lemma_bin_list_begin_roundtrip(h, rest);
    lemma_binary_read_typed_items(*e, items, structs, 0, tail, d);
    assert(items.take(0) =~= Seq::<SpecValue>::empty());
}

#[verifier::rlimit(40)]
proof fn lemma_binary_read_typed_set(t: SpecType, v: SpecValue, structs: Seq<(Seq<char>, SpecStruct)>, tail: Seq<u8>, d: nat)
    requires
        bin_carries(v, t, structs),
        v is SetT,
    ensures
        spec_read_value::<BinaryProtocolReader>((bin_typed_bytes(t, v, structs) + tail, d), t, structs)
            == (Ok::<SpecValue, SpecValueError>(v), (tail, d)),
    decreases v, 0int,
{
    let items = v->SetT_0;
    let e = t->SetT_0;
    let h = SetBegin { element_type: type_ttype(*e), size: items.len() as i32 };
    let rest = bin_typed_items_bytes(*e, items, 0, structs) + tail;
    assert(bin_typed_bytes(t, v, structs) + tail =~= bin_enc_set_begin(h) + rest);
    lemma_bin_set_begin_roundtrip(h, rest);
    lemma_binary_read_typed_items(*e, items, structs, 0, tail, d);
    assert(items.take(0) =~= Seq::<SpecValue>::empty());
}

proof fn lemma_binary_read_typed_map(t: SpecType, v: SpecValue, structs: Seq<(Seq<char>, SpecStruct)>, tail: Seq<u8>, d: nat)
    requires
        bin_carries(v, t, structs),
        v is MapT,
    ensures
        spec_read_value::<BinaryProtocolReader>((bin_typed_bytes(t, v, structs) + tail, d), t, structs)
            == (Ok::<SpecValue, SpecValueError>(v), (tail, d)),
    decreases v, 0int,
{
    let pairs = v->MapT_0;
    let kt = t->MapT_0;
    let vt = t->MapT_1;
    let h = MapBegin { key_type: type_ttype(*kt), value_type: type_ttype(*vt), size: pairs.len() as i32 };
    let rest = bin_typed_pairs_bytes(*kt, *vt, pairs, 0, structs) + tail;
    assert(bin_typed_bytes(t, v, structs) + tail =~= bin_enc_map_begin(h) + rest);
    lemma_bin_map_begin_roundtrip(h, rest);
    lemma_binary_read_typed_pairs(*kt, *vt, pairs, structs, 0, tail, d);
    assert(pairs.take(0) =~= Seq::<(SpecValue, SpecValue)>::empty());
}

proof fn lemma_binary_read_typed_struct(t: SpecType, v: SpecValue, structs: Seq<(Seq<char>, SpecStruct)>, tail: Seq<u8>, d: nat)
    requires
        bin_carries(v, t, structs),
        v is Struct,
    ensures
        spec_read_value::<BinaryProtocolReader>((bin_typed_bytes(t, v, structs) + tail, d), t, structs)
            == (Ok::<SpecValue, SpecValueError>(v), (tail, d)),
    decreases v, 0int,
{
    let fields = v->Struct_1;
    let n = t->Struct_0;
    let dd = assoc_get(structs, n).unwrap();
    assert(fields.take(0) =~= Seq::<(Seq<char>, SpecValue)>::empty());
    lemma_binary_read_typed_fields(fields, dd.fields, structs, 0, tail, d + 1);
}

/// Reading the remaining items from their Binary bytes gives all the items.
#[verifier::rlimit(60)]
#[verifier::spinoff_prover]
pub proof fn lemma_binary_read_typed_items(e: SpecType, items: Seq<SpecValue>, structs: Seq<(Seq<char>, SpecStruct)>, k: int, tail: Seq<u8>, d: nat)
    requires
        forall|j: int| 0 <= j < items.len() ==> bin_carries(#[trigger] items[j], e, structs),
        0 <= k <= items.len(),
    ensures
        spec_read_items::<BinaryProtocolReader>((bin_typed_items_bytes(e, items, k, structs) + tail, d), e, (items.len() - k) as nat, items.take(k), structs)
            == (Ok::<Seq<SpecValue>, SpecValueError>(items), (tail, d)),
    decreases items, items.len() - k,
{
    if k < items.len() {
        let rest = bin_typed_items_bytes(e, items, k + 1, structs) + tail;
        lemma_binary_read_typed(e, items[k], structs, rest, d);
        assert(bin_typed_items_bytes(e, items, k, structs) + tail =~= bin_typed_bytes(e, items[k], structs) + rest);
        lemma_binary_read_typed_items(e, items, structs, k + 1, tail, d);
        assert(items.take(k).push(items[k]) =~= items.take(k + 1));
    } else {
        assert(items.take(k) =~= items);
        assert(bin_typed_items_bytes(e, items, k, structs) + tail =~= tail);
    }
}

/// Reading the remaining pairs from their Binary bytes gives all the pairs.
#[verifier::rlimit(40)]
pub proof fn lemma_binary_read_typed_pairs(
    kt: SpecType,
    vt: SpecType,
    pairs: Seq<(SpecValue, SpecValue)>,
    structs: Seq<(Seq<char>, SpecStruct)>,
    k: int,
    tail: Seq<u8>,
    d: nat,
)
    requires
        forall|j: int| 0 <= j < pairs.len() ==> bin_carries(#[trigger] pairs[j].0, kt, structs)
            && bin_carries(pairs[j].1, vt, structs),
        0 <= k <= pairs.len(),
    ensures
        spec_read_pairs::<BinaryProtocolReader>((bin_typed_pairs_bytes(kt, vt, pairs, k, structs) + tail, d), kt, vt, (pairs.len() - k) as nat, pairs.take(k), structs)
            == (Ok::<Seq<(SpecValue, SpecValue)>, SpecValueError>(pairs), (tail, d)),
    decreases pairs, pairs.len() - k,
{
    if k < pairs.len() {
        let rest = bin_typed_pairs_bytes(kt, vt, pairs, k + 1, structs) + tail;
        let mid = bin_typed_bytes(vt, pairs[k].1, structs) + rest;
        let s0: (Seq<u8>, nat) = (bin_typed_pairs_bytes(kt, vt, pairs, k, structs) + tail, d);
        assert(s0.0 =~= bin_typed_bytes(kt, pairs[k].0, structs) + mid);
        lemma_binary_read_typed(kt, pairs[k].0, structs, mid, d);
        lemma_binary_read_typed(vt, pairs[k].1, structs, rest, d);
        let acc2 = pairs.take(k).push((pairs[k].0, pairs[k].1));
        assert(acc2 =~= pairs.take(k + 1));
        assert(spec_read_pairs::<BinaryProtocolReader>(s0, kt, vt, (pairs.len() - k) as nat, pairs.take(k), structs)
            == spec_read_pairs::<BinaryProtocolReader>((rest, d), kt, vt, (pairs.len() - (k + 1)) as nat, acc2, structs));
        lemma_binary_read_typed_pairs(kt, vt, pairs, structs, k + 1, tail, d);
    } else {
        assert(pairs.take(k) =~= pairs);
        assert(bin_typed_pairs_bytes(kt, vt, pairs, k, structs) + tail =~= tail);
    }
}

/// Reading the remaining fields of a struct from their Binary bytes, up to
/// the stop, gives all its fields.
#[verifier::rlimit(40)]
pub proof fn lemma_binary_read_typed_fields(
    fields: Seq<(Seq<char>, SpecValue)>,
    fds: Seq<SpecField>,
    structs: Seq<(Seq<char>, SpecStruct)>,
    k: int,
    tail: Seq<u8>,
    d: nat,
)
    requires
        distinct_fields(fds),
        fields.len() == fds.len(),
        forall|j: int| 0 <= j < fields.len() ==> (#[trigger] fields[j]).0 == fds[j].name
            && bin_carries(fields[j].1, fds[j].field_type, structs),
        0 <= k <= fields.len(),
    ensures
        spec_read_struct_fields::<BinaryProtocolReader>(
            (bin_typed_fields_bytes(fds, fields, k, structs) + bin_enc_field_stop() + tail, d),
            fds,
            structs,
            fields.take(k),
        ) == (Ok::<Seq<(Seq<char>, SpecValue)>, SpecValueError>(fields), (tail, d)),
    decreases fields, fields.len() - k,
{
    if k < fields.len() {
        let fv = fields[k].1;
        let ft = fds[k].field_type;
        let id = fds[k].id;
        let after = bin_typed_fields_bytes(fds, fields, k + 1, structs) + bin_enc_field_stop() + tail;
        let vb = bin_typed_bytes(ft, fv, structs) + after;
        let s = bin_typed_fields_bytes(fds, fields, k, structs) + bin_enc_field_stop() + tail;
        assert(s =~= bin_enc_field_begin(type_ttype(ft), id) + vb);
        lemma_bin_field_begin_roundtrip(type_ttype(ft), id, vb);
        lemma_last_id(fds, k, fds.len() as int);
        lemma_binary_read_typed(ft, fv, structs, after, d);
        lemma_assoc_index_from_bounds(fields.take(k), fds[k].name, 0);
        assert forall|j: int| 0 <= j < fields.take(k).len() implies fields.take(k)[j].0 != fds[k].name by {
            assert(fields[j].0 == fds[j].name);
        }
        assert(assoc_insert(fields.take(k), fds[k].name, fv) =~= fields.take(k + 1));
        lemma_binary_read_typed_fields(fields, fds, structs, k + 1, tail, d);
    } else {
        lemma_bin_field_stop_reads_stop(tail);
        assert(fields.take(k) =~= fields);
        assert(bin_typed_fields_bytes(fds, fields, k, structs) + bin_enc_field_stop() + tail =~= bin_enc_field_stop() + tail);
    }
}

/// A value that the Binary protocol carries exactly as a value of type `t`
/// is read back as it was written by its declared type: writing `v` as a
/// value of type `t` with a Binary writer succeeds, and reading a value of
/// type `t` from the bytes it added, whatever follows them, gives `v` and
/// leaves what follows.
pub proof fn lemma_binary_typed_roundtrip(
    t: SpecType,
    v: SpecValue,
    structs: Seq<(Seq<char>, SpecStruct)>,
    before: Seq<u8>,
    d: nat,
    tail: Seq<u8>,
    dr: nat,
)
    requires
        bin_carries(v, t, structs),
    ensures
        spec_write_typed::<BinaryProtocolWriter>((before, d), t, v, structs).0 is Ok,
        spec_read_value::<BinaryProtocolReader>(
            (spec_write_typed::<BinaryProtocolWriter>((before, d), t, v, structs).1.0.skip(before.len() as int) + tail, dr),
            t,
            structs,
        ) == (Ok::<SpecValue, SpecValueError>(v), (tail, dr)),
{
    lemma_binary_write_typed(t, v, structs, before, d);
    assert((before + bin_typed_bytes(t, v, structs)).skip(before.len() as int) =~= bin_typed_bytes(t, v, structs));
    lemma_binary_read_typed(t, v, structs, tail, dr);
}


/// A struct given each field of its definition, in order, as a plain value
/// that the Binary protocol carries exactly is read back as the struct value
/// holding those values: writing it succeeds, and reading a value of its
/// type from the bytes it added, whatever follows them, gives that struct
/// value and leaves what follows.
pub proof fn lemma_binary_given_struct_roundtrip(
    n: Seq<char>,
    fields: Seq<(Seq<char>, SpecValue)>,
    structs: Seq<(Seq<char>, SpecStruct)>,
    before: Seq<u8>,
    d: nat,
    tail: Seq<u8>,
    dr: nat,
)
    requires
        bin_carries(SpecValue::Struct(Some(n), fields), SpecType::Struct(n), structs),
    ensures
        spec_write_given::<BinaryProtocolWriter>((before, d), SpecType::Struct(n), SpecGiven::Struct(plain_entries(fields)), structs).0 is Ok,
        spec_read_value::<BinaryProtocolReader>(
            (spec_write_given::<BinaryProtocolWriter>((before, d), SpecType::Struct(n), SpecGiven::Struct(plain_entries(fields)), structs).1.0.skip(
                before.len() as int,
            ) + tail, dr),
            SpecType::Struct(n),
            structs,
        ) == (Ok::<SpecValue, SpecValueError>(SpecValue::Struct(Some(n), fields)), (tail, dr)),
{
    lemma_given_plain_struct::<BinaryProtocolWriter>((before, d), n, Some(n), fields, structs);
    lemma_binary_typed_roundtrip(SpecType::Struct(n), SpecValue::Struct(Some(n), fields), structs, before, d, tail, dr);
}

} // verus!
