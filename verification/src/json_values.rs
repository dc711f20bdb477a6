//! Values through the JSON protocol: the document that writing a value
//! gives, and reading that document back.

use vstd::prelude::*;
use crate::codec::{
    spec_write_value, spec_write_items, spec_write_pairs, spec_write_entries, elem_ttype,
    pair_ttypes, value_ttype, struct_entries, struct_def, spec_read_value, spec_read_items,
    spec_read_pairs, spec_read_struct_fields, SpecValueError,
};
use crate::parser::names::{assoc_insert, lemma_assoc_index_from_bounds};
use crate::roundtrip::{lemma_canonical_entries, lemma_last_id};
use crate::protocol::json::{
    JSONProtocolReader, JsonReaderView, ReadFrameView, pop_json, with_top, pop_frame_json,
    json_remaining, keyed_pairs, lemma_pop_json, lemma_stack_push, lemma_with_top,
    lemma_item_smaller, lemma_pairs_size_first, lemma_keyed_pairs_size, lemma_open_struct,
    lemma_json_type_name_roundtrip, lemma_json_scalar_roundtrip, struct_frame,
};
use crate::protocol::json_value::{lemma_items_size_split, lemma_entries_size_first};
use crate::protocol::text::{lemma_i16_text_roundtrip, lemma_i64_text_roundtrip};
use crate::protocol::types::{ProtocolError, TType};
use crate::protocol::binary::{MESSAGE_TYPE_EXCEPTION, MESSAGE_TYPE_REPLY};
use crate::rpc::{spec_reply, spec_decode_reply, spec_exception_reply, spec_app_exception, is_void, SpecReply};
use crate::codec::type_ttype;
use crate::parser::ast::{SpecField, SpecStruct, SpecType, SpecValue};
use crate::parser::names::assoc_get;
use crate::roundtrip::{canonical_entries, distinct_fields};
use crate::protocol::json::{
    JSONProtocolWriter, JsonWriterView, WriteFrameView, base64_len, base64_text, count_json,
    double_json, key_text, map_object, name_json, push_json, finite_bits, lemma_base64_decode_text,
};
use crate::protocol::json_value::{JsonNumber, JsonView, number_of_int, obj_insert, key_lt, key_lt_from, lemma_key_lt_irreflexive};
use crate::protocol::text::int_text;
use crate::protocol::traits::{TInputProtocol, TOutputProtocol};

verus! {

/// The JSON document of `v`, as writing it gives it.
pub open spec fn jdoc(v: SpecValue, structs: Seq<(Seq<char>, SpecStruct)>) -> JsonView
    decreases v, 0int,
{
    match v {
        SpecValue::Bool(b) => count_json(if b { 1 } else { 0 }),
        SpecValue::Byte(x) => JsonView::Number(number_of_int(x as int)),
        SpecValue::I16(x) => JsonView::Number(number_of_int(x as int)),
        SpecValue::I32(x) => JsonView::Number(number_of_int(x as int)),
        SpecValue::I64(x) => JsonView::String(int_text(x as int)),
        SpecValue::Double(b) => double_json(b),
        SpecValue::String(t) => JsonView::String(t),
        SpecValue::Binary(b) => JsonView::String(base64_text(b)),
        SpecValue::List(items) => JsonView::Array(
            seq![name_json(elem_ttype(items)), count_json(items.len())] + jdoc_items(items, 0, structs),
        ),
        SpecValue::SetT(items) => JsonView::Array(
            seq![name_json(elem_ttype(items)), count_json(items.len())] + jdoc_items(items, 0, structs),
        ),
        SpecValue::MapT(pairs) => {
            let (kt, vt) = pair_ttypes(pairs);
            let obj = match map_object(jdoc_pairs(pairs, 0, structs)) {
                Some(o) => o,
                None => Seq::empty(),
            };
            JsonView::Array(seq![name_json(kt), name_json(vt), count_json(obj.len()), JsonView::Object(obj)])
        },
        SpecValue::Struct(name, fields) => JsonView::Object(
            jdoc_entries(fields, struct_entries(struct_def(name, structs), fields), Seq::empty(), structs),
        ),
    }
}

/// The documents of the items from index `k` on.
pub open spec fn jdoc_items(items: Seq<SpecValue>, k: int, structs: Seq<(Seq<char>, SpecStruct)>) -> Seq<JsonView>
    decreases items, items.len() - k,
{
    if 0 <= k < items.len() {
        seq![jdoc(items[k], structs)] + jdoc_items(items, k + 1, structs)
    } else {
        Seq::empty()
    }
}

/// The documents of the pairs from index `k` on.
pub open spec fn jdoc_pairs(pairs: Seq<(SpecValue, SpecValue)>, k: int, structs: Seq<(Seq<char>, SpecStruct)>) -> Seq<(JsonView, JsonView)>
    decreases pairs, pairs.len() - k,
{
    if 0 <= k < pairs.len() {
        seq![(jdoc(pairs[k].0, structs), jdoc(pairs[k].1, structs))] + jdoc_pairs(pairs, k + 1, structs)
    } else {
        Seq::empty()
    }
}

/// The object entries of a struct value: after `obj`, each field named by
/// `entries` set under its id's text, as `[type_name, value]`.
pub open spec fn jdoc_entries(
    fields: Seq<(Seq<char>, SpecValue)>,
    entries: Seq<(i16, int)>,
    obj: Seq<(Seq<char>, JsonView)>,
    structs: Seq<(Seq<char>, SpecStruct)>,
) -> Seq<(Seq<char>, JsonView)>
    decreases fields, entries.len(),
{
    if entries.len() == 0 {
        obj
    } else {
        let i = entries[0].1;
        if 0 <= i < fields.len() {
            let fv = fields[i].1;
            jdoc_entries(
                fields,
                entries.drop_first(),
                obj_insert(obj, int_text(entries[0].0 as int), JsonView::Array(seq![name_json(value_ttype(fv)), jdoc(fv, structs)])),
                structs,
            )
        } else {
            obj
        }
    }
}

/// A value that can be a map key in a JSON document: one written as a
/// string or an integer.
pub open spec fn json_key(k: SpecValue) -> bool {
    k is Bool || k is Byte || k is I16 || k is I32 || k is I64 || k is String || k is Binary
}

/// A value that the JSON writer writes: map keys that can be object keys,
/// and binaries whose base64 text fits in memory.
pub open spec fn json_writable(v: SpecValue) -> bool
    decreases v,
{
    match v {
        SpecValue::Binary(b) => base64_len(b.len() as int) <= usize::MAX,
        SpecValue::List(items) => forall|k: int| 0 <= k < items.len() ==> json_writable(#[trigger] items[k]),
        SpecValue::SetT(items) => forall|k: int| 0 <= k < items.len() ==> json_writable(#[trigger] items[k]),
        SpecValue::MapT(pairs) => forall|k: int| 0 <= k < pairs.len() ==> json_writable(#[trigger] pairs[k].0)
            && json_writable(pairs[k].1) && json_key(pairs[k].0),
        SpecValue::Struct(_, fields) => forall|k: int| 0 <= k < fields.len() ==> json_writable(#[trigger] fields[k].1),
        _ => true,
    }
}

pub open spec fn with_top_frame(w: JsonWriterView, f: WriteFrameView) -> JsonWriterView {
    JsonWriterView { stack: w.stack.drop_last().push(f), ..w }
}

proof fn lemma_jdoc_items_len(items: Seq<SpecValue>, k: int, structs: Seq<(Seq<char>, SpecStruct)>)
    requires
        0 <= k <= items.len(),
    ensures
        jdoc_items(items, k, structs).len() == items.len() - k,
    decreases items.len() - k,
{
    if k < items.len() {
        lemma_jdoc_items_len(items, k + 1, structs);
    }
}

/// The document of a value that can be a map key has a key text.
proof fn lemma_key_doc(k: SpecValue, structs: Seq<(Seq<char>, SpecStruct)>)
    requires
        json_key(k),
    ensures
        key_text(jdoc(k, structs)) is Some,
{
    match k {
        SpecValue::Byte(x) => { assert(number_of_int(x as int) is PosInt || number_of_int(x as int) is NegInt); },
        SpecValue::I16(x) => { assert(number_of_int(x as int) is PosInt || number_of_int(x as int) is NegInt); },
        SpecValue::I32(x) => { assert(number_of_int(x as int) is PosInt || number_of_int(x as int) is NegInt); },
        _ => {},
    }
}

/// A map whose keys all have key texts has an object.
proof fn lemma_map_object_some(ps: Seq<(JsonView, JsonView)>)
    requires
        forall|k: int| 0 <= k < ps.len() ==> (#[trigger] key_text(ps[k].0)) is Some,
    ensures
        map_object(ps) is Some,
    decreases ps.len(),
{
    if ps.len() > 0 {
        lemma_map_object_some(ps.drop_last());
        assert(key_text(ps[ps.len() - 1].0) is Some);
    }
}

proof fn lemma_jdoc_pairs_keys(pairs: Seq<(SpecValue, SpecValue)>, k: int, structs: Seq<(Seq<char>, SpecStruct)>)
    requires
        0 <= k <= pairs.len(),
        forall|j: int| 0 <= j < pairs.len() ==> json_key(#[trigger] pairs[j].0),
    ensures
        jdoc_pairs(pairs, k, structs).len() == pairs.len() - k,
        forall|j: int| 0 <= j < pairs.len() - k ==> (#[trigger] key_text(jdoc_pairs(pairs, k, structs)[j].0)) is Some,
    decreases pairs.len() - k,
{
    if k < pairs.len() {
        lemma_jdoc_pairs_keys(pairs, k + 1, structs);
        let rest = jdoc_pairs(pairs, k + 1, structs);
        let all = jdoc_pairs(pairs, k, structs);
        assert forall|j: int| 0 <= j < pairs.len() - k implies (#[trigger] key_text(all[j].0)) is Some by {
            if j > 0 {
                assert(all[j] == rest[j - 1]);
            } else {
                assert(all[0] == (jdoc(pairs[k].0, structs), jdoc(pairs[k].1, structs)));
                lemma_key_doc(pairs[k].0, structs);
            }
        }
    }
}

/// Writing a value with the JSON writer gives its document to the innermost
/// frame (or makes it a finished document when no frame is open), whatever
/// the writer held before.
pub proof fn lemma_json_write_value(v: SpecValue, structs: Seq<(Seq<char>, SpecStruct)>, s: JsonWriterView)
    requires
        json_writable(v),
    ensures
        spec_write_value::<JSONProtocolWriter>(s, v, structs) == (Ok::<(), crate::protocol::types::ProtocolError>(()), push_json(s, jdoc(v, structs))),
    decreases v, 1int,
{
    match v {
        SpecValue::List(items) => {
            let t = elem_ttype(items);
            let docs = jdoc_items(items, 0, structs);
            let s1 = JsonWriterView { stack: s.stack.push(WriteFrameView::List(t, Seq::empty())), ..s };
            lemma_json_write_items(items, 0, structs, s1, t, Seq::empty());
            assert(Seq::<JsonView>::empty() + docs =~= docs);
            let s2 = with_top_frame(s1, WriteFrameView::List(t, docs));
            assert(s2.stack.drop_last() =~= s.stack);
            assert(s2.stack.last() == WriteFrameView::List(t, docs));
            lemma_jdoc_items_len(items, 0, structs);
            let sd = JsonWriterView { stack: s2.stack.drop_last(), ..s2 };
            assert(sd == s);
            let lb = crate::protocol::types::ListBegin { element_type: t, size: #[verifier::truncate] (items.len() as i32) };
            assert(<JSONProtocolWriter as TOutputProtocol>::spec_write_list_begin(s, lb) == (Ok::<(), crate::protocol::types::ProtocolError>(()), s1));
            assert(spec_write_items::<JSONProtocolWriter>(s1, items, 0, structs) == (Ok::<(), crate::protocol::types::ProtocolError>(()), s2));
            assert(crate::protocol::json::frame_json(s2.stack.last()) == Some(jdoc(v, structs)));
            assert(<JSONProtocolWriter as TOutputProtocol>::spec_write_list_end(s2) == (Ok::<(), crate::protocol::types::ProtocolError>(()), push_json(s, jdoc(v, structs))));
        },
        SpecValue::SetT(items) => {
            let t = elem_ttype(items);
            let docs = jdoc_items(items, 0, structs);
            let s1 = JsonWriterView { stack: s.stack.push(WriteFrameView::List(t, Seq::empty())), ..s };
            lemma_json_write_items(items, 0, structs, s1, t, Seq::empty());
            assert(Seq::<JsonView>::empty() + docs =~= docs);
            let s2 = with_top_frame(s1, WriteFrameView::List(t, docs));
            assert(s2.stack.drop_last() =~= s.stack);
            assert(s2.stack.last() == WriteFrameView::List(t, docs));
            lemma_jdoc_items_len(items, 0, structs);
            let sd = JsonWriterView { stack: s2.stack.drop_last(), ..s2 };
            assert(sd == s);
        },
        SpecValue::MapT(pairs) => {
            let (kt, vt) = pair_ttypes(pairs);
            let s1 = JsonWriterView { stack: s.stack.push(WriteFrameView::Pairs(kt, vt, Seq::empty(), None)), ..s };
            lemma_json_write_pairs(pairs, 0, structs, s1, kt, vt, Seq::empty());
            assert(s1.stack.drop_last() =~= s.stack);
            lemma_jdoc_pairs_keys(pairs, 0, structs);
            lemma_map_object_some(jdoc_pairs(pairs, 0, structs));
            assert(Seq::<(JsonView, JsonView)>::empty() + jdoc_pairs(pairs, 0, structs) =~= jdoc_pairs(pairs, 0, structs));
        },
        SpecValue::Struct(name, fields) => {
            let entries = struct_entries(struct_def(name, structs), fields);
            let s1 = JsonWriterView {
                nesting: s.nesting + 1,
                stack: s.stack.push(WriteFrameView::Struct(Seq::empty(), None)),
                ..s
            };
            lemma_json_write_entries(fields, entries, structs, s1, Seq::empty());
            assert(s1.stack.drop_last() =~= s.stack);
        },
        _ => {},
    }
    assert(spec_write_value::<JSONProtocolWriter>(s, v, structs).1 =~= push_json(s, jdoc(v, structs)));
}

/// Writing the items of a list or set from index `k` on appends their
/// documents to the innermost list frame.
pub proof fn lemma_json_write_items(
    items: Seq<SpecValue>,
    k: int,
    structs: Seq<(Seq<char>, SpecStruct)>,
    w: JsonWriterView,
    t: crate::protocol::types::TType,
    acc: Seq<JsonView>,
)
    requires
        forall|j: int| 0 <= j < items.len() ==> json_writable(#[trigger] items[j]),
        w.stack.len() > 0,
        w.stack.last() == WriteFrameView::List(t, acc),
    ensures
        spec_write_items::<JSONProtocolWriter>(w, items, k, structs)
            == (Ok::<(), crate::protocol::types::ProtocolError>(()), with_top_frame(w, WriteFrameView::List(t, acc + jdoc_items(items, k, structs)))),
    decreases items, items.len() - k,
{
    if 0 <= k < items.len() {
        lemma_json_write_value(items[k], structs, w);
        let d = jdoc(items[k], structs);
        let w1 = with_top_frame(w, WriteFrameView::List(t, acc.push(d)));
        assert(push_json(w, d) == w1);
        lemma_json_write_items(items, k + 1, structs, w1, t, acc.push(d));
        assert(acc.push(d) + jdoc_items(items, k + 1, structs) =~= acc + jdoc_items(items, k, structs));
        assert(w1.stack.drop_last() =~= w.stack.drop_last());
    } else {
        assert(acc + jdoc_items(items, k, structs) =~= acc);
        assert(w.stack.drop_last().push(w.stack.last()) =~= w.stack);
    }
}

/// Writing the pairs of a map from index `k` on appends their documents to
/// the innermost map frame.
pub proof fn lemma_json_write_pairs(
    pairs: Seq<(SpecValue, SpecValue)>,
    k: int,
    structs: Seq<(Seq<char>, SpecStruct)>,
    w: JsonWriterView,
    kt: crate::protocol::types::TType,
    vt: crate::protocol::types::TType,
    acc: Seq<(JsonView, JsonView)>,
)
    requires
        forall|j: int| 0 <= j < pairs.len() ==> json_writable(#[trigger] pairs[j].0) && json_writable(pairs[j].1),
        w.stack.len() > 0,
        w.stack.last() == WriteFrameView::Pairs(kt, vt, acc, None),
    ensures
        spec_write_pairs::<JSONProtocolWriter>(w, pairs, k, structs)
            == (Ok::<(), crate::protocol::types::ProtocolError>(()), with_top_frame(w, WriteFrameView::Pairs(kt, vt, acc + jdoc_pairs(pairs, k, structs), None))),
    decreases pairs, pairs.len() - k,
{
    if 0 <= k < pairs.len() {
        let dk = jdoc(pairs[k].0, structs);
        let dv = jdoc(pairs[k].1, structs);
        lemma_json_write_value(pairs[k].0, structs, w);
        let w1 = with_top_frame(w, WriteFrameView::Pairs(kt, vt, acc, Some(dk)));
        assert(push_json(w, dk) == w1);
        lemma_json_write_value(pairs[k].1, structs, w1);
        let w2 = with_top_frame(w, WriteFrameView::Pairs(kt, vt, acc.push((dk, dv)), None));
        assert(w1.stack.drop_last() =~= w.stack.drop_last());
        assert(push_json(w1, dv) == w2);
        lemma_json_write_pairs(pairs, k + 1, structs, w2, kt, vt, acc.push((dk, dv)));
        assert(acc.push((dk, dv)) + jdoc_pairs(pairs, k + 1, structs) =~= acc + jdoc_pairs(pairs, k, structs));
        assert(w2.stack.drop_last() =~= w.stack.drop_last());
    } else {
        assert(acc + jdoc_pairs(pairs, k, structs) =~= acc);
        assert(w.stack.drop_last().push(w.stack.last()) =~= w.stack);
    }
}

/// Writing the fields of a struct named by `entries` sets each one's entry
/// in the innermost struct frame.
pub proof fn lemma_json_write_entries(
    fields: Seq<(Seq<char>, SpecValue)>,
    entries: Seq<(i16, int)>,
    structs: Seq<(Seq<char>, SpecStruct)>,
    w: JsonWriterView,
    obj: Seq<(Seq<char>, JsonView)>,
)
    requires
        forall|j: int| 0 <= j < fields.len() ==> json_writable(#[trigger] fields[j].1),
        w.stack.len() > 0,
        w.stack.last() == WriteFrameView::Struct(obj, None),
    ensures
        spec_write_entries::<JSONProtocolWriter>(w, fields, entries, structs)
            == (Ok::<(), crate::protocol::types::ProtocolError>(()), with_top_frame(w, WriteFrameView::Struct(jdoc_entries(fields, entries, obj, structs), None))),
    decreases fields, entries.len(),
{
    if entries.len() == 0 {
        assert(w.stack.drop_last().push(w.stack.last()) =~= w.stack);
    } else {
        let id = entries[0].0;
        let i = entries[0].1;
        if 0 <= i < fields.len() {
            let fv = fields[i].1;
            let t = value_ttype(fv);
            let w1 = with_top_frame(w, WriteFrameView::Struct(obj, Some((id, t))));
            assert(<JSONProtocolWriter as TOutputProtocol>::spec_write_field_begin(w, t, id)
                == (Ok::<(), crate::protocol::types::ProtocolError>(()), w1));
            lemma_json_write_value(fv, structs, w1);
            let d = jdoc(fv, structs);
            let obj2 = obj_insert(obj, int_text(id as int), JsonView::Array(seq![name_json(t), d]));
            let w2 = with_top_frame(w, WriteFrameView::Struct(obj2, None));
            assert(w1.stack.drop_last() =~= w.stack.drop_last());
            assert(push_json(w1, d) == w2);
            lemma_json_write_entries(fields, entries.drop_first(), structs, w2, obj2);
            assert(w2.stack.drop_last() =~= w.stack.drop_last());
        } else {
            assert(w.stack.drop_last().push(w.stack.last()) =~= w.stack);
        }
    }
}


// ─── Reading documents back ───────────────────────────────────────────────────

/// No key comes before a key that comes before it.
proof fn lemma_key_lt_asym(a: Seq<char>, b: Seq<char>, i: int)
    ensures
        key_lt_from(a, b, i) ==> !key_lt_from(b, a, i),
    decreases a.len() - i,
{
    if 0 <= i < a.len() && i < b.len() && a[i] == b[i] {
        lemma_key_lt_asym(a, b, i + 1);
    }
}

/// Setting a key that comes after every key of the entries adds it at the end.
proof fn lemma_obj_insert_last(es: Seq<(Seq<char>, JsonView)>, k: Seq<char>, v: JsonView)
    requires
        forall|j: int| 0 <= j < es.len() ==> key_lt(#[trigger] es[j].0, k),
    ensures
        obj_insert(es, k, v) == es.push((k, v)),
    decreases es.len(),
{
    if es.len() > 0 {
        assert(key_lt(es[0].0, k));
        lemma_key_lt_irreflexive(k, 0);
        lemma_key_lt_asym(es[0].0, k, 0);
        let t = es.skip(1);
        assert forall|j: int| 0 <= j < t.len() implies key_lt(#[trigger] t[j].0, k) by {
            assert(t[j] == es[j + 1]);
        }
        lemma_obj_insert_last(t, k, v);
        assert(seq![es[0]] + t.push((k, v)) =~= es.push((k, v)));
    } else {
        assert(seq![(k, v)] =~= es.push((k, v)));
    }
}

/// The text under which a map key of a carried map is written: a string as
/// it is, an integer as its decimal text, a bool as `1` or `0`.
pub open spec fn map_key_text(k: SpecValue) -> Seq<char> {
    match k {
        SpecValue::String(x) => x,
        SpecValue::I64(x) => int_text(x as int),
        SpecValue::I32(x) => int_text(x as int),
        SpecValue::I16(x) => int_text(x as int),
        SpecValue::Byte(x) => int_text(x as int),
        SpecValue::Bool(b) => int_text(if b { 1 } else { 0 }),
        _ => Seq::empty(),
    }
}

/// The key types of a map that the JSON protocol carries: those written as
/// a string or an integer, which are read back from the key's text.
pub open spec fn json_key_type(t: SpecType) -> bool {
    t == SpecType::String || t == SpecType::I64 || t == SpecType::I32 || t == SpecType::I16
        || t == SpecType::Byte || t == SpecType::Bool
}

/// Binary data whose base64 text fits in memory.
pub open spec fn json_binary_carried(b: Seq<u8>) -> bool {
    base64_len(b.len() as int) <= usize::MAX
}

/// A value that the JSON protocol carries exactly: binaries whose base64 text
/// fits in memory, finite doubles,
/// lists, sets and maps that fit a signed 32-bit size, maps keyed by strings,
/// integers or bools whose key texts come in increasing order, and structs of a
/// definition in `structs` with distinct field ids and names whose id texts
/// come in increasing order, holding a value of each of its fields, in the
/// order of the definition.
pub open spec fn json_carries(v: SpecValue, t: SpecType, structs: Seq<(Seq<char>, SpecStruct)>) -> bool
    decreases v,
{
    match v {
        SpecValue::Bool(_) => t == SpecType::Bool,
        SpecValue::Byte(_) => t == SpecType::Byte,
        SpecValue::I16(_) => t == SpecType::I16,
        SpecValue::I32(_) => t == SpecType::I32,
        SpecValue::I64(_) => t == SpecType::I64,
        SpecValue::Double(b) => t == SpecType::Double && finite_bits(b),
        SpecValue::String(_) => t == SpecType::String,
        SpecValue::Binary(b) => t == SpecType::Binary && json_binary_carried(b),
        SpecValue::List(items) => match t {
            SpecType::List(e) => items.len() <= i32::MAX
                && forall|k: int| 0 <= k < items.len() ==> json_carries(#[trigger] items[k], *e, structs),
            _ => false,
        },
        SpecValue::SetT(items) => match t {
            SpecType::SetT(e) => items.len() <= i32::MAX
                && forall|k: int| 0 <= k < items.len() ==> json_carries(#[trigger] items[k], *e, structs),
            _ => false,
        },
        SpecValue::MapT(pairs) => match t {
            SpecType::MapT(kt, vt) => pairs.len() <= i32::MAX
                && json_key_type(*kt)
                && (forall|k: int| 0 <= k < pairs.len() ==> json_carries(#[trigger] pairs[k].0, *kt, structs)
                    && json_carries(pairs[k].1, *vt, structs))
                && (forall|i: int, j: int| 0 <= i < j < pairs.len()
                    ==> key_lt(map_key_text(#[trigger] pairs[i].0), map_key_text(#[trigger] pairs[j].0))),
            _ => false,
        },
        SpecValue::Struct(name, fields) => match t {
            SpecType::Struct(n) => name == Some(n) && match assoc_get(structs, n) {
                Some(d) => distinct_fields(d.fields) && fields.len() == d.fields.len()
                    && (forall|k: int| 0 <= k < fields.len() ==> (#[trigger] fields[k]).0 == d.fields[k].name
                        && json_carries(fields[k].1, d.fields[k].field_type, structs))
                    && (forall|i: int, j: int| #![trigger d.fields[i], d.fields[j]] 0 <= i < j < fields.len()
                        ==> key_lt(int_text(d.fields[i].id as int), int_text(d.fields[j].id as int))),
                None => false,
            },
            _ => false,
        },
    }
}

/// What the JSON protocol carries, its writer writes.
pub proof fn lemma_json_carries_writable(v: SpecValue, t: SpecType, structs: Seq<(Seq<char>, SpecStruct)>)
    requires
        json_carries(v, t, structs),
    ensures
        json_writable(v),
    decreases v,
{
    match v {
        SpecValue::List(items) => {
            let e = t->List_0;
            assert forall|k: int| 0 <= k < items.len() implies json_writable(#[trigger] items[k]) by {
                lemma_json_carries_writable(items[k], *e, structs);
            }
        },
        SpecValue::SetT(items) => {
            let e = t->SetT_0;
            assert forall|k: int| 0 <= k < items.len() implies json_writable(#[trigger] items[k]) by {
                lemma_json_carries_writable(items[k], *e, structs);
            }
        },
        SpecValue::MapT(pairs) => {
            let kt = t->MapT_0;
            let vt = t->MapT_1;
            assert forall|k: int| 0 <= k < pairs.len() implies json_writable(#[trigger] pairs[k].0)
                && json_writable(pairs[k].1) && json_key(pairs[k].0) by {
                lemma_json_carries_writable(pairs[k].0, *kt, structs);
                lemma_json_carries_writable(pairs[k].1, *vt, structs);
            }
        },
        SpecValue::Struct(name, fields) => {
            let n = t->Struct_0;
            let d = assoc_get(structs, n).unwrap();
            assert forall|k: int| 0 <= k < fields.len() implies json_writable(#[trigger] fields[k].1) by {
                lemma_json_carries_writable(fields[k].1, d.fields[k].field_type, structs);
            }
        },
        SpecValue::Binary(b) => {},
        _ => {},
    }
}

/// The entry of the `j`-th field of a struct value in its object.
pub open spec fn field_entry(fields: Seq<(Seq<char>, SpecValue)>, fds: Seq<SpecField>, j: int, structs: Seq<(Seq<char>, SpecStruct)>) -> (Seq<char>, JsonView) {
    (int_text(fds[j].id as int), JsonView::Array(seq![name_json(value_ttype(fields[j].1)), jdoc(fields[j].1, structs)]))
}

/// The object of the first `k` fields of a struct value.
pub open spec fn struct_obj(fields: Seq<(Seq<char>, SpecValue)>, fds: Seq<SpecField>, k: int, structs: Seq<(Seq<char>, SpecStruct)>) -> Seq<(Seq<char>, JsonView)> {
    Seq::new(k as nat, |j: int| field_entry(fields, fds, j, structs))
}

proof fn lemma_jdoc_struct_entries(fields: Seq<(Seq<char>, SpecValue)>, fds: Seq<SpecField>, structs: Seq<(Seq<char>, SpecStruct)>, k: int)
    requires
        fields.len() == fds.len(),
        0 <= k <= fds.len(),
        forall|i: int, j: int| #![trigger fds[i], fds[j]] 0 <= i < j < fields.len()
            ==> key_lt(int_text(fds[i].id as int), int_text(fds[j].id as int)),
    ensures
        jdoc_entries(fields, canonical_entries(fds).skip(k), struct_obj(fields, fds, k, structs), structs)
            == struct_obj(fields, fds, fds.len() as int, structs),
    decreases fds.len() - k,
{
    let ce = canonical_entries(fds);
    if k < fds.len() {
        assert(ce.skip(k)[0] == (fds[k].id, k));
        assert(ce.skip(k).drop_first() =~= ce.skip(k + 1));
        let o = struct_obj(fields, fds, k, structs);
        let e = field_entry(fields, fds, k, structs);
        assert forall|j: int| 0 <= j < o.len() implies key_lt(#[trigger] o[j].0, e.0) by {
            assert(o[j].0 == int_text(fds[j].id as int));
        }
        lemma_obj_insert_last(o, e.0, e.1);
        assert(o.push(e) =~= struct_obj(fields, fds, k + 1, structs));
        lemma_jdoc_struct_entries(fields, fds, structs, k + 1);
    } else {
        assert(ce.skip(k) =~= Seq::<(i16, int)>::empty());
    }
}

proof fn lemma_jdoc_items_index(items: Seq<SpecValue>, k: int, structs: Seq<(Seq<char>, SpecStruct)>)
    requires
        0 <= k <= items.len(),
    ensures
        jdoc_items(items, k, structs).len() == items.len() - k,
        forall|j: int| 0 <= j < items.len() - k ==> #[trigger] jdoc_items(items, k, structs)[j] == jdoc(items[k + j], structs),
    decreases items.len() - k,
{
    if k < items.len() {
        lemma_jdoc_items_index(items, k + 1, structs);
        let all = jdoc_items(items, k, structs);
        let rest = jdoc_items(items, k + 1, structs);
        assert forall|j: int| 0 <= j < items.len() - k implies #[trigger] all[j] == jdoc(items[k + j], structs) by {
            if j > 0 {
                assert(all[j] == rest[j - 1]);
            }
        }
    }
}

proof fn lemma_jdoc_pairs_index(pairs: Seq<(SpecValue, SpecValue)>, k: int, structs: Seq<(Seq<char>, SpecStruct)>)
    requires
        0 <= k <= pairs.len(),
    ensures
        jdoc_pairs(pairs, k, structs).len() == pairs.len() - k,
        forall|j: int| 0 <= j < pairs.len() - k ==> #[trigger] jdoc_pairs(pairs, k, structs)[j]
            == (jdoc(pairs[k + j].0, structs), jdoc(pairs[k + j].1, structs)),
    decreases pairs.len() - k,
{
    if k < pairs.len() {
        lemma_jdoc_pairs_index(pairs, k + 1, structs);
        let all = jdoc_pairs(pairs, k, structs);
        let rest = jdoc_pairs(pairs, k + 1, structs);
        assert forall|j: int| 0 <= j < pairs.len() - k implies #[trigger] all[j]
            == (jdoc(pairs[k + j].0, structs), jdoc(pairs[k + j].1, structs)) by {
            if j > 0 {
                assert(all[j] == rest[j - 1]);
            }
        }
    }
}

/// The object of the first `k` pairs of a carried map.
pub open spec fn map_obj(pairs: Seq<(SpecValue, SpecValue)>, k: int, structs: Seq<(Seq<char>, SpecStruct)>) -> Seq<(Seq<char>, JsonView)> {
    Seq::new(k as nat, |j: int| (map_key_text(pairs[j].0), jdoc(pairs[j].1, structs)))
}

proof fn lemma_map_obj(pairs: Seq<(SpecValue, SpecValue)>, kt: SpecType, vt: SpecType, structs: Seq<(Seq<char>, SpecStruct)>, k: int)
    requires
        0 <= k <= pairs.len(),
        json_key_type(kt),
        forall|j: int| 0 <= j < pairs.len() ==> json_carries(#[trigger] pairs[j].0, kt, structs),
        forall|i: int, j: int| 0 <= i < j < pairs.len()
            ==> key_lt(map_key_text(#[trigger] pairs[i].0), map_key_text(#[trigger] pairs[j].0)),
    ensures
        map_object(jdoc_pairs(pairs, 0, structs).take(k)) == Some(map_obj(pairs, k, structs)),
    decreases k,
{
    let ps = jdoc_pairs(pairs, 0, structs);
    lemma_jdoc_pairs_index(pairs, 0, structs);
    if k == 0 {
        assert(ps.take(0) =~= Seq::<(JsonView, JsonView)>::empty());
        assert(map_obj(pairs, 0, structs) =~= Seq::<(Seq<char>, JsonView)>::empty());
    } else {
        lemma_map_obj(pairs, kt, vt, structs, k - 1);
        assert(ps.take(k).drop_last() =~= ps.take(k - 1));
        assert(ps.take(k).last() == ps[k - 1]);
        assert(ps[0 + (k - 1)] == (jdoc(pairs[k - 1].0, structs), jdoc(pairs[k - 1].1, structs)));
        assert(json_carries(pairs[k - 1].0, kt, structs));
        lemma_map_key_doc(pairs[k - 1].0, kt, structs);
        let o = map_obj(pairs, k - 1, structs);
        let key = map_key_text(pairs[k - 1].0);
        assert forall|j: int| 0 <= j < o.len() implies key_lt(#[trigger] o[j].0, key) by {
            assert(o[j].0 == map_key_text(pairs[j].0));
        }
        lemma_obj_insert_last(o, key, jdoc(pairs[k - 1].1, structs));
        assert(o.push((key, jdoc(pairs[k - 1].1, structs))) =~= map_obj(pairs, k, structs));
    }
}

/// Reading a value of type `t` where the reader's next value is the
/// document of a value `v` that the JSON protocol carries gives `v` back and
/// leaves the reader as taking that document leaves it.
pub proof fn lemma_json_read_value(v: SpecValue, t: SpecType, structs: Seq<(Seq<char>, SpecStruct)>, s: JsonReaderView)
    requires
        json_carries(v, t, structs),
        pop_json(s).0 == Ok::<JsonView, ProtocolError>(jdoc(v, structs)),
    ensures
        spec_read_value::<JSONProtocolReader>(s, t, structs) == (Ok::<SpecValue, SpecValueError>(v), pop_json(s).1),
    decreases v, 1int,
{
    match v {
        SpecValue::Bool(b) => { lemma_json_scalar_roundtrip(b, 0, 0, 0, 0, Seq::empty(), 0); },
        SpecValue::Byte(x) => { lemma_json_scalar_roundtrip(true, x, 0, 0, 0, Seq::empty(), 0); },
        SpecValue::I16(x) => { lemma_json_scalar_roundtrip(true, 0, x, 0, 0, Seq::empty(), 0); },
        SpecValue::I32(x) => { lemma_json_scalar_roundtrip(true, 0, 0, x, 0, Seq::empty(), 0); },
        SpecValue::I64(x) => { lemma_json_scalar_roundtrip(true, 0, 0, 0, x, Seq::empty(), 0); },
        SpecValue::Double(b) => { lemma_json_scalar_roundtrip(true, 0, 0, 0, 0, Seq::empty(), b); },
        SpecValue::String(x) => { lemma_json_scalar_roundtrip(true, 0, 0, 0, 0, x, 0); },
        SpecValue::Binary(b) => { lemma_base64_decode_text(b); },
        SpecValue::List(_) => { lemma_json_read_list(v, t, structs, s); },
        SpecValue::SetT(_) => { lemma_json_read_set(v, t, structs, s); },
        SpecValue::MapT(_) => { lemma_json_read_map(v, t, structs, s); },
        SpecValue::Struct(_, _) => { lemma_json_read_struct(v, t, structs, s); },
    }
}

proof fn lemma_json_read_list(v: SpecValue, t: SpecType, structs: Seq<(Seq<char>, SpecStruct)>, s: JsonReaderView)
    requires
        json_carries(v, t, structs),
        v is List,
        pop_json(s).0 == Ok::<JsonView, ProtocolError>(jdoc(v, structs)),
    ensures
        spec_read_value::<JSONProtocolReader>(s, t, structs) == (Ok::<SpecValue, SpecValueError>(v), pop_json(s).1),
    decreases v, 0int,
{
    let items = v->List_0;
    let e = t->List_0;
    let et = elem_ttype(items);
    let xs = jdoc_items(items, 0, structs);
    let arr = seq![name_json(et), count_json(items.len())] + xs;
    let p1 = pop_json(s).1;
    lemma_pop_json(s);
    lemma_json_type_name_roundtrip(et);
    assert(arr.skip(2) =~= xs);
    lemma_jdoc_items_index(items, 0, structs);
    let f0 = ReadFrameView::List(et, xs, 0);
    let s1 = JsonReaderView { stack: p1.stack.push(f0), ..p1 };
    let lb = crate::protocol::types::ListBegin { element_type: et, size: items.len() as i32 };
    assert(<JSONProtocolReader as TInputProtocol>::spec_read_list_begin(s) == (Ok::<crate::protocol::types::ListBegin, ProtocolError>(lb), s1));
    lemma_stack_push(p1.stack, f0);
    lemma_items_size_split(arr, 2);
    assert(xs.skip(0) =~= xs);
    lemma_json_read_items(items, *e, structs, et, xs, 0, s1);
    assert(items.take(0) =~= Seq::<SpecValue>::empty());
    let s2 = with_top(s1, ReadFrameView::List(et, xs, items.len() as int));
    assert(pop_frame_json(s2) =~= p1);
}

proof fn lemma_json_read_set(v: SpecValue, t: SpecType, structs: Seq<(Seq<char>, SpecStruct)>, s: JsonReaderView)
    requires
        json_carries(v, t, structs),
        v is SetT,
        pop_json(s).0 == Ok::<JsonView, ProtocolError>(jdoc(v, structs)),
    ensures
        spec_read_value::<JSONProtocolReader>(s, t, structs) == (Ok::<SpecValue, SpecValueError>(v), pop_json(s).1),
    decreases v, 0int,
{
    let items = v->SetT_0;
    let e = t->SetT_0;
    let et = elem_ttype(items);
    let xs = jdoc_items(items, 0, structs);
    let arr = seq![name_json(et), count_json(items.len())] + xs;
    let p1 = pop_json(s).1;
    lemma_pop_json(s);
    lemma_json_type_name_roundtrip(et);
    assert(arr.skip(2) =~= xs);
    lemma_jdoc_items_index(items, 0, structs);
    let f0 = ReadFrameView::List(et, xs, 0);
    let s1 = JsonReaderView { stack: p1.stack.push(f0), ..p1 };
    let lb = crate::protocol::types::SetBegin { element_type: et, size: items.len() as i32 };
    assert(<JSONProtocolReader as TInputProtocol>::spec_read_set_begin(s) == (Ok::<crate::protocol::types::SetBegin, ProtocolError>(lb), s1));
    lemma_stack_push(p1.stack, f0);
    lemma_items_size_split(arr, 2);
    assert(xs.skip(0) =~= xs);
    lemma_json_read_items(items, *e, structs, et, xs, 0, s1);
    assert(items.take(0) =~= Seq::<SpecValue>::empty());
    let s2 = with_top(s1, ReadFrameView::List(et, xs, items.len() as int));
    assert(pop_frame_json(s2) =~= p1);
}

proof fn lemma_json_read_items(
    items: Seq<SpecValue>,
    e: SpecType,
    structs: Seq<(Seq<char>, SpecStruct)>,
    et: TType,
    xs: Seq<JsonView>,
    k: int,
    s: JsonReaderView,
)
    requires
        forall|j: int| 0 <= j < items.len() ==> json_carries(#[trigger] items[j], e, structs),
        xs.len() == items.len(),
        forall|j: int| 0 <= j < items.len() ==> #[trigger] xs[j] == jdoc(items[j], structs),
        0 <= k <= items.len(),
        s.stack.len() > 0,
        s.stack.last() == ReadFrameView::List(et, xs, k),
    ensures
        spec_read_items::<JSONProtocolReader>(s, e, (items.len() - k) as nat, items.take(k), structs)
            == (Ok::<Seq<SpecValue>, SpecValueError>(items), with_top(s, ReadFrameView::List(et, xs, items.len() as int))),
    decreases items, items.len() - k,
{
    let fe = ReadFrameView::List(et, xs, items.len() as int);
    if k < items.len() {
        let s1 = with_top(s, ReadFrameView::List(et, xs, k + 1));
        assert(xs[k] == jdoc(items[k], structs));
        assert(pop_json(s) == (Ok::<JsonView, ProtocolError>(jdoc(items[k], structs)), s1));
        lemma_pop_json(s);
        lemma_json_read_value(items[k], e, structs, s);
        lemma_json_read_items(items, e, structs, et, xs, k + 1, s1);
        assert(items.take(k).push(items[k]) =~= items.take(k + 1));
        assert(s1.stack.drop_last() =~= s.stack.drop_last());
        assert(with_top(s1, fe) =~= with_top(s, fe));
    } else {
        assert(items.take(k) =~= items);
        assert(s.stack.drop_last().push(fe) =~= s.stack);
        assert(with_top(s, fe) =~= s);
    }
}

/// A key of a map that the JSON protocol carries is written under its key text.
proof fn lemma_map_key_doc(k: SpecValue, kt: SpecType, structs: Seq<(Seq<char>, SpecStruct)>)
    requires
        json_key_type(kt),
        json_carries(k, kt, structs),
    ensures
        key_text(jdoc(k, structs)) == Some(map_key_text(k)),
{
}

/// Reading a key of type `kt` where the reader's next value is the key text
/// of a key `k` that the JSON protocol carries gives `k` back.
proof fn lemma_json_read_key(k: SpecValue, kt: SpecType, structs: Seq<(Seq<char>, SpecStruct)>, s: JsonReaderView)
    requires
        json_key_type(kt),
        json_carries(k, kt, structs),
        pop_json(s).0 == Ok::<JsonView, ProtocolError>(JsonView::String(map_key_text(k))),
    ensures
        spec_read_value::<JSONProtocolReader>(s, kt, structs) == (Ok::<SpecValue, SpecValueError>(k), pop_json(s).1),
{
    match k {
        SpecValue::Bool(b) => {
            assert(int_text(1) =~= seq!['1']);
            assert(int_text(0) =~= seq!['0']);
        },
        SpecValue::Byte(x) => { lemma_i64_text_roundtrip(x as i64); },
        SpecValue::I16(x) => { lemma_i64_text_roundtrip(x as i64); },
        SpecValue::I32(x) => { lemma_i64_text_roundtrip(x as i64); },
        SpecValue::I64(x) => { lemma_i64_text_roundtrip(x); },
        _ => {},
    }
}

proof fn lemma_json_read_map(v: SpecValue, t: SpecType, structs: Seq<(Seq<char>, SpecStruct)>, s: JsonReaderView)
    requires
        json_carries(v, t, structs),
        v is MapT,
        pop_json(s).0 == Ok::<JsonView, ProtocolError>(jdoc(v, structs)),
    ensures
        spec_read_value::<JSONProtocolReader>(s, t, structs) == (Ok::<SpecValue, SpecValueError>(v), pop_json(s).1),
    decreases v, 0int,
{
    let pairs = v->MapT_0;
    let kt = t->MapT_0;
    let vt = t->MapT_1;
    let (a, b) = pair_ttypes(pairs);
    let n = pairs.len() as int;
    let ps = jdoc_pairs(pairs, 0, structs);
    lemma_jdoc_pairs_index(pairs, 0, structs);
    lemma_map_obj(pairs, *kt, *vt, structs, n);
    assert(ps.take(n) =~= ps);
    let obj = map_obj(pairs, n, structs);
    let arr = seq![name_json(a), name_json(b), count_json(obj.len()), JsonView::Object(obj)];
    assert(jdoc(v, structs) == JsonView::Array(arr));
    let kp = keyed_pairs(obj);
    assert forall|j: int| 0 <= j < n implies #[trigger] kp[j]
        == (JsonView::String(map_key_text(pairs[j].0)), jdoc(pairs[j].1, structs)) by {
        assert(obj[j] == (map_key_text(pairs[j].0), jdoc(pairs[j].1, structs)));
    }
    lemma_json_type_name_roundtrip(a);
    lemma_json_type_name_roundtrip(b);
    let p1 = pop_json(s).1;
    lemma_pop_json(s);
    let f0 = ReadFrameView::Pairs(a, b, kp, 0, true);
    let s1 = JsonReaderView { stack: p1.stack.push(f0), ..p1 };
    let mb = crate::protocol::types::MapBegin { key_type: a, value_type: b, size: n as i32 };
    assert(<JSONProtocolReader as TInputProtocol>::spec_read_map_begin(s) == (Ok::<crate::protocol::types::MapBegin, ProtocolError>(mb), s1));
    lemma_stack_push(p1.stack, f0);
    lemma_item_smaller(arr, 3);
    lemma_keyed_pairs_size(obj);
    if n > 0 {
        lemma_pairs_size_first(kp);
    }
    lemma_json_read_pairs(pairs, *kt, *vt, structs, a, b, kp, 0, s1);
    assert(pairs.take(0) =~= Seq::<(SpecValue, SpecValue)>::empty());
    let s2 = with_top(s1, ReadFrameView::Pairs(a, b, kp, n, true));
    assert(pop_frame_json(s2) =~= p1);
}

#[verifier::rlimit(40)]
proof fn lemma_json_read_pairs(
    pairs: Seq<(SpecValue, SpecValue)>,
    kt: SpecType,
    vt: SpecType,
    structs: Seq<(Seq<char>, SpecStruct)>,
    a: TType,
    b: TType,
    kp: Seq<(JsonView, JsonView)>,
    k: int,
    s: JsonReaderView,
)
    requires
        forall|j: int| 0 <= j < pairs.len() ==> json_carries(#[trigger] pairs[j].0, kt, structs)
            && json_carries(pairs[j].1, vt, structs),
        kp.len() == pairs.len(),
        json_key_type(kt),
        forall|j: int| 0 <= j < pairs.len() ==> #[trigger] kp[j]
            == (JsonView::String(map_key_text(pairs[j].0)), jdoc(pairs[j].1, structs)),
        0 <= k <= pairs.len(),
        s.stack.len() > 0,
        s.stack.last() == ReadFrameView::Pairs(a, b, kp, k, true),
    ensures
        spec_read_pairs::<JSONProtocolReader>(s, kt, vt, (pairs.len() - k) as nat, pairs.take(k), structs)
            == (Ok::<Seq<(SpecValue, SpecValue)>, SpecValueError>(pairs), with_top(s, ReadFrameView::Pairs(a, b, kp, pairs.len() as int, true))),
    decreases pairs, pairs.len() - k,
{
    let fe = ReadFrameView::Pairs(a, b, kp, pairs.len() as int, true);
    if k < pairs.len() {
        let s1 = with_top(s, ReadFrameView::Pairs(a, b, kp, k, false));
        let s2 = with_top(s1, ReadFrameView::Pairs(a, b, kp, k + 1, true));
        assert(kp[k] == (JsonView::String(map_key_text(pairs[k].0)), jdoc(pairs[k].1, structs)));
        assert(pop_json(s) == (Ok::<JsonView, ProtocolError>(JsonView::String(map_key_text(pairs[k].0))), s1));
        lemma_pop_json(s);
        lemma_json_read_key(pairs[k].0, kt, structs, s);
        assert(pop_json(s1) == (Ok::<JsonView, ProtocolError>(jdoc(pairs[k].1, structs)), s2));
        lemma_pop_json(s1);
        lemma_json_read_value(pairs[k].1, vt, structs, s1);
        let acc2 = pairs.take(k).push((pairs[k].0, pairs[k].1));
        assert(acc2 =~= pairs.take(k + 1));
        assert(spec_read_pairs::<JSONProtocolReader>(s, kt, vt, (pairs.len() - k) as nat, pairs.take(k), structs)
            == spec_read_pairs::<JSONProtocolReader>(s2, kt, vt, (pairs.len() - (k + 1)) as nat, acc2, structs));
        lemma_json_read_pairs(pairs, kt, vt, structs, a, b, kp, k + 1, s2);
        assert(s2.stack.drop_last() =~= s.stack.drop_last());
        assert(with_top(s2, fe) =~= with_top(s, fe));
    } else {
        assert(pairs.take(k) =~= pairs);
        assert(s.stack.drop_last().push(fe) =~= s.stack);
        assert(with_top(s, fe) =~= s);
    }
}

proof fn lemma_json_read_struct(v: SpecValue, t: SpecType, structs: Seq<(Seq<char>, SpecStruct)>, s: JsonReaderView)
    requires
        json_carries(v, t, structs),
        v is Struct,
        pop_json(s).0 == Ok::<JsonView, ProtocolError>(jdoc(v, structs)),
    ensures
        spec_read_value::<JSONProtocolReader>(s, t, structs) == (Ok::<SpecValue, SpecValueError>(v), pop_json(s).1),
    decreases v, 0int,
{
    let fields = v->Struct_1;
    let n = t->Struct_0;
    let dd = assoc_get(structs, n).unwrap();
    let fds = dd.fields;
    let m = fds.len() as int;
    lemma_canonical_entries(fields, fds, m);
    assert(fds.take(m) =~= fds);
    let ce = canonical_entries(fds);
    assert(ce.take(m) =~= ce);
    assert(ce.skip(0) =~= ce);
    assert(struct_obj(fields, fds, 0, structs) =~= Seq::<(Seq<char>, JsonView)>::empty());
    lemma_jdoc_struct_entries(fields, fds, structs, 0);
    let obj = struct_obj(fields, fds, m, structs);
    assert(jdoc(v, structs) == JsonView::Object(obj));
    let p1 = pop_json(s).1;
    lemma_pop_json(s);
    let s1 = JsonReaderView { stack: p1.stack.push(struct_frame(obj)), nesting: p1.nesting + 1, ..p1 };
    assert(<JSONProtocolReader as TInputProtocol>::spec_read_struct_begin(s) == (Ok::<(), ProtocolError>(()), s1));
    lemma_open_struct(p1, JsonView::Object(obj));
    assert(fields.take(0) =~= Seq::<(Seq<char>, SpecValue)>::empty());
    lemma_json_read_fields(fields, fds, structs, obj, 0, s1);
    let r = spec_read_struct_fields::<JSONProtocolReader>(s1, fds, structs, fields.take(0));
    assert(r.1.stack.drop_last() =~= p1.stack);
    let e = <JSONProtocolReader as TInputProtocol>::spec_read_struct_end(r.1);
    assert(e.1 =~= p1);
}

#[verifier::rlimit(60)]
proof fn lemma_json_read_fields(
    fields: Seq<(Seq<char>, SpecValue)>,
    fds: Seq<SpecField>,
    structs: Seq<(Seq<char>, SpecStruct)>,
    obj: Seq<(Seq<char>, JsonView)>,
    k: int,
    s: JsonReaderView,
)
    requires
        distinct_fields(fds),
        fields.len() == fds.len(),
        forall|j: int| 0 <= j < fields.len() ==> (#[trigger] fields[j]).0 == fds[j].name
            && json_carries(fields[j].1, fds[j].field_type, structs),
        obj == struct_obj(fields, fds, fds.len() as int, structs),
        0 <= k <= fields.len(),
        s.stack.len() > 0,
        s.stack.last() matches ReadFrameView::Struct(o, i, _, cv) && o == obj && i == k && cv is None,
    ensures
        spec_read_struct_fields::<JSONProtocolReader>(s, fds, structs, fields.take(k)).0
            == Ok::<Seq<(Seq<char>, SpecValue)>, SpecValueError>(fields),
        spec_read_struct_fields::<JSONProtocolReader>(s, fds, structs, fields.take(k)).1.root == s.root,
        spec_read_struct_fields::<JSONProtocolReader>(s, fds, structs, fields.take(k)).1.nesting == s.nesting,
        spec_read_struct_fields::<JSONProtocolReader>(s, fds, structs, fields.take(k)).1.stack.len() == s.stack.len(),
        spec_read_struct_fields::<JSONProtocolReader>(s, fds, structs, fields.take(k)).1.stack.drop_last()
            == s.stack.drop_last(),
    decreases fields, fields.len() - k,
{
    if k < fields.len() {
        let fv = fields[k].1;
        let ft = value_ttype(fv);
        let id = fds[k].id;
        let ct = s.stack.last()->Struct_2;
        let entry = JsonView::Array(seq![name_json(ft), jdoc(fv, structs)]);
        assert(obj[k] == (int_text(id as int), entry));
        lemma_i16_text_roundtrip(id);
        lemma_json_type_name_roundtrip(ft);
        let s1 = with_top(s, ReadFrameView::Struct(obj, k + 1, Some(ft), Some(jdoc(fv, structs))));
        assert(<JSONProtocolReader as TInputProtocol>::spec_read_field_begin(s) == (Ok::<(TType, i16), ProtocolError>((ft, id)), s1));
        lemma_with_top(s, ReadFrameView::Struct(obj, k + 1, Some(ft), Some(jdoc(fv, structs))));
        lemma_entries_size_first(obj.skip(k));
        assert(obj.skip(k).skip(1) =~= obj.skip(k + 1));
        lemma_item_smaller(seq![name_json(ft), jdoc(fv, structs)], 1);
        assert(json_remaining(s1) < json_remaining(s));
        lemma_last_id(fds, k, fds.len() as int);
        let s2 = with_top(s1, ReadFrameView::Struct(obj, k + 1, Some(ft), None));
        assert(pop_json(s1) == (Ok::<JsonView, ProtocolError>(jdoc(fv, structs)), s2));
        lemma_pop_json(s1);
        lemma_json_read_value(fv, fds[k].field_type, structs, s1);
        lemma_assoc_index_from_bounds(fields.take(k), fds[k].name, 0);
        assert forall|j: int| 0 <= j < fields.take(k).len() implies fields.take(k)[j].0 != fds[k].name by {
            assert(fields[j].0 == fds[j].name);
        }
        assert(assoc_insert(fields.take(k), fds[k].name, fv) =~= fields.take(k + 1));
        assert(spec_read_struct_fields::<JSONProtocolReader>(s, fds, structs, fields.take(k))
            == spec_read_struct_fields::<JSONProtocolReader>(s2, fds, structs, fields.take(k + 1)));
        lemma_json_read_fields(fields, fds, structs, obj, k + 1, s2);
        assert(s2.stack.drop_last() =~= s.stack.drop_last());
    } else {
        assert(fields.take(k) =~= fields);
    }
}

/// A value that the JSON protocol carries is read back as it was written:
/// writing `v` with a JSON writer that has no frame open succeeds and
/// finishes one more document, and a reader over that document, with no
/// frame open, reads a value of type `t` as `v` and takes the whole document.
pub proof fn lemma_json_value_roundtrip(
    v: SpecValue,
    t: SpecType,
    structs: Seq<(Seq<char>, SpecStruct)>,
    w: JsonWriterView,
    nesting: nat,
)
    requires
        json_carries(v, t, structs),
        w.stack.len() == 0,
    ensures
        spec_write_value::<JSONProtocolWriter>(w, v, structs).0 is Ok,
        spec_write_value::<JSONProtocolWriter>(w, v, structs).1.out == w.out.push(jdoc(v, structs)),
        spec_read_value::<JSONProtocolReader>(
            JsonReaderView {
                root: Some(spec_write_value::<JSONProtocolWriter>(w, v, structs).1.out.last()),
                stack: Seq::empty(),
                nesting,
            },
            t,
            structs,
        ) == (
            Ok::<SpecValue, SpecValueError>(v),
            JsonReaderView { root: None, stack: Seq::<ReadFrameView>::empty(), nesting },
        ),
{
    lemma_json_carries_writable(v, t, structs);
    lemma_json_write_value(v, structs, w);
    let r = JsonReaderView { root: Some(jdoc(v, structs)), stack: Seq::empty(), nesting };
    lemma_json_read_value(v, t, structs, r);
}


// ─── Replies through the JSON protocol ────────────────────────────────────────

/// The JSON document of a message: `[1, name, type, seq_id, body]`.
pub open spec fn message_doc(name: Seq<char>, message_type: u8, seq_id: i32, body: Seq<(Seq<char>, JsonView)>) -> JsonView {
    JsonView::Array(seq![
        count_json(1), JsonView::String(name), count_json(message_type as nat),
        JsonView::Number(number_of_int(seq_id as int)), JsonView::Object(body),
    ])
}

/// The body of a reply that returns `v`: the entry of field 0, or nothing
/// for a method that returns nothing.
pub open spec fn reply_body(return_type: SpecType, v: SpecValue, structs: Seq<(Seq<char>, SpecStruct)>) -> Seq<(Seq<char>, JsonView)> {
    if is_void(return_type) {
        Seq::empty()
    } else {
        seq![(int_text(0), JsonView::Array(seq![name_json(type_ttype(return_type)), jdoc(v, structs)]))]
    }
}

/// The body of an application exception: its text as field 1 and its kind
/// as field 2.
pub open spec fn exception_body(kind: i32, msg: Seq<char>) -> Seq<(Seq<char>, JsonView)> {
    seq![
        (int_text(1), JsonView::Array(seq![name_json(TType::String), JsonView::String(msg)])),
        (int_text(2), JsonView::Array(seq![name_json(TType::I32), JsonView::Number(number_of_int(kind as int))])),
    ]
}

/// Reading a message header from a document `[1, name, type, seq_id, body]`
/// gives its header and opens its body.
proof fn lemma_json_read_message_doc(name: Seq<char>, message_type: u8, seq_id: i32, body: Seq<(Seq<char>, JsonView)>, nesting: nat)
    ensures
        <JSONProtocolReader as TInputProtocol>::spec_read_message_begin(
            JsonReaderView { root: Some(message_doc(name, message_type, seq_id, body)), stack: Seq::empty(), nesting },
        ) == (
            Ok::<(Seq<char>, u8, i32), ProtocolError>((name, message_type, seq_id)),
            JsonReaderView {
                root: Some(message_doc(name, message_type, seq_id, body)),
                stack: seq![struct_frame(body)],
                nesting,
            },
        ),
{
    assert(Seq::<ReadFrameView>::empty().push(struct_frame(body)) =~= seq![struct_frame(body)]);
}

/// A reply that a server writes with the JSON protocol, with no frame open,
/// finishes one more document, and a client reading that document decodes
/// the reply as written: nothing for a method that returns nothing, else the
/// value returned, when the protocol carries it exactly as a value of the
/// return type.
#[verifier::rlimit(40)]
pub proof fn lemma_json_reply_roundtrip(
    name: Seq<char>,
    seq_id: i32,
    return_type: SpecType,
    exceptions: Seq<SpecField>,
    v: SpecValue,
    structs: Seq<(Seq<char>, SpecStruct)>,
    w: JsonWriterView,
    nesting: nat,
)
    requires
        w.stack.len() == 0,
        !is_void(return_type) ==> json_carries(v, return_type, structs),
    ensures
        spec_reply::<JSONProtocolWriter>(w, name, seq_id, return_type, v, structs)
            == (Ok::<(), ProtocolError>(()), JsonWriterView {
                out: w.out.push(message_doc(name, MESSAGE_TYPE_REPLY, seq_id, reply_body(return_type, v, structs))),
                ..w
            }),
        spec_decode_reply::<JSONProtocolReader>(
            JsonReaderView {
                root: Some(message_doc(name, MESSAGE_TYPE_REPLY, seq_id, reply_body(return_type, v, structs))),
                stack: Seq::empty(),
                nesting,
            },
            return_type,
            exceptions,
            structs,
        ).0 == Ok::<SpecReply, SpecValueError>(if is_void(return_type) { SpecReply::Void } else { SpecReply::Value(v) }),
{
    let body = reply_body(return_type, v, structs);
    let doc = message_doc(name, MESSAGE_TYPE_REPLY, seq_id, body);
    let w1 = JsonWriterView {
        stack: seq![WriteFrameView::Message(name, MESSAGE_TYPE_REPLY, seq_id), WriteFrameView::Struct(Seq::empty(), None)],
        ..w
    };
    assert(w.stack.push(WriteFrameView::Message(name, MESSAGE_TYPE_REPLY, seq_id)).push(WriteFrameView::Struct(Seq::empty(), None)) =~= w1.stack);
    let w_end = JsonWriterView {
        stack: seq![WriteFrameView::Message(name, MESSAGE_TYPE_REPLY, seq_id), WriteFrameView::Struct(body, None)],
        ..w
    };
    if !is_void(return_type) {
        let tt = type_ttype(return_type);
        let w2 = JsonWriterView {
            stack: seq![WriteFrameView::Message(name, MESSAGE_TYPE_REPLY, seq_id), WriteFrameView::Struct(Seq::empty(), Some((0i16, tt)))],
            ..w
        };
        assert(w1.stack.drop_last().push(WriteFrameView::Struct(Seq::empty(), Some((0i16, tt)))) =~= w2.stack);
        lemma_json_carries_writable(v, return_type, structs);
        lemma_json_write_value(v, structs, w2);
        assert(push_json(w2, jdoc(v, structs)) =~= w_end);
    } else {
        assert(w1 =~= w_end);
    }
    let w_msg = JsonWriterView { stack: seq![WriteFrameView::Message(name, MESSAGE_TYPE_REPLY, seq_id)], ..w };
    assert(w_end.stack.drop_last() =~= w_msg.stack);
    assert(w_msg.stack.drop_last() =~= Seq::<WriteFrameView>::empty());
    assert(<JSONProtocolWriter as TOutputProtocol>::spec_write_message_end(w_end)
        == (Ok::<(), ProtocolError>(()), JsonWriterView { out: w.out.push(doc), ..w }));

    let r0 = JsonReaderView { root: Some(doc), stack: Seq::empty(), nesting };
    lemma_json_read_message_doc(name, MESSAGE_TYPE_REPLY, seq_id, body, nesting);
    let r1 = JsonReaderView { root: Some(doc), stack: seq![struct_frame(body)], nesting };
    if !is_void(return_type) {
        let tt = type_ttype(return_type);
        lemma_i16_text_roundtrip(0);
        lemma_json_type_name_roundtrip(tt);
        let r2 = with_top(r1, ReadFrameView::Struct(body, 1, Some(tt), Some(jdoc(v, structs))));
        assert(<JSONProtocolReader as TInputProtocol>::spec_read_field_begin(r1) == (Ok::<(TType, i16), ProtocolError>((tt, 0i16)), r2));
        lemma_json_read_value(v, return_type, structs, r2);
    }
}

proof fn lemma_exception_body_keys()
    ensures
        int_text(1) == seq!['1'],
        int_text(2) == seq!['2'],
        key_lt(int_text(1), int_text(2)),
{
    assert(int_text(1) =~= seq!['1']);
    assert(int_text(2) =~= seq!['2']);
}

/// An application exception that a server writes with the JSON protocol, with
/// no frame open, finishes one more document, and a client reading that
/// document decodes it as written, whatever the method returns: its text and
/// its kind.
#[verifier::rlimit(60)]
pub proof fn lemma_json_exception_reply_roundtrip(
    name: Seq<char>,
    seq_id: i32,
    kind: i32,
    msg: Seq<char>,
    return_type: SpecType,
    exceptions: Seq<SpecField>,
    structs: Seq<(Seq<char>, SpecStruct)>,
    w: JsonWriterView,
    nesting: nat,
)
    requires
        w.stack.len() == 0,
    ensures
        spec_exception_reply::<JSONProtocolWriter>(w, name, seq_id, kind, msg)
            == (Ok::<(), ProtocolError>(()), JsonWriterView {
                out: w.out.push(message_doc(name, MESSAGE_TYPE_EXCEPTION, seq_id, exception_body(kind, msg))),
                ..w
            }),
        spec_decode_reply::<JSONProtocolReader>(
            JsonReaderView {
                root: Some(message_doc(name, MESSAGE_TYPE_EXCEPTION, seq_id, exception_body(kind, msg))),
                stack: Seq::empty(),
                nesting,
            },
            return_type,
            exceptions,
            structs,
        ).0 == Ok::<SpecReply, SpecValueError>(SpecReply::ApplicationException(msg, kind)),
{
    let body = exception_body(kind, msg);
    let doc = message_doc(name, MESSAGE_TYPE_EXCEPTION, seq_id, body);
    let mf = WriteFrameView::Message(name, MESSAGE_TYPE_EXCEPTION, seq_id);
    lemma_exception_body_keys();
    let e1 = (int_text(1), JsonView::Array(seq![name_json(TType::String), JsonView::String(msg)]));
    let e2 = (int_text(2), JsonView::Array(seq![name_json(TType::I32), JsonView::Number(number_of_int(kind as int))]));
    assert(obj_insert(Seq::empty(), e1.0, e1.1) =~= seq![e1]);
    lemma_obj_insert_last(seq![e1], e2.0, e2.1);
    assert(seq![e1].push(e2) =~= body);
    assert(w.stack.push(mf).push(WriteFrameView::Struct(Seq::empty(), None)) =~= seq![mf, WriteFrameView::Struct(Seq::empty(), None)]);
    assert(seq![mf, WriteFrameView::Struct(Seq::empty(), None)].drop_last() =~= seq![mf]);
    assert(seq![mf, WriteFrameView::Struct(seq![e1], None)].drop_last() =~= seq![mf]);
    assert(seq![mf, WriteFrameView::Struct(body, None)].drop_last() =~= seq![mf]);
    assert(seq![mf].drop_last() =~= Seq::<WriteFrameView>::empty());
    assert(seq![mf].push(WriteFrameView::Struct(Seq::empty(), Some((1i16, TType::String))))
        =~= seq![mf, WriteFrameView::Struct(Seq::empty(), Some((1i16, TType::String)))]);
    assert(seq![mf].push(WriteFrameView::Struct(seq![e1], None)) =~= seq![mf, WriteFrameView::Struct(seq![e1], None)]);
    assert(seq![mf].push(WriteFrameView::Struct(seq![e1], Some((2i16, TType::I32))))
        =~= seq![mf, WriteFrameView::Struct(seq![e1], Some((2i16, TType::I32)))]);
    assert(seq![mf].push(WriteFrameView::Struct(body, None)) =~= seq![mf, WriteFrameView::Struct(body, None)]);
    assert(seq![mf, WriteFrameView::Struct(Seq::empty(), Some((1i16, TType::String)))].drop_last() =~= seq![mf]);
    assert(seq![mf, WriteFrameView::Struct(seq![e1], Some((2i16, TType::I32)))].drop_last() =~= seq![mf]);

    let r0 = JsonReaderView { root: Some(doc), stack: Seq::empty(), nesting };
    lemma_json_read_message_doc(name, MESSAGE_TYPE_EXCEPTION, seq_id, body, nesting);
    let r1 = JsonReaderView { root: Some(doc), stack: seq![struct_frame(body)], nesting };
    lemma_json_exception_fields(kind, msg, r1.root, nesting);
}

/// The body of an application exception reads as its text and kind.
#[verifier::rlimit(80)]
proof fn lemma_json_exception_fields(kind: i32, msg: Seq<char>, root: Option<JsonView>, nesting: nat)
    ensures
        spec_app_exception::<JSONProtocolReader>(
            JsonReaderView { root, stack: seq![struct_frame(exception_body(kind, msg))], nesting },
            Seq::empty(),
            0,
        ).0 == Ok::<(Seq<char>, i32), ProtocolError>((msg, kind)),
{
    let body = exception_body(kind, msg);
    lemma_exception_body_keys();
    lemma_i16_text_roundtrip(1);
    lemma_i16_text_roundtrip(2);
    lemma_json_type_name_roundtrip(TType::String);
    lemma_json_type_name_roundtrip(TType::I32);
    lemma_json_scalar_roundtrip(true, 0, 0, kind, 0, msg, 0);
    let s0 = JsonReaderView { root, stack: seq![struct_frame(body)], nesting };
    let s1 = with_top(s0, ReadFrameView::Struct(body, 1, Some(TType::String), Some(JsonView::String(msg))));
    let s2 = with_top(s1, ReadFrameView::Struct(body, 1, Some(TType::String), None));
    let s3 = with_top(s2, ReadFrameView::Struct(body, 2, Some(TType::I32), Some(JsonView::Number(number_of_int(kind as int)))));
    let s4 = with_top(s3, ReadFrameView::Struct(body, 2, Some(TType::I32), None));
    assert(<JSONProtocolReader as TInputProtocol>::spec_read_field_begin(s0) == (Ok::<(TType, i16), ProtocolError>((TType::String, 1i16)), s1));
    assert(pop_json(s1) == (Ok::<JsonView, ProtocolError>(JsonView::String(msg)), s2));
    lemma_pop_json(s1);
    lemma_with_top(s0, ReadFrameView::Struct(body, 1, Some(TType::String), Some(JsonView::String(msg))));
    lemma_entries_size_first(body);
    assert(body.skip(0) =~= body);
    assert(json_remaining(s2) < json_remaining(s0));
    assert(<JSONProtocolReader as TInputProtocol>::spec_read_field_begin(s2) == (Ok::<(TType, i16), ProtocolError>((TType::I32, 2i16)), s3));
    assert(pop_json(s3) == (Ok::<JsonView, ProtocolError>(JsonView::Number(number_of_int(kind as int))), s4));
    lemma_pop_json(s3);
    lemma_with_top(s2, ReadFrameView::Struct(body, 2, Some(TType::I32), Some(JsonView::Number(number_of_int(kind as int)))));
    lemma_entries_size_first(body.skip(1));
    assert(body.skip(1).skip(1) =~= body.skip(2));
    assert(json_remaining(s4) < json_remaining(s2));
    assert(<JSONProtocolReader as TInputProtocol>::spec_read_field_begin(s4) == (Ok::<(TType, i16), ProtocolError>((TType::Stop, 0i16)), s4));
    assert(spec_app_exception::<JSONProtocolReader>(s4, msg, kind) == (Ok::<(Seq<char>, i32), ProtocolError>((msg, kind)), s4));
    assert(spec_app_exception::<JSONProtocolReader>(s2, msg, 0) == spec_app_exception::<JSONProtocolReader>(s4, msg, kind));
    assert(spec_app_exception::<JSONProtocolReader>(s0, Seq::empty(), 0) == spec_app_exception::<JSONProtocolReader>(s2, msg, 0));
}

} // verus!
