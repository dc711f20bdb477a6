//! Thrift values on the wire, over any protocol: writing a value, reading a
//! value of a declared type, and skipping a value of a wire type.

use vstd::prelude::*;
use crate::parser::ast::{
    ThriftField, ThriftStruct, ThriftType, ThriftValue, SpecField, SpecStruct, SpecType, SpecValue,
    values_view, pairs_view, fields_view, field_list_view, lemma_values_view_index, lemma_pairs_view_index,
    lemma_fields_view_index, opt_value_view, value_view,
};
use crate::parser::names::{NameMap, assoc_get, assoc_index, assoc_index_from, assoc_insert, str_eq};
use crate::protocol::traits::{TInputProtocol, TOutputProtocol, WriteStep, ReadStep};
use crate::protocol::types::{FieldBegin, ListBegin, MapBegin, ProtocolError, SetBegin, TType};

verus! {

// ─── Wire types ───────────────────────────────────────────────────────────────

/// The wire type of a declared type (binary goes as a string).
pub open spec fn type_ttype(t: SpecType) -> TType {
    match t {
        SpecType::Bool => TType::Bool,
        SpecType::Byte => TType::Byte,
        SpecType::I16 => TType::I16,
        SpecType::I32 => TType::I32,
        SpecType::I64 => TType::I64,
        SpecType::Double => TType::Double,
        SpecType::String => TType::String,
        SpecType::Binary => TType::String,
        SpecType::List(_) => TType::List,
        SpecType::SetT(_) => TType::SetT,
        SpecType::MapT(_, _) => TType::MapT,
        SpecType::Struct(_) => TType::Struct,
    }
}

/// The wire type of a value, read off the value alone.
pub open spec fn value_ttype(v: SpecValue) -> TType {
    match v {
        SpecValue::Bool(_) => TType::Bool,
        SpecValue::Byte(_) => TType::Byte,
        SpecValue::I16(_) => TType::I16,
        SpecValue::I32(_) => TType::I32,
        SpecValue::I64(_) => TType::I64,
        SpecValue::Double(_) => TType::Double,
        SpecValue::String(_) => TType::String,
        SpecValue::Binary(_) => TType::String,
        SpecValue::List(_) => TType::List,
        SpecValue::SetT(_) => TType::SetT,
        SpecValue::MapT(_) => TType::MapT,
        SpecValue::Struct(_, _) => TType::Struct,
    }
}

pub fn thrift_type_to_ttype(t: &ThriftType) -> (r: TType)
    ensures
        r == type_ttype(t@),
{
    match t {
        ThriftType::Bool => TType::Bool,
        ThriftType::Byte => TType::Byte,
        ThriftType::I16 => TType::I16,
        ThriftType::I32 => TType::I32,
        ThriftType::I64 => TType::I64,
        ThriftType::Double => TType::Double,
        ThriftType::String => TType::String,
        ThriftType::Binary => TType::String,
        ThriftType::List(_) => TType::List,
        ThriftType::SetT(_) => TType::SetT,
        ThriftType::MapT(_, _) => TType::MapT,
        ThriftType::Struct(_) => TType::Struct,
    }
}

pub fn thrift_value_ttype(v: &ThriftValue) -> (r: TType)
    ensures
        r == value_ttype(v@),
{
    match v {
        ThriftValue::Bool(_) => TType::Bool,
        ThriftValue::Byte(_) => TType::Byte,
        ThriftValue::I16(_) => TType::I16,
        ThriftValue::I32(_) => TType::I32,
        ThriftValue::I64(_) => TType::I64,
        ThriftValue::Double(_) => TType::Double,
        ThriftValue::String(_) => TType::String,
        ThriftValue::Binary(_) => TType::String,
        ThriftValue::List(_) => TType::List,
        ThriftValue::SetT(_) => TType::SetT,
        ThriftValue::MapT(_) => TType::MapT,
        ThriftValue::Struct { .. } => TType::Struct,
    }
}

// ─── Writing ──────────────────────────────────────────────────────────────────

/// The element type announced for a list or set: that of its first item, or
/// string when it is empty.
pub open spec fn elem_ttype(items: Seq<SpecValue>) -> TType {
    if items.len() > 0 { value_ttype(items[0]) } else { TType::String }
}

/// The key and value types announced for a map: those of its first pair, or
/// strings when it is empty.
pub open spec fn pair_ttypes(pairs: Seq<(SpecValue, SpecValue)>) -> (TType, TType) {
    if pairs.len() > 0 {
        (value_ttype(pairs[0].0), value_ttype(pairs[0].1))
    } else {
        (TType::String, TType::String)
    }
}

/// The id of the first field of `fds` named `name`, or 0.
pub open spec fn field_id_of(fds: Seq<SpecField>, name: Seq<char>) -> i16
    decreases fds.len(),
{
    if fds.len() == 0 {
        0
    } else if fds[0].name == name {
        fds[0].id
    } else {
        field_id_of(fds.drop_first(), name)
    }
}

/// For each field of `fds` in order that `fields` has a value for: the id of
/// the first field of `all` with its name, and the index of its first value.
pub open spec fn def_entries(fds: Seq<SpecField>, all: Seq<SpecField>, fields: Seq<(Seq<char>, SpecValue)>) -> Seq<(i16, int)>
    decreases fds.len(),
{
    if fds.len() == 0 {
        Seq::empty()
    } else {
        let rest = def_entries(fds.drop_last(), all, fields);
        match assoc_index(fields, fds.last().name) {
            Some(i) => rest.push((field_id_of(all, fds.last().name), i)),
            None => rest,
        }
    }
}

/// The definition of the struct named `name`, if it is known.
pub open spec fn struct_def(name: Option<Seq<char>>, structs: Seq<(Seq<char>, SpecStruct)>) -> Option<SpecStruct> {
    match name {
        Some(n) => assoc_get(structs, n),
        None => None,
    }
}

/// The fields of a struct value to write, as (id, index of the value): in
/// the order of its definition when it is known, else as they are, with id 0.
pub open spec fn struct_entries(def: Option<SpecStruct>, fields: Seq<(Seq<char>, SpecValue)>) -> Seq<(i16, int)> {
    match def {
        Some(d) => def_entries(d.fields, d.fields, fields),
        None => Seq::new(fields.len(), |i: int| (0i16, i)),
    }
}

/// Writing `v`: scalars by their operation; containers as a header with the
/// size and the announced types, the items, and an end; structs as a begin,
/// each field with a header of its value's wire type, a stop and an end.
pub open spec fn spec_write_value<P: TOutputProtocol>(s: P::V, v: SpecValue, structs: Seq<(Seq<char>, SpecStruct)>) -> WriteStep<P::V>
    decreases v, 0int,
{
    match v {
        SpecValue::Bool(b) => P::spec_write_bool(s, b),
        SpecValue::Byte(b) => P::spec_write_byte(s, b),
        SpecValue::I16(b) => P::spec_write_i16(s, b),
        SpecValue::I32(b) => P::spec_write_i32(s, b),
        SpecValue::I64(b) => P::spec_write_i64(s, b),
        SpecValue::Double(b) => P::spec_write_double_bits(s, b),
        SpecValue::String(t) => P::spec_write_string(s, t),
        SpecValue::Binary(b) => P::spec_write_binary(s, b),
        SpecValue::List(items) => match P::spec_write_list_begin(s, ListBegin { element_type: elem_ttype(items), size: #[verifier::truncate] (items.len() as i32) }) {
            (Err(e), s1) => (Err(e), s1),
            (Ok(_), s1) => match spec_write_items::<P>(s1, items, 0, structs) {
                (Err(e), s2) => (Err(e), s2),
                (Ok(_), s2) => P::spec_write_list_end(s2),
            },
        },
        SpecValue::SetT(items) => match P::spec_write_set_begin(s, SetBegin { element_type: elem_ttype(items), size: #[verifier::truncate] (items.len() as i32) }) {
            (Err(e), s1) => (Err(e), s1),
            (Ok(_), s1) => match spec_write_items::<P>(s1, items, 0, structs) {
                (Err(e), s2) => (Err(e), s2),
                (Ok(_), s2) => P::spec_write_set_end(s2),
            },
        },
        SpecValue::MapT(pairs) => {
            let (kt, vt) = pair_ttypes(pairs);
            match P::spec_write_map_begin(s, MapBegin { key_type: kt, value_type: vt, size: #[verifier::truncate] (pairs.len() as i32) }) {
                (Err(e), s1) => (Err(e), s1),
                (Ok(_), s1) => match spec_write_pairs::<P>(s1, pairs, 0, structs) {
                    (Err(e), s2) => (Err(e), s2),
                    (Ok(_), s2) => P::spec_write_map_end(s2),
                },
            }
        },
        SpecValue::Struct(name, fields) => {
            let sname = match name { Some(n) => n, None => Seq::empty() };
            match P::spec_write_struct_begin(s, sname) {
                (Err(e), s1) => (Err(e), s1),
                (Ok(_), s1) => match spec_write_entries::<P>(s1, fields, struct_entries(struct_def(name, structs), fields), structs) {
                    (Err(e), s2) => (Err(e), s2),
                    (Ok(_), s2) => match P::spec_write_field_stop(s2) {
                        (Err(e), s3) => (Err(e), s3),
                        (Ok(_), s3) => P::spec_write_struct_end(s3),
                    },
                },
            }
        },
    }
}

/// Writing the items of a list or set from index `k` on.
pub open spec fn spec_write_items<P: TOutputProtocol>(s: P::V, items: Seq<SpecValue>, k: int, structs: Seq<(Seq<char>, SpecStruct)>) -> WriteStep<P::V>
    decreases items, items.len() - k,
{
    if 0 <= k < items.len() {
        match spec_write_value::<P>(s, items[k], structs) {
            (Err(e), s1) => (Err(e), s1),
            (Ok(_), s1) => spec_write_items::<P>(s1, items, k + 1, structs),
        }
    } else {
        (Ok(()), s)
    }
}

/// Writing the pairs of a map from index `k` on, each key before its value.
pub open spec fn spec_write_pairs<P: TOutputProtocol>(s: P::V, pairs: Seq<(SpecValue, SpecValue)>, k: int, structs: Seq<(Seq<char>, SpecStruct)>) -> WriteStep<P::V>
    decreases pairs, pairs.len() - k,
{
    if 0 <= k < pairs.len() {
        match spec_write_value::<P>(s, pairs[k].0, structs) {
            (Err(e), s1) => (Err(e), s1),
            (Ok(_), s1) => match spec_write_value::<P>(s1, pairs[k].1, structs) {
                (Err(e), s2) => (Err(e), s2),
                (Ok(_), s2) => spec_write_pairs::<P>(s2, pairs, k + 1, structs),
            },
        }
    } else {
        (Ok(()), s)
    }
}

/// Writing the fields of a struct value named by `entries`.
pub open spec fn spec_write_entries<P: TOutputProtocol>(
    s: P::V,
    fields: Seq<(Seq<char>, SpecValue)>,
    entries: Seq<(i16, int)>,
    structs: Seq<(Seq<char>, SpecStruct)>,
) -> WriteStep<P::V>
    decreases fields, entries.len(),
{
    if entries.len() == 0 {
        (Ok(()), s)
    } else {
        let id = entries[0].0;
        let i = entries[0].1;
        if 0 <= i < fields.len() {
            let fv = fields[i].1;
            match P::spec_write_field_begin(s, value_ttype(fv), id) {
                (Err(e), s1) => (Err(e), s1),
                (Ok(_), s1) => match spec_write_value::<P>(s1, fv, structs) {
                    (Err(e), s2) => (Err(e), s2),
                    (Ok(_), s2) => match P::spec_write_field_end(s2) {
                        (Err(e), s3) => (Err(e), s3),
                        (Ok(_), s3) => spec_write_entries::<P>(s3, fields, entries.drop_first(), structs),
                    },
                },
            }
        } else {
            (Ok(()), s)
        }
    }
}

/// The entries as the specifications see them.
pub open spec fn entries_view(v: Seq<(i16, usize)>) -> Seq<(i16, int)> {
    v.map_values(|e: (i16, usize)| (e.0, e.1 as int))
}

/// The index of the first value named `name`.
fn find_named_value(fields: &Vec<(String, ThriftValue)>, name: &str) -> (r: Option<usize>)
    ensures
        r matches Some(i) ==> assoc_index(fields_view(fields@), name@) == Some(i as int) && i < fields@.len(),
        r is None ==> assoc_index(fields_view(fields@), name@) is None,
{
    proof { lemma_fields_view_index(fields@); }
    let ghost fv = fields_view(fields@);
    let mut i: usize = 0;
    while i < fields.len()
        invariant
            i <= fields@.len(),
            fv == fields_view(fields@),
            fv.len() == fields@.len(),
            forall|j: int| 0 <= j < fields@.len() ==> #[trigger] fv[j] == (fields@[j].0@, fields@[j].1@),
            assoc_index(fv, name@) == assoc_index_from(fv, name@, i as int),
        decreases fields@.len() - i,
    {
        if str_eq(fields[i].0.as_str(), name) {
            assert(fv[i as int].0 == name@);
            return Some(i);
        }
        i = i + 1;
    }
    None
}

/// The id of the first field of `fds` named `name`, or 0.
fn field_id_in(fds: &Vec<ThriftField>, name: &str) -> (r: i16)
    ensures
        r == field_id_of(field_list_view(fds@), name@),
{
    let ghost all = field_list_view(fds@);
    assert(all.skip(0) =~= all);
    let mut i: usize = 0;
    while i < fds.len()
        invariant
            i <= fds@.len(),
            all == field_list_view(fds@),
            field_id_of(all, name@) == field_id_of(all.skip(i as int), name@),
        decreases fds@.len() - i,
    {
        assert(all.skip(i as int)[0] == fds@[i as int]@);
        if str_eq(fds[i].name.as_str(), name) {
            return fds[i].id;
        }
        assert(all.skip(i as int).drop_first() =~= all.skip(i + 1));
        i = i + 1;
    }
    0
}

/// The fields of a struct value to write, as `struct_entries` says.
fn struct_field_entries(def: Option<&ThriftStruct>, fields: &Vec<(String, ThriftValue)>) -> (r: Vec<(i16, usize)>)
    ensures
        entries_view(r@) == struct_entries(
            match def { Some(d) => Some(d@), None => None },
            fields_view(fields@),
        ),
        forall|k: int| 0 <= k < r@.len() ==> #[trigger] r@[k].1 < fields@.len(),
{
    proof { lemma_fields_view_index(fields@); }
    let ghost fv = fields_view(fields@);
    let mut r: Vec<(i16, usize)> = Vec::new();
    match def {
        Some(d) => {
            let ghost all = field_list_view(d.fields@);
            let mut j: usize = 0;
            assert(entries_view(r@) =~= def_entries(all.take(0), all, fv));
            while j < d.fields.len()
                invariant
                    j <= d.fields@.len(),
                    all == field_list_view(d.fields@),
                    fv == fields_view(fields@),
                    entries_view(r@) == def_entries(all.take(j as int), all, fv),
                    forall|k: int| 0 <= k < r@.len() ==> #[trigger] r@[k].1 < fields@.len(),
                decreases d.fields@.len() - j,
            {
                let ghost before = r@;
                assert(all.take(j + 1).drop_last() =~= all.take(j as int));
                assert(all.take(j + 1).last() == d.fields@[j as int]@);
                let nm = d.fields[j].name.as_str();
                assert(nm@ == d.fields@[j as int].name@);
                match find_named_value(fields, nm) {
                    Some(i) => {
                        let id = field_id_in(&d.fields, nm);
                        r.push((id, i));
                        assert(entries_view(r@) =~= entries_view(before).push((id, i as int)));
                        let ghost t1 = all.take(j + 1);
                        assert(t1.last().name == nm@);
                        assert(assoc_index(fv, nm@) == Some(i as int));
                        assert(field_id_of(all, nm@) == id);
                        assert(t1.len() > 0);
                        assert(def_entries(t1, all, fv) == def_entries(t1.drop_last(), all, fv).push((id, i as int)));
                    },
                    None => {
                        assert(def_entries(all.take(j + 1), all, fv) == def_entries(all.take(j as int), all, fv));
                    },
                }
                j = j + 1;
            }
            assert(all.take(d.fields@.len() as int) =~= all);
        },
        None => {
            let mut i: usize = 0;
            while i < fields.len()
                invariant
                    i <= fields@.len(),
                    fv == fields_view(fields@),
                    fv.len() == fields@.len(),
                    r@.len() == i,
                    forall|k: int| 0 <= k < i ==> #[trigger] r@[k] == (0i16, k as usize),
                decreases fields@.len() - i,
            {
                r.push((0i16, i));
                i = i + 1;
            }
            assert(entries_view(r@) =~= Seq::new(fv.len(), |k: int| (0i16, k)));
        },
    }
    r
}

/// Writes `val` with `writer`; the definitions of `struct_map` give the
/// order and the ids of the fields of a struct value of a known struct.
pub fn write_thrift_value<P: TOutputProtocol>(writer: &mut P, val: &ThriftValue, struct_map: &NameMap<ThriftStruct>) -> (r: Result<(), ProtocolError>)
    requires
        P::depth(old(writer)@) > 0,
    ensures
        (r, final(writer)@) == spec_write_value::<P>(old(writer)@, val@, struct_map@),
        r is Ok ==> P::depth(final(writer)@) == P::depth(old(writer)@),
    decreases val,
{
    match val {
        ThriftValue::Bool(v) => writer.write_bool(*v),
        ThriftValue::Byte(v) => writer.write_byte(*v),
        ThriftValue::I16(v) => writer.write_i16(*v),
        ThriftValue::I32(v) => writer.write_i32(*v),
        ThriftValue::I64(v) => writer.write_i64(*v),
        ThriftValue::Double(v) => writer.write_double_bits(*v),
        ThriftValue::String(v) => writer.write_string(v.as_str()),
        ThriftValue::Binary(v) => writer.write_binary(v.as_slice()),
        ThriftValue::List(items) => {
            proof { lemma_values_view_index(items@); }
            let elem = if items.len() > 0 { thrift_value_ttype(&items[0]) } else { TType::String };
            writer.write_list_begin(&ListBegin { element_type: elem, size: #[verifier::truncate] (items.len() as i32) })?;
            write_items(writer, items, struct_map)?;
            writer.write_list_end()
        },
        ThriftValue::SetT(items) => {
            proof { lemma_values_view_index(items@); }
            let elem = if items.len() > 0 { thrift_value_ttype(&items[0]) } else { TType::String };
            writer.write_set_begin(&SetBegin { element_type: elem, size: #[verifier::truncate] (items.len() as i32) })?;
            write_items(writer, items, struct_map)?;
            writer.write_set_end()
        },
        ThriftValue::MapT(pairs) => {
            proof { lemma_pairs_view_index(pairs@); }
            let (kt, vt) = if pairs.len() > 0 {
                (thrift_value_ttype(&pairs[0].0), thrift_value_ttype(&pairs[0].1))
            } else {
                (TType::String, TType::String)
            };
            writer.write_map_begin(&MapBegin { key_type: kt, value_type: vt, size: #[verifier::truncate] (pairs.len() as i32) })?;
            write_pairs(writer, pairs, struct_map)?;
            writer.write_map_end()
        },
        ThriftValue::Struct { name, fields } => {
            let ghost sv = match val@ { SpecValue::Struct(nm, _) => nm, _ => None };
            let sname = match name {
                Some(n) => n.as_str(),
                None => "",
            };
            proof {
                reveal_strlit("");
                assert(sname@ =~= (match sv { Some(n) => n, None => Seq::<char>::empty() }));
            }
            writer.write_struct_begin(sname)?;
            let def = match name {
                Some(n) => struct_map.get(n.as_str()),
                None => None,
            };
            let entries = struct_field_entries(def, fields);
            assert(entries_view(entries@) == struct_entries(struct_def(sv, struct_map@), fields_view(fields@)));
            write_struct_fields(writer, fields, &entries, struct_map)?;
            writer.write_field_stop()?;
            writer.write_struct_end()
        },
    }
}

/// Writes the items of a list or set.
fn write_items<P: TOutputProtocol>(writer: &mut P, items: &Vec<ThriftValue>, struct_map: &NameMap<ThriftStruct>) -> (r: Result<(), ProtocolError>)
    requires
        P::depth(old(writer)@) > 0,
    ensures
        (r, final(writer)@) == spec_write_items::<P>(old(writer)@, values_view(items@), 0, struct_map@),
        r is Ok ==> P::depth(final(writer)@) == P::depth(old(writer)@),
    decreases items,
{
    proof { lemma_values_view_index(items@); }
    let ghost s0 = writer@;
    let ghost iv = values_view(items@);
    let mut i: usize = 0;
    while i < items.len()
        invariant
            i <= items@.len(),
            iv == values_view(items@),
            iv.len() == items@.len(),
            forall|j: int| 0 <= j < items@.len() ==> #[trigger] iv[j] == items@[j]@,
            P::depth(writer@) == P::depth(s0),
            P::depth(s0) > 0,
            spec_write_items::<P>(s0, iv, 0, struct_map@) == spec_write_items::<P>(writer@, iv, i as int, struct_map@),
            s0 == old(writer)@,
        decreases items@.len() - i,
    {
        proof { assert(decreases_to!(items => items@[i as int])); }
        write_thrift_value(writer, &items[i], struct_map)?;
        i = i + 1;
    }
    Ok(())
}

/// Writes the pairs of a map, each key before its value.
fn write_pairs<P: TOutputProtocol>(writer: &mut P, pairs: &Vec<(ThriftValue, ThriftValue)>, struct_map: &NameMap<ThriftStruct>) -> (r: Result<(), ProtocolError>)
    requires
        P::depth(old(writer)@) > 0,
    ensures
        (r, final(writer)@) == spec_write_pairs::<P>(old(writer)@, pairs_view(pairs@), 0, struct_map@),
        r is Ok ==> P::depth(final(writer)@) == P::depth(old(writer)@),
    decreases pairs,
{
    proof { lemma_pairs_view_index(pairs@); }
    let ghost s0 = writer@;
    let ghost pv = pairs_view(pairs@);
    let mut i: usize = 0;
    while i < pairs.len()
        invariant
            i <= pairs@.len(),
            pv == pairs_view(pairs@),
            pv.len() == pairs@.len(),
            forall|j: int| 0 <= j < pairs@.len() ==> #[trigger] pv[j] == (pairs@[j].0@, pairs@[j].1@),
            P::depth(writer@) == P::depth(s0),
            P::depth(s0) > 0,
            spec_write_pairs::<P>(s0, pv, 0, struct_map@) == spec_write_pairs::<P>(writer@, pv, i as int, struct_map@),
            s0 == old(writer)@,
        decreases pairs@.len() - i,
    {
        proof {
            assert(decreases_to!(pairs => pairs@[i as int]));
            assert(decreases_to!(pairs@[i as int] => pairs@[i as int].0));
            assert(decreases_to!(pairs@[i as int] => pairs@[i as int].1));
        }
        write_thrift_value(writer, &pairs[i].0, struct_map)?;
        write_thrift_value(writer, &pairs[i].1, struct_map)?;
        i = i + 1;
    }
    Ok(())
}

/// Writes the fields of a struct value named by `entries`.
fn write_struct_fields<P: TOutputProtocol>(
    writer: &mut P,
    fields: &Vec<(String, ThriftValue)>,
    entries: &Vec<(i16, usize)>,
    struct_map: &NameMap<ThriftStruct>,
) -> (r: Result<(), ProtocolError>)
    requires
        P::depth(old(writer)@) > 0,
        forall|k: int| 0 <= k < entries@.len() ==> #[trigger] entries@[k].1 < fields@.len(),
    ensures
        (r, final(writer)@) == spec_write_entries::<P>(old(writer)@, fields_view(fields@), entries_view(entries@), struct_map@),
        r is Ok ==> P::depth(final(writer)@) == P::depth(old(writer)@),
    decreases fields,
{
    proof { lemma_fields_view_index(fields@); }
    let ghost s0 = writer@;
    let ghost fv = fields_view(fields@);
    let ghost ev = entries_view(entries@);
    assert(ev.skip(0) =~= ev);
    let mut k: usize = 0;
    while k < entries.len()
        invariant
            k <= entries@.len(),
            fv == fields_view(fields@),
            ev == entries_view(entries@),
            fv.len() == fields@.len(),
            forall|j: int| 0 <= j < fields@.len() ==> #[trigger] fv[j] == (fields@[j].0@, fields@[j].1@),
            forall|j: int| 0 <= j < entries@.len() ==> #[trigger] entries@[j].1 < fields@.len(),
            P::depth(writer@) == P::depth(s0),
            P::depth(s0) > 0,
            spec_write_entries::<P>(s0, fv, ev, struct_map@) == spec_write_entries::<P>(writer@, fv, ev.skip(k as int), struct_map@),
            s0 == old(writer)@,
        decreases entries@.len() - k,
    {
        let id = entries[k].0;
        let i = entries[k].1;
        assert(ev.skip(k as int)[0] == (id, i as int));
        assert(ev.skip(k as int).drop_first() =~= ev.skip(k + 1));
        let fval = &fields[i].1;
        proof {
            assert(decreases_to!(fields => fields@[i as int]));
            assert(decreases_to!(fields@[i as int] => fields@[i as int].1));
        }
        writer.write_field_begin(&FieldBegin { name: None, field_type: thrift_value_ttype(fval), id })?;
        write_thrift_value(writer, fval, struct_map)?;
        writer.write_field_end()?;
        k = k + 1;
    }
    assert(ev.skip(entries@.len() as int) =~= Seq::<(i16, int)>::empty());
    Ok(())
}

// ─── Skipping ─────────────────────────────────────────────────────────────────

/// A read step with its value dropped.
pub open spec fn discard<T, V>(r: ReadStep<T, V>) -> ReadStep<(), V> {
    match r.0 {
        Ok(_) => (Ok(()), r.1),
        Err(e) => (Err(e), r.1),
    }
}

/// How many items a container header announces (none when negative).
pub open spec fn item_count(size: i32) -> nat {
    if size > 0 { size as nat } else { 0 }
}

/// Skipping a value of wire type `t`: scalars and strings are read and
/// dropped; structs, maps, lists and sets are walked through; other types
/// take nothing.
pub open spec fn spec_skip<P: TInputProtocol>(s: P::V, t: TType) -> ReadStep<(), P::V>
    decreases P::remaining(s), 1int, 0int,
{
    match t {
        TType::Bool => discard(P::spec_read_bool(s)),
        TType::Byte => discard(P::spec_read_byte(s)),
        TType::I16 => discard(P::spec_read_i16(s)),
        TType::I32 => discard(P::spec_read_i32(s)),
        TType::I64 => discard(P::spec_read_i64(s)),
        TType::Double => discard(P::spec_read_double_bits(s)),
        TType::String => discard(P::spec_read_string(s)),
        TType::Struct => match P::spec_read_struct_begin(s) {
            (Err(e), s1) => (Err(e), s1),
            (Ok(_), s1) => if P::remaining(s1) <= P::remaining(s) {
                finish_struct::<P>(spec_skip_fields::<P>(s1))
            } else {
                (Ok(()), s1)
            },
        },
        TType::MapT => match P::spec_read_map_begin(s) {
            (Err(e), s1) => (Err(e), s1),
            (Ok(m), s1) => if P::remaining(s1) < P::remaining(s) {
                match spec_skip_pairs::<P>(s1, m.key_type, m.value_type, item_count(m.size)) {
                    (Err(e), s2) => (Err(e), s2),
                    (Ok(_), s2) => P::spec_read_map_end(s2),
                }
            } else {
                (Ok(()), s1)
            },
        },
        TType::List => match P::spec_read_list_begin(s) {
            (Err(e), s1) => (Err(e), s1),
            (Ok(l), s1) => if P::remaining(s1) < P::remaining(s) {
                match spec_skip_items::<P>(s1, l.element_type, item_count(l.size)) {
                    (Err(e), s2) => (Err(e), s2),
                    (Ok(_), s2) => P::spec_read_list_end(s2),
                }
            } else {
                (Ok(()), s1)
            },
        },
        TType::SetT => match P::spec_read_set_begin(s) {
            (Err(e), s1) => (Err(e), s1),
            (Ok(l), s1) => if P::remaining(s1) < P::remaining(s) {
                match spec_skip_items::<P>(s1, l.element_type, item_count(l.size)) {
                    (Err(e), s2) => (Err(e), s2),
                    (Ok(_), s2) => P::spec_read_set_end(s2),
                }
            } else {
                (Ok(()), s1)
            },
        },
        _ => (Ok(()), s),
    }
}

/// The end of a struct after its fields.
pub open spec fn finish_struct<P: TInputProtocol>(r: ReadStep<(), P::V>) -> ReadStep<(), P::V> {
    match r {
        (Err(e), s) => (Err(e), s),
        (Ok(_), s) => P::spec_read_struct_end(s),
    }
}

/// Skipping the fields of a struct, up to and with its stop.
pub open spec fn spec_skip_fields<P: TInputProtocol>(s: P::V) -> ReadStep<(), P::V>
    decreases P::remaining(s), 0int, 0int,
{
    match P::spec_read_field_begin(s) {
        (Err(e), s1) => (Err(e), s1),
        (Ok((t, _)), s1) => if t == TType::Stop {
            (Ok(()), s1)
        } else if P::remaining(s1) < P::remaining(s) {
            match spec_skip::<P>(s1, t) {
                (Err(e), s2) => (Err(e), s2),
                (Ok(_), s2) => match P::spec_read_field_end(s2) {
                    (Err(e), s3) => (Err(e), s3),
                    (Ok(_), s3) => if P::remaining(s3) < P::remaining(s) {
                        spec_skip_fields::<P>(s3)
                    } else {
                        (Ok(()), s3)
                    },
                },
            }
        } else {
            (Ok(()), s1)
        },
    }
}

/// Skipping `n` items of wire type `t`.
pub open spec fn spec_skip_items<P: TInputProtocol>(s: P::V, t: TType, n: nat) -> ReadStep<(), P::V>
    decreases P::remaining(s), 2int, n,
{
    if n == 0 {
        (Ok(()), s)
    } else {
        match spec_skip::<P>(s, t) {
            (Err(e), s1) => (Err(e), s1),
            (Ok(_), s1) => if P::remaining(s1) <= P::remaining(s) {
                spec_skip_items::<P>(s1, t, (n - 1) as nat)
            } else {
                (Ok(()), s1)
            },
        }
    }
}

/// Skipping `n` pairs of a map, each key before its value.
pub open spec fn spec_skip_pairs<P: TInputProtocol>(s: P::V, kt: TType, vt: TType, n: nat) -> ReadStep<(), P::V>
    decreases P::remaining(s), 2int, n,
{
    if n == 0 {
        (Ok(()), s)
    } else {
        match spec_skip::<P>(s, kt) {
            (Err(e), s1) => (Err(e), s1),
            (Ok(_), s1) => if P::remaining(s1) <= P::remaining(s) {
                match spec_skip::<P>(s1, vt) {
                    (Err(e), s2) => (Err(e), s2),
                    (Ok(_), s2) => if P::remaining(s2) <= P::remaining(s) {
                        spec_skip_pairs::<P>(s2, kt, vt, (n - 1) as nat)
                    } else {
                        (Ok(()), s2)
                    },
                }
            } else {
                (Ok(()), s1)
            },
        }
    }
}

/// Skips a value of wire type `ttype`, reading it with `reader`.
pub fn skip_value<P: TInputProtocol>(reader: &mut P, ttype: TType) -> (r: Result<(), ProtocolError>)
    requires
        P::depth(old(reader)@) > 0,
    ensures
        (r, final(reader)@) == spec_skip::<P>(old(reader)@, ttype),
        P::remaining(final(reader)@) <= P::remaining(old(reader)@),
        r is Ok ==> P::depth(final(reader)@) == P::depth(old(reader)@),
    decreases P::remaining(old(reader)@),
{
    let ghost s0 = reader@;
    match ttype {
        TType::Bool => {
            reader.read_bool()?;
        },
        TType::Byte => {
            reader.read_byte()?;
        },
        TType::I16 => {
            reader.read_i16()?;
        },
        TType::I32 => {
            reader.read_i32()?;
        },
        TType::I64 => {
            reader.read_i64()?;
        },
        TType::Double => {
            reader.read_double_bits()?;
        },
        TType::String => {
            reader.read_string()?;
        },
        TType::Struct => {
            reader.read_struct_begin()?;
            let ghost s1 = reader@;
            loop
                invariant_except_break
                    spec_skip_fields::<P>(s1) == spec_skip_fields::<P>(reader@),
                invariant
                    s0 == old(reader)@,
                    P::remaining(s1) <= P::remaining(s0),
                    spec_skip::<P>(s0, ttype) == finish_struct::<P>(spec_skip_fields::<P>(s1)),
                    P::remaining(reader@) <= P::remaining(s1),
                    P::depth(reader@) == P::depth(s1),
                    P::depth(s1) == P::depth(s0) + 1,
                    ttype == TType::Struct,
                ensures
                    spec_skip::<P>(s0, ttype) == finish_struct::<P>((Ok(()), reader@)),
                    P::remaining(reader@) <= P::remaining(s0),
                    P::depth(reader@) == P::depth(s0) + 1,
                decreases P::remaining(reader@),
            {
                let field = reader.read_field_begin()?;
                if field.field_type == TType::Stop {
                    break;
                }
                skip_value(reader, field.field_type)?;
                reader.read_field_end()?;
            }
            reader.read_struct_end()?;
        },
        TType::MapT => {
            let map = reader.read_map_begin()?;
            let ghost s1 = reader@;
            let mut i: i32 = 0;
            while i < map.size
                invariant
                    s0 == old(reader)@,
                    P::remaining(s1) < P::remaining(s0),
                    0 <= i,
                    i as int <= item_count(map.size),
                    ttype == TType::MapT,
                    spec_skip::<P>(s0, ttype) == (match spec_skip_pairs::<P>(s1, map.key_type, map.value_type, item_count(map.size)) {
                        (Err(e), s2) => (Err(e), s2),
                        (Ok(_), s2) => P::spec_read_map_end(s2),
                    }),
                    spec_skip_pairs::<P>(s1, map.key_type, map.value_type, item_count(map.size))
                        == spec_skip_pairs::<P>(reader@, map.key_type, map.value_type, (item_count(map.size) - i) as nat),
                    P::remaining(reader@) <= P::remaining(s1),
                    P::depth(reader@) == P::depth(s0),
                    P::depth(s0) > 0,
                decreases map.size - i,
            {
                skip_value(reader, map.key_type)?;
                skip_value(reader, map.value_type)?;
                i = i + 1;
            }
            reader.read_map_end()?;
        },
        TType::List => {
            let list = reader.read_list_begin()?;
            let ghost s1 = reader@;
            let mut i: i32 = 0;
            while i < list.size
                invariant
                    s0 == old(reader)@,
                    P::remaining(s1) < P::remaining(s0),
                    0 <= i,
                    i as int <= item_count(list.size),
                    ttype == TType::List,
                    spec_skip::<P>(s0, ttype) == (match spec_skip_items::<P>(s1, list.element_type, item_count(list.size)) {
                        (Err(e), s2) => (Err(e), s2),
                        (Ok(_), s2) => P::spec_read_list_end(s2),
                    }),
                    spec_skip_items::<P>(s1, list.element_type, item_count(list.size))
                        == spec_skip_items::<P>(reader@, list.element_type, (item_count(list.size) - i) as nat),
                    P::remaining(reader@) <= P::remaining(s1),
                    P::depth(reader@) == P::depth(s0),
                    P::depth(s0) > 0,
                decreases list.size - i,
            {
                skip_value(reader, list.element_type)?;
                i = i + 1;
            }
            reader.read_list_end()?;
        },
        TType::SetT => {
            let set = reader.read_set_begin()?;
            let ghost s1 = reader@;
            let mut i: i32 = 0;
            while i < set.size
                invariant
                    s0 == old(reader)@,
                    P::remaining(s1) < P::remaining(s0),
                    0 <= i,
                    i as int <= item_count(set.size),
                    ttype == TType::SetT,
                    spec_skip::<P>(s0, ttype) == (match spec_skip_items::<P>(s1, set.element_type, item_count(set.size)) {
                        (Err(e), s2) => (Err(e), s2),
                        (Ok(_), s2) => P::spec_read_set_end(s2),
                    }),
                    spec_skip_items::<P>(s1, set.element_type, item_count(set.size))
                        == spec_skip_items::<P>(reader@, set.element_type, (item_count(set.size) - i) as nat),
                    P::remaining(reader@) <= P::remaining(s1),
                    P::depth(reader@) == P::depth(s0),
                    P::depth(s0) > 0,
                decreases set.size - i,
            {
                skip_value(reader, set.element_type)?;
                i = i + 1;
            }
            reader.read_set_end()?;
        },
        _ => {},
    }
    Ok(())
}

// ─── Reading ──────────────────────────────────────────────────────────────────

/// Why a value could not be read.
#[derive(Debug)]
pub enum ValueError {
    /// The protocol failed.
    Protocol(ProtocolError),
    /// A struct type has no definition.
    UnknownStruct(String),
    /// A value is not of the kind that its declared type names.
    Mismatch,
    /// A required struct field was given no value (`None`).
    RequiredNone(String),
}

pub enum SpecValueError {
    Protocol(ProtocolError),
    UnknownStruct(Seq<char>),
    Mismatch,
    RequiredNone(Seq<char>),
}

impl View for ValueError {
    type V = SpecValueError;

    open spec fn view(&self) -> SpecValueError {
        match self {
            ValueError::Protocol(e) => SpecValueError::Protocol(*e),
            ValueError::UnknownStruct(n) => SpecValueError::UnknownStruct(n@),
            ValueError::Mismatch => SpecValueError::Mismatch,
            ValueError::RequiredNone(n) => SpecValueError::RequiredNone(n@),
        }
    }
}

/// A read step of the value layer.
pub type ValueStep<T, V> = (Result<T, SpecValueError>, V);

/// A protocol read step, its value taken by `f`.
pub open spec fn lift<T, V>(r: ReadStep<T, V>, f: spec_fn(T) -> SpecValue) -> ValueStep<SpecValue, V> {
    match r.0 {
        Ok(x) => (Ok(f(x)), r.1),
        Err(e) => (Err(SpecValueError::Protocol(e)), r.1),
    }
}

/// The index of the last field of `fields` before `k` with id `id`.
pub open spec fn last_with_id(fields: Seq<SpecField>, id: i16, k: int) -> Option<int>
    decreases k,
{
    if k <= 0 {
        None
    } else if fields[k - 1].id == id {
        Some(k - 1)
    } else {
        last_with_id(fields, id, k - 1)
    }
}

/// Reading a value of declared type `t`: scalars by their operation;
/// containers as a header, as many items as it announces, and an end;
/// structs, which must be defined in `structs`, as a begin, their fields,
/// and an end.
pub open spec fn spec_read_value<P: TInputProtocol>(s: P::V, t: SpecType, structs: Seq<(Seq<char>, SpecStruct)>) -> ValueStep<SpecValue, P::V>
    decreases P::remaining(s), 1int, 0int,
{
    match t {
        SpecType::Bool => lift(P::spec_read_bool(s), |x: bool| SpecValue::Bool(x)),
        SpecType::Byte => lift(P::spec_read_byte(s), |x: i8| SpecValue::Byte(x)),
        SpecType::I16 => lift(P::spec_read_i16(s), |x: i16| SpecValue::I16(x)),
        SpecType::I32 => lift(P::spec_read_i32(s), |x: i32| SpecValue::I32(x)),
        SpecType::I64 => lift(P::spec_read_i64(s), |x: i64| SpecValue::I64(x)),
        SpecType::Double => lift(P::spec_read_double_bits(s), |x: u64| SpecValue::Double(x)),
        SpecType::String => lift(P::spec_read_string(s), |x: Seq<char>| SpecValue::String(x)),
        SpecType::Binary => lift(P::spec_read_binary(s), |x: Seq<u8>| SpecValue::Binary(x)),
        SpecType::List(e) => match P::spec_read_list_begin(s) {
            (Err(x), s1) => (Err(SpecValueError::Protocol(x)), s1),
            (Ok(l), s1) => if P::remaining(s1) < P::remaining(s) {
                match spec_read_items::<P>(s1, *e, item_count(l.size), Seq::empty(), structs) {
                    (Err(x), s2) => (Err(x), s2),
                    (Ok(vs), s2) => lift(P::spec_read_list_end(s2), |u: ()| SpecValue::List(vs)),
                }
            } else {
                (Ok(SpecValue::List(Seq::empty())), s1)
            },
        },
        SpecType::SetT(e) => match P::spec_read_set_begin(s) {
            (Err(x), s1) => (Err(SpecValueError::Protocol(x)), s1),
            (Ok(l), s1) => if P::remaining(s1) < P::remaining(s) {
                match spec_read_items::<P>(s1, *e, item_count(l.size), Seq::empty(), structs) {
                    (Err(x), s2) => (Err(x), s2),
                    (Ok(vs), s2) => lift(P::spec_read_set_end(s2), |u: ()| SpecValue::SetT(vs)),
                }
            } else {
                (Ok(SpecValue::SetT(Seq::empty())), s1)
            },
        },
        SpecType::MapT(k, v) => match P::spec_read_map_begin(s) {
            (Err(x), s1) => (Err(SpecValueError::Protocol(x)), s1),
            (Ok(m), s1) => if P::remaining(s1) < P::remaining(s) {
                match spec_read_pairs::<P>(s1, *k, *v, item_count(m.size), Seq::empty(), structs) {
                    (Err(x), s2) => (Err(x), s2),
                    (Ok(ps), s2) => lift(P::spec_read_map_end(s2), |u: ()| SpecValue::MapT(ps)),
                }
            } else {
                (Ok(SpecValue::MapT(Seq::empty())), s1)
            },
        },
        SpecType::Struct(name) => match assoc_get(structs, name) {
            None => (Err(SpecValueError::UnknownStruct(name)), s),
            Some(d) => match P::spec_read_struct_begin(s) {
                (Err(x), s1) => (Err(SpecValueError::Protocol(x)), s1),
                (Ok(_), s1) => if P::remaining(s1) <= P::remaining(s) {
                    match spec_read_struct_fields::<P>(s1, d.fields, structs, Seq::empty()) {
                        (Err(x), s2) => (Err(x), s2),
                        (Ok(vals), s2) => lift(P::spec_read_struct_end(s2), |u: ()| SpecValue::Struct(Some(name), vals)),
                    }
                } else {
                    (Ok(SpecValue::Struct(Some(name), Seq::empty())), s1)
                },
            },
        },
    }
}

/// Reading `n` more items of type `e` after `acc`.
pub open spec fn spec_read_items<P: TInputProtocol>(
    s: P::V,
    e: SpecType,
    n: nat,
    acc: Seq<SpecValue>,
    structs: Seq<(Seq<char>, SpecStruct)>,
) -> ValueStep<Seq<SpecValue>, P::V>
    decreases P::remaining(s), 2int, n,
{
    if n == 0 {
        (Ok(acc), s)
    } else {
        match spec_read_value::<P>(s, e, structs) {
            (Err(x), s1) => (Err(x), s1),
            (Ok(v), s1) => if P::remaining(s1) <= P::remaining(s) {
                spec_read_items::<P>(s1, e, (n - 1) as nat, acc.push(v), structs)
            } else {
                (Ok(acc), s1)
            },
        }
    }
}

/// Reading `n` more pairs of a map after `acc`, each key before its value.
pub open spec fn spec_read_pairs<P: TInputProtocol>(
    s: P::V,
    k: SpecType,
    v: SpecType,
    n: nat,
    acc: Seq<(SpecValue, SpecValue)>,
    structs: Seq<(Seq<char>, SpecStruct)>,
) -> ValueStep<Seq<(SpecValue, SpecValue)>, P::V>
    decreases P::remaining(s), 2int, n,
{
    if n == 0 {
        (Ok(acc), s)
    } else {
        match spec_read_value::<P>(s, k, structs) {
            (Err(x), s1) => (Err(x), s1),
            (Ok(kv), s1) => if P::remaining(s1) <= P::remaining(s) {
                match spec_read_value::<P>(s1, v, structs) {
                    (Err(x), s2) => (Err(x), s2),
                    (Ok(vv), s2) => if P::remaining(s2) <= P::remaining(s) {
                        spec_read_pairs::<P>(s2, k, v, (n - 1) as nat, acc.push((kv, vv)), structs)
                    } else {
                        (Ok(acc), s2)
                    },
                }
            } else {
                (Ok(acc), s1)
            },
        }
    }
}

/// Reading the fields of a struct with fields `fields` up to and with its
/// stop, after the values `acc`: a field with a known id is read with its
/// declared type and kept under its name; any other is skipped.
pub open spec fn spec_read_struct_fields<P: TInputProtocol>(
    s: P::V,
    fields: Seq<SpecField>,
    structs: Seq<(Seq<char>, SpecStruct)>,
    acc: Seq<(Seq<char>, SpecValue)>,
) -> ValueStep<Seq<(Seq<char>, SpecValue)>, P::V>
    decreases P::remaining(s), 0int, 0int,
{
    match P::spec_read_field_begin(s) {
        (Err(x), s1) => (Err(SpecValueError::Protocol(x)), s1),
        (Ok((t, id)), s1) => if t == TType::Stop {
            (Ok(acc), s1)
        } else if P::remaining(s1) < P::remaining(s) {
            let read: ValueStep<Seq<(Seq<char>, SpecValue)>, P::V> = match last_with_id(fields, id, fields.len() as int) {
                Some(i) => match spec_read_value::<P>(s1, fields[i].field_type, structs) {
                    (Err(x), s2) => (Err(x), s2),
                    (Ok(v), s2) => (Ok(assoc_insert(acc, fields[i].name, v)), s2),
                },
                None => match spec_skip::<P>(s1, t) {
                    (Err(x), s2) => (Err(SpecValueError::Protocol(x)), s2),
                    (Ok(_), s2) => (Ok(acc), s2),
                },
            };
            match read {
                (Err(x), s2) => (Err(x), s2),
                (Ok(acc2), s2) => match P::spec_read_field_end(s2) {
                    (Err(x), s3) => (Err(SpecValueError::Protocol(x)), s3),
                    (Ok(_), s3) => if P::remaining(s3) < P::remaining(s) {
                        spec_read_struct_fields::<P>(s3, fields, structs, acc2)
                    } else {
                        (Ok(acc2), s3)
                    },
                },
            }
        } else {
            (Ok(acc), s1)
        },
    }
}

/// The outcome of a value read, by views.
pub open spec fn vres<T: View>(r: Result<T, ValueError>) -> Result<T::V, SpecValueError> {
    match r {
        Ok(x) => Ok(x@),
        Err(e) => Err(e@),
    }
}

/// A struct value as read from the wire: the names of the fields its
/// definition declares, and the values read, by name, in the order first read.
pub struct RustStructValue {
    pub struct_name: String,
    pub field_names: Vec<String>,
    pub values: NameMap<ThriftValue>,
}

impl RustStructValue {
    /// A struct value named `struct_name` with the declared field names
    /// `field_names` and no value yet.
    pub fn empty(struct_name: String, field_names: Vec<String>) -> (r: RustStructValue)
        ensures
            r.struct_name@ == struct_name@,
            r.field_names@ == field_names@,
            r.values@ == Seq::<(Seq<char>, SpecValue)>::empty(),
    {
        RustStructValue { struct_name, field_names, values: NameMap::new() }
    }

    /// Sets the value named `name`: it replaces a value of that name, or
    /// comes after the others.
    pub fn set_field(&mut self, name: &str, value: ThriftValue)
        ensures
            final(self).values@ == assoc_insert(old(self).values@, name@, value@),
            final(self).struct_name == old(self).struct_name,
            final(self).field_names == old(self).field_names,
    {
        self.values.insert(name.to_string(), value);
    }
}

/// The index of the last field of `fields` with id `id`.
fn last_field_index(fields: &Vec<ThriftField>, id: i16) -> (r: Option<usize>)
    ensures
        r matches Some(i) ==> last_with_id(field_list_view(fields@), id, fields@.len() as int) == Some(i as int)
            && i < fields@.len(),
        r is None ==> last_with_id(field_list_view(fields@), id, fields@.len() as int) is None,
{
    let ghost fl = field_list_view(fields@);
    let mut k: usize = fields.len();
    while k > 0
        invariant
            k <= fields@.len(),
            fl == field_list_view(fields@),
            last_with_id(fl, id, fields@.len() as int) == last_with_id(fl, id, k as int),
        decreases k,
    {
        assert(fl[k - 1] == fields@[k - 1]@);
        if fields[k - 1].id == id {
            return Some(k - 1);
        }
        k = k - 1;
    }
    None
}

/// The names of the fields.
fn field_names_of(fields: &Vec<ThriftField>) -> (r: Vec<String>)
    ensures
        r@.len() == fields@.len(),
        forall|i: int| 0 <= i < r@.len() ==> #[trigger] r@[i]@ == fields@[i].name@,
{
    let mut r: Vec<String> = Vec::new();
    let mut i: usize = 0;
    while i < fields.len()
        invariant
            i <= fields@.len(),
            r@.len() == i,
            forall|j: int| 0 <= j < i ==> #[trigger] r@[j]@ == fields@[j].name@,
        decreases fields@.len() - i,
    {
        r.push(fields[i].name.clone());
        i = i + 1;
    }
    r
}

/// Reads a value of declared type `thrift_type` with `reader`; a struct
/// type must be defined in `struct_map`.
pub fn read_rust_value<P: TInputProtocol>(reader: &mut P, thrift_type: &ThriftType, struct_map: &NameMap<ThriftStruct>) -> (r: Result<ThriftValue, ValueError>)
    requires
        P::depth(old(reader)@) > 0,
    ensures
        (vres(r), final(reader)@) == spec_read_value::<P>(old(reader)@, thrift_type@, struct_map@),
        P::remaining(final(reader)@) <= P::remaining(old(reader)@),
        r is Ok ==> P::depth(final(reader)@) == P::depth(old(reader)@),
    decreases P::remaining(old(reader)@), 1int,
{
    let ghost s0 = reader@;
    match thrift_type {
        ThriftType::Bool => match reader.read_bool() {
            Ok(v) => Ok(ThriftValue::Bool(v)),
            Err(e) => Err(ValueError::Protocol(e)),
        },
        ThriftType::Byte => match reader.read_byte() {
            Ok(v) => Ok(ThriftValue::Byte(v)),
            Err(e) => Err(ValueError::Protocol(e)),
        },
        ThriftType::I16 => match reader.read_i16() {
            Ok(v) => Ok(ThriftValue::I16(v)),
            Err(e) => Err(ValueError::Protocol(e)),
        },
        ThriftType::I32 => match reader.read_i32() {
            Ok(v) => Ok(ThriftValue::I32(v)),
            Err(e) => Err(ValueError::Protocol(e)),
        },
        ThriftType::I64 => match reader.read_i64() {
            Ok(v) => Ok(ThriftValue::I64(v)),
            Err(e) => Err(ValueError::Protocol(e)),
        },
        ThriftType::Double => match reader.read_double_bits() {
            Ok(v) => Ok(ThriftValue::Double(v)),
            Err(e) => Err(ValueError::Protocol(e)),
        },
        ThriftType::String => match reader.read_string() {
            Ok(v) => Ok(ThriftValue::String(v)),
            Err(e) => Err(ValueError::Protocol(e)),
        },
        ThriftType::Binary => match reader.read_binary() {
            Ok(v) => Ok(ThriftValue::Binary(v)),
            Err(e) => Err(ValueError::Protocol(e)),
        },
        ThriftType::List(elem_type) => {
            let lb = match reader.read_list_begin() {
                Ok(x) => x,
                Err(e) => return Err(ValueError::Protocol(e)),
            };
            let items = read_items(reader, &**elem_type, lb.size, struct_map)?;
            match reader.read_list_end() {
                Ok(()) => Ok(ThriftValue::List(items)),
                Err(e) => Err(ValueError::Protocol(e)),
            }
        },
        ThriftType::SetT(elem_type) => {
            let sb = match reader.read_set_begin() {
                Ok(x) => x,
                Err(e) => return Err(ValueError::Protocol(e)),
            };
            let items = read_items(reader, &**elem_type, sb.size, struct_map)?;
            match reader.read_set_end() {
                Ok(()) => Ok(ThriftValue::SetT(items)),
                Err(e) => Err(ValueError::Protocol(e)),
            }
        },
        ThriftType::MapT(key_type, val_type) => {
            let mb = match reader.read_map_begin() {
                Ok(x) => x,
                Err(e) => return Err(ValueError::Protocol(e)),
            };
            let pairs = read_pairs(reader, &**key_type, &**val_type, mb.size, struct_map)?;
            match reader.read_map_end() {
                Ok(()) => Ok(ThriftValue::MapT(pairs)),
                Err(e) => Err(ValueError::Protocol(e)),
            }
        },
        ThriftType::Struct(struct_name) => {
            let struct_def = match struct_map.get(struct_name.as_str()) {
                Some(d) => d,
                None => return Err(ValueError::UnknownStruct(struct_name.clone())),
            };
            match reader.read_struct_begin() {
                Ok(()) => {},
                Err(e) => return Err(ValueError::Protocol(e)),
            }
            let nested = deserialize_rust_struct(reader, &struct_def.fields, struct_map)?;
            match reader.read_struct_end() {
                Ok(()) => {
                    let fields = nested.values.into_entries();
                    proof {
                        lemma_fields_view_index(fields@);
                        assert(fields_view(fields@) =~= fields@.map_values(|e: (String, ThriftValue)| (e.0@, e.1@)));
                    }
                    Ok(ThriftValue::Struct { name: Some(struct_name.clone()), fields })
                },
                Err(e) => Err(ValueError::Protocol(e)),
            }
        },
    }
}

/// Reads `size` items of type `elem_type` (none when `size` is not positive).
fn read_items<P: TInputProtocol>(reader: &mut P, elem_type: &ThriftType, size: i32, struct_map: &NameMap<ThriftStruct>) -> (r: Result<Vec<ThriftValue>, ValueError>)
    requires
        P::depth(old(reader)@) > 0,
    ensures
        match r {
            Ok(v) => (Ok::<Seq<SpecValue>, SpecValueError>(values_view(v@)), final(reader)@) == spec_read_items::<P>(old(reader)@, elem_type@, item_count(size), Seq::empty(), struct_map@),
            Err(e) => (Err::<Seq<SpecValue>, SpecValueError>(e@), final(reader)@) == spec_read_items::<P>(old(reader)@, elem_type@, item_count(size), Seq::empty(), struct_map@),
        },
        P::remaining(final(reader)@) <= P::remaining(old(reader)@),
        r is Ok ==> P::depth(final(reader)@) == P::depth(old(reader)@),
    decreases P::remaining(old(reader)@), 2int,
{
    let ghost s0 = reader@;
    let mut items: Vec<ThriftValue> = Vec::new();
    assert(values_view(items@) =~= Seq::<SpecValue>::empty());
    let mut i: i32 = 0;
    while i < size
        invariant
            s0 == old(reader)@,
            0 <= i,
            i as int <= item_count(size),
            spec_read_items::<P>(s0, elem_type@, item_count(size), Seq::empty(), struct_map@)
                == spec_read_items::<P>(reader@, elem_type@, (item_count(size) - i) as nat, values_view(items@), struct_map@),
            P::remaining(reader@) <= P::remaining(s0),
            P::depth(reader@) == P::depth(s0),
            P::depth(s0) > 0,
        decreases size - i,
    {
        let ghost vs = values_view(items@);
        let v = read_rust_value(reader, elem_type, struct_map)?;
        let ghost vv = v@;
        let ghost before = items@;
        items.push(v);
        assert(items@.drop_last() =~= before);
        assert(values_view(items@) =~= vs.push(vv));
        i = i + 1;
    }
    Ok(items)
}

/// Reads `size` pairs of a map (none when `size` is not positive).
fn read_pairs<P: TInputProtocol>(
    reader: &mut P,
    key_type: &ThriftType,
    val_type: &ThriftType,
    size: i32,
    struct_map: &NameMap<ThriftStruct>,
) -> (r: Result<Vec<(ThriftValue, ThriftValue)>, ValueError>)
    requires
        P::depth(old(reader)@) > 0,
    ensures
        match r {
            Ok(v) => (Ok::<Seq<(SpecValue, SpecValue)>, SpecValueError>(pairs_view(v@)), final(reader)@) == spec_read_pairs::<P>(old(reader)@, key_type@, val_type@, item_count(size), Seq::empty(), struct_map@),
            Err(e) => (Err::<Seq<(SpecValue, SpecValue)>, SpecValueError>(e@), final(reader)@) == spec_read_pairs::<P>(old(reader)@, key_type@, val_type@, item_count(size), Seq::empty(), struct_map@),
        },
        P::remaining(final(reader)@) <= P::remaining(old(reader)@),
        r is Ok ==> P::depth(final(reader)@) == P::depth(old(reader)@),
    decreases P::remaining(old(reader)@), 2int,
{
    let ghost s0 = reader@;
    let mut pairs: Vec<(ThriftValue, ThriftValue)> = Vec::new();
    assert(pairs_view(pairs@) =~= Seq::<(SpecValue, SpecValue)>::empty());
    let mut i: i32 = 0;
    while i < size
        invariant
            s0 == old(reader)@,
            0 <= i,
            i as int <= item_count(size),
            spec_read_pairs::<P>(s0, key_type@, val_type@, item_count(size), Seq::empty(), struct_map@)
                == spec_read_pairs::<P>(reader@, key_type@, val_type@, (item_count(size) - i) as nat, pairs_view(pairs@), struct_map@),
            P::remaining(reader@) <= P::remaining(s0),
            P::depth(reader@) == P::depth(s0),
            P::depth(s0) > 0,
        decreases size - i,
    {
        let ghost ps = pairs_view(pairs@);
        let k = read_rust_value(reader, key_type, struct_map)?;
        let v = read_rust_value(reader, val_type, struct_map)?;
        let ghost kv = k@;
        let ghost vv = v@;
        let ghost before = pairs@;
        pairs.push((k, v));
        assert(pairs@.drop_last() =~= before);
        assert(pairs_view(pairs@) =~= ps.push((kv, vv)));
        i = i + 1;
    }
    Ok(pairs)
}

/// Reads the fields of a struct declared with `fields`, up to and with its
/// stop: a field with a declared id is read with its declared type and kept
/// under its name; any other is skipped.
pub fn deserialize_rust_struct<P: TInputProtocol>(reader: &mut P, fields: &Vec<ThriftField>, struct_map: &NameMap<ThriftStruct>) -> (r: Result<RustStructValue, ValueError>)
    requires
        P::depth(old(reader)@) > 0,
    ensures
        match r {
            Ok(v) => {
                &&& (Ok::<Seq<(Seq<char>, SpecValue)>, SpecValueError>(v.values@), final(reader)@) == spec_read_struct_fields::<P>(old(reader)@, field_list_view(fields@), struct_map@, Seq::empty())
                &&& v.struct_name@ == Seq::<char>::empty()
                &&& v.field_names@.len() == fields@.len()
                &&& forall|i: int| 0 <= i < fields@.len() ==> #[trigger] v.field_names@[i]@ == fields@[i].name@
            },
            Err(e) => (Err::<Seq<(Seq<char>, SpecValue)>, SpecValueError>(e@), final(reader)@) == spec_read_struct_fields::<P>(old(reader)@, field_list_view(fields@), struct_map@, Seq::empty()),
        },
        P::remaining(final(reader)@) <= P::remaining(old(reader)@),
        r is Ok ==> P::depth(final(reader)@) == P::depth(old(reader)@),
    decreases P::remaining(old(reader)@), 0int,
{
    let ghost s0 = reader@;
    let ghost fl = field_list_view(fields@);
    let field_names = field_names_of(fields);
    let mut values: NameMap<ThriftValue> = NameMap::new();
    loop
        invariant_except_break
            spec_read_struct_fields::<P>(s0, fl, struct_map@, Seq::empty())
                == spec_read_struct_fields::<P>(reader@, fl, struct_map@, values@),
        invariant
            s0 == old(reader)@,
            fl == field_list_view(fields@),
            P::remaining(reader@) <= P::remaining(s0),
            P::depth(reader@) == P::depth(s0),
            P::depth(s0) > 0,
        ensures
            (Ok::<Seq<(Seq<char>, SpecValue)>, SpecValueError>(values@), reader@) == spec_read_struct_fields::<P>(s0, fl, struct_map@, Seq::empty()),
            P::remaining(reader@) <= P::remaining(s0),
            P::depth(reader@) == P::depth(s0),
        decreases P::remaining(reader@),
    {
        let ghost s = reader@;
        let field_begin = match reader.read_field_begin() {
            Ok(f) => f,
            Err(e) => return Err(ValueError::Protocol(e)),
        };
        if field_begin.field_type == TType::Stop {
            break;
        }
        match last_field_index(fields, field_begin.id) {
            Some(idx) => {
                let value = read_rust_value(reader, &fields[idx].field_type, struct_map)?;
                values.insert(fields[idx].name.clone(), value);
            },
            None => {
                match skip_value(reader, field_begin.field_type) {
                    Ok(()) => {},
                    Err(e) => return Err(ValueError::Protocol(e)),
                }
            },
        }
        match reader.read_field_end() {
            Ok(()) => {},
            Err(e) => return Err(ValueError::Protocol(e)),
        }
    }
    let r = RustStructValue { struct_name: String::new(), field_names, values };
    Ok(r)
}


// ─── Writing by declared type ─────────────────────────────────────────────────

/// A protocol write step as a step of the value layer.
pub open spec fn pstep<S>(step: WriteStep<S>) -> ValueStep<(), S> {
    match step {
        (Err(e), s1) => (Err(SpecValueError::Protocol(e)), s1),
        (Ok(_), s1) => (Ok(()), s1),
    }
}

/// Writing `v` as a value of the declared type `t`: a scalar of the kind that
/// `t` names as such; a list, set or map under a header that announces the
/// declared element (or key and value) types and the number of items, then
/// each item as a value of its declared type; a struct value of a defined
/// struct type as the fields of the definition, in definition order, that
/// the value holds, each under its declared id and wire type. A struct type
/// with no definition is refused before anything is written; so is a value
/// of another kind than `t` names.
pub open spec fn spec_write_typed<P: TOutputProtocol>(
    s: P::V,
    t: SpecType,
    v: SpecValue,
    structs: Seq<(Seq<char>, SpecStruct)>,
) -> ValueStep<(), P::V>
    decreases v, 0int,
{
    match t {
        SpecType::Bool => match v {
            SpecValue::Bool(b) => pstep(P::spec_write_bool(s, b)),
            _ => (Err(SpecValueError::Mismatch), s),
        },
        SpecType::Byte => match v {
            SpecValue::Byte(b) => pstep(P::spec_write_byte(s, b)),
            _ => (Err(SpecValueError::Mismatch), s),
        },
        SpecType::I16 => match v {
            SpecValue::I16(b) => pstep(P::spec_write_i16(s, b)),
            _ => (Err(SpecValueError::Mismatch), s),
        },
        SpecType::I32 => match v {
            SpecValue::I32(b) => pstep(P::spec_write_i32(s, b)),
            _ => (Err(SpecValueError::Mismatch), s),
        },
        SpecType::I64 => match v {
            SpecValue::I64(b) => pstep(P::spec_write_i64(s, b)),
            _ => (Err(SpecValueError::Mismatch), s),
        },
        SpecType::Double => match v {
            SpecValue::Double(b) => pstep(P::spec_write_double_bits(s, b)),
            _ => (Err(SpecValueError::Mismatch), s),
        },
        SpecType::String => match v {
            SpecValue::String(x) => pstep(P::spec_write_string(s, x)),
            _ => (Err(SpecValueError::Mismatch), s),
        },
        SpecType::Binary => match v {
            SpecValue::Binary(x) => pstep(P::spec_write_binary(s, x)),
            _ => (Err(SpecValueError::Mismatch), s),
        },
        SpecType::List(e) => match v {
            SpecValue::List(items) => match P::spec_write_list_begin(s, ListBegin { element_type: type_ttype(*e), size: #[verifier::truncate] (items.len() as i32) }) {
                (Err(x), s1) => (Err(SpecValueError::Protocol(x)), s1),
                (Ok(_), s1) => match spec_write_typed_items::<P>(s1, *e, items, 0, structs) {
                    (Err(x), s2) => (Err(x), s2),
                    (Ok(_), s2) => pstep(P::spec_write_list_end(s2)),
                },
            },
            _ => (Err(SpecValueError::Mismatch), s),
        },
        SpecType::SetT(e) => match v {
            SpecValue::SetT(items) => match P::spec_write_set_begin(s, SetBegin { element_type: type_ttype(*e), size: #[verifier::truncate] (items.len() as i32) }) {
                (Err(x), s1) => (Err(SpecValueError::Protocol(x)), s1),
                (Ok(_), s1) => match spec_write_typed_items::<P>(s1, *e, items, 0, structs) {
                    (Err(x), s2) => (Err(x), s2),
                    (Ok(_), s2) => pstep(P::spec_write_set_end(s2)),
                },
            },
            _ => (Err(SpecValueError::Mismatch), s),
        },
        SpecType::MapT(k, w) => match v {
            SpecValue::MapT(pairs) => match P::spec_write_map_begin(s, MapBegin { key_type: type_ttype(*k), value_type: type_ttype(*w), size: #[verifier::truncate] (pairs.len() as i32) }) {
                (Err(x), s1) => (Err(SpecValueError::Protocol(x)), s1),
                (Ok(_), s1) => match spec_write_typed_pairs::<P>(s1, *k, *w, pairs, 0, structs) {
                    (Err(x), s2) => (Err(x), s2),
                    (Ok(_), s2) => pstep(P::spec_write_map_end(s2)),
                },
            },
            _ => (Err(SpecValueError::Mismatch), s),
        },
        SpecType::Struct(name) => match assoc_get(structs, name) {
            None => (Err(SpecValueError::UnknownStruct(name)), s),
            Some(d) => match v {
                SpecValue::Struct(_, fields) => match P::spec_write_struct_begin(s, name) {
                    (Err(x), s1) => (Err(SpecValueError::Protocol(x)), s1),
                    (Ok(_), s1) => match spec_write_typed_fields::<P>(s1, d.fields, 0, fields, structs) {
                        (Err(x), s2) => (Err(x), s2),
                        (Ok(_), s2) => match P::spec_write_field_stop(s2) {
                            (Err(x), s3) => (Err(SpecValueError::Protocol(x)), s3),
                            (Ok(_), s3) => pstep(P::spec_write_struct_end(s3)),
                        },
                    },
                },
                _ => (Err(SpecValueError::Mismatch), s),
            },
        },
    }
}

/// Writing the items of a list or set from index `k` on, each as a value of
/// type `e`.
pub open spec fn spec_write_typed_items<P: TOutputProtocol>(
    s: P::V,
    e: SpecType,
    items: Seq<SpecValue>,
    k: int,
    structs: Seq<(Seq<char>, SpecStruct)>,
) -> ValueStep<(), P::V>
    decreases items, items.len() - k,
{
    if 0 <= k < items.len() {
        match spec_write_typed::<P>(s, e, items[k], structs) {
            (Err(x), s1) => (Err(x), s1),
            (Ok(_), s1) => spec_write_typed_items::<P>(s1, e, items, k + 1, structs),
        }
    } else {
        (Ok(()), s)
    }
}

/// Writing the pairs of a map from index `k` on, each key as a value of type
/// `kt` before its value as a value of type `vt`.
pub open spec fn spec_write_typed_pairs<P: TOutputProtocol>(
    s: P::V,
    kt: SpecType,
    vt: SpecType,
    pairs: Seq<(SpecValue, SpecValue)>,
    k: int,
    structs: Seq<(Seq<char>, SpecStruct)>,
) -> ValueStep<(), P::V>
    decreases pairs, pairs.len() - k,
{
    if 0 <= k < pairs.len() {
        match spec_write_typed::<P>(s, kt, pairs[k].0, structs) {
            (Err(x), s1) => (Err(x), s1),
            (Ok(_), s1) => match spec_write_typed::<P>(s1, vt, pairs[k].1, structs) {
                (Err(x), s2) => (Err(x), s2),
                (Ok(_), s2) => spec_write_typed_pairs::<P>(s2, kt, vt, pairs, k + 1, structs),
            },
        }
    } else {
        (Ok(()), s)
    }
}

/// Writing the fields of a struct from the `k`-th definition on: each
/// defined field for which `fields` holds a value (the first of that name)
/// as a field of its declared id and type.
pub open spec fn spec_write_typed_fields<P: TOutputProtocol>(
    s: P::V,
    defs: Seq<SpecField>,
    k: int,
    fields: Seq<(Seq<char>, SpecValue)>,
    structs: Seq<(Seq<char>, SpecStruct)>,
) -> ValueStep<(), P::V>
    decreases fields, defs.len() - k,
{
    if 0 <= k < defs.len() {
        match assoc_index(fields, defs[k].name) {
            Some(i) => if 0 <= i < fields.len() {
                match P::spec_write_field_begin(s, type_ttype(defs[k].field_type), defs[k].id) {
                    (Err(x), s1) => (Err(SpecValueError::Protocol(x)), s1),
                    (Ok(_), s1) => match spec_write_typed::<P>(s1, defs[k].field_type, fields[i].1, structs) {
                        (Err(x), s2) => (Err(x), s2),
                        (Ok(_), s2) => match P::spec_write_field_end(s2) {
                            (Err(x), s3) => (Err(SpecValueError::Protocol(x)), s3),
                            (Ok(_), s3) => spec_write_typed_fields::<P>(s3, defs, k + 1, fields, structs),
                        },
                    },
                }
            } else {
                spec_write_typed_fields::<P>(s, defs, k + 1, fields, structs)
            },
            None => spec_write_typed_fields::<P>(s, defs, k + 1, fields, structs),
        }
    } else {
        (Ok(()), s)
    }
}

/// A protocol result as a result of the value layer.
pub(crate) fn value_result(r: Result<(), ProtocolError>) -> (o: Result<(), ValueError>)
    ensures
        (match o { Ok(u) => Ok::<(), SpecValueError>(u), Err(e) => Err(e@) }) == match r {
            Ok(u) => Ok::<(), SpecValueError>(u),
            Err(e) => Err(SpecValueError::Protocol(e)),
        },
{
    match r {
        Ok(()) => Ok(()),
        Err(e) => Err(ValueError::Protocol(e)),
    }
}

/// Writes `val` as a value of the declared type `t`, as `spec_write_typed`
/// says: containers announce their declared element types, and struct
/// fields go out in definition order under their declared ids and types.
pub fn write_typed_value<P: TOutputProtocol>(
    writer: &mut P,
    t: &ThriftType,
    val: &ThriftValue,
    struct_map: &NameMap<ThriftStruct>,
) -> (r: Result<(), ValueError>)
    requires
        P::depth(old(writer)@) > 0,
    ensures
        (match r { Ok(u) => Ok::<(), SpecValueError>(u), Err(e) => Err(e@) }, final(writer)@)
            == spec_write_typed::<P>(old(writer)@, t@, val@, struct_map@),
        r is Ok ==> P::depth(final(writer)@) == P::depth(old(writer)@),
    decreases val,
{
    match t {
        ThriftType::Bool => match val {
            ThriftValue::Bool(b) => value_result(writer.write_bool(*b)),
            _ => Err(ValueError::Mismatch),
        },
        ThriftType::Byte => match val {
            ThriftValue::Byte(b) => value_result(writer.write_byte(*b)),
            _ => Err(ValueError::Mismatch),
        },
        ThriftType::I16 => match val {
            ThriftValue::I16(b) => value_result(writer.write_i16(*b)),
            _ => Err(ValueError::Mismatch),
        },
        ThriftType::I32 => match val {
            ThriftValue::I32(b) => value_result(writer.write_i32(*b)),
            _ => Err(ValueError::Mismatch),
        },
        ThriftType::I64 => match val {
            ThriftValue::I64(b) => value_result(writer.write_i64(*b)),
            _ => Err(ValueError::Mismatch),
        },
        ThriftType::Double => match val {
            ThriftValue::Double(b) => value_result(writer.write_double_bits(*b)),
            _ => Err(ValueError::Mismatch),
        },
        ThriftType::String => match val {
            ThriftValue::String(x) => value_result(writer.write_string(x.as_str())),
            _ => Err(ValueError::Mismatch),
        },
        ThriftType::Binary => match val {
            ThriftValue::Binary(x) => value_result(writer.write_binary(x.as_slice())),
            _ => Err(ValueError::Mismatch),
        },
        ThriftType::List(e) => match val {
            ThriftValue::List(items) => {
                proof { lemma_values_view_index(items@); }
                if let Err(x) = writer.write_list_begin(&ListBegin { element_type: thrift_type_to_ttype(&**e), size: #[verifier::truncate] (items.len() as i32) }) {
                    return Err(ValueError::Protocol(x));
                }
                if let Err(x) = write_typed_items(writer, &**e, items, struct_map) {
                    return Err(x);
                }
                value_result(writer.write_list_end())
            },
            _ => Err(ValueError::Mismatch),
        },
        ThriftType::SetT(e) => match val {
            ThriftValue::SetT(items) => {
                proof { lemma_values_view_index(items@); }
                if let Err(x) = writer.write_set_begin(&SetBegin { element_type: thrift_type_to_ttype(&**e), size: #[verifier::truncate] (items.len() as i32) }) {
                    return Err(ValueError::Protocol(x));
                }
                if let Err(x) = write_typed_items(writer, &**e, items, struct_map) {
                    return Err(x);
                }
                value_result(writer.write_set_end())
            },
            _ => Err(ValueError::Mismatch),
        },
        ThriftType::MapT(k, w) => match val {
            ThriftValue::MapT(pairs) => {
                proof { lemma_pairs_view_index(pairs@); }
                if let Err(x) = writer.write_map_begin(&MapBegin {
                    key_type: thrift_type_to_ttype(&**k),
                    value_type: thrift_type_to_ttype(&**w),
                    size: #[verifier::truncate] (pairs.len() as i32),
                }) {
                    return Err(ValueError::Protocol(x));
                }
                if let Err(x) = write_typed_pairs(writer, &**k, &**w, pairs, struct_map) {
                    return Err(x);
                }
                value_result(writer.write_map_end())
            },
            _ => Err(ValueError::Mismatch),
        },
        ThriftType::Struct(name) => {
            let def = match struct_map.get(name.as_str()) {
                Some(d) => d,
                None => return Err(ValueError::UnknownStruct(name.clone())),
            };
            match val {
                ThriftValue::Struct { fields, .. } => {
                    if let Err(x) = writer.write_struct_begin(name.as_str()) {
                    return Err(ValueError::Protocol(x));
                }
                    if let Err(x) = write_typed_fields(writer, &def.fields, fields, struct_map) {
                    return Err(x);
                }
                    if let Err(x) = writer.write_field_stop() {
                    return Err(ValueError::Protocol(x));
                }
                    value_result(writer.write_struct_end())
                },
                _ => Err(ValueError::Mismatch),
            }
        },
    }
}

/// Writes the items of a list or set, each as a value of type `e`.
fn write_typed_items<P: TOutputProtocol>(
    writer: &mut P,
    e: &ThriftType,
    items: &Vec<ThriftValue>,
    struct_map: &NameMap<ThriftStruct>,
) -> (r: Result<(), ValueError>)
    requires
        P::depth(old(writer)@) > 0,
    ensures
        (match r { Ok(u) => Ok::<(), SpecValueError>(u), Err(x) => Err(x@) }, final(writer)@)
            == spec_write_typed_items::<P>(old(writer)@, e@, values_view(items@), 0, struct_map@),
        r is Ok ==> P::depth(final(writer)@) == P::depth(old(writer)@),
    decreases items,
{
    proof { lemma_values_view_index(items@); }
    let ghost s0 = writer@;
    let ghost iv = values_view(items@);
    let mut i: usize = 0;
    while i < items.len()
        invariant
            i <= items@.len(),
            iv == values_view(items@),
            iv.len() == items@.len(),
            forall|j: int| 0 <= j < items@.len() ==> #[trigger] iv[j] == items@[j]@,
            P::depth(writer@) == P::depth(s0),
            P::depth(s0) > 0,
            spec_write_typed_items::<P>(s0, e@, iv, 0, struct_map@) == spec_write_typed_items::<P>(writer@, e@, iv, i as int, struct_map@),
            s0 == old(writer)@,
        decreases items@.len() - i,
    {
        proof { assert(decreases_to!(items => items@[i as int])); }
        if let Err(x) = write_typed_value(writer, e, &items[i], struct_map) {
                    return Err(x);
                }
        i = i + 1;
    }
    Ok(())
}

/// Writes the pairs of a map, each key as a value of type `kt` before its
/// value as a value of type `vt`.
fn write_typed_pairs<P: TOutputProtocol>(
    writer: &mut P,
    kt: &ThriftType,
    vt: &ThriftType,
    pairs: &Vec<(ThriftValue, ThriftValue)>,
    struct_map: &NameMap<ThriftStruct>,
) -> (r: Result<(), ValueError>)
    requires
        P::depth(old(writer)@) > 0,
    ensures
        (match r { Ok(u) => Ok::<(), SpecValueError>(u), Err(x) => Err(x@) }, final(writer)@)
            == spec_write_typed_pairs::<P>(old(writer)@, kt@, vt@, pairs_view(pairs@), 0, struct_map@),
        r is Ok ==> P::depth(final(writer)@) == P::depth(old(writer)@),
    decreases pairs,
{
    proof { lemma_pairs_view_index(pairs@); }
    let ghost s0 = writer@;
    let ghost pv = pairs_view(pairs@);
    let mut i: usize = 0;
    while i < pairs.len()
        invariant
            i <= pairs@.len(),
            pv == pairs_view(pairs@),
            pv.len() == pairs@.len(),
            forall|j: int| 0 <= j < pairs@.len() ==> #[trigger] pv[j] == (pairs@[j].0@, pairs@[j].1@),
            P::depth(writer@) == P::depth(s0),
            P::depth(s0) > 0,
            spec_write_typed_pairs::<P>(s0, kt@, vt@, pv, 0, struct_map@) == spec_write_typed_pairs::<P>(writer@, kt@, vt@, pv, i as int, struct_map@),
            s0 == old(writer)@,
        decreases pairs@.len() - i,
    {
        proof {
            assert(decreases_to!(pairs => pairs@[i as int]));
            assert(decreases_to!(pairs@[i as int] => pairs@[i as int].0));
            assert(decreases_to!(pairs@[i as int] => pairs@[i as int].1));
        }
        if let Err(x) = write_typed_value(writer, kt, &pairs[i].0, struct_map) {
                    return Err(x);
                }
        if let Err(x) = write_typed_value(writer, vt, &pairs[i].1, struct_map) {
                    return Err(x);
                }
        i = i + 1;
    }
    Ok(())
}

/// Writes the defined fields of a struct value, in definition order, as
/// `spec_write_typed_fields` says.
fn write_typed_fields<P: TOutputProtocol>(
    writer: &mut P,
    defs: &Vec<ThriftField>,
    fields: &Vec<(String, ThriftValue)>,
    struct_map: &NameMap<ThriftStruct>,
) -> (r: Result<(), ValueError>)
    requires
        P::depth(old(writer)@) > 0,
    ensures
        (match r { Ok(u) => Ok::<(), SpecValueError>(u), Err(x) => Err(x@) }, final(writer)@)
            == spec_write_typed_fields::<P>(old(writer)@, field_list_view(defs@), 0, fields_view(fields@), struct_map@),
        r is Ok ==> P::depth(final(writer)@) == P::depth(old(writer)@),
    decreases fields,
{
    proof { lemma_fields_view_index(fields@); }
    let ghost s0 = writer@;
    let ghost fv = fields_view(fields@);
    let ghost dv = field_list_view(defs@);
    let mut k: usize = 0;
    while k < defs.len()
        invariant
            k <= defs@.len(),
            fv == fields_view(fields@),
            dv == field_list_view(defs@),
            fv.len() == fields@.len(),
            forall|j: int| 0 <= j < fields@.len() ==> #[trigger] fv[j] == (fields@[j].0@, fields@[j].1@),
            P::depth(writer@) == P::depth(s0),
            P::depth(s0) > 0,
            spec_write_typed_fields::<P>(s0, dv, 0, fv, struct_map@) == spec_write_typed_fields::<P>(writer@, dv, k as int, fv, struct_map@),
            s0 == old(writer)@,
        decreases defs@.len() - k,
    {
        let d = &defs[k];
        assert(dv[k as int] == d@);
        match find_named_value(fields, d.name.as_str()) {
            Some(i) => {
                let fval = &fields[i].1;
                proof {
                    assert(decreases_to!(fields => fields@[i as int]));
                    assert(decreases_to!(fields@[i as int] => fields@[i as int].1));
                }
                if let Err(x) = writer.write_field_begin(&FieldBegin { name: None, field_type: thrift_type_to_ttype(&d.field_type), id: d.id }) {
                    return Err(ValueError::Protocol(x));
                }
                if let Err(x) = write_typed_value(writer, &d.field_type, fval, struct_map) {
                    return Err(x);
                }
                if let Err(x) = writer.write_field_end() {
                    return Err(ValueError::Protocol(x));
                }
            },
            None => {},
        }
        k = k + 1;
    }
    Ok(())
}


// ─── Choosing the fields of a struct to write ────────────────────────────────

/// Values given by field name, some of them `None`, as the specifications see
/// them.
pub open spec fn given_view(g: Seq<(String, Option<ThriftValue>)>) -> Seq<(Seq<char>, Option<SpecValue>)> {
    g.map_values(|e: (String, Option<ThriftValue>)| (e.0@, opt_value_view(e.1)))
}

/// The fields of a struct to write, from the `k`-th definition on, when
/// values are given by name (the first entry of a name counts): in
/// definition order, a field given a value keeps it; a field given `None` is
/// left out when optional, and refused, with its name, when required; a field
/// given nothing takes its default value when it has one and is left out
/// otherwise. The first refused field, in definition order, is the error.
pub open spec fn spec_select_fields(
    defs: Seq<SpecField>,
    given: Seq<(Seq<char>, Option<SpecValue>)>,
    k: int,
) -> Result<Seq<(Seq<char>, SpecValue)>, Seq<char>>
    decreases defs.len() - k,
{
    if k < 0 || k >= defs.len() {
        Ok(Seq::empty())
    } else {
        let f = defs[k];
        let here: Result<Option<SpecValue>, Seq<char>> = match assoc_get(given, f.name) {
            Some(Some(v)) => Ok(Some(v)),
            Some(None) => if f.required { Err(f.name) } else { Ok(None) },
            None => Ok(f.default_value),
        };
        match here {
            Err(m) => Err(m),
            Ok(o) => match spec_select_fields(defs, given, k + 1) {
                Err(m) => Err(m),
                Ok(rest) => Ok(match o {
                    Some(v) => seq![(f.name, v)] + rest,
                    None => rest,
                }),
            },
        }
    }
}

/// The index of the first given entry named `name`.
fn find_given(given: &Vec<(String, Option<ThriftValue>)>, name: &str) -> (r: Option<usize>)
    ensures
        r matches Some(i) ==> assoc_index(given_view(given@), name@) == Some(i as int) && i < given@.len(),
        r is None ==> assoc_index(given_view(given@), name@) is None,
{
    let ghost gv = given_view(given@);
    let mut i: usize = 0;
    while i < given.len()
        invariant
            i <= given@.len(),
            gv == given_view(given@),
            gv.len() == given@.len(),
            assoc_index(gv, name@) == assoc_index_from(gv, name@, i as int),
        decreases given@.len() - i,
    {
        assert(gv[i as int].0 == given@[i as int].0@);
        if str_eq(given[i].0.as_str(), name) {
            return Some(i);
        }
        i = i + 1;
    }
    None
}

/// The fields of a struct of definition `fields` to write, when the values
/// in `given` are given by name, as `spec_select_fields` says: `Ok` with the
/// fields in definition order, or `Err` with the name of the first required
/// field given `None`.
pub fn select_struct_fields(
    fields: &Vec<ThriftField>,
    given: &Vec<(String, Option<ThriftValue>)>,
) -> (r: Result<Vec<(String, ThriftValue)>, String>)
    ensures
        match spec_select_fields(field_list_view(fields@), given_view(given@), 0) {
            Ok(chosen) => r matches Ok(v) && fields_view(v@) == chosen,
            Err(name) => r matches Err(e) && e@ == name,
        },
{
    let ghost dv = field_list_view(fields@);
    let ghost gv = given_view(given@);
    let mut out: Vec<(String, ThriftValue)> = Vec::new();
    let mut k: usize = 0;
    assert(fields_view(out@) =~= Seq::<(Seq<char>, SpecValue)>::empty());
    while k < fields.len()
        invariant
            k <= fields@.len(),
            dv == field_list_view(fields@),
            gv == given_view(given@),
            gv.len() == given@.len(),
            match spec_select_fields(dv, gv, k as int) {
                Ok(rest) => spec_select_fields(dv, gv, 0) == Ok::<Seq<(Seq<char>, SpecValue)>, Seq<char>>(fields_view(out@) + rest),
                Err(m) => spec_select_fields(dv, gv, 0) == Err::<Seq<(Seq<char>, SpecValue)>, Seq<char>>(m),
            },
        decreases fields@.len() - k,
    {
        let f = &fields[k];
        assert(dv[k as int] == f@);
        let ghost before = out@;
        match find_given(given, f.name.as_str()) {
            Some(i) => {
                assert(gv[i as int] == (given@[i as int].0@, opt_value_view(given@[i as int].1)));
                match &given[i].1 {
                    Some(v) => {
                        out.push((f.name.clone(), v.deep_copy()));
                    },
                    None => {
                        if f.required {
                            return Err(f.name.clone());
                        }
                    },
                }
            },
            None => {
                match &f.default_value {
                    Some(v) => {
                        out.push((f.name.clone(), v.deep_copy()));
                    },
                    None => {},
                }
            },
        }
        proof {
            if out@.len() > before.len() {
                assert(out@.drop_last() =~= before);
                let x = out@.last();
                assert(fields_view(out@) == fields_view(before).push((x.0@, value_view(x.1))));
                match spec_select_fields(dv, gv, k + 1) {
                    Ok(rest) => {
                        assert(fields_view(before) + (seq![(x.0@, value_view(x.1))] + rest) =~= fields_view(out@) + rest);
                    },
                    Err(m) => {},
                }
            } else {
                assert(out@ =~= before);
            }
        }
        k = k + 1;
    }
    proof {
        match spec_select_fields(dv, gv, k as int) {
            Ok(rest) => { assert(fields_view(out@) + rest =~= fields_view(out@)); },
            Err(m) => {},
        }
    }
    Ok(out)
}

} // verus!
