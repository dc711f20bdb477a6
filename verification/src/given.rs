//! Values as a caller gives them to be written by a declared type: lists,
//! sets and maps of given values, and structs whose fields are given by name,
//! each with a value or with none. Writing such a value chooses the fields of
//! each struct as it goes: a given value is written by its declared type, a
//! field given no value is refused when required and left out otherwise, and
//! a field not given at all is written with its default value, as that value
//! itself is written, when it has one.

use vstd::prelude::*;
use crate::codec::{
    spec_write_typed, spec_write_typed_fields, spec_write_value, write_typed_value, write_thrift_value, pstep, value_result,
    thrift_type_to_ttype, type_ttype, ValueError, SpecValueError, ValueStep,
};
use crate::parser::ast::{SpecField, SpecStruct, SpecType, SpecValue, ThriftField, ThriftStruct, ThriftType, ThriftValue, field_list_view};
use crate::parser::names::{NameMap, assoc_get, assoc_index, assoc_index_from, str_eq};
use crate::protocol::traits::TOutputProtocol;
use crate::roundtrip::{distinct_fields, lemma_first_name};
use crate::protocol::types::{FieldBegin, ListBegin, MapBegin, SetBegin};

verus! {

/// A value given to be written by a declared type.
#[derive(Debug)]
pub enum GivenValue {
    /// A value written by the declared type as it stands.
    Plain(ThriftValue),
    /// The items of a list.
    List(Vec<GivenValue>),
    /// The items of a set.
    SetT(Vec<GivenValue>),
    /// The pairs of a map, each key before its value.
    MapT(Vec<(GivenValue, GivenValue)>),
    /// The fields of a struct by name, each with a value or with none.
    Struct(Vec<(String, Option<GivenValue>)>),
}

pub enum SpecGiven {
    Plain(SpecValue),
    List(Seq<SpecGiven>),
    SetT(Seq<SpecGiven>),
    MapT(Seq<(SpecGiven, SpecGiven)>),
    Struct(Seq<(Seq<char>, Option<SpecGiven>)>),
}

pub open spec fn given_view(g: GivenValue) -> SpecGiven
    decreases g,
{
    match g {
        GivenValue::Plain(v) => SpecGiven::Plain(v@),
        GivenValue::List(items) => SpecGiven::List(givens_view(items@)),
        GivenValue::SetT(items) => SpecGiven::SetT(givens_view(items@)),
        GivenValue::MapT(pairs) => SpecGiven::MapT(given_pairs_view(pairs@)),
        GivenValue::Struct(entries) => SpecGiven::Struct(given_entries_view(entries@)),
    }
}

pub open spec fn givens_view(s: Seq<GivenValue>) -> Seq<SpecGiven>
    decreases s,
{
    if s.len() == 0 {
        Seq::empty()
    } else {
        givens_view(s.drop_last()).push(given_view(s.last()))
    }
}

pub open spec fn given_pairs_view(s: Seq<(GivenValue, GivenValue)>) -> Seq<(SpecGiven, SpecGiven)>
    decreases s,
{
    if s.len() == 0 {
        Seq::empty()
    } else {
        given_pairs_view(s.drop_last()).push((given_view(s.last().0), given_view(s.last().1)))
    }
}

pub open spec fn given_entries_view(s: Seq<(String, Option<GivenValue>)>) -> Seq<(Seq<char>, Option<SpecGiven>)>
    decreases s,
{
    if s.len() == 0 {
        Seq::empty()
    } else {
        given_entries_view(s.drop_last()).push((
            s.last().0@,
            match s.last().1 {
                Some(g) => Some(given_view(g)),
                None => None,
            },
        ))
    }
}

impl View for GivenValue {
    type V = SpecGiven;

    open spec fn view(&self) -> SpecGiven {
        given_view(*self)
    }
}

/// `givens_view` is taken item by item.
pub proof fn lemma_givens_view_index(s: Seq<GivenValue>)
    ensures
        givens_view(s).len() == s.len(),
        forall|i: int| 0 <= i < s.len() ==> #[trigger] givens_view(s)[i] == given_view(s[i]),
    decreases s.len(),
{
    if s.len() > 0 {
        lemma_givens_view_index(s.drop_last());
    }
}

/// `given_pairs_view` is taken pair by pair.
pub proof fn lemma_given_pairs_view_index(s: Seq<(GivenValue, GivenValue)>)
    ensures
        given_pairs_view(s).len() == s.len(),
        forall|i: int| 0 <= i < s.len() ==> #[trigger] given_pairs_view(s)[i] == (given_view(s[i].0), given_view(s[i].1)),
    decreases s.len(),
{
    if s.len() > 0 {
        lemma_given_pairs_view_index(s.drop_last());
    }
}

/// `given_entries_view` is taken entry by entry.
pub proof fn lemma_given_entries_view_index(s: Seq<(String, Option<GivenValue>)>)
    ensures
        given_entries_view(s).len() == s.len(),
        forall|i: int| 0 <= i < s.len() ==> #[trigger] given_entries_view(s)[i] == (
            s[i].0@,
            match s[i].1 {
                Some(g) => Some(given_view(g)),
                None => None::<SpecGiven>,
            },
        ),
    decreases s.len(),
{
    if s.len() > 0 {
        lemma_given_entries_view_index(s.drop_last());
    }
}

/// Writing `g` as a value of the declared type `t`: a plain value as
/// `spec_write_typed` writes it; a list, set or map under a header that
/// announces the declared element (or key and value) types and the number of
/// items, then each item by its declared type; a struct of a defined struct
/// type as the fields of the definition in order, as
/// `spec_write_given_fields` chooses them, then the stop. A struct type with
/// no definition is refused before anything is written; so is a given value
/// of another kind than `t` names.
pub open spec fn spec_write_given<P: TOutputProtocol>(
    s: P::V,
    t: SpecType,
    g: SpecGiven,
    structs: Seq<(Seq<char>, SpecStruct)>,
) -> ValueStep<(), P::V>
    decreases g, 0int,
{
    match g {
        SpecGiven::Plain(v) => spec_write_typed::<P>(s, t, v, structs),
        _ => match t {
            SpecType::List(e) => match g {
                SpecGiven::List(items) => match P::spec_write_list_begin(s, ListBegin { element_type: type_ttype(*e), size: #[verifier::truncate] (items.len() as i32) }) {
                    (Err(x), s1) => (Err(SpecValueError::Protocol(x)), s1),
                    (Ok(_), s1) => match spec_write_given_items::<P>(s1, *e, items, 0, structs) {
                        (Err(x), s2) => (Err(x), s2),
                        (Ok(_), s2) => pstep(P::spec_write_list_end(s2)),
                    },
                },
                _ => (Err(SpecValueError::Mismatch), s),
            },
            SpecType::SetT(e) => match g {
                SpecGiven::SetT(items) => match P::spec_write_set_begin(s, SetBegin { element_type: type_ttype(*e), size: #[verifier::truncate] (items.len() as i32) }) {
                    (Err(x), s1) => (Err(SpecValueError::Protocol(x)), s1),
                    (Ok(_), s1) => match spec_write_given_items::<P>(s1, *e, items, 0, structs) {
                        (Err(x), s2) => (Err(x), s2),
                        (Ok(_), s2) => pstep(P::spec_write_set_end(s2)),
                    },
                },
                _ => (Err(SpecValueError::Mismatch), s),
            },
            SpecType::MapT(k, w) => match g {
                SpecGiven::MapT(pairs) => match P::spec_write_map_begin(s, MapBegin { key_type: type_ttype(*k), value_type: type_ttype(*w), size: #[verifier::truncate] (pairs.len() as i32) }) {
                    (Err(x), s1) => (Err(SpecValueError::Protocol(x)), s1),
                    (Ok(_), s1) => match spec_write_given_pairs::<P>(s1, *k, *w, pairs, 0, structs) {
                        (Err(x), s2) => (Err(x), s2),
                        (Ok(_), s2) => pstep(P::spec_write_map_end(s2)),
                    },
                },
                _ => (Err(SpecValueError::Mismatch), s),
            },
            SpecType::Struct(name) => match assoc_get(structs, name) {
                None => (Err(SpecValueError::UnknownStruct(name)), s),
                Some(d) => match g {
                    SpecGiven::Struct(entries) => match P::spec_write_struct_begin(s, name) {
                        (Err(x), s1) => (Err(SpecValueError::Protocol(x)), s1),
                        (Ok(_), s1) => match spec_write_given_fields::<P>(s1, d.fields, 0, entries, structs) {
                            (Err(x), s2) => (Err(x), s2),
                            (Ok(_), s2) => match P::spec_write_field_stop(s2) {
                                (Err(x), s3) => (Err(SpecValueError::Protocol(x)), s3),
                                (Ok(_), s3) => pstep(P::spec_write_struct_end(s3)),
                            },
                        },
                    },
                    _ => (Err(SpecValueError::Mismatch), s),
                },
            },
            _ => (Err(SpecValueError::Mismatch), s),
        },
    }
}

/// Writing the given items of a list or set from index `k` on, each by the
/// type `e`.
pub open spec fn spec_write_given_items<P: TOutputProtocol>(
    s: P::V,
    e: SpecType,
    items: Seq<SpecGiven>,
    k: int,
    structs: Seq<(Seq<char>, SpecStruct)>,
) -> ValueStep<(), P::V>
    decreases items, items.len() - k,
{
    if 0 <= k < items.len() {
        match spec_write_given::<P>(s, e, items[k], structs) {
            (Err(x), s1) => (Err(x), s1),
            (Ok(_), s1) => spec_write_given_items::<P>(s1, e, items, k + 1, structs),
        }
    } else {
        (Ok(()), s)
    }
}

/// Writing the given pairs of a map from index `k` on, each key by the type
/// `kt` before its value by the type `vt`.
pub open spec fn spec_write_given_pairs<P: TOutputProtocol>(
    s: P::V,
    kt: SpecType,
    vt: SpecType,
    pairs: Seq<(SpecGiven, SpecGiven)>,
    k: int,
    structs: Seq<(Seq<char>, SpecStruct)>,
) -> ValueStep<(), P::V>
    decreases pairs, pairs.len() - k,
{
    if 0 <= k < pairs.len() {
        match spec_write_given::<P>(s, kt, pairs[k].0, structs) {
            (Err(x), s1) => (Err(x), s1),
            (Ok(_), s1) => match spec_write_given::<P>(s1, vt, pairs[k].1, structs) {
                (Err(x), s2) => (Err(x), s2),
                (Ok(_), s2) => spec_write_given_pairs::<P>(s2, kt, vt, pairs, k + 1, structs),
            },
        }
    } else {
        (Ok(()), s)
    }
}

/// Writing a field of declared type `t` and id `id`: its header, what `body`
/// writes, its end.
pub open spec fn spec_given_field<P: TOutputProtocol>(
    s: P::V,
    t: SpecType,
    id: i16,
    body: spec_fn(P::V) -> ValueStep<(), P::V>,
) -> ValueStep<(), P::V> {
    match P::spec_write_field_begin(s, type_ttype(t), id) {
        (Err(x), s1) => (Err(SpecValueError::Protocol(x)), s1),
        (Ok(_), s1) => match body(s1) {
            (Err(x), s2) => (Err(x), s2),
            (Ok(_), s2) => pstep(P::spec_write_field_end(s2)),
        },
    }
}

/// Writing the fields of a struct from the `k`-th definition on, as the
/// entries given by name choose them (the first entry of a name counts):
/// a field given a value is written by its declared type; a field given no
/// value is refused, with its name, when required, and left out otherwise; a
/// field not given is written with its default value, as `spec_write_value`
/// writes that value, when it has one, and left out otherwise. Each field
/// written goes under its declared id and the wire type of its declared type.
pub open spec fn spec_write_given_fields<P: TOutputProtocol>(
    s: P::V,
    defs: Seq<SpecField>,
    k: int,
    entries: Seq<(Seq<char>, Option<SpecGiven>)>,
    structs: Seq<(Seq<char>, SpecStruct)>,
) -> ValueStep<(), P::V>
    decreases entries, defs.len() - k,
{
    if 0 <= k < defs.len() {
        let f = defs[k];
        match assoc_index(entries, f.name) {
            Some(i) => if 0 <= i < entries.len() {
                match entries[i].1 {
                    Some(g) => match spec_given_field::<P>(s, f.field_type, f.id, |x: P::V| spec_write_given::<P>(x, f.field_type, g, structs)) {
                        (Err(x), s1) => (Err(x), s1),
                        (Ok(_), s1) => spec_write_given_fields::<P>(s1, defs, k + 1, entries, structs),
                    },
                    None => if f.required {
                        (Err(SpecValueError::RequiredNone(f.name)), s)
                    } else {
                        spec_write_given_fields::<P>(s, defs, k + 1, entries, structs)
                    },
                }
            } else {
                spec_write_given_fields::<P>(s, defs, k + 1, entries, structs)
            },
            None => match f.default_value {
                Some(v) => match spec_given_field::<P>(s, f.field_type, f.id, |x: P::V| pstep(spec_write_value::<P>(x, v, structs))) {
                    (Err(x), s1) => (Err(x), s1),
                    (Ok(_), s1) => spec_write_given_fields::<P>(s1, defs, k + 1, entries, structs),
                },
                None => spec_write_given_fields::<P>(s, defs, k + 1, entries, structs),
            },
        }
    } else {
        (Ok(()), s)
    }
}

/// The index of the first entry named `name`.
fn find_entry(entries: &Vec<(String, Option<GivenValue>)>, name: &str) -> (r: Option<usize>)
    ensures
        r matches Some(i) ==> assoc_index(given_entries_view(entries@), name@) == Some(i as int) && i < entries@.len(),
        r is None ==> assoc_index(given_entries_view(entries@), name@) is None,
{
    proof { lemma_given_entries_view_index(entries@); }
    let ghost ev = given_entries_view(entries@);
    let mut i: usize = 0;
    while i < entries.len()
        invariant
            i <= entries@.len(),
            ev == given_entries_view(entries@),
            ev.len() == entries@.len(),
            forall|j: int| 0 <= j < entries@.len() ==> (#[trigger] ev[j]).0 == entries@[j].0@,
            assoc_index(ev, name@) == assoc_index_from(ev, name@, i as int),
        decreases entries@.len() - i,
    {
        if str_eq(entries[i].0.as_str(), name) {
            assert(ev[i as int].0 == name@);
            return Some(i);
        }
        i = i + 1;
    }
    None
}

/// Writes `g` as a value of the declared type `t`, as `spec_write_given`
/// says.
pub fn write_given_value<P: TOutputProtocol>(
    writer: &mut P,
    t: &ThriftType,
    g: &GivenValue,
    struct_map: &NameMap<ThriftStruct>,
) -> (r: Result<(), ValueError>)
    requires
        P::depth(old(writer)@) > 0,
    ensures
        (match r { Ok(u) => Ok::<(), SpecValueError>(u), Err(e) => Err(e@) }, final(writer)@)
            == spec_write_given::<P>(old(writer)@, t@, g@, struct_map@),
        r is Ok ==> P::depth(final(writer)@) == P::depth(old(writer)@),
    decreases g,
{
    if let GivenValue::Plain(v) = g {
        return write_typed_value(writer, t, v, struct_map);
    }
    match t {
        ThriftType::List(e) => match g {
            GivenValue::List(items) => {
                proof { lemma_givens_view_index(items@); }
                if let Err(x) = writer.write_list_begin(&ListBegin { element_type: thrift_type_to_ttype(&**e), size: #[verifier::truncate] (items.len() as i32) }) {
                    return Err(ValueError::Protocol(x));
                }
                if let Err(x) = write_given_items(writer, &**e, items, struct_map) {
                    return Err(x);
                }
                value_result(writer.write_list_end())
            },
            _ => Err(ValueError::Mismatch),
        },
        ThriftType::SetT(e) => match g {
            GivenValue::SetT(items) => {
                proof { lemma_givens_view_index(items@); }
                if let Err(x) = writer.write_set_begin(&SetBegin { element_type: thrift_type_to_ttype(&**e), size: #[verifier::truncate] (items.len() as i32) }) {
                    return Err(ValueError::Protocol(x));
                }
                if let Err(x) = write_given_items(writer, &**e, items, struct_map) {
                    return Err(x);
                }
                value_result(writer.write_set_end())
            },
            _ => Err(ValueError::Mismatch),
        },
        ThriftType::MapT(k, w) => match g {
            GivenValue::MapT(pairs) => {
                proof { lemma_given_pairs_view_index(pairs@); }
                if let Err(x) = writer.write_map_begin(&MapBegin {
                    key_type: thrift_type_to_ttype(&**k),
                    value_type: thrift_type_to_ttype(&**w),
                    size: #[verifier::truncate] (pairs.len() as i32),
                }) {
                    return Err(ValueError::Protocol(x));
                }
                if let Err(x) = write_given_pairs(writer, &**k, &**w, pairs, struct_map) {
                    return Err(x);
                }
                value_result(writer.write_map_end())
            },
            _ => Err(ValueError::Mismatch),
        },
        ThriftType::Struct(name) => {
            let def = match struct_map.get(name.as_str()) {
                Some(d) => d,
                None => return Err(ValueError::UnknownStruct(name.clone())),
            };
            match g {
                GivenValue::Struct(entries) => {
                    if let Err(x) = writer.write_struct_begin(name.as_str()) {
                        return Err(ValueError::Protocol(x));
                    }
                    if let Err(x) = write_given_fields(writer, &def.fields, entries, struct_map) {
                        return Err(x);
                    }
                    if let Err(x) = writer.write_field_stop() {
                        return Err(ValueError::Protocol(x));
                    }
                    value_result(writer.write_struct_end())
                },
                _ => Err(ValueError::Mismatch),
            }
        },
        _ => Err(ValueError::Mismatch),
    }
}

/// Writes the given items of a list or set, each by the type `e`.
fn write_given_items<P: TOutputProtocol>(
    writer: &mut P,
    e: &ThriftType,
    items: &Vec<GivenValue>,
    struct_map: &NameMap<ThriftStruct>,
) -> (r: Result<(), ValueError>)
    requires
        P::depth(old(writer)@) > 0,
    ensures
        (match r { Ok(u) => Ok::<(), SpecValueError>(u), Err(x) => Err(x@) }, final(writer)@)
            == spec_write_given_items::<P>(old(writer)@, e@, givens_view(items@), 0, struct_map@),
        r is Ok ==> P::depth(final(writer)@) == P::depth(old(writer)@),
    decreases items,
{
    proof { lemma_givens_view_index(items@); }
    let ghost s0 = writer@;
    let ghost iv = givens_view(items@);
    let mut i: usize = 0;
    while i < items.len()
        invariant
            i <= items@.len(),
            iv == givens_view(items@),
            iv.len() == items@.len(),
            forall|j: int| 0 <= j < items@.len() ==> #[trigger] iv[j] == items@[j]@,
            P::depth(writer@) == P::depth(s0),
            P::depth(s0) > 0,
            spec_write_given_items::<P>(s0, e@, iv, 0, struct_map@) == spec_write_given_items::<P>(writer@, e@, iv, i as int, struct_map@),
            s0 == old(writer)@,
        decreases items@.len() - i,
    {
        proof { assert(decreases_to!(items => items@[i as int])); }
        if let Err(x) = write_given_value(writer, e, &items[i], struct_map) {
            return Err(x);
        }
        i = i + 1;
    }
    Ok(())
}

/// Writes the given pairs of a map, each key by the type `kt` before its
/// value by the type `vt`.
fn write_given_pairs<P: TOutputProtocol>(
    writer: &mut P,
    kt: &ThriftType,
    vt: &ThriftType,
    pairs: &Vec<(GivenValue, GivenValue)>,
    struct_map: &NameMap<ThriftStruct>,
) -> (r: Result<(), ValueError>)
    requires
        P::depth(old(writer)@) > 0,
    ensures
        (match r { Ok(u) => Ok::<(), SpecValueError>(u), Err(x) => Err(x@) }, final(writer)@)
            == spec_write_given_pairs::<P>(old(writer)@, kt@, vt@, given_pairs_view(pairs@), 0, struct_map@),
        r is Ok ==> P::depth(final(writer)@) == P::depth(old(writer)@),
    decreases pairs,
{
    proof { lemma_given_pairs_view_index(pairs@); }
    let ghost s0 = writer@;
    let ghost pv = given_pairs_view(pairs@);
    let mut i: usize = 0;
    while i < pairs.len()
        invariant
            i <= pairs@.len(),
            pv == given_pairs_view(pairs@),
            pv.len() == pairs@.len(),
            forall|j: int| 0 <= j < pairs@.len() ==> #[trigger] pv[j] == (pairs@[j].0@, pairs@[j].1@),
            P::depth(writer@) == P::depth(s0),
            P::depth(s0) > 0,
            spec_write_given_pairs::<P>(s0, kt@, vt@, pv, 0, struct_map@) == spec_write_given_pairs::<P>(writer@, kt@, vt@, pv, i as int, struct_map@),
            s0 == old(writer)@,
        decreases pairs@.len() - i,
    {
        proof {
            assert(decreases_to!(pairs => pairs@[i as int]));
            assert(decreases_to!(pairs@[i as int] => pairs@[i as int].0));
            assert(decreases_to!(pairs@[i as int] => pairs@[i as int].1));
        }
        if let Err(x) = write_given_value(writer, kt, &pairs[i].0, struct_map) {
            return Err(x);
        }
        if let Err(x) = write_given_value(writer, vt, &pairs[i].1, struct_map) {
            return Err(x);
        }
        i = i + 1;
    }
    Ok(())
}

/// Writes the fields of a struct of definition `defs` as the entries given
/// by name choose them, as `spec_write_given_fields` says.
fn write_given_fields<P: TOutputProtocol>(
    writer: &mut P,
    defs: &Vec<ThriftField>,
    entries: &Vec<(String, Option<GivenValue>)>,
    struct_map: &NameMap<ThriftStruct>,
) -> (r: Result<(), ValueError>)
    requires
        P::depth(old(writer)@) > 0,
    ensures
        (match r { Ok(u) => Ok::<(), SpecValueError>(u), Err(x) => Err(x@) }, final(writer)@)
            == spec_write_given_fields::<P>(old(writer)@, field_list_view(defs@), 0, given_entries_view(entries@), struct_map@),
        r is Ok ==> P::depth(final(writer)@) == P::depth(old(writer)@),
    decreases entries,
{
    proof { lemma_given_entries_view_index(entries@); }
    let ghost s0 = writer@;
    let ghost ev = given_entries_view(entries@);
    let ghost dv = field_list_view(defs@);
    let mut k: usize = 0;
    while k < defs.len()
        invariant
            k <= defs@.len(),
            ev == given_entries_view(entries@),
            dv == field_list_view(defs@),
            ev.len() == entries@.len(),
            forall|j: int| 0 <= j < entries@.len() ==> #[trigger] ev[j] == (
                entries@[j].0@,
                match entries@[j].1 {
                    Some(g) => Some(given_view(g)),
                    None => None::<SpecGiven>,
                },
            ),
            P::depth(writer@) == P::depth(s0),
            P::depth(s0) > 0,
            spec_write_given_fields::<P>(s0, dv, 0, ev, struct_map@) == spec_write_given_fields::<P>(writer@, dv, k as int, ev, struct_map@),
            s0 == old(writer)@,
        decreases defs@.len() - k,
    {
        let d = &defs[k];
        assert(dv[k as int] == d@);
        match find_entry(entries, d.name.as_str()) {
            Some(i) => {
                match &entries[i].1 {
                    Some(g) => {
                        proof {
                            assert(decreases_to!(entries => entries@[i as int]));
                            assert(decreases_to!(entries@[i as int] => entries@[i as int].1));
                        }
                        if let Err(x) = writer.write_field_begin(&FieldBegin { name: None, field_type: thrift_type_to_ttype(&d.field_type), id: d.id }) {
                            return Err(ValueError::Protocol(x));
                        }
                        if let Err(x) = write_given_value(writer, &d.field_type, g, struct_map) {
                            return Err(x);
                        }
                        if let Err(x) = writer.write_field_end() {
                            return Err(ValueError::Protocol(x));
                        }
                    },
                    None => {
                        if d.required {
                            return Err(ValueError::RequiredNone(d.name.clone()));
                        }
                    },
                }
            },
            None => {
                match &d.default_value {
                    Some(v) => {
                        if let Err(x) = writer.write_field_begin(&FieldBegin { name: None, field_type: thrift_type_to_ttype(&d.field_type), id: d.id }) {
                            return Err(ValueError::Protocol(x));
                        }
                        if let Err(x) = write_thrift_value(writer, v, struct_map) {
                            return Err(ValueError::Protocol(x));
                        }
                        if let Err(x) = writer.write_field_end() {
                            return Err(ValueError::Protocol(x));
                        }
                    },
                    None => {},
                }
            },
        }
        k = k + 1;
    }
    Ok(())
}

} // verus!

verus! {

// ─── Structs given every field ────────────────────────────────────────────────

/// The entries that give each named value of a struct value as a plain value.
pub open spec fn plain_entries(fields: Seq<(Seq<char>, SpecValue)>) -> Seq<(Seq<char>, Option<SpecGiven>)> {
    fields.map_values(|f: (Seq<char>, SpecValue)| (f.0, Some(SpecGiven::Plain(f.1))))
}

proof fn lemma_plain_entries_index(fields: Seq<(Seq<char>, SpecValue)>, name: Seq<char>, i: int)
    ensures
        assoc_index_from(plain_entries(fields), name, i) == assoc_index_from(fields, name, i),
    decreases fields.len() - i,
{
    if 0 <= i < fields.len() {
        lemma_plain_entries_index(fields, name, i + 1);
    }
}

proof fn lemma_given_plain_fields<P: TOutputProtocol>(
    s: P::V,
    fds: Seq<SpecField>,
    k: int,
    fields: Seq<(Seq<char>, SpecValue)>,
    structs: Seq<(Seq<char>, SpecStruct)>,
)
    requires
        distinct_fields(fds),
        fields.len() == fds.len(),
        forall|j: int| 0 <= j < fields.len() ==> (#[trigger] fields[j]).0 == fds[j].name,
        0 <= k,
    ensures
        spec_write_given_fields::<P>(s, fds, k, plain_entries(fields), structs)
            == spec_write_typed_fields::<P>(s, fds, k, fields, structs),
    decreases fds.len() - k,
{
    if k < fds.len() {
        lemma_first_name(fields, fds, k, 0);
        lemma_plain_entries_index(fields, fds[k].name, 0);
        let pe = plain_entries(fields);
        assert(pe.len() == fields.len());
        assert(pe[k] == (fields[k].0, Some(SpecGiven::Plain(fields[k].1))));
        let ft = fds[k].field_type;
        let g = SpecGiven::Plain(fields[k].1);
        assert(assoc_index(pe, fds[k].name) == Some(k));
        let body = |x: P::V| spec_write_given::<P>(x, ft, g, structs);
        let step = spec_given_field::<P>(s, ft, fds[k].id, body);
        assert(spec_write_given_fields::<P>(s, fds, k, pe, structs) == match step {
            (Err(x), s1) => (Err(x), s1),
            (Ok(_), s1) => spec_write_given_fields::<P>(s1, fds, k + 1, pe, structs),
        });
        match P::spec_write_field_begin(s, type_ttype(ft), fds[k].id) {
            (Err(_), _) => {},
            (Ok(_), s1) => {
                assert(body(s1) == spec_write_typed::<P>(s1, ft, fields[k].1, structs));
                match spec_write_typed::<P>(s1, ft, fields[k].1, structs) {
                    (Err(_), _) => {},
                    (Ok(_), s2) => match P::spec_write_field_end(s2) {
                        (Err(_), _) => {},
                        (Ok(_), s3) => { lemma_given_plain_fields::<P>(s3, fds, k + 1, fields, structs); },
                    },
                }
            },
        }
    }
}

/// Whatever the protocol, a struct given each field of its definition, in
/// order, as a plain value is written as the struct value holding those
/// values is written by its declared type.
pub proof fn lemma_given_plain_struct<P: TOutputProtocol>(
    s: P::V,
    n: Seq<char>,
    name: Option<Seq<char>>,
    fields: Seq<(Seq<char>, SpecValue)>,
    structs: Seq<(Seq<char>, SpecStruct)>,
)
    requires
        assoc_get(structs, n) matches Some(d) ==> {
            &&& distinct_fields(d.fields)
            &&& fields.len() == d.fields.len()
            &&& forall|j: int| 0 <= j < fields.len() ==> (#[trigger] fields[j]).0 == d.fields[j].name
        },
    ensures
        spec_write_given::<P>(s, SpecType::Struct(n), SpecGiven::Struct(plain_entries(fields)), structs)
            == spec_write_typed::<P>(s, SpecType::Struct(n), SpecValue::Struct(name, fields), structs),
{
    if let Some(d) = assoc_get(structs, n) {
        match P::spec_write_struct_begin(s, n) {
            (Err(_), _) => {},
            (Ok(_), s1) => { lemma_given_plain_fields::<P>(s1, d.fields, 0, fields, structs); },
        }
    }
}

} // verus!
