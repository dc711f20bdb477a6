//! The syntax tree of a Thrift IDL document, and the values that the
//! specifications see of it.

use vstd::prelude::*;
use vstd::arithmetic::power2::{pow2, lemma_pow2_pos, lemma_pow2_unfold, lemma_pow2_adds, lemma_pow2_strictly_increases, lemma2_to64};
use vstd::arithmetic::div_mod::{lemma_multiply_divide_lt, lemma_div_is_ordered, lemma_div_by_multiple};
use super::names::NameMap;

verus! {

/// A type of the IDL.
#[derive(Debug)]
pub enum ThriftType {
    Bool,
    Byte,
    I16,
    I32,
    I64,
    Double,
    String,
    Binary,
    List(Box<ThriftType>),
    SetT(Box<ThriftType>),
    MapT(Box<ThriftType>, Box<ThriftType>),
    Struct(String),
}

/// A value of the IDL: a field default. A double is held as the bit pattern
/// of its IEEE-754 binary64 value.
#[derive(Debug)]
pub enum ThriftValue {
    Bool(bool),
    Byte(i8),
    I16(i16),
    I32(i32),
    I64(i64),
    Double(u64),
    String(String),
    Binary(Vec<u8>),
    List(Vec<ThriftValue>),
    SetT(Vec<ThriftValue>),
    MapT(Vec<(ThriftValue, ThriftValue)>),
    Struct { name: Option<String>, fields: Vec<(String, ThriftValue)> },
}

#[derive(Debug)]
pub struct ThriftField {
    pub id: i16,
    pub name: String,
    pub field_type: ThriftType,
    pub required: bool,
    pub default_value: Option<ThriftValue>,
}

#[derive(Debug)]
pub struct ThriftStruct {
    pub name: String,
    pub fields: Vec<ThriftField>,
}

#[derive(Debug)]
pub struct ThriftMethod {
    pub name: String,
    pub return_type: ThriftType,
    pub arguments: Vec<ThriftField>,
    pub exceptions: Vec<ThriftField>,
    pub oneway: bool,
}

#[derive(Debug)]
pub struct ThriftService {
    pub name: String,
    pub methods: Vec<ThriftMethod>,
}

#[derive(Debug, Clone)]
pub struct ThriftEnum {
    pub name: String,
    pub variants: NameMap<i32>,
}

#[derive(Debug)]
pub struct ThriftDocument {
    pub structs: NameMap<ThriftStruct>,
    pub services: NameMap<ThriftService>,
    pub enums: NameMap<ThriftEnum>,
    pub includes: Vec<String>,
    pub namespaces: NameMap<String>,
}

// ─── What the specifications see ──────────────────────────────────────────────

pub enum SpecType {
    Bool,
    Byte,
    I16,
    I32,
    I64,
    Double,
    String,
    Binary,
    List(Box<SpecType>),
    SetT(Box<SpecType>),
    MapT(Box<SpecType>, Box<SpecType>),
    Struct(Seq<char>),
}

pub enum SpecValue {
    Bool(bool),
    Byte(i8),
    I16(i16),
    I32(i32),
    I64(i64),
    Double(u64),
    String(Seq<char>),
    Binary(Seq<u8>),
    List(Seq<SpecValue>),
    SetT(Seq<SpecValue>),
    MapT(Seq<(SpecValue, SpecValue)>),
    Struct(Option<Seq<char>>, Seq<(Seq<char>, SpecValue)>),
}

pub struct SpecField {
    pub id: i16,
    pub name: Seq<char>,
    pub field_type: SpecType,
    pub required: bool,
    pub default_value: Option<SpecValue>,
}

pub struct SpecStruct {
    pub name: Seq<char>,
    pub fields: Seq<SpecField>,
}

pub struct SpecMethod {
    pub name: Seq<char>,
    pub return_type: SpecType,
    pub arguments: Seq<SpecField>,
    pub exceptions: Seq<SpecField>,
    pub oneway: bool,
}

pub struct SpecService {
    pub name: Seq<char>,
    pub methods: Seq<SpecMethod>,
}

pub struct SpecEnum {
    pub name: Seq<char>,
    pub variants: Seq<(Seq<char>, i32)>,
}

pub struct SpecDocument {
    pub structs: Seq<(Seq<char>, SpecStruct)>,
    pub services: Seq<(Seq<char>, SpecService)>,
    pub enums: Seq<(Seq<char>, SpecEnum)>,
    pub includes: Seq<Seq<char>>,
    pub namespaces: Seq<(Seq<char>, Seq<char>)>,
}

pub open spec fn type_view(t: ThriftType) -> SpecType
    decreases t,
{
    match t {
        ThriftType::Bool => SpecType::Bool,
        ThriftType::Byte => SpecType::Byte,
        ThriftType::I16 => SpecType::I16,
        ThriftType::I32 => SpecType::I32,
        ThriftType::I64 => SpecType::I64,
        ThriftType::Double => SpecType::Double,
        ThriftType::String => SpecType::String,
        ThriftType::Binary => SpecType::Binary,
        ThriftType::List(e) => SpecType::List(Box::new(type_view(*e))),
        ThriftType::SetT(e) => SpecType::SetT(Box::new(type_view(*e))),
        ThriftType::MapT(k, v) => SpecType::MapT(Box::new(type_view(*k)), Box::new(type_view(*v))),
        ThriftType::Struct(n) => SpecType::Struct(n@),
    }
}

impl View for ThriftType {
    type V = SpecType;

    open spec fn view(&self) -> SpecType {
        type_view(*self)
    }
}

pub open spec fn value_view(v: ThriftValue) -> SpecValue
    decreases v,
{
    match v {
        ThriftValue::Bool(b) => SpecValue::Bool(b),
        ThriftValue::Byte(b) => SpecValue::Byte(b),
        ThriftValue::I16(b) => SpecValue::I16(b),
        ThriftValue::I32(b) => SpecValue::I32(b),
        ThriftValue::I64(b) => SpecValue::I64(b),
        ThriftValue::Double(b) => SpecValue::Double(b),
        ThriftValue::String(s) => SpecValue::String(s@),
        ThriftValue::Binary(b) => SpecValue::Binary(b@),
        ThriftValue::List(items) => SpecValue::List(values_view(items@)),
        ThriftValue::SetT(items) => SpecValue::SetT(values_view(items@)),
        ThriftValue::MapT(pairs) => SpecValue::MapT(pairs_view(pairs@)),
        ThriftValue::Struct { name, fields } => SpecValue::Struct(
            match name {
                Some(n) => Some(n@),
                None => None,
            },
            fields_view(fields@),
        ),
    }
}

pub open spec fn values_view(s: Seq<ThriftValue>) -> Seq<SpecValue>
    decreases s,
{
    if s.len() == 0 {
        Seq::empty()
    } else {
        values_view(s.drop_last()).push(value_view(s.last()))
    }
}

pub open spec fn pairs_view(s: Seq<(ThriftValue, ThriftValue)>) -> Seq<(SpecValue, SpecValue)>
    decreases s,
{
    if s.len() == 0 {
        Seq::empty()
    } else {
        pairs_view(s.drop_last()).push((value_view(s.last().0), value_view(s.last().1)))
    }
}

pub open spec fn fields_view(s: Seq<(String, ThriftValue)>) -> Seq<(Seq<char>, SpecValue)>
    decreases s,
{
    if s.len() == 0 {
        Seq::empty()
    } else {
        fields_view(s.drop_last()).push((s.last().0@, value_view(s.last().1)))
    }
}

impl View for ThriftValue {
    type V = SpecValue;

    open spec fn view(&self) -> SpecValue {
        value_view(*self)
    }
}

pub open spec fn opt_value_view(v: Option<ThriftValue>) -> Option<SpecValue> {
    match v {
        Some(x) => Some(x@),
        None => None,
    }
}

impl View for ThriftField {
    type V = SpecField;

    open spec fn view(&self) -> SpecField {
        SpecField {
            id: self.id,
            name: self.name@,
            field_type: self.field_type@,
            required: self.required,
            default_value: opt_value_view(self.default_value),
        }
    }
}

pub open spec fn field_list_view(fs: Seq<ThriftField>) -> Seq<SpecField> {
    fs.map_values(|f: ThriftField| f@)
}

impl View for ThriftStruct {
    type V = SpecStruct;

    open spec fn view(&self) -> SpecStruct {
        SpecStruct { name: self.name@, fields: field_list_view(self.fields@) }
    }
}

impl View for ThriftMethod {
    type V = SpecMethod;

    open spec fn view(&self) -> SpecMethod {
        SpecMethod {
            name: self.name@,
            return_type: self.return_type@,
            arguments: field_list_view(self.arguments@),
            exceptions: field_list_view(self.exceptions@),
            oneway: self.oneway,
        }
    }
}

pub open spec fn method_list_view(ms: Seq<ThriftMethod>) -> Seq<SpecMethod> {
    ms.map_values(|m: ThriftMethod| m@)
}

impl View for ThriftService {
    type V = SpecService;

    open spec fn view(&self) -> SpecService {
        SpecService { name: self.name@, methods: method_list_view(self.methods@) }
    }
}

impl View for ThriftEnum {
    type V = SpecEnum;

    open spec fn view(&self) -> SpecEnum {
        SpecEnum { name: self.name@, variants: self.variants@ }
    }
}

pub open spec fn string_list_view(ss: Seq<String>) -> Seq<Seq<char>> {
    ss.map_values(|s: String| s@)
}

impl View for ThriftDocument {
    type V = SpecDocument;

    open spec fn view(&self) -> SpecDocument {
        SpecDocument {
            structs: self.structs@,
            services: self.services@,
            enums: self.enums@,
            includes: string_list_view(self.includes@),
            namespaces: self.namespaces@,
        }
    }
}

// ─── Deep copies ──────────────────────────────────────────────────────────────

/// `values_view` is taken element by element.
pub proof fn lemma_values_view_index(s: Seq<ThriftValue>)
    ensures
        values_view(s).len() == s.len(),
        forall|i: int| 0 <= i < s.len() ==> #[trigger] values_view(s)[i] == value_view(s[i]),
    decreases s.len(),
{
    if s.len() > 0 {
        lemma_values_view_index(s.drop_last());
    }
}

/// `pairs_view` is taken element by element.
pub proof fn lemma_pairs_view_index(s: Seq<(ThriftValue, ThriftValue)>)
    ensures
        pairs_view(s).len() == s.len(),
        forall|i: int|
            0 <= i < s.len() ==> #[trigger] pairs_view(s)[i] == (value_view(s[i].0), value_view(s[i].1)),
    decreases s.len(),
{
    if s.len() > 0 {
        lemma_pairs_view_index(s.drop_last());
    }
}

/// `fields_view` is taken element by element.
pub proof fn lemma_fields_view_index(s: Seq<(String, ThriftValue)>)
    ensures
        fields_view(s).len() == s.len(),
        forall|i: int| 0 <= i < s.len() ==> #[trigger] fields_view(s)[i] == (s[i].0@, value_view(s[i].1)),
    decreases s.len(),
{
    if s.len() > 0 {
        lemma_fields_view_index(s.drop_last());
    }
}

impl ThriftType {
    /// A copy of this type.
    pub fn deep_copy(&self) -> (r: ThriftType)
        ensures
            r@ == self@,
        decreases self,
    {
        match self {
            ThriftType::Bool => ThriftType::Bool,
            ThriftType::Byte => ThriftType::Byte,
            ThriftType::I16 => ThriftType::I16,
            ThriftType::I32 => ThriftType::I32,
            ThriftType::I64 => ThriftType::I64,
            ThriftType::Double => ThriftType::Double,
            ThriftType::String => ThriftType::String,
            ThriftType::Binary => ThriftType::Binary,
            ThriftType::List(e) => ThriftType::List(Box::new(e.deep_copy())),
            ThriftType::SetT(e) => ThriftType::SetT(Box::new(e.deep_copy())),
            ThriftType::MapT(k, v) => ThriftType::MapT(Box::new(k.deep_copy()), Box::new(v.deep_copy())),
            ThriftType::Struct(n) => ThriftType::Struct(n.clone()),
        }
    }
}

impl ThriftValue {
    /// A copy of this value.
    pub fn deep_copy(&self) -> (r: ThriftValue)
        ensures
            r@ == self@,
        decreases self,
    {
        match self {
            ThriftValue::Bool(b) => ThriftValue::Bool(*b),
            ThriftValue::Byte(b) => ThriftValue::Byte(*b),
            ThriftValue::I16(b) => ThriftValue::I16(*b),
            ThriftValue::I32(b) => ThriftValue::I32(*b),
            ThriftValue::I64(b) => ThriftValue::I64(*b),
            ThriftValue::Double(b) => ThriftValue::Double(*b),
            ThriftValue::String(s) => ThriftValue::String(s.clone()),
            ThriftValue::Binary(b) => ThriftValue::Binary(b.clone()),
            ThriftValue::List(items) => ThriftValue::List(copy_values(items)),
            ThriftValue::SetT(items) => ThriftValue::SetT(copy_values(items)),
            ThriftValue::MapT(pairs) => ThriftValue::MapT(copy_pairs(pairs)),
            ThriftValue::Struct { name, fields } => {
                let n = match name {
                    Some(x) => Some(x.clone()),
                    None => None,
                };
                ThriftValue::Struct { name: n, fields: copy_named_values(fields) }
            },
        }
    }
}

/// Copies of the values of a list.
fn copy_values(items: &Vec<ThriftValue>) -> (r: Vec<ThriftValue>)
    ensures
        values_view(r@) == values_view(items@),
    decreases items,
{
    let mut r: Vec<ThriftValue> = Vec::new();
    let mut i: usize = 0;
    while i < items.len()
        invariant
            i <= items@.len(),
            r@.len() == i,
            forall|j: int| 0 <= j < i ==> value_view(#[trigger] r@[j]) == value_view(items@[j]),
        decreases items@.len() - i,
    {
        proof {
            assert(decreases_to!(items => items@[i as int]));
        }
        let v = items[i].deep_copy();
        r.push(v);
        i = i + 1;
    }
    proof {
        lemma_values_view_index(r@);
        lemma_values_view_index(items@);
        assert(values_view(r@) =~= values_view(items@));
    }
    r
}

/// Copies of the pairs of a map value.
fn copy_pairs(pairs: &Vec<(ThriftValue, ThriftValue)>) -> (r: Vec<(ThriftValue, ThriftValue)>)
    ensures
        pairs_view(r@) == pairs_view(pairs@),
    decreases pairs,
{
    let mut r: Vec<(ThriftValue, ThriftValue)> = Vec::new();
    let mut i: usize = 0;
    while i < pairs.len()
        invariant
            i <= pairs@.len(),
            r@.len() == i,
            forall|j: int|
                0 <= j < i ==> value_view((#[trigger] r@[j]).0) == value_view(pairs@[j].0)
                    && value_view(r@[j].1) == value_view(pairs@[j].1),
        decreases pairs@.len() - i,
    {
        proof {
            assert(decreases_to!(pairs => pairs@[i as int]));
            assert(decreases_to!(pairs@[i as int] => pairs@[i as int].0));
            assert(decreases_to!(pairs@[i as int] => pairs@[i as int].1));
        }
        let k = pairs[i].0.deep_copy();
        let v = pairs[i].1.deep_copy();
        r.push((k, v));
        i = i + 1;
    }
    proof {
        lemma_pairs_view_index(r@);
        lemma_pairs_view_index(pairs@);
        assert(pairs_view(r@) =~= pairs_view(pairs@));
    }
    r
}

/// Copies of the named values of a struct value.
fn copy_named_values(fields: &Vec<(String, ThriftValue)>) -> (r: Vec<(String, ThriftValue)>)
    ensures
        fields_view(r@) == fields_view(fields@),
    decreases fields,
{
    let mut r: Vec<(String, ThriftValue)> = Vec::new();
    let mut i: usize = 0;
    while i < fields.len()
        invariant
            i <= fields@.len(),
            r@.len() == i,
            forall|j: int|
                0 <= j < i ==> (#[trigger] r@[j]).0@ == fields@[j].0@
                    && value_view(r@[j].1) == value_view(fields@[j].1),
        decreases fields@.len() - i,
    {
        proof {
            assert(decreases_to!(fields => fields@[i as int]));
            assert(decreases_to!(fields@[i as int] => fields@[i as int].1));
        }
        let k = fields[i].0.clone();
        let v = fields[i].1.deep_copy();
        r.push((k, v));
        i = i + 1;
    }
    proof {
        lemma_fields_view_index(r@);
        lemma_fields_view_index(fields@);
        assert(fields_view(r@) =~= fields_view(fields@));
    }
    r
}

impl ThriftField {
    /// A copy of this field.
    pub fn deep_copy(&self) -> (r: ThriftField)
        ensures
            r@ == self@,
    {
        ThriftField {
            id: self.id,
            name: self.name.clone(),
            field_type: self.field_type.deep_copy(),
            required: self.required,
            default_value: match &self.default_value {
                Some(v) => Some(v.deep_copy()),
                None => None,
            },
        }
    }
}

/// Copies of the fields of a list.
pub fn copy_fields(fs: &Vec<ThriftField>) -> (r: Vec<ThriftField>)
    ensures
        field_list_view(r@) == field_list_view(fs@),
{
    let mut r: Vec<ThriftField> = Vec::new();
    let mut i: usize = 0;
    while i < fs.len()
        invariant
            i <= fs@.len(),
            r@.len() == i,
            forall|j: int| 0 <= j < i ==> (#[trigger] r@[j])@ == fs@[j]@,
        decreases fs@.len() - i,
    {
        r.push(fs[i].deep_copy());
        i = i + 1;
    }
    assert(field_list_view(r@) =~= field_list_view(fs@));
    r
}

impl ThriftStruct {
    /// A copy of this struct definition.
    pub fn deep_copy(&self) -> (r: ThriftStruct)
        ensures
            r@ == self@,
    {
        ThriftStruct { name: self.name.clone(), fields: copy_fields(&self.fields) }
    }
}

impl ThriftMethod {
    /// A copy of this method.
    pub fn deep_copy(&self) -> (r: ThriftMethod)
        ensures
            r@ == self@,
    {
        ThriftMethod {
            name: self.name.clone(),
            return_type: self.return_type.deep_copy(),
            arguments: copy_fields(&self.arguments),
            exceptions: copy_fields(&self.exceptions),
            oneway: self.oneway,
        }
    }
}

/// Copies of the methods of a list.
pub fn copy_methods(ms: &Vec<ThriftMethod>) -> (r: Vec<ThriftMethod>)
    ensures
        method_list_view(r@) == method_list_view(ms@),
{
    let mut r: Vec<ThriftMethod> = Vec::new();
    let mut i: usize = 0;
    while i < ms.len()
        invariant
            i <= ms@.len(),
            r@.len() == i,
            forall|j: int| 0 <= j < i ==> (#[trigger] r@[j])@ == ms@[j]@,
        decreases ms@.len() - i,
    {
        r.push(ms[i].deep_copy());
        i = i + 1;
    }
    assert(method_list_view(r@) =~= method_list_view(ms@));
    r
}

impl ThriftService {
    /// A copy of this service.
    pub fn deep_copy(&self) -> (r: ThriftService)
        ensures
            r@ == self@,
    {
        ThriftService { name: self.name.clone(), methods: copy_methods(&self.methods) }
    }
}

// ─── Integers as doubles ──────────────────────────────────────────────────────

/// The exponent of the highest power of two not above `m` (0 for 0 and 1).
pub open spec fn floor_log2(m: nat) -> nat
    decreases m,
{
    if m <= 1 {
        0
    } else {
        1 + floor_log2(m / 2)
    }
}

/// The bit pattern of the IEEE-754 binary64 value nearest to the integer
/// `v`, ties going to the even significand: what Rust's `as f64` gives.
pub open spec fn double_bits_of_int(v: int) -> u64 {
    let m: nat = if v < 0 { (-v) as nat } else { v as nat };
    if m == 0 {
        0
    } else {
        let sign: int = if v < 0 { 0x8000_0000_0000_0000 } else { 0 };
        let e = floor_log2(m);
        let ef: (int, int) = if e <= 52 {
            (e + 1023int, (m - pow2(e)) * pow2((52 - e) as nat))
        } else {
            let b = pow2((e - 52) as nat);
            let q = m / b;
            let rem = m % b;
            let half = b / 2;
            let q2: int = if rem > half || (rem == half && q % 2 == 1) { (q + 1) as int } else { q as int };
            if q2 == 0x20_0000_0000_0000 {
                (e + 1024int, 0int)
            } else {
                (e + 1023int, q2 - 0x10_0000_0000_0000int)
            }
        };
        (sign + ef.0 * 0x10_0000_0000_0000 + ef.1) as u64
    }
}

/// `floor_log2(m)` is the exponent of the highest power of two not above `m`.
pub proof fn lemma_floor_log2_bounds(m: nat)
    requires
        m >= 1,
    ensures
        pow2(floor_log2(m)) <= m < 2 * pow2(floor_log2(m)),
    decreases m,
{
    if m >= 2 {
        lemma_floor_log2_bounds(m / 2);
        lemma_pow2_unfold(floor_log2(m));
    } else {
        assert(pow2(0) == 1) by { lemma2_to64(); }
    }
}

/// Two to the power `k`, for `k` below 64.
fn pow2_u64(k: u64) -> (r: u64)
    requires
        k < 64,
    ensures
        r as nat == pow2(k as nat),
{
    proof { lemma2_to64(); }
    let mut p: u64 = 1;
    let mut j: u64 = 0;
    while j < k
        invariant
            j <= k < 64,
            p as nat == pow2(j as nat),
            pow2(64) == 0x1_0000_0000_0000_0000,
        decreases k - j,
    {
        proof {
            lemma_pow2_unfold((j + 1) as nat);
            lemma_pow2_strictly_increases((j + 1) as nat, 64);
        }
        p = p * 2;
        j = j + 1;
    }
    p
}

/// The bit pattern of the binary64 value nearest to `v` (Rust's `v as f64`).
pub fn i64_to_double_bits(v: i64) -> (r: u64)
    ensures
        r == double_bits_of_int(v as int),
{
    if v == 0 {
        return 0;
    }
    let m: u64 = if v < 0 {
        if v == i64::MIN { 0x8000_0000_0000_0000u64 } else { (-v) as u64 }
    } else {
        v as u64
    };
    magnitude_to_double_bits(v < 0, m)
}

/// The bit pattern of the binary64 value nearest to `v` (Rust's `v as f64`).
pub fn u64_to_double_bits(v: u64) -> (r: u64)
    ensures
        r == double_bits_of_int(v as int),
{
    if v == 0 {
        return 0;
    }
    magnitude_to_double_bits(false, v)
}

/// The bit pattern of the binary64 value nearest to `m`, negated when `negative`.
fn magnitude_to_double_bits(negative: bool, m: u64) -> (r: u64)
    requires
        m > 0,
    ensures
        r == double_bits_of_int(if negative { -(m as int) } else { m as int }),
{
    let ghost v: int = if negative { -(m as int) } else { m as int };
    let ghost mi: nat = m as nat;
    proof {
        lemma_floor_log2_bounds(mi);
        lemma2_to64();
        if floor_log2(mi) >= 64 {
            if floor_log2(mi) > 64 {
                lemma_pow2_strictly_increases(64, floor_log2(mi));
            }
        }
    }
    let mut t: u64 = m;
    let mut e: u64 = 0;
    while t > 1
        invariant
            1 <= t,
            e + floor_log2(t as nat) == floor_log2(m as nat),
            floor_log2(m as nat) < 64,
        decreases t,
    {
        t = t / 2;
        e = e + 1;
    }
    let p = pow2_u64(e);
    let sign: u64 = if negative { 0x8000_0000_0000_0000u64 } else { 0 };
    let exp: u64;
    let frac: u64;
    if e <= 52 {
        let q = pow2_u64(52 - e);
        proof {
            lemma_pow2_adds(e as nat, (52 - e) as nat);
            lemma_pow2_pos((52 - e) as nat);
            assert((m - p) * q < p * q) by (nonlinear_arith)
                requires
                    m - p < p,
                    q > 0,
            ;
            assert(pow2(52) == 0x10_0000_0000_0000) by {
                lemma_pow2_adds(32, 20);
            }
        }
        exp = e + 1023;
        frac = (m - p) * q;
    } else {
        let b = pow2_u64(e - 52);
        proof {
            lemma_pow2_adds(52, (e - 52) as nat);
            lemma_pow2_adds(32, 20);
            lemma_pow2_unfold((e - 52) as nat);
            lemma_div_by_multiple(0x10_0000_0000_0000, b as int);
            lemma_div_is_ordered(0x10_0000_0000_0000 * b, m as int, b as int);
            lemma_multiply_divide_lt(m as int, b as int, 0x20_0000_0000_0000);
        }
        let q = m / b;
        let rem = m % b;
        let half = b / 2;
        let q2 = if rem > half || (rem == half && q % 2 == 1) { q + 1 } else { q };
        if q2 == 0x20_0000_0000_0000 {
            exp = e + 1024;
            frac = 0;
        } else {
            exp = e + 1023;
            frac = q2 - 0x10_0000_0000_0000;
        }
    }
    sign + exp * 0x10_0000_0000_0000 + frac
}

} // verus!
