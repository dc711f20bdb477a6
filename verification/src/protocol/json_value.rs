//! JSON documents as the JSON protocol builds and reads them.
//!
//! A document is held as plain values: numbers keep the three forms that a
//! JSON number takes once parsed (a non-negative integer, a negative integer,
//! or a binary64 value held as its bit pattern), and an object keeps its
//! entries ordered by key with no key twice, which is the order in which a
//! JSON object is written out and walked.

use vstd::prelude::*;
use crate::parser::lexer::chars_of;

verus! {

/// A JSON number.
#[derive(Debug, Clone, Copy, PartialEq, Eq, Structural)]
pub enum JsonNumber {
    /// A non-negative integer.
    PosInt(u64),
    /// A negative integer.
    NegInt(i64),
    /// A binary64 value, as its bit pattern.
    Float(u64),
}

/// A JSON value.
#[derive(Debug)]
pub enum JsonValue {
    Null,
    Bool(bool),
    Number(JsonNumber),
    String(String),
    Array(Vec<JsonValue>),
    Object(Vec<(String, JsonValue)>),
}

/// What the specifications see of a JSON value.
pub enum JsonView {
    Null,
    Bool(bool),
    Number(JsonNumber),
    String(Seq<char>),
    Array(Seq<JsonView>),
    Object(Seq<(Seq<char>, JsonView)>),
}

pub open spec fn json_view(v: JsonValue) -> JsonView
    decreases v,
{
    match v {
        JsonValue::Null => JsonView::Null,
        JsonValue::Bool(b) => JsonView::Bool(b),
        JsonValue::Number(n) => JsonView::Number(n),
        JsonValue::String(s) => JsonView::String(s@),
        JsonValue::Array(items) => JsonView::Array(json_items_view(items@)),
        JsonValue::Object(es) => JsonView::Object(json_entries_view(es@)),
    }
}

pub open spec fn json_items_view(s: Seq<JsonValue>) -> Seq<JsonView>
    decreases s,
{
    if s.len() == 0 {
        Seq::empty()
    } else {
        json_items_view(s.drop_last()).push(json_view(s.last()))
    }
}

pub open spec fn json_entries_view(s: Seq<(String, JsonValue)>) -> Seq<(Seq<char>, JsonView)>
    decreases s,
{
    if s.len() == 0 {
        Seq::empty()
    } else {
        json_entries_view(s.drop_last()).push((s.last().0@, json_view(s.last().1)))
    }
}

impl View for JsonValue {
    type V = JsonView;

    open spec fn view(&self) -> JsonView {
        json_view(*self)
    }
}

/// `json_items_view` is taken element by element.
pub proof fn lemma_json_items_view_index(s: Seq<JsonValue>)
    ensures
        json_items_view(s).len() == s.len(),
        forall|i: int| 0 <= i < s.len() ==> #[trigger] json_items_view(s)[i] == json_view(s[i]),
    decreases s.len(),
{
    if s.len() > 0 {
        lemma_json_items_view_index(s.drop_last());
    }
}

/// `json_entries_view` is taken element by element.
pub proof fn lemma_json_entries_view_index(s: Seq<(String, JsonValue)>)
    ensures
        json_entries_view(s).len() == s.len(),
        forall|i: int|
            0 <= i < s.len() ==> #[trigger] json_entries_view(s)[i] == (s[i].0@, json_view(s[i].1)),
    decreases s.len(),
{
    if s.len() > 0 {
        lemma_json_entries_view_index(s.drop_last());
    }
}

/// The number of nodes of a value, counting an object's keys: what a reader
/// has left to walk.
pub open spec fn json_size(v: JsonView) -> nat
    decreases v,
{
    match v {
        JsonView::Array(items) => 1 + items_size(items),
        JsonView::Object(es) => 1 + entries_size(es),
        _ => 1,
    }
}

pub open spec fn items_size(s: Seq<JsonView>) -> nat
    decreases s,
{
    if s.len() == 0 {
        0
    } else {
        items_size(s.drop_last()) + json_size(s.last())
    }
}

pub open spec fn entries_size(s: Seq<(Seq<char>, JsonView)>) -> nat
    decreases s,
{
    if s.len() == 0 {
        0
    } else {
        entries_size(s.drop_last()) + 1 + json_size(s.last().1)
    }
}

/// The size of the items from `i` on.
pub proof fn lemma_items_size_split(s: Seq<JsonView>, i: int)
    requires
        0 <= i <= s.len(),
    ensures
        items_size(s) == items_size(s.take(i)) + items_size(s.skip(i)),
    decreases s.len(),
{
    if i < s.len() {
        lemma_items_size_split(s.drop_last(), i);
        assert(s.drop_last().take(i) =~= s.take(i));
        assert(s.skip(i).drop_last() =~= s.drop_last().skip(i));
        assert(s.skip(i).last() == s.last());
    } else {
        assert(s.take(i) =~= s);
        assert(s.skip(i) =~= Seq::<JsonView>::empty());
    }
}

/// The size of the entries from `i` on.
pub proof fn lemma_entries_size_split(s: Seq<(Seq<char>, JsonView)>, i: int)
    requires
        0 <= i <= s.len(),
    ensures
        entries_size(s) == entries_size(s.take(i)) + entries_size(s.skip(i)),
    decreases s.len(),
{
    if i < s.len() {
        lemma_entries_size_split(s.drop_last(), i);
        assert(s.drop_last().take(i) =~= s.take(i));
        assert(s.skip(i).drop_last() =~= s.drop_last().skip(i));
        assert(s.skip(i).last() == s.last());
    } else {
        assert(s.take(i) =~= s);
        assert(s.skip(i) =~= Seq::<(Seq<char>, JsonView)>::empty());
    }
}

/// Dropping the first item takes away its size.
pub proof fn lemma_items_size_first(s: Seq<JsonView>)
    requires
        s.len() > 0,
    ensures
        items_size(s) == json_size(s[0]) + items_size(s.skip(1)),
{
    lemma_items_size_split(s, 1);
    let t = s.take(1);
    assert(t.drop_last() =~= Seq::<JsonView>::empty());
    assert(t.last() == s[0]);
    assert(items_size(t) == items_size(t.drop_last()) + json_size(t.last()));
}

/// Dropping the first entry takes away its size and its key's.
pub proof fn lemma_entries_size_first(s: Seq<(Seq<char>, JsonView)>)
    requires
        s.len() > 0,
    ensures
        entries_size(s) == 1 + json_size(s[0].1) + entries_size(s.skip(1)),
{
    lemma_entries_size_split(s, 1);
    let t = s.take(1);
    assert(t.drop_last() =~= Seq::<(Seq<char>, JsonView)>::empty());
    assert(t.last() == s[0]);
    assert(entries_size(t) == entries_size(t.drop_last()) + 1 + json_size(t.last().1));
}

// ─── Copies ───────────────────────────────────────────────────────────────────

impl JsonValue {
    /// A copy of this value.
    pub fn deep_copy(&self) -> (r: JsonValue)
        ensures
            r@ == self@,
        decreases self,
    {
        match self {
            JsonValue::Null => JsonValue::Null,
            JsonValue::Bool(b) => JsonValue::Bool(*b),
            JsonValue::Number(n) => JsonValue::Number(*n),
            JsonValue::String(s) => JsonValue::String(s.clone()),
            JsonValue::Array(items) => JsonValue::Array(copy_json_items(items)),
            JsonValue::Object(es) => JsonValue::Object(copy_json_entries(es)),
        }
    }
}

/// Copies of the items of an array.
fn copy_json_items(items: &Vec<JsonValue>) -> (r: Vec<JsonValue>)
    ensures
        json_items_view(r@) == json_items_view(items@),
    decreases items,
{
    let mut r: Vec<JsonValue> = Vec::new();
    let mut i: usize = 0;
    while i < items.len()
        invariant
            i <= items@.len(),
            r@.len() == i,
            forall|j: int| 0 <= j < i ==> json_view(#[trigger] r@[j]) == json_view(items@[j]),
        decreases items@.len() - i,
    {
        proof {
            assert(decreases_to!(items => items@[i as int]));
        }
        let v = items[i].deep_copy();
        r.push(v);
        i = i + 1;
    }
    proof {
        lemma_json_items_view_index(r@);
        lemma_json_items_view_index(items@);
        assert(json_items_view(r@) =~= json_items_view(items@));
    }
    r
}

/// Copies of the entries of an object.
fn copy_json_entries(es: &Vec<(String, JsonValue)>) -> (r: Vec<(String, JsonValue)>)
    ensures
        json_entries_view(r@) == json_entries_view(es@),
    decreases es,
{
    let mut r: Vec<(String, JsonValue)> = Vec::new();
    let mut i: usize = 0;
    while i < es.len()
        invariant
            i <= es@.len(),
            r@.len() == i,
            forall|j: int|
                0 <= j < i ==> (#[trigger] r@[j]).0@ == es@[j].0@
                    && json_view(r@[j].1) == json_view(es@[j].1),
        decreases es@.len() - i,
    {
        proof {
            assert(decreases_to!(es => es@[i as int]));
            assert(decreases_to!(es@[i as int] => es@[i as int].1));
        }
        let k = es[i].0.clone();
        let v = es[i].1.deep_copy();
        r.push((k, v));
        i = i + 1;
    }
    proof {
        lemma_json_entries_view_index(r@);
        lemma_json_entries_view_index(es@);
        assert(json_entries_view(r@) =~= json_entries_view(es@));
    }
    r
}

// ─── Reading values as numbers, strings and containers ───────────────────────

/// A number of an integer: non-negative ones as `PosInt`, negative ones as `NegInt`.
pub open spec fn number_of_int(n: int) -> JsonNumber {
    if n < 0 {
        JsonNumber::NegInt(n as i64)
    } else {
        JsonNumber::PosInt(n as u64)
    }
}

/// The value as an `i64`, when it is an integer that fits.
pub open spec fn json_as_i64(v: JsonView) -> Option<i64> {
    match v {
        JsonView::Number(JsonNumber::PosInt(u)) => if u <= i64::MAX { Some(u as i64) } else { None },
        JsonView::Number(JsonNumber::NegInt(i)) => Some(i),
        _ => None,
    }
}

/// The value as a `u64`, when it is a non-negative integer.
pub open spec fn json_as_u64(v: JsonView) -> Option<u64> {
    match v {
        JsonView::Number(JsonNumber::PosInt(u)) => Some(u),
        _ => None,
    }
}

pub open spec fn json_as_bool(v: JsonView) -> Option<bool> {
    match v {
        JsonView::Bool(b) => Some(b),
        _ => None,
    }
}

pub open spec fn json_as_str(v: JsonView) -> Option<Seq<char>> {
    match v {
        JsonView::String(s) => Some(s),
        _ => None,
    }
}

impl JsonNumber {
    /// The number of an `i64`.
    pub fn from_i64(n: i64) -> (r: JsonNumber)
        ensures
            r == number_of_int(n as int),
    {
        if n < 0 {
            JsonNumber::NegInt(n)
        } else {
            JsonNumber::PosInt(n as u64)
        }
    }
}

impl JsonValue {
    pub fn as_i64(&self) -> (r: Option<i64>)
        ensures
            r == json_as_i64(self@),
    {
        match self {
            JsonValue::Number(JsonNumber::PosInt(u)) => {
                if *u <= 0x7fff_ffff_ffff_ffffu64 {
                    Some(*u as i64)
                } else {
                    None
                }
            },
            JsonValue::Number(JsonNumber::NegInt(i)) => Some(*i),
            _ => None,
        }
    }

    pub fn as_u64(&self) -> (r: Option<u64>)
        ensures
            r == json_as_u64(self@),
    {
        match self {
            JsonValue::Number(JsonNumber::PosInt(u)) => Some(*u),
            _ => None,
        }
    }

    pub fn as_bool(&self) -> (r: Option<bool>)
        ensures
            r == json_as_bool(self@),
    {
        match self {
            JsonValue::Bool(b) => Some(*b),
            _ => None,
        }
    }

    /// The text of a string value; the empty text for any other value.
    pub fn str_or_empty(&self) -> (r: String)
        ensures
            r@ == match json_as_str(self@) {
                Some(s) => s,
                None => Seq::<char>::empty(),
            },
    {
        match self {
            JsonValue::String(s) => s.clone(),
            _ => String::new(),
        }
    }
}

// ─── Objects ──────────────────────────────────────────────────────────────────

/// Key order from position `i` on: code point by code point, a proper prefix
/// first. This is the byte order of the keys' UTF-8 text.
pub open spec fn key_lt_from(a: Seq<char>, b: Seq<char>, i: int) -> bool
    decreases a.len() - i,
{
    if i >= b.len() || i < 0 {
        false
    } else if i >= a.len() {
        true
    } else if (a[i] as u32) < (b[i] as u32) {
        true
    } else if a[i] == b[i] {
        key_lt_from(a, b, i + 1)
    } else {
        false
    }
}

/// Key `a` comes before key `b`.
pub open spec fn key_lt(a: Seq<char>, b: Seq<char>) -> bool {
    key_lt_from(a, b, 0)
}

/// The entries of an object, ordered by key, after setting key `k` to `v`:
/// an entry with that key is replaced, else one is added in its place.
pub open spec fn obj_insert(es: Seq<(Seq<char>, JsonView)>, k: Seq<char>, v: JsonView) -> Seq<(Seq<char>, JsonView)>
    decreases es.len(),
{
    if es.len() == 0 {
        seq![(k, v)]
    } else if es[0].0 == k {
        seq![(k, v)] + es.skip(1)
    } else if key_lt(k, es[0].0) {
        seq![(k, v)] + es
    } else {
        seq![es[0]] + obj_insert(es.skip(1), k, v)
    }
}

/// Whether key `a` comes before key `b`.
fn key_before(a: &Vec<char>, b: &Vec<char>) -> (r: bool)
    ensures
        r == key_lt(a@, b@),
{
    let mut i: usize = 0;
    while i < a.len() && i < b.len() && a[i] == b[i]
        invariant
            i <= a@.len(),
            i <= b@.len(),
            key_lt(a@, b@) == key_lt_from(a@, b@, i as int),
        decreases a@.len() - i,
    {
        i = i + 1;
    }
    if i >= b.len() {
        false
    } else if i >= a.len() {
        true
    } else {
        (a[i] as u32) < (b[i] as u32)
    }
}

/// No key comes before itself.
pub(crate) proof fn lemma_key_lt_irreflexive(a: Seq<char>, i: int)
    ensures
        !key_lt_from(a, a, i),
    decreases a.len() - i,
{
    if 0 <= i < a.len() {
        lemma_key_lt_irreflexive(a, i + 1);
    }
}

/// Setting a key past entries that all come before it.
proof fn lemma_obj_insert_skip(es: Seq<(Seq<char>, JsonView)>, i: int, k: Seq<char>, v: JsonView)
    requires
        0 <= i <= es.len(),
        forall|j: int| 0 <= j < i ==> (#[trigger] es[j]).0 != k && !key_lt(k, es[j].0),
    ensures
        obj_insert(es, k, v) == es.take(i) + obj_insert(es.skip(i), k, v),
    decreases i,
{
    if i == 0 {
        assert(es.take(0) + obj_insert(es.skip(0), k, v) =~= obj_insert(es, k, v)) by {
            assert(es.skip(0) =~= es);
        }
    } else {
        let t = es.skip(1);
        assert forall|j: int| 0 <= j < i - 1 implies (#[trigger] t[j]).0 != k && !key_lt(k, t[j].0) by {
            assert(t[j] == es[j + 1]);
        }
        lemma_obj_insert_skip(t, i - 1, k, v);
        assert(t.skip(i - 1) =~= es.skip(i));
        assert(es.take(i) =~= seq![es[0]] + t.take(i - 1));
        assert(obj_insert(es, k, v) == seq![es[0]] + obj_insert(t, k, v));
        assert(seq![es[0]] + (t.take(i - 1) + obj_insert(es.skip(i), k, v))
            =~= es.take(i) + obj_insert(es.skip(i), k, v));
    }
}

/// Sets key `k` of the object entries `es` to `v`.
pub fn object_insert(es: &mut Vec<(String, JsonValue)>, k: String, v: JsonValue)
    ensures
        json_entries_view(final(es)@) == obj_insert(json_entries_view(old(es)@), k@, v@),
{
    let ghost ev = json_entries_view(old(es)@);
    proof {
        lemma_json_entries_view_index(old(es)@);
    }
    let kc = chars_of(k.as_str());
    let mut i: usize = 0;
    let mut found = false;
    let mut before = false;
    while i < es.len()
        invariant
            i <= es@.len(),
            es@ == old(es)@,
            ev == json_entries_view(old(es)@),
            ev.len() == es@.len(),
            forall|j: int| 0 <= j < es@.len() ==> #[trigger] ev[j] == (es@[j].0@, json_view(es@[j].1)),
            kc@ == k@,
            forall|j: int| 0 <= j < i ==> (#[trigger] ev[j]).0 != k@ && !key_lt(k@, ev[j].0),
            found ==> i < es@.len() && ev[i as int].0 == k@,
            before ==> i < es@.len() && key_lt(k@, ev[i as int].0),
        ensures
            found || before || i == es@.len(),
        decreases es@.len() - i + (if found || before { 0int } else { 1int }),
    {
        let ec = chars_of(es[i].0.as_str());
        if ec.len() == kc.len() && es[i].0 == k {
            found = true;
            break;
        }
        if key_before(&kc, &ec) {
            before = true;
            break;
        }
        i = i + 1;
    }
    proof {
        lemma_obj_insert_skip(ev, i as int, k@, v@);
    }
    let ghost vv = v@;
    let ghost kv = k@;
    if found {
        let _ = es.remove(i);
        es.insert(i, (k, v));
        proof {
            assert(ev.skip(i as int).len() > 0);
            assert(obj_insert(ev.skip(i as int), kv, vv) == seq![(kv, vv)] + ev.skip(i as int).skip(1));
        }
    } else {
        es.insert(i, (k, v));
        proof {
            if before {
                lemma_key_lt_irreflexive(kv, 0);
                assert(obj_insert(ev.skip(i as int), kv, vv) == seq![(kv, vv)] + ev.skip(i as int));
            } else {
                assert(ev.skip(i as int).len() == 0);
            }
        }
    }
    proof {
        lemma_json_entries_view_index(es@);
        let target = obj_insert(ev, kv, vv);
        assert(json_entries_view(es@) =~= target);
    }
}

} // verus!
