//! Finding where a Binary-protocol struct body ends in bytes that arrive a
//! piece at a time, so that a whole message can be gathered before it is
//! decoded.
//!
//! Given the bytes received so far, the extent of a value is either its
//! length, a sign that more bytes are needed, or the unknown type tag that
//! stopped the walk. Bytes are walked in the order they arrive, so the answer
//! for a prefix is the answer that reading the stream would reach first.

use vstd::prelude::*;
use super::wire::{be_u32_value, read_u32_at};

verus! {

/// How far a value reaches in the bytes at hand.
#[derive(Debug, Clone, Copy, PartialEq, Eq, Structural)]
pub enum BufferedExtent {
    /// The value takes this many bytes.
    Complete(usize),
    /// The bytes end before the value does.
    Incomplete,
    /// A type tag that no value has.
    UnknownType(u8),
}

pub enum ExtentView {
    Complete(nat),
    Incomplete,
    UnknownType(u8),
}

impl View for BufferedExtent {
    type V = ExtentView;

    open spec fn view(&self) -> ExtentView {
        match *self {
            BufferedExtent::Complete(n) => ExtentView::Complete(n as nat),
            BufferedExtent::Incomplete => ExtentView::Incomplete,
            BufferedExtent::UnknownType(t) => ExtentView::UnknownType(t),
        }
    }
}

/// `k` more bytes before an extent.
pub open spec fn shift(k: nat, e: ExtentView) -> ExtentView {
    match e {
        ExtentView::Complete(m) => ExtentView::Complete(k + m),
        _ => e,
    }
}

/// A value of `k` bytes.
pub open spec fn fixed(s: Seq<u8>, k: nat) -> ExtentView {
    if s.len() >= k { ExtentView::Complete(k) } else { ExtentView::Incomplete }
}

/// The extent of a value of type tag `t` at the start of `s`.
pub open spec fn value_extent(s: Seq<u8>, t: u8) -> ExtentView
    decreases s.len(), 2int,
{
    if t == 2 || t == 3 {
        fixed(s, 1)
    } else if t == 6 {
        fixed(s, 2)
    } else if t == 8 {
        fixed(s, 4)
    } else if t == 10 || t == 4 {
        fixed(s, 8)
    } else if t == 11 {
        if s.len() < 4 {
            ExtentView::Incomplete
        } else {
            fixed(s, (4 + be_u32_value(s)) as nat)
        }
    } else if t == 12 {
        struct_extent(s)
    } else if t == 13 {
        if s.len() < 6 {
            ExtentView::Incomplete
        } else {
            shift(6, elems_extent(s.skip(6), s[0], s[1], 2 * (be_u32_value(s.skip(2)) as i32)))
        }
    } else if t == 15 || t == 14 {
        if s.len() < 5 {
            ExtentView::Incomplete
        } else {
            shift(5, elems_extent(s.skip(5), s[0], s[0], be_u32_value(s.skip(1)) as i32 as int))
        }
    } else {
        ExtentView::UnknownType(t)
    }
}

/// The extent of `n` values at the start of `s`, of types `t1`, `t2`, `t1`, ...
/// in turn; none when `n` is not positive.
pub open spec fn elems_extent(s: Seq<u8>, t1: u8, t2: u8, n: int) -> ExtentView
    decreases s.len(), n + 3,
{
    if n <= 0 {
        ExtentView::Complete(0)
    } else {
        match value_extent(s, t1) {
            ExtentView::Complete(m) => if m <= s.len() {
                shift(m, elems_extent(s.skip(m as int), t2, t1, n - 1))
            } else {
                ExtentView::Incomplete
            },
            e => e,
        }
    }
}

/// The extent of a struct body at the start of `s`: fields, each a type tag,
/// a two-byte id and a value, up to and with the stop tag `0`.
pub open spec fn struct_extent(s: Seq<u8>) -> ExtentView
    decreases s.len(), 1int,
{
    if s.len() == 0 {
        ExtentView::Incomplete
    } else if s[0] == 0 {
        ExtentView::Complete(1)
    } else if s.len() < 3 {
        ExtentView::Incomplete
    } else {
        match value_extent(s.skip(3), s[0]) {
            ExtentView::Complete(m) => if 3 + m <= s.len() {
                shift(3 + m, struct_extent(s.skip(3 + m as int)))
            } else {
                ExtentView::Incomplete
            },
            e => e,
        }
    }
}

/// A value's extent never reaches past the bytes at hand.
pub proof fn lemma_extent_within(s: Seq<u8>, t: u8)
    ensures
        value_extent(s, t) matches ExtentView::Complete(m) ==> m <= s.len(),
        struct_extent(s) matches ExtentView::Complete(m) ==> 1 <= m <= s.len(),
    decreases s.len(), 3int,
{
    lemma_value_within(s, t);
    lemma_struct_within(s);
}

proof fn lemma_value_within(s: Seq<u8>, t: u8)
    ensures
        value_extent(s, t) matches ExtentView::Complete(m) ==> m <= s.len(),
    decreases s.len(), 2int,
{
    if t == 12 {
        lemma_struct_within(s);
    } else if t == 13 {
        if s.len() >= 6 {
            lemma_elems_within(s.skip(6), s[0], s[1], 2 * (be_u32_value(s.skip(2)) as i32));
        }
    } else if t == 15 || t == 14 {
        if s.len() >= 5 {
            lemma_elems_within(s.skip(5), s[0], s[0], be_u32_value(s.skip(1)) as i32 as int);
        }
    }
}

proof fn lemma_elems_within(s: Seq<u8>, t1: u8, t2: u8, n: int)
    ensures
        elems_extent(s, t1, t2, n) matches ExtentView::Complete(m) ==> m <= s.len(),
    decreases s.len(), n + 3,
{
    if n > 0 {
        lemma_value_within(s, t1);
        if let ExtentView::Complete(m) = value_extent(s, t1) {
            if m <= s.len() {
                lemma_elems_within(s.skip(m as int), t2, t1, n - 1);
            }
        }
    }
}

proof fn lemma_struct_within(s: Seq<u8>)
    ensures
        struct_extent(s) matches ExtentView::Complete(m) ==> 1 <= m <= s.len(),
    decreases s.len(), 1int,
{
    if s.len() >= 3 && s[0] != 0 {
        if let ExtentView::Complete(m) = value_extent(s.skip(3), s[0]) {
            if 3 + m <= s.len() {
                lemma_struct_within(s.skip(3 + m as int));
            }
        }
    }
}

// ─── Walking the bytes ───────────────────────────────────────────────────────

/// A value of `k` bytes at `pos`.
fn fixed_at(data: &Vec<u8>, pos: usize, k: usize) -> (r: BufferedExtent)
    requires
        pos <= data@.len(),
    ensures
        r@ == fixed(data@.skip(pos as int), k as nat),
{
    if data.len() - pos >= k { BufferedExtent::Complete(k) } else { BufferedExtent::Incomplete }
}

/// The extent of a value of type tag `t` at `pos`.
pub fn buffered_value_extent(data: &Vec<u8>, pos: usize, t: u8) -> (r: BufferedExtent)
    requires
        pos <= data@.len(),
    ensures
        r@ == value_extent(data@.skip(pos as int), t),
    decreases data@.len() - pos, 2int,
{
    let ghost s = data@.skip(pos as int);
    if t == 2 || t == 3 {
        fixed_at(data, pos, 1)
    } else if t == 6 {
        fixed_at(data, pos, 2)
    } else if t == 8 {
        fixed_at(data, pos, 4)
    } else if t == 10 || t == 4 {
        fixed_at(data, pos, 8)
    } else if t == 11 {
        match read_u32_at(data, pos) {
            None => BufferedExtent::Incomplete,
            Some(n) => {
                let avail = data.len() - pos;
                if avail < 4 || n as usize > avail - 4 {
                    BufferedExtent::Incomplete
                } else {
                    BufferedExtent::Complete(4 + n as usize)
                }
            },
        }
    } else if t == 12 {
        buffered_struct_body_extent(data, pos)
    } else if t == 13 {
        if data.len() - pos < 6 {
            return BufferedExtent::Incomplete;
        }
        let kt = data[pos];
        let vt = data[pos + 1];
        let size = match read_u32_at(data, pos + 2) {
            Some(n) => n,
            None => return BufferedExtent::Incomplete,
        };
        proof {
            assert(data@.skip(pos + 2) =~= s.skip(2));
        }
        let n: i64 = 2 * (size as i32 as i64);
        let e = buffered_elems_extent(data, pos + 6, kt, vt, n);
        proof {
            assert(data@.skip(pos + 6) =~= s.skip(6));
        }
        match e {
            BufferedExtent::Complete(m) => BufferedExtent::Complete(6 + m),
            other => other,
        }
    } else if t == 15 || t == 14 {
        if data.len() - pos < 5 {
            return BufferedExtent::Incomplete;
        }
        let et = data[pos];
        let size = match read_u32_at(data, pos + 1) {
            Some(n) => n,
            None => return BufferedExtent::Incomplete,
        };
        proof {
            assert(data@.skip(pos + 1) =~= s.skip(1));
        }
        let e = buffered_elems_extent(data, pos + 5, et, et, size as i32 as i64);
        proof {
            assert(data@.skip(pos + 5) =~= s.skip(5));
        }
        match e {
            BufferedExtent::Complete(m) => BufferedExtent::Complete(5 + m),
            other => other,
        }
    } else {
        BufferedExtent::UnknownType(t)
    }
}

/// The extent of `n` values at `pos`, of types `t1`, `t2`, `t1`, ... in turn.
fn buffered_elems_extent(data: &Vec<u8>, pos: usize, t1: u8, t2: u8, n: i64) -> (r: BufferedExtent)
    requires
        pos <= data@.len(),
    ensures
        r@ == elems_extent(data@.skip(pos as int), t1, t2, n as int),
        r matches BufferedExtent::Complete(m) ==> pos + m <= data@.len(),
    decreases data@.len() - pos, n + 3,
{
    let mut p: usize = pos;
    let mut k: i64 = n;
    let mut a: u8 = t1;
    let mut b: u8 = t2;
    while k > 0
        invariant
            pos <= p <= data@.len(),
            k <= n,
            elems_extent(data@.skip(pos as int), t1, t2, n as int)
                == shift((p - pos) as nat, elems_extent(data@.skip(p as int), a, b, k as int)),
        decreases data@.len() - p, k,
    {
        let ghost s = data@.skip(p as int);
        proof {
            lemma_value_within(s, a);
        }
        let e = buffered_value_extent(data, p, a);
        match e {
            BufferedExtent::Complete(m) => {
                proof {
                    assert(e@ == ExtentView::Complete(m as nat));
                    assert(m <= s.len());
                }
                let avail = data.len() - p;
                assert(m <= avail);
                proof {
                    assert(s.skip(m as int) =~= data@.skip(p + m));
                }
                p = p + m;
                k = k - 1;
                let c = a;
                a = b;
                b = c;
            },
            other => {
                return other;
            },
        }
    }
    proof {
        lemma_elems_within(data@.skip(pos as int), t1, t2, n as int);
    }
    BufferedExtent::Complete(p - pos)
}

/// The extent of a struct body at `pos`: its fields and the stop tag.
pub fn buffered_struct_body_extent(data: &Vec<u8>, pos: usize) -> (r: BufferedExtent)
    requires
        pos <= data@.len(),
    ensures
        r@ == struct_extent(data@.skip(pos as int)),
    decreases data@.len() - pos, 1int,
{
    let mut p: usize = pos;
    while p < data.len() && data[p] != 0
        invariant
            pos <= p <= data@.len(),
            struct_extent(data@.skip(pos as int)) == shift((p - pos) as nat, struct_extent(data@.skip(p as int))),
        decreases data@.len() - p,
    {
        let ghost s = data@.skip(p as int);
        if data.len() - p < 3 {
            return BufferedExtent::Incomplete;
        }
        proof {
            assert(data@.skip(p + 3) =~= s.skip(3));
            lemma_value_within(s.skip(3), s[0]);
        }
        match buffered_value_extent(data, p + 3, data[p]) {
            BufferedExtent::Complete(m) => {
                proof {
                    assert(s.skip(3 + m) =~= data@.skip(p + 3 + m));
                }
                p = p + 3 + m;
            },
            other => {
                return other;
            },
        }
    }
    if p >= data.len() {
        return BufferedExtent::Incomplete;
    }
    BufferedExtent::Complete(p - pos + 1)
}


// ─── JSON messages ────────────────────────────────────────────────────────────

/// Where the scan of a JSON message stands: whether its opening bracket was
/// seen, how many brackets are open, and whether it is inside a string (just
/// after a backslash there).
#[derive(Debug, Clone, Copy, PartialEq, Eq, Structural)]
pub struct JsonScan {
    pub started: bool,
    pub depth: u64,
    pub in_string: bool,
    pub escaped: bool,
}

/// What to do with a byte of a JSON message.
#[derive(Debug, Clone, Copy, PartialEq, Eq, Structural)]
pub enum ScanAction {
    /// Whitespace before the message: drop it.
    Skip,
    /// Part of the message, which goes on.
    Keep,
    /// The last byte of the message.
    Complete,
    /// The message does not start with `[` or `{`.
    NotJson,
}

/// `u8::is_ascii_whitespace`: space, tab, line feed, form feed, carriage return.
pub open spec fn ascii_white(b: u8) -> bool {
    b == 0x20 || b == 0x09 || b == 0x0a || b == 0x0c || b == 0x0d
}

/// The scan before any byte.
pub open spec fn scan_start() -> JsonScan {
    JsonScan { started: false, depth: 0, in_string: false, escaped: false }
}

/// One byte of the scan: brackets outside strings open and close levels, and
/// the message is complete when the first level closes.
pub open spec fn scan_step(st: JsonScan, b: u8) -> (JsonScan, ScanAction) {
    if !st.started {
        if ascii_white(b) {
            (st, ScanAction::Skip)
        } else if b == 0x5b || b == 0x7b {
            (JsonScan { started: true, depth: 1, ..st }, ScanAction::Keep)
        } else {
            (st, ScanAction::NotJson)
        }
    } else if st.in_string {
        if st.escaped {
            (JsonScan { escaped: false, ..st }, ScanAction::Keep)
        } else if b == 0x5c {
            (JsonScan { escaped: true, ..st }, ScanAction::Keep)
        } else if b == 0x22 {
            (JsonScan { in_string: false, ..st }, ScanAction::Keep)
        } else {
            (st, ScanAction::Keep)
        }
    } else if b == 0x22 {
        (JsonScan { in_string: true, ..st }, ScanAction::Keep)
    } else if b == 0x5b || b == 0x7b {
        if st.depth == u64::MAX {
            (st, ScanAction::NotJson)
        } else {
            (JsonScan { depth: (st.depth + 1) as u64, ..st }, ScanAction::Keep)
        }
    } else if b == 0x5d || b == 0x7d {
        let d: u64 = if st.depth > 0 { (st.depth - 1) as u64 } else { 0 };
        (JsonScan { depth: d, ..st }, if d == 0 { ScanAction::Complete } else { ScanAction::Keep })
    } else {
        (st, ScanAction::Keep)
    }
}

/// The states that a scan passes through before its message is complete.
pub open spec fn scan_ok(st: JsonScan) -> bool {
    &&& !st.started ==> st.depth == 0 && !st.in_string && !st.escaped
    &&& st.started ==> st.depth >= 1
    &&& st.escaped ==> st.in_string
}

impl JsonScan {
    /// The scan before any byte.
    pub fn new() -> (r: JsonScan)
        ensures
            r == scan_start(),
    {
        JsonScan { started: false, depth: 0, in_string: false, escaped: false }
    }

    /// Takes one byte of the message.
    pub fn step(self, b: u8) -> (r: (JsonScan, ScanAction))
        ensures
            r == scan_step(self, b),
    {
        if !self.started {
            if b == 0x20 || b == 0x09 || b == 0x0a || b == 0x0c || b == 0x0d {
                (self, ScanAction::Skip)
            } else if b == 0x5b || b == 0x7b {
                (JsonScan { started: true, depth: 1, ..self }, ScanAction::Keep)
            } else {
                (self, ScanAction::NotJson)
            }
        } else if self.in_string {
            if self.escaped {
                (JsonScan { escaped: false, ..self }, ScanAction::Keep)
            } else if b == 0x5c {
                (JsonScan { escaped: true, ..self }, ScanAction::Keep)
            } else if b == 0x22 {
                (JsonScan { in_string: false, ..self }, ScanAction::Keep)
            } else {
                (self, ScanAction::Keep)
            }
        } else if b == 0x22 {
            (JsonScan { in_string: true, ..self }, ScanAction::Keep)
        } else if b == 0x5b || b == 0x7b {
            if self.depth == u64::MAX {
                (self, ScanAction::NotJson)
            } else {
                (JsonScan { depth: self.depth + 1, ..self }, ScanAction::Keep)
            }
        } else if b == 0x5d || b == 0x7d {
            let d: u64 = if self.depth > 0 { self.depth - 1 } else { 0 };
            (JsonScan { depth: d, ..self }, if d == 0 { ScanAction::Complete } else { ScanAction::Keep })
        } else {
            (self, ScanAction::Keep)
        }
    }
}

/// A scan that goes on stays in a state it can go on from: before the
/// message nothing is open; once it starts, at least one bracket is open
/// until it completes; a backslash escape happens only inside a string.
pub proof fn lemma_scan_step_keeps_state(st: JsonScan, b: u8)
    requires
        scan_ok(st),
    ensures
        scan_step(st, b).1 == ScanAction::Skip || scan_step(st, b).1 == ScanAction::Keep
            ==> scan_ok(scan_step(st, b).0),
        scan_step(st, b).1 == ScanAction::Complete ==> st.started && !st.in_string && st.depth == 1,
        scan_step(st, b).1 == ScanAction::Skip ==> !st.started,
{
}

} // verus!
