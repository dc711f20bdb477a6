//! Big-endian integer layouts, UTF-8 text, and the calls into `byteorder`
//! and `String::from_utf8` that read and write them.

use byteorder::{BigEndian, ByteOrder};
use vstd::prelude::*;
use vstd::slice::slice_subrange;
use vstd::utf8::{decode_utf8, encode_utf8, valid_utf8};

verus! {

/// Big-endian bytes of a 16-bit value.
pub open spec fn be_u16_bytes(n: u16) -> Seq<u8> {
    seq![(n >> 8u16) as u8, n as u8]
}

/// Big-endian bytes of a 32-bit value.
pub open spec fn be_u32_bytes(n: u32) -> Seq<u8> {
    seq![(n >> 24u32) as u8, (n >> 16u32) as u8, (n >> 8u32) as u8, n as u8]
}

/// Big-endian bytes of a 64-bit value.
pub open spec fn be_u64_bytes(n: u64) -> Seq<u8> {
    seq![
        (n >> 56u64) as u8, (n >> 48u64) as u8, (n >> 40u64) as u8, (n >> 32u64) as u8,
        (n >> 24u64) as u8, (n >> 16u64) as u8, (n >> 8u64) as u8, n as u8,
    ]
}

/// The 16-bit value whose big-endian bytes start `s`.
pub open spec fn be_u16_value(s: Seq<u8>) -> u16 {
    ((s[0] as u16) << 8u16) | (s[1] as u16)
}

/// The 32-bit value whose big-endian bytes start `s`.
pub open spec fn be_u32_value(s: Seq<u8>) -> u32 {
    ((s[0] as u32) << 24u32) | ((s[1] as u32) << 16u32) | ((s[2] as u32) << 8u32) | (s[3] as u32)
}

/// The 64-bit value whose big-endian bytes start `s`.
pub open spec fn be_u64_value(s: Seq<u8>) -> u64 {
    ((s[0] as u64) << 56u64) | ((s[1] as u64) << 48u64) | ((s[2] as u64) << 40u64)
        | ((s[3] as u64) << 32u64) | ((s[4] as u64) << 24u64) | ((s[5] as u64) << 16u64)
        | ((s[6] as u64) << 8u64) | (s[7] as u64)
}

proof fn lemma_u16_parts(n: u16)
    ensures
        ((((n >> 8u16) as u8) as u16) << 8u16) | ((n as u8) as u16) == n,
{
    assert(((((n >> 8u16) as u8) as u16) << 8u16) | ((n as u8) as u16) == n) by (bit_vector);
}

proof fn lemma_u32_parts(n: u32)
    ensures
        ((((n >> 24u32) as u8) as u32) << 24u32) | ((((n >> 16u32) as u8) as u32) << 16u32)
            | ((((n >> 8u32) as u8) as u32) << 8u32) | ((n as u8) as u32) == n,
{
    assert(((((n >> 24u32) as u8) as u32) << 24u32) | ((((n >> 16u32) as u8) as u32) << 16u32)
        | ((((n >> 8u32) as u8) as u32) << 8u32) | ((n as u8) as u32) == n) by (bit_vector);
}

proof fn lemma_u64_parts(n: u64)
    ensures
        ((((n >> 56u64) as u8) as u64) << 56u64) | ((((n >> 48u64) as u8) as u64) << 48u64)
            | ((((n >> 40u64) as u8) as u64) << 40u64) | ((((n >> 32u64) as u8) as u64) << 32u64)
            | ((((n >> 24u64) as u8) as u64) << 24u64) | ((((n >> 16u64) as u8) as u64) << 16u64)
            | ((((n >> 8u64) as u8) as u64) << 8u64) | ((n as u8) as u64) == n,
{
    assert(((((n >> 56u64) as u8) as u64) << 56u64) | ((((n >> 48u64) as u8) as u64) << 48u64)
        | ((((n >> 40u64) as u8) as u64) << 40u64) | ((((n >> 32u64) as u8) as u64) << 32u64)
        | ((((n >> 24u64) as u8) as u64) << 24u64) | ((((n >> 16u64) as u8) as u64) << 16u64)
        | ((((n >> 8u64) as u8) as u64) << 8u64) | ((n as u8) as u64) == n) by (bit_vector);
}

/// Decoding the big-endian bytes of a value, followed by anything, gives the value.
pub proof fn lemma_be_u16_roundtrip(n: u16, rest: Seq<u8>)
    ensures
        be_u16_value(be_u16_bytes(n) + rest) == n,
{
    lemma_u16_parts(n);
}

/// Decoding the big-endian bytes of a value, followed by anything, gives the value.
pub proof fn lemma_be_u32_roundtrip(n: u32, rest: Seq<u8>)
    ensures
        be_u32_value(be_u32_bytes(n) + rest) == n,
{
    lemma_u32_parts(n);
}

/// Decoding the big-endian bytes of a value, followed by anything, gives the value.
pub proof fn lemma_be_u64_roundtrip(n: u64, rest: Seq<u8>)
    ensures
        be_u64_value(be_u64_bytes(n) + rest) == n,
{
    lemma_u64_parts(n);
}

/// Big-endian order: the first byte of a 16- or 32-bit value is its most
/// significant base-256 digit and the last its least significant one, both
/// when a value is written and when bytes are read as a value.
pub proof fn lemma_be_digit_order(n: u16, m: u32, s: Seq<u8>)
    ensures
        be_u16_bytes(n)[0] == n / 256,
        be_u16_bytes(n)[1] == n % 256,
        be_u32_bytes(m)[0] == m / 0x100_0000,
        be_u32_bytes(m)[1] == (m / 0x1_0000) % 256,
        be_u32_bytes(m)[2] == (m / 256) % 256,
        be_u32_bytes(m)[3] == m % 256,
        s.len() >= 2 ==> be_u16_value(s) / 256 == s[0] && be_u16_value(s) % 256 == s[1],
        s.len() >= 4 ==> {
            &&& be_u32_value(s) / 0x100_0000 == s[0]
            &&& (be_u32_value(s) / 0x1_0000) % 256 == s[1]
            &&& (be_u32_value(s) / 256) % 256 == s[2]
            &&& be_u32_value(s) % 256 == s[3]
        },
{
    assert(((n >> 8u16) as u8) as u16 == n / 256 && (n as u8) as u16 == n % 256) by (bit_vector);
    assert(((m >> 24u32) as u8) as u32 == m / 0x100_0000
        && ((m >> 16u32) as u8) as u32 == (m / 0x1_0000) % 256
        && ((m >> 8u32) as u8) as u32 == (m / 256) % 256
        && (m as u8) as u32 == m % 256) by (bit_vector);
    if s.len() >= 2 {
        let a = s[0];
        let b = s[1];
        let v = ((a as u16) << 8u16) | (b as u16);
        assert(v / 256 == a as u16 && v % 256 == b as u16) by (bit_vector)
            requires v == ((a as u16) << 8u16) | (b as u16);
    }
    if s.len() >= 4 {
        let a = s[0];
        let b = s[1];
        let c = s[2];
        let d = s[3];
        let v = ((a as u32) << 24u32) | ((b as u32) << 16u32) | ((c as u32) << 8u32) | (d as u32);
        assert(v / 0x100_0000 == a as u32 && (v / 0x1_0000) % 256 == b as u32
            && (v / 256) % 256 == c as u32 && v % 256 == d as u32) by (bit_vector)
            requires v == ((a as u32) << 24u32) | ((b as u32) << 16u32) | ((c as u32) << 8u32) | (d as u32);
    }
}

/// Reinterpreting a signed value's bits as unsigned and back gives the value.
pub proof fn lemma_signed_casts(a: i16, b: i32, c: i64)
    ensures
        (a as u16) as i16 == a,
        (b as u32) as i32 == b,
        (c as u64) as i64 == c,
{
    assert((a as u16) as i16 == a) by (bit_vector);
    assert((b as u32) as i32 == b) by (bit_vector);
    assert((c as u64) as i64 == c) by (bit_vector);
}

/// `BigEndian::read_u16` of byteorder: the first two bytes of `buf`, most
/// significant first. It panics on a shorter buffer.
#[verifier::external_body]
fn byteorder_read_u16(buf: &[u8]) -> (r: u16)
    requires
        buf@.len() >= 2,
    ensures
        r == be_u16_value(buf@),
{
    BigEndian::read_u16(buf)
}

/// `BigEndian::read_u32` of byteorder: the first four bytes of `buf`, most
/// significant first. It panics on a shorter buffer.
#[verifier::external_body]
fn byteorder_read_u32(buf: &[u8]) -> (r: u32)
    requires
        buf@.len() >= 4,
    ensures
        r == be_u32_value(buf@),
{
    BigEndian::read_u32(buf)
}

/// `BigEndian::read_u64` of byteorder: the first eight bytes of `buf`, most
/// significant first. It panics on a shorter buffer.
#[verifier::external_body]
fn byteorder_read_u64(buf: &[u8]) -> (r: u64)
    requires
        buf@.len() >= 8,
    ensures
        r == be_u64_value(buf@),
{
    BigEndian::read_u64(buf)
}

/// `BigEndian::write_u16` of byteorder into a two-byte buffer, whose bytes are
/// then appended to `out`: they are `n`, most significant byte first.
#[verifier::external_body]
fn byteorder_write_u16(out: &mut Vec<u8>, n: u16)
    ensures
        final(out)@ == old(out)@ + be_u16_bytes(n),
{
    let mut buf = [0u8; 2];
    BigEndian::write_u16(&mut buf, n);
    out.extend_from_slice(&buf);
}

/// `BigEndian::write_u32` of byteorder into a four-byte buffer, whose bytes are
/// then appended to `out`: they are `n`, most significant byte first.
#[verifier::external_body]
fn byteorder_write_u32(out: &mut Vec<u8>, n: u32)
    ensures
        final(out)@ == old(out)@ + be_u32_bytes(n),
{
    let mut buf = [0u8; 4];
    BigEndian::write_u32(&mut buf, n);
    out.extend_from_slice(&buf);
}

/// `BigEndian::write_u64` of byteorder into an eight-byte buffer, whose bytes
/// are then appended to `out`: they are `n`, most significant byte first.
#[verifier::external_body]
fn byteorder_write_u64(out: &mut Vec<u8>, n: u64)
    ensures
        final(out)@ == old(out)@ + be_u64_bytes(n),
{
    let mut buf = [0u8; 8];
    BigEndian::write_u64(&mut buf, n);
    out.extend_from_slice(&buf);
}

/// `String::from_utf8`: the text that `bytes` encode, when they are valid UTF-8.
#[verifier::external_body]
pub(crate) fn string_from_utf8(bytes: Vec<u8>) -> (r: Option<String>)
    ensures
        r is Some <==> valid_utf8(bytes@),
        r matches Some(s) ==> s@ == decode_utf8(bytes@),
{
    String::from_utf8(bytes).ok()
}

/// The big-endian 16-bit value at `pos`, if two bytes remain there.
pub fn read_u16_at(data: &Vec<u8>, pos: usize) -> (r: Option<u16>)
    requires
        pos <= data@.len(),
    ensures
        r is Some <==> data@.len() - pos >= 2,
        r matches Some(v) ==> v == be_u16_value(data@.skip(pos as int)),
{
    if data.len() - pos < 2 {
        None
    } else {
        let s = slice_subrange(data.as_slice(), pos, pos + 2);
        let v = byteorder_read_u16(s);
        Some(v)
    }
}

/// The big-endian 32-bit value at `pos`, if four bytes remain there.
pub fn read_u32_at(data: &Vec<u8>, pos: usize) -> (r: Option<u32>)
    requires
        pos <= data@.len(),
    ensures
        r is Some <==> data@.len() - pos >= 4,
        r matches Some(v) ==> v == be_u32_value(data@.skip(pos as int)),
{
    if data.len() - pos < 4 {
        None
    } else {
        let s = slice_subrange(data.as_slice(), pos, pos + 4);
        let v = byteorder_read_u32(s);
        Some(v)
    }
}

/// The big-endian 64-bit value at `pos`, if eight bytes remain there.
pub fn read_u64_at(data: &Vec<u8>, pos: usize) -> (r: Option<u64>)
    requires
        pos <= data@.len(),
    ensures
        r is Some <==> data@.len() - pos >= 8,
        r matches Some(v) ==> v == be_u64_value(data@.skip(pos as int)),
{
    if data.len() - pos < 8 {
        None
    } else {
        let s = slice_subrange(data.as_slice(), pos, pos + 8);
        let v = byteorder_read_u64(s);
        Some(v)
    }
}

/// Appends the big-endian bytes of `n`.
pub fn write_u16(out: &mut Vec<u8>, n: u16)
    ensures
        final(out)@ == old(out)@ + be_u16_bytes(n),
{
    byteorder_write_u16(out, n);
}

/// Appends the big-endian bytes of `n`.
pub fn write_u32(out: &mut Vec<u8>, n: u32)
    ensures
        final(out)@ == old(out)@ + be_u32_bytes(n),
{
    byteorder_write_u32(out, n);
}

/// Appends the big-endian bytes of `n`.
pub fn write_u64(out: &mut Vec<u8>, n: u64)
    ensures
        final(out)@ == old(out)@ + be_u64_bytes(n),
{
    byteorder_write_u64(out, n);
}

/// The `len` bytes at `pos`, copied.
pub fn copy_bytes(data: &Vec<u8>, pos: usize, len: usize) -> (r: Vec<u8>)
    requires
        pos <= data@.len(),
        len <= data@.len() - pos,
    ensures
        r@ == data@.subrange(pos as int, pos + len),
{
    let n = data.len();
    assert(pos + len <= n);
    let s = slice_subrange(data.as_slice(), pos, pos + len);
    vstd::slice::slice_to_vec(s)
}

/// A byte buffer being read from front to back.
pub struct ByteReader {
    data: Vec<u8>,
    pos: usize,
}

impl ByteReader {
    #[verifier::type_invariant]
    spec fn inv(self) -> bool {
        self.pos <= self.data@.len()
    }

    /// The bytes not read yet.
    pub closed spec fn rest(self) -> Seq<u8> {
        self.data@.skip(self.pos as int)
    }

    pub fn new(data: Vec<u8>) -> (r: Self)
        ensures
            r.rest() == data@,
    {
        let r = ByteReader { data, pos: 0 };
        assert(r.rest() =~= r.data@);
        r
    }

    /// How many bytes remain.
    pub fn rest_len(&self) -> (n: usize)
        ensures
            n == self.rest().len(),
    {
        proof { use_type_invariant(self); }
        self.data.len() - self.pos
    }

    /// Consumes `n` bytes.
    pub fn advance(&mut self, n: usize)
        requires
            n <= old(self).rest().len(),
        ensures
            final(self).rest() == old(self).rest().skip(n as int),
    {
        proof { use_type_invariant(&*self); }
        let ghost before = self.rest();
        let total = self.data.len();
        assert(before.len() == total - self.pos);
        self.pos = self.pos + n;
        assert(self.rest() =~= before.skip(n as int));
    }

    /// The byte `at` bytes ahead, if there is one.
    pub fn peek_u8(&self, at: usize) -> (r: Option<u8>)
        ensures
            r is Some <==> at < self.rest().len(),
            r matches Some(b) ==> b == self.rest()[at as int],
    {
        proof { use_type_invariant(self); }
        if at < self.data.len() - self.pos {
            Some(self.data[self.pos + at])
        } else {
            None
        }
    }

    /// The big-endian 16-bit value `at` bytes ahead, if two bytes are there.
    pub fn peek_u16(&self, at: usize) -> (r: Option<u16>)
        ensures
            r is Some <==> at <= self.rest().len() && self.rest().len() - at >= 2,
            r matches Some(v) ==> v == be_u16_value(self.rest().skip(at as int)),
    {
        proof { use_type_invariant(self); }
        if at > self.data.len() - self.pos {
            return None;
        }
        proof { assert(self.data@.skip(self.pos + at) =~= self.rest().skip(at as int)); }
        read_u16_at(&self.data, self.pos + at)
    }

    /// The big-endian 32-bit value `at` bytes ahead, if four bytes are there.
    pub fn peek_u32(&self, at: usize) -> (r: Option<u32>)
        ensures
            r is Some <==> at <= self.rest().len() && self.rest().len() - at >= 4,
            r matches Some(v) ==> v == be_u32_value(self.rest().skip(at as int)),
    {
        proof { use_type_invariant(self); }
        if at > self.data.len() - self.pos {
            return None;
        }
        proof { assert(self.data@.skip(self.pos + at) =~= self.rest().skip(at as int)); }
        read_u32_at(&self.data, self.pos + at)
    }

    /// The big-endian 64-bit value `at` bytes ahead, if eight bytes are there.
    pub fn peek_u64(&self, at: usize) -> (r: Option<u64>)
        ensures
            r is Some <==> at <= self.rest().len() && self.rest().len() - at >= 8,
            r matches Some(v) ==> v == be_u64_value(self.rest().skip(at as int)),
    {
        proof { use_type_invariant(self); }
        if at > self.data.len() - self.pos {
            return None;
        }
        proof { assert(self.data@.skip(self.pos + at) =~= self.rest().skip(at as int)); }
        read_u64_at(&self.data, self.pos + at)
    }

    /// A copy of the `len` bytes `at` bytes ahead.
    pub fn peek_bytes(&self, at: usize, len: usize) -> (r: Vec<u8>)
        requires
            at <= self.rest().len(),
            len <= self.rest().len() - at,
        ensures
            r@ == self.rest().subrange(at as int, at + len),
    {
        proof { use_type_invariant(self); }
        let total = self.data.len();
        assert(self.rest().len() == total - self.pos);
        let r = copy_bytes(&self.data, self.pos + at, len);
        assert(r@ =~= self.rest().subrange(at as int, at + len));
        r
    }
}

/// The UTF-8 bytes of a string.
pub fn str_bytes(s: &str) -> (r: &[u8])
    ensures
        r@ == encode_utf8(s@),
{
    s.as_bytes()
}

} // verus!
