//! Base-128 variable-length integers and the zigzag mapping between signed
//! and unsigned integers, as the Compact protocol uses them.

use super::types::{eof_error, invalid_data_error, IoErrorKind, ProtocolError};
use super::wire::ByteReader;
use vstd::prelude::*;

verus! {

/// Reads a base-128 integer from the front of `s`, least significant group
/// first, each byte but the last having its high bit set. At most
/// `max_bytes` bytes may be read: a further byte, where there is one, makes
/// the input malformed; an input that ends first is an early end of input.
/// The result is the integer and the number of bytes it took.
pub open spec fn varint_scan(s: Seq<u8>, max_bytes: nat) -> Result<(nat, int), ProtocolError>
    decreases max_bytes,
{
    if s.len() == 0 {
        Err(eof_error())
    } else if max_bytes == 0 {
        Err(invalid_data_error())
    } else if s[0] < 128 {
        Ok((s[0] as nat, 1))
    } else {
        match varint_scan(s.drop_first(), (max_bytes - 1) as nat) {
            Ok((v, n)) => Ok((((s[0] - 128) + 128 * v) as nat, n + 1)),
            Err(e) => Err(e),
        }
    }
}

/// A scan fails only by running out of input, or by finding more than
/// `max_bytes` bytes that all announce another: then they are all there.
pub proof fn lemma_varint_scan_errors(s: Seq<u8>, max_bytes: nat)
    ensures
        varint_scan(s, max_bytes) matches Err(e) ==> (e == eof_error() || (e == invalid_data_error() && s.len() > max_bytes)),
    decreases max_bytes,
{
    if s.len() > 0 && max_bytes > 0 && s[0] >= 128 {
        lemma_varint_scan_errors(s.drop_first(), (max_bytes - 1) as nat);
    }
}

/// The base-128 bytes of `u`: seven bits per byte, least significant first,
/// the high bit set on every byte but the last.
pub open spec fn varint_enc(u: nat) -> Seq<u8>
    decreases u,
{
    if u < 128 {
        seq![u as u8]
    } else {
        seq![((u % 128) + 128) as u8] + varint_enc(u / 128)
    }
}

/// 128 to the power `n`.
pub open spec fn pow128(n: nat) -> nat
    decreases n,
{
    if n == 0 { 1 } else { 128 * pow128((n - 1) as nat) }
}

/// Zigzag: 0, -1, 1, -2, 2, ... become 0, 1, 2, 3, 4, ...
pub open spec fn zigzag_enc(n: int) -> nat {
    if n >= 0 { (2 * n) as nat } else { (-2 * n - 1) as nat }
}

/// The inverse of `zigzag_enc`.
pub open spec fn zigzag_dec(u: nat) -> int {
    if u % 2 == 0 { (u / 2) as int } else { -((u + 1) / 2) }
}

/// The zigzag mapping undoes itself.
pub proof fn lemma_zigzag_roundtrip(n: int)
    ensures
        zigzag_dec(zigzag_enc(n)) == n,
{
}

/// A value below 2^32 maps to a 32-bit signed value, and one below 2^64
/// to a 64-bit one.
pub proof fn lemma_zigzag_dec_range(u: nat)
    ensures
        u < 0x1_0000_0000 ==> i32::MIN <= zigzag_dec(u) <= i32::MAX,
        u < 0x1_0000_0000_0000_0000 ==> i64::MIN <= zigzag_dec(u) <= i64::MAX,
{
}

/// A value under `128^max_bytes` takes between one and `max_bytes` bytes.
pub proof fn lemma_varint_enc_len(u: nat, max_bytes: nat)
    requires
        0 < max_bytes,
        u < pow128(max_bytes),
    ensures
        1 <= varint_enc(u).len() <= max_bytes,
    decreases u,
{
    if u >= 128 {
        let m = (max_bytes - 1) as nat;
        assert(pow128(max_bytes) == 128 * pow128(m));
        if m == 0 {
            assert(pow128(0) == 1);
        } else {
            lemma_varint_enc_len(u / 128, m);
        }
    }
}

/// A value of `max_bytes` base-128 digits or fewer is read back from its
/// bytes, whatever follows them.
pub proof fn lemma_varint_roundtrip(u: nat, max_bytes: nat, rest: Seq<u8>)
    requires
        0 < max_bytes,
        u < pow128(max_bytes),
    ensures
        varint_scan(varint_enc(u) + rest, max_bytes) == Ok::<(nat, int), ProtocolError>(
            (u, varint_enc(u).len() as int),
        ),
    decreases u,
{
    let s = varint_enc(u) + rest;
    if u < 128 {
        assert(varint_enc(u) == seq![u as u8]);
        assert(s[0] == u as u8);
    } else {
        let m = (max_bytes - 1) as nat;
        assert(pow128(max_bytes) == 128 * pow128(m));
        assert(u / 128 < pow128(m));
        assert(m > 0) by {
            if m == 0 {
                assert(pow128(0) == 1);
            }
        }
        lemma_varint_roundtrip(u / 128, m, rest);
        assert(varint_enc(u) == seq![((u % 128) + 128) as u8] + varint_enc(u / 128));
        assert(s.drop_first() =~= varint_enc(u / 128) + rest);
        assert(s[0] == ((u % 128) + 128) as u8);
        assert(s[0] - 128 == u % 128);
        assert((u % 128) + 128 * (u / 128) == u);
    }
}

/// The bytes of a value below 2^32 are five at most, and those of a value
/// below 2^64 ten at most.
pub proof fn lemma_pow128_bounds()
    ensures
        pow128(5) == 0x8_0000_0000,
        pow128(10) == 0x40_0000_0000_0000_0000,
{
    reveal_with_fuel(pow128, 11);
}

/// The result of a scan is below 128 to the power of its length.
pub proof fn lemma_varint_scan_bound(s: Seq<u8>, max_bytes: nat)
    ensures
        varint_scan(s, max_bytes) matches Ok((v, n)) ==> 1 <= n <= max_bytes && n <= s.len()
            && v < pow128(n as nat),
    decreases max_bytes,
{
    assert(pow128(1) == 128 * pow128(0));
    if s.len() > 0 && max_bytes > 0 && s[0] >= 128 {
        lemma_varint_scan_bound(s.drop_first(), (max_bytes - 1) as nat);
        if let Ok((v, n)) = varint_scan(s.drop_first(), (max_bytes - 1) as nat) {
            assert(pow128((n + 1) as nat) == 128 * pow128(n as nat));
            assert((s[0] - 128) + 128 * v < 128 * pow128(n as nat)) by (nonlinear_arith)
                requires
                    s[0] - 128 < 128,
                    v < pow128(n as nat),
                    0 <= s[0] - 128;
        }
    }
}

/// How a scan that starts `i` bytes in, after `i` continuation bytes whose
/// digits sum to `acc`, gives the scan of the whole.
pub open spec fn scan_from(r: Result<(nat, int), ProtocolError>, acc: nat, mult: nat, i: int) -> Result<(nat, int), ProtocolError> {
    match r {
        Ok((v, n)) => Ok(((acc + mult * v) as nat, n + i)),
        Err(e) => Err(e),
    }
}

/// Reads the base-128 integer `at` bytes ahead in `input`, taking at most
/// `max_bytes` bytes; gives the integer and the number of bytes it took.
pub fn peek_varint(input: &ByteReader, at: usize, max_bytes: usize) -> (r: Result<(u128, usize), ProtocolError>)
    requires
        at <= input.rest().len(),
        max_bytes <= 10,
    ensures
        match varint_scan(input.rest().skip(at as int), max_bytes as nat) {
            Ok((v, n)) => r matches Ok((x, m)) && x == v && m == n && at + n <= input.rest().len(),
            Err(e) => r == Err::<(u128, usize), ProtocolError>(e),
        },
{
    let ghost s = input.rest().skip(at as int);
    let total = input.rest_len();
    let mut acc: u128 = 0;
    let mut mult: u128 = 1;
    let mut i: usize = 0;
    proof {
        assert(s.skip(0) =~= s);
        reveal_with_fuel(pow128, 1);
        lemma_pow128_bounds();
    }
    loop
        invariant
            at <= input.rest().len(),
            total == input.rest().len(),
            s == input.rest().skip(at as int),
            max_bytes <= 10,
            i <= max_bytes,
            i <= s.len(),
            mult == pow128(i as nat),
            acc < mult,
            pow128(10) == 0x40_0000_0000_0000_0000,
            varint_scan(s, max_bytes as nat) == scan_from(
                varint_scan(s.skip(i as int), (max_bytes - i) as nat),
                acc as nat,
                mult as nat,
                i as int,
            ),
        decreases max_bytes - i,
    {
        proof { lemma_pow128_mono(i as nat, 10); }
        assert(at + i <= input.rest().len());
        let b = match input.peek_u8(at + i) {
            Some(b) => b,
            None => {
                proof { assert(s.skip(i as int).len() == 0); }
                return Err(ProtocolError::Io(IoErrorKind::UnexpectedEof));
            },
        };
        assert(s.skip(i as int)[0] == b);
        if i == max_bytes {
            return Err(ProtocolError::Io(IoErrorKind::InvalidData));
        }
        if b < 128 {
            proof {
                assert(acc + mult * (b as int) < mult * 128) by (nonlinear_arith)
                    requires b < 128, acc < mult;
            }
            let v = acc + mult * (b as u128);
            proof {
                lemma_pow128_mono((i + 1) as nat, 10);
                assert(mult * (b as u128) < mult * 128) by (nonlinear_arith)
                    requires b < 128, mult > 0;
                assert(pow128((i + 1) as nat) == 128 * pow128(i as nat));
                assert(s.skip(i as int).len() > 0);
            }
            return Ok((v, i + 1));
        }
        let ghost old_s = s.skip(i as int);
        let ghost old_acc = acc;
        let ghost old_mult = mult;
        proof {
            lemma_pow128_mono((i + 1) as nat, 10);
            assert(pow128((i + 1) as nat) == 128 * pow128(i as nat));
            assert(acc + mult * ((b - 128) as int) < mult * 128) by (nonlinear_arith)
                requires b >= 128, b - 128 < 128, mult > 0, acc < mult;
        }
        acc = acc + mult * ((b - 128) as u128);
        mult = mult * 128;
        i = i + 1;
        proof {
            assert(old_s.drop_first() =~= s.skip(i as int));
            let rest_scan = varint_scan(s.skip(i as int), (max_bytes - i) as nat);
            match rest_scan {
                Ok((v, n)) => {
                    assert(old_acc + old_mult * ((b - 128) + 128 * v)
                        == (old_acc + old_mult * (b - 128)) + (old_mult * 128) * v) by (nonlinear_arith);
                },
                Err(_) => {},
            }
        }
    }
}

/// 128 to a power is positive and grows with the power.
pub proof fn lemma_pow128_mono_pub(a: nat, b: nat)
    requires
        a <= b,
    ensures
        pow128(a) <= pow128(b),
        pow128(a) > 0,
{
    lemma_pow128_mono(a, b);
}

proof fn lemma_pow128_mono(a: nat, b: nat)
    requires
        a <= b,
    ensures
        pow128(a) <= pow128(b),
        pow128(a) > 0,
    decreases b,
{
    if a < b {
        lemma_pow128_mono(a, (b - 1) as nat);
    } else {
        lemma_pow128_pos(a);
    }
}

proof fn lemma_pow128_pos(a: nat)
    ensures
        pow128(a) > 0,
    decreases a,
{
    if a > 0 {
        lemma_pow128_pos((a - 1) as nat);
    }
}

/// Appends the base-128 bytes of `u`.
pub fn write_varint(out: &mut Vec<u8>, value: u64)
    ensures
        final(out)@ == old(out)@ + varint_enc(value as nat),
{
    let mut u = value;
    loop
        invariant
            out@ + varint_enc(u as nat) == old(out)@ + varint_enc(value as nat),
        decreases u,
    {
        if u < 128 {
            out.push(u as u8);
            proof { assert(out@ =~= old(out)@ + varint_enc(value as nat)); }
            return;
        }
        let ghost before = out@;
        let ghost cur = u;
        out.push(((u % 128) + 128) as u8);
        u = u / 128;
        proof {
            assert(varint_enc(cur as nat) == seq![((cur % 128) + 128) as u8] + varint_enc(u as nat));
            assert(out@ + varint_enc(u as nat) =~= before + varint_enc(cur as nat));
        }
    }
}

/// The zigzag image of a 32-bit value, `(n << 1) ^ (n >> 31)` in shifts.
pub fn zigzag_encode_i32(n: i32) -> (r: u32)
    ensures
        r as nat == zigzag_enc(n as int),
{
    if n >= 0 {
        (n as u32) * 2
    } else {
        ((-(n as i64)) * 2 - 1) as u32
    }
}

/// The zigzag image of a 64-bit value.
pub fn zigzag_encode_i64(n: i64) -> (r: u64)
    ensures
        r as nat == zigzag_enc(n as int),
{
    if n >= 0 {
        (n as u64) * 2
    } else {
        ((-(n as i128)) * 2 - 1) as u64
    }
}

/// The value whose zigzag image is `u`.
pub fn zigzag_decode_u32(u: u32) -> (r: i32)
    ensures
        r as int == zigzag_dec(u as nat),
{
    if u % 2 == 0 {
        (u / 2) as i32
    } else {
        (-((u / 2) as i64) - 1) as i32
    }
}

/// The value whose zigzag image is `u`.
pub fn zigzag_decode_u64(u: u64) -> (r: i64)
    ensures
        r as int == zigzag_dec(u as nat),
{
    if u % 2 == 0 {
        (u / 2) as i64
    } else {
        (-((u / 2) as i128) - 1) as i64
    }
}

} // verus!
