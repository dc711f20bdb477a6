//! Decimal text of integers: how an integer is written (as `to_string`
//! writes it) and read back (as `str::parse` reads it).

use vstd::prelude::*;
use crate::parser::lexer::{chars_of, string_of};

verus! {

/// The character of the decimal digit `d` (0 to 9).
pub open spec fn digit_char(d: int) -> char {
    (d + 48) as char
}

/// The decimal digits of `m`, with no leading zero.
pub open spec fn nat_text(m: nat) -> Seq<char>
    decreases m,
{
    if m < 10 {
        seq![digit_char(m as int)]
    } else {
        nat_text(m / 10).push(digit_char((m % 10) as int))
    }
}

/// The decimal text of `n`: a minus sign before the digits of a negative number.
pub open spec fn int_text(n: int) -> Seq<char> {
    if n < 0 {
        seq!['-'] + nat_text((-n) as nat)
    } else {
        nat_text(n as nat)
    }
}

pub open spec fn is_digit(c: char) -> bool {
    '0' <= c <= '9'
}

/// Some decimal digits and nothing else.
pub open spec fn all_digits(s: Seq<char>) -> bool {
    s.len() > 0 && forall|i: int| 0 <= i < s.len() ==> is_digit(#[trigger] s[i])
}

/// The number that the digits `s` write.
pub open spec fn digits_value(s: Seq<char>) -> int
    decreases s.len(),
{
    if s.len() == 0 {
        0
    } else {
        digits_value(s.drop_last()) * 10 + (s.last() as int - 48)
    }
}

/// The integer that the text `s` writes: an optional sign, then one or more
/// decimal digits, and nothing else.
pub open spec fn int_of_text(s: Seq<char>) -> Option<int> {
    if s.len() > 0 && (s[0] == '-' || s[0] == '+') {
        if all_digits(s.skip(1)) {
            Some(if s[0] == '-' { -digits_value(s.skip(1)) } else { digits_value(s.skip(1)) })
        } else {
            None
        }
    } else if all_digits(s) {
        Some(digits_value(s))
    } else {
        None
    }
}

/// What parsing `s` as an `i64` gives.
pub open spec fn i64_of_text(s: Seq<char>) -> Option<i64> {
    match int_of_text(s) {
        Some(n) => if i64::MIN <= n <= i64::MAX { Some(n as i64) } else { None },
        None => None,
    }
}

/// What parsing `s` as an `i16` gives.
pub open spec fn i16_of_text(s: Seq<char>) -> Option<i16> {
    match int_of_text(s) {
        Some(n) => if i16::MIN <= n <= i16::MAX { Some(n as i16) } else { None },
        None => None,
    }
}

// ─── Writing ──────────────────────────────────────────────────────────────────

fn digit_of(d: u64) -> (c: char)
    requires
        d < 10,
    ensures
        c == digit_char(d as int),
{
    let b: u8 = (d as u8) + 48;
    b as char
}

/// Appends the digits of `m` to `out`.
fn push_nat_text(m: u64, out: &mut Vec<char>)
    ensures
        final(out)@ == old(out)@ + nat_text(m as nat),
    decreases m,
{
    if m >= 10 {
        push_nat_text(m / 10, out);
    }
    let c = digit_of(m % 10);
    out.push(c);
    proof {
        if m >= 10 {
            assert(old(out)@ + nat_text((m / 10) as nat) + seq![c] =~= old(out)@ + nat_text(m as nat));
        } else {
            assert(old(out)@ + seq![c] =~= old(out)@ + nat_text(m as nat));
        }
    }
}

/// The decimal text of `m`.
pub fn u64_text(m: u64) -> (r: String)
    ensures
        r@ == nat_text(m as nat),
{
    let mut cs: Vec<char> = Vec::new();
    push_nat_text(m, &mut cs);
    assert(cs@ =~= nat_text(m as nat));
    string_of(&cs, 0, cs.len())
}

/// The decimal text of `n`.
pub fn i64_text(n: i64) -> (r: String)
    ensures
        r@ == int_text(n as int),
{
    let mut cs: Vec<char> = Vec::new();
    if n < 0 {
        cs.push('-');
        let m: u64 = if n == i64::MIN { 0x8000_0000_0000_0000u64 } else { (-n) as u64 };
        push_nat_text(m, &mut cs);
        assert(cs@ =~= int_text(n as int));
    } else {
        push_nat_text(n as u64, &mut cs);
        assert(cs@ =~= int_text(n as int));
    }
    string_of(&cs, 0, cs.len())
}

// ─── Reading ──────────────────────────────────────────────────────────────────

/// The value of a prefix one digit longer.
proof fn lemma_digits_value_take(s: Seq<char>, k: int)
    requires
        0 <= k < s.len(),
    ensures
        digits_value(s.take(k + 1)) == digits_value(s.take(k)) * 10 + (s[k] as int - 48),
{
    assert(s.take(k + 1).drop_last() =~= s.take(k));
}

/// Digits write a non-negative number, which only grows as digits are added.
proof fn lemma_digits_value_grows(s: Seq<char>, i: int, j: int)
    requires
        0 <= i <= j <= s.len(),
        forall|k: int| 0 <= k < s.len() ==> is_digit(#[trigger] s[k]),
    ensures
        0 <= digits_value(s.take(i)) <= digits_value(s.take(j)),
    decreases j,
{
    if j == 0 {
        assert(s.take(0) =~= Seq::<char>::empty());
    } else if i == j {
        lemma_digits_value_grows(s, j - 1, j - 1);
        lemma_digits_value_take(s, j - 1);
        assert(is_digit(s[j - 1]));
    } else {
        lemma_digits_value_grows(s, i, j - 1);
        lemma_digits_value_take(s, j - 1);
        assert(is_digit(s[j - 1]));
    }
}

/// The magnitude that the digits `cs[start..]` write, if it fits in a `u64`.
fn digits_magnitude(cs: &Vec<char>, start: usize) -> (r: Option<u64>)
    requires
        start < cs@.len(),
        all_digits(cs@.skip(start as int)),
    ensures
        match r {
            Some(m) => m as int == digits_value(cs@.skip(start as int)),
            None => digits_value(cs@.skip(start as int)) > u64::MAX,
        },
{
    let ghost body = cs@.skip(start as int);
    let mut acc: u64 = 0;
    let mut i: usize = start;
    assert(body.take(0) =~= Seq::<char>::empty());
    while i < cs.len()
        invariant
            start <= i <= cs@.len(),
            body == cs@.skip(start as int),
            all_digits(body),
            acc as int == digits_value(body.take(i - start)),
        decreases cs@.len() - i,
    {
        let ghost k: int = i - start;
        assert(body[k] == cs@[i as int]);
        assert(is_digit(body[k]));
        proof {
            lemma_digits_value_take(body, k);
        }
        let d: u64 = ((cs[i] as u32) - 48) as u64;
        if acc > 1844674407370955161 || (acc == 1844674407370955161 && d > 5) {
            proof {
                lemma_digits_value_grows(body, k + 1, body.len() as int);
                assert(body.take(body.len() as int) =~= body);
            }
            return None;
        }
        acc = acc * 10 + d;
        i = i + 1;
    }
    assert(body.take(i - start) =~= body);
    Some(acc)
}

/// Parses `s` as an `i64`: an optional sign and decimal digits.
#[verifier::loop_isolation(false)]
pub fn parse_i64_text(s: &str) -> (r: Option<i64>)
    ensures
        r == i64_of_text(s@),
{
    let cs = chars_of(s);
    if cs.len() == 0 {
        return None;
    }
    let neg = cs[0] == '-';
    let start: usize = if cs[0] == '-' || cs[0] == '+' { 1 } else { 0 };
    let ghost body = cs@.skip(start as int);
    assert(start == 0 ==> body =~= cs@);
    assert(int_of_text(s@) == if all_digits(body) {
        Some(if neg { -digits_value(body) } else { digits_value(body) })
    } else {
        None::<int>
    });
    if start >= cs.len() {
        assert(body.len() == 0);
        return None;
    }
    let mut i: usize = start;
    while i < cs.len()
        invariant
            start <= i <= cs@.len(),
            forall|k: int| start <= k < i ==> is_digit(#[trigger] cs@[k]),
        decreases cs@.len() - i,
    {
        if !(cs[i] >= '0' && cs[i] <= '9') {
            assert(!all_digits(cs@.skip(start as int))) by {
                assert(cs@.skip(start as int)[i - start] == cs@[i as int]);
            }
            return None;
        }
        i = i + 1;
    }
    assert(all_digits(cs@.skip(start as int))) by {
        assert forall|k: int| 0 <= k < cs@.skip(start as int).len() implies is_digit(#[trigger] cs@.skip(start as int)[k]) by {
            assert(cs@.skip(start as int)[k] == cs@[k + start]);
        }
    }
    assert(start == 0 ==> cs@.skip(0) =~= cs@);
    match digits_magnitude(&cs, start) {
        None => None,
        Some(m) => {
            if neg {
                if m > 0x8000_0000_0000_0000u64 {
                    None
                } else if m == 0x8000_0000_0000_0000u64 {
                    Some(i64::MIN)
                } else {
                    Some(-(m as i64))
                }
            } else if m > 0x7fff_ffff_ffff_ffffu64 {
                None
            } else {
                Some(m as i64)
            }
        },
    }
}

/// Parses `s` as an `i16`: an optional sign and decimal digits.
pub fn parse_i16_text(s: &str) -> (r: Option<i16>)
    ensures
        r == i16_of_text(s@),
{
    match parse_i64_text(s) {
        Some(n) => if -32768 <= n && n <= 32767 { Some(n as i16) } else { None },
        None => None,
    }
}

// ─── Laws ─────────────────────────────────────────────────────────────────────

/// The decimal digits of a number are digits, and write that number.
pub proof fn lemma_nat_text_digits(m: nat)
    ensures
        all_digits(nat_text(m)),
        digits_value(nat_text(m)) == m,
    decreases m,
{
    if m >= 10 {
        lemma_nat_text_digits(m / 10);
        let t = nat_text(m / 10).push(digit_char((m % 10) as int));
        assert(t.drop_last() =~= nat_text(m / 10));
        assert(t.last() == digit_char((m % 10) as int));
        assert(digit_char((m % 10) as int) as int == (m % 10) + 48);
        assert(digits_value(t) == digits_value(t.drop_last()) * 10 + (t.last() as int - 48));
        assert(nat_text(m) == t);
        assert forall|i: int| 0 <= i < t.len() implies is_digit(#[trigger] t[i]) by {
            if i < t.len() - 1 {
                assert(t[i] == nat_text(m / 10)[i]);
            }
        }
    } else {
        let t = seq![digit_char(m as int)];
        assert(t.drop_last() =~= Seq::<char>::empty());
        assert(digit_char(m as int) as int == m + 48);
        assert(digits_value(t) == digits_value(t.drop_last()) * 10 + (t.last() as int - 48));
    }
}

/// Reading the decimal text of an integer gives the integer back.
pub proof fn lemma_int_text_roundtrip(n: int)
    ensures
        int_of_text(int_text(n)) == Some(n),
{
    if n < 0 {
        let m = (-n) as nat;
        lemma_nat_text_digits(m);
        assert((seq!['-'] + nat_text(m)).skip(1) =~= nat_text(m));
    } else {
        lemma_nat_text_digits(n as nat);
        assert(is_digit(nat_text(n as nat)[0]));
    }
}

/// Reading the decimal text of an `i64` as an `i64` gives it back.
pub proof fn lemma_i64_text_roundtrip(n: i64)
    ensures
        i64_of_text(int_text(n as int)) == Some(n),
{
    lemma_int_text_roundtrip(n as int);
}

/// Reading the decimal text of an `i16` as an `i16` gives it back.
pub proof fn lemma_i16_text_roundtrip(n: i16)
    ensures
        i16_of_text(int_text(n as int)) == Some(n),
{
    lemma_int_text_roundtrip(n as int);
}

} // verus!
