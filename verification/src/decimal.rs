//! Whole numbers as the table writes them: decimal digits in ASCII.
//!
//! A number is written without sign or leading zeros, with `-` in front when
//! it is negative. When read, a `+` or (for a signed number) a `-` may stand
//! in front of the digits, and leading zeros are taken; anything else, and any
//! value outside the range of the type, is refused.

use vstd::prelude::*;

verus! {

/// ASCII `0`.
pub const ZERO: u8 = 48;

/// ASCII `+`.
pub const PLUS: u8 = 43;

/// ASCII `-`.
pub const MINUS: u8 = 45;

/// The byte is one of the ASCII digits `0` to `9`.
pub open spec fn is_digit(b: u8) -> bool {
    ZERO <= b <= ZERO + 9
}

/// Every byte of `s` is an ASCII digit.
pub open spec fn all_digits(s: Seq<u8>) -> bool {
    forall|i: int| 0 <= i < s.len() ==> is_digit(#[trigger] s[i])
}

/// The number that the digits `s` spell, most significant digit first.
pub open spec fn digits_value(s: Seq<u8>) -> nat
    decreases s.len(),
{
    if s.len() == 0 {
        0
    } else {
        digits_value(s.drop_last()) * 10 + (s.last() - ZERO) as nat
    }
}

/// The number that `s` spells if it is one or more digits.
pub open spec fn magnitude(s: Seq<u8>) -> Option<nat> {
    if s.len() > 0 && all_digits(s) {
        Some(digits_value(s))
    } else {
        None
    }
}

/// The number that an unsigned field spells: digits, with `+` allowed in
/// front of them.
pub open spec fn unsigned_value(s: Seq<u8>) -> Option<nat> {
    if s.len() > 0 && s[0] == PLUS {
        magnitude(s.skip(1))
    } else {
        magnitude(s)
    }
}

/// The number that a signed field spells: digits, with `+` or `-` allowed in
/// front of them.
pub open spec fn signed_value(s: Seq<u8>) -> Option<int> {
    if s.len() > 0 && s[0] == MINUS {
        match magnitude(s.skip(1)) {
            Some(n) => Some(-(n as int)),
            None => None,
        }
    } else {
        match unsigned_value(s) {
            Some(n) => Some(n as int),
            None => None,
        }
    }
}

/// What a field holds when it is read as a `u32`.
pub open spec fn u32_of_field(s: Seq<u8>) -> Option<u32> {
    match unsigned_value(s) {
        Some(n) => if n <= u32::MAX {
            Some(n as u32)
        } else {
            None
        },
        None => None,
    }
}

/// What a field holds when it is read as an `i64`.
pub open spec fn i64_of_field(s: Seq<u8>) -> Option<i64> {
    match signed_value(s) {
        Some(n) => if i64::MIN <= n <= i64::MAX {
            Some(n as i64)
        } else {
            None
        },
        None => None,
    }
}

/// The digits of `n`, most significant first, without leading zeros.
pub open spec fn decimal(n: nat) -> Seq<u8>
    decreases n,
{
    if n < 10 {
        seq![(ZERO + n) as u8]
    } else {
        decimal(n / 10).push((ZERO + n % 10) as u8)
    }
}

/// The digits of `n`, behind a `-` when `n` is negative.
pub open spec fn signed_decimal(n: int) -> Seq<u8> {
    if n < 0 {
        seq![MINUS] + decimal((-n) as nat)
    } else {
        decimal(n as nat)
    }
}

/// A number spelled by digits is no smaller than the number spelled by the
/// first `k` of them.
pub proof fn lemma_digits_value_grows(s: Seq<u8>, k: int)
    requires
        0 <= k <= s.len(),
    ensures
        digits_value(s.take(k)) <= digits_value(s),
    decreases s.len(),
{
    if k == s.len() {
        assert(s.take(k) =~= s);
    } else {
        assert(s.drop_last().take(k) =~= s.take(k));
        lemma_digits_value_grows(s.drop_last(), k);
    }
}

/// Written digits read back as the number they were written for.
pub proof fn lemma_decimal_reads_back(n: nat)
    ensures
        decimal(n).len() > 0,
        all_digits(decimal(n)),
        digits_value(decimal(n)) == n,
        magnitude(decimal(n)) == Some(n),
        unsigned_value(decimal(n)) == Some(n),
    decreases n,
{
    if n < 10 {
        assert(decimal(n).drop_last() =~= Seq::<u8>::empty());
        assert(digits_value(decimal(n).drop_last()) == 0);
    } else {
        lemma_decimal_reads_back(n / 10);
        assert(decimal(n).drop_last() =~= decimal(n / 10));
    }
    assert(decimal(n)[0] != PLUS);
}

/// A written signed number reads back as the number it was written for.
pub proof fn lemma_signed_decimal_reads_back(n: int)
    ensures
        signed_value(signed_decimal(n)) == Some(n),
{
    if n < 0 {
        lemma_decimal_reads_back((-n) as nat);
        assert(signed_decimal(n).skip(1) =~= decimal((-n) as nat));
    } else {
        lemma_decimal_reads_back(n as nat);
        assert(decimal(n as nat)[0] != MINUS);
    }
}

/// Reads the digits of `field` from `from` on, up to `limit`.
fn parse_digits(field: &[u8], from: usize, limit: u64) -> (r: Option<u64>)
    requires
        from <= field.len(),
    ensures
        r == match magnitude(field@.skip(from as int)) {
            Some(n) => if n <= limit {
                Some(n as u64)
            } else {
                None
            },
            None => None,
        },
{
    let ghost body = field@.skip(from as int);
    if from == field.len() {
        return None;
    }
    let mut acc: u128 = 0;
    let mut i: usize = from;
    proof {
        assert(body.take(0) =~= Seq::<u8>::empty());
    }
    while i < field.len()
        invariant
            from <= i <= field.len(),
            body == field@.skip(from as int),
            all_digits(body.take(i - from)),
            acc == digits_value(body.take(i - from)),
            acc <= limit,
        decreases field.len() - i,
    {
        let b: u8 = field[i];
        assert(b == body[i - from]);
        if b < ZERO || b > ZERO + 9 {
            return None;
        }
        proof {
            assert(body.take(i - from + 1).drop_last() =~= body.take(i - from));
            assert(body.take(i - from + 1).last() == b);
        }
        acc = acc * 10 + (b - ZERO) as u128;
        if acc > limit as u128 {
            proof {
                if all_digits(body) {
                    lemma_digits_value_grows(body, i - from + 1);
                }
            }
            return None;
        }
        i += 1;
    }
    proof {
        assert(body.take(i - from) =~= body);
    }
    Some(acc as u64)
}

/// Reads a field as a `u32`.
pub fn parse_u32(field: &[u8]) -> (r: Option<u32>)
    ensures
        r == u32_of_field(field@),
{
    let from: usize = if field.len() > 0 && field[0] == PLUS {
        1
    } else {
        0
    };
    proof {
        assert(field@.skip(0) =~= field@);
    }
    match parse_digits(field, from, u32::MAX as u64) {
        Some(n) => Some(n as u32),
        None => None,
    }
}

/// Reads a field as an `i64`.
pub fn parse_i64(field: &[u8]) -> (r: Option<i64>)
    ensures
        r == i64_of_field(field@),
{
    proof {
        assert(field@.skip(0) =~= field@);
    }
    if field.len() > 0 && field[0] == MINUS {
        match parse_digits(field, 1, 0x8000_0000_0000_0000) {
            Some(n) => if n == 0x8000_0000_0000_0000 {
                Some(i64::MIN)
            } else {
                Some(-(n as i64))
            },
            None => None,
        }
    } else {
        let from: usize = if field.len() > 0 && field[0] == PLUS {
            1
        } else {
            0
        };
        match parse_digits(field, from, i64::MAX as u64) {
            Some(n) => Some(n as i64),
            None => None,
        }
    }
}

/// Writes the digits of `n` behind what `out` holds.
fn push_decimal(out: &mut Vec<u8>, n: u64)
    ensures
        final(out)@ == old(out)@ + decimal(n as nat),
    decreases n,
{
    if n >= 10 {
        push_decimal(out, n / 10);
    }
    let digit: u8 = ZERO + (n % 10) as u8;
    out.push(digit);
    assert(final(out)@ =~= old(out)@ + decimal(n as nat));
}

/// Writes a `u32` as a field.
pub fn format_u32(n: u32) -> (out: Vec<u8>)
    ensures
        out@ == decimal(n as nat),
{
    let mut out: Vec<u8> = Vec::new();
    push_decimal(&mut out, n as u64);
    assert(out@ =~= decimal(n as nat));
    out
}

/// Writes an `i64` as a field.
pub fn format_i64(n: i64) -> (out: Vec<u8>)
    ensures
        out@ == signed_decimal(n as int),
{
    let mut out: Vec<u8> = Vec::new();
    if n < 0 {
        out.push(MINUS);
        let size: u64 = (-(n + 1)) as u64 + 1;
        push_decimal(&mut out, size);
    } else {
        push_decimal(&mut out, n as u64);
    }
    assert(out@ =~= signed_decimal(n as int));
    out
}

} // verus!
