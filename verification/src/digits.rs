//! Reading and writing unsigned decimal numbers.

use vstd::prelude::*;

use crate::ascii::{all_ascii, ascii_to_string, chars_of};
use crate::urlencode::{DIGIT_0, DIGIT_9};

verus! {

pub open spec fn is_dec_digit(b: u8) -> bool {
    DIGIT_0 <= b && b <= DIGIT_9
}

pub open spec fn all_dec_digits(s: Seq<u8>) -> bool {
    forall|i: int| 0 <= i < s.len() ==> is_dec_digit(s[i])
}

/// The value of a digit string, most significant digit first.
pub open spec fn dec_value(s: Seq<u8>) -> nat
    decreases s.len(),
{
    if s.len() == 0 {
        0
    } else {
        dec_value(s.drop_last()) * 10 + (s.last() - DIGIT_0) as nat
    }
}

/// The decimal digits of a value, most significant first, no leading
/// zeros except for the value zero itself.
pub open spec fn spec_digits(n: nat) -> Seq<u8>
    decreases n,
{
    if n < 10 {
        seq![(DIGIT_0 + n) as u8]
    } else {
        spec_digits(n / 10).push((DIGIT_0 + n % 10) as u8)
    }
}

/// Reading the digits of a value back gives that value.
pub proof fn lemma_dec_value_of_digits(n: nat)
    ensures
        dec_value(spec_digits(n)) == n,
    decreases n,
{
    if n < 10 {
        assert(spec_digits(n).drop_last() =~= Seq::<u8>::empty());
        assert(dec_value(Seq::<u8>::empty()) == 0);
        assert(spec_digits(n).last() == (DIGIT_0 + n) as u8);
    } else {
        lemma_dec_value_of_digits(n / 10);
        assert(spec_digits(n).drop_last() =~= spec_digits(n / 10));
        assert(spec_digits(n).last() == (DIGIT_0 + n % 10) as u8);
        assert(dec_value(spec_digits(n)) == (n / 10) * 10 + n % 10);
        assert(n == (n / 10) * 10 + n % 10) by (nonlinear_arith);
    }
}

/// A digit string's value only grows as digits are appended.
proof fn lemma_dec_value_take_le(s: Seq<u8>, j: int)
    requires
        0 <= j <= s.len(),
        all_dec_digits(s),
    ensures
        dec_value(s.take(j)) <= dec_value(s),
    decreases s.len() - j,
{
    if j == s.len() {
        assert(s.take(j) =~= s);
    } else {
        lemma_dec_value_take_le(s, j + 1);
        assert(s.take(j + 1).drop_last() =~= s.take(j));
        assert(s.take(j + 1).last() == s[j]);
        assert(dec_value(s.take(j + 1)) == dec_value(s.take(j)) * 10 + (s[j] - DIGIT_0) as nat);
    }
}

/// Parses a decimal number. Returns the value exactly when the input
/// is a nonempty, all-digit string whose value fits in a `u64`.
pub fn parse_u64(s: &[u8]) -> (r: Option<u64>)
    ensures
        match r {
            Some(v) => s@.len() > 0 && all_dec_digits(s@) && v == dec_value(s@),
            None => s@.len() == 0 || !all_dec_digits(s@) || dec_value(s@) > u64::MAX,
        },
{
    let n = s.len();
    if n == 0 {
        return None;
    }
    let mut acc: u64 = 0;
    let mut i: usize = 0;
    proof {
        assert(s@.take(0) =~= Seq::<u8>::empty());
    }
    while i < n
        invariant
            n == s@.len(),
            i <= n,
            acc == dec_value(s@.take(i as int)),
            forall|j: int| 0 <= j < i ==> is_dec_digit(s@[j]),
        decreases n - i,
    {
        let b = s[i];
        if !(DIGIT_0 <= b && b <= DIGIT_9) {
            return None;
        }
        let d = b - DIGIT_0;
        proof {
            assert(s@.take(i + 1).drop_last() =~= s@.take(i as int));
            assert(s@.take(i + 1).last() == s@[i as int]);
        }
        if acc > (u64::MAX - (d as u64)) / 10 {
            proof {
                if all_dec_digits(s@) {
                    lemma_dec_value_take_le(s@, i + 1);
                }
            }
            return None;
        }
        acc = acc * 10 + (d as u64);
        i = i + 1;
    }
    proof {
        assert(s@.take(n as int) =~= s@);
    }
    Some(acc)
}

/// Writes a value in decimal, most significant digit first.
pub fn format_u64(n: u64) -> (r: Vec<u8>)
    ensures
        r@ == spec_digits(n as nat),
        all_dec_digits(r@),
        all_ascii(r@),
    decreases n,
{
    if n < 10 {
        let mut v: Vec<u8> = Vec::new();
        v.push(DIGIT_0 + (n as u8));
        v
    } else {
        let mut v = format_u64(n / 10);
        v.push(DIGIT_0 + ((n % 10) as u8));
        v
    }
}

/// Writes a value in decimal as a string.
pub fn u64_to_string(n: u64) -> (r: String)
    ensures
        r@ == chars_of(spec_digits(n as nat)),
{
    ascii_to_string(format_u64(n))
}

} // verus!
