//! Decimal integers on the wire: spec-level meaning of digit strings and
//! signed literals, a verified parser into `i64`, and a verified formatter.

use vstd::prelude::*;

verus! {

/// ASCII `0`.
pub const DIGIT_ZERO: u8 = 48;
/// ASCII `9`.
pub const DIGIT_NINE: u8 = 57;
/// ASCII `+`, an optional leading sign.
pub const SIGN_PLUS: u8 = 43;
/// ASCII `-`, the negative sign.
pub const SIGN_MINUS: u8 = 45;

pub open spec fn is_ascii_digit(b: u8) -> bool {
    DIGIT_ZERO <= b && b <= DIGIT_NINE
}

pub open spec fn all_ascii_digits(s: Seq<u8>) -> bool {
    forall|i: int| 0 <= i < s.len() ==> is_ascii_digit(#[trigger] s[i])
}

/// Numeric value of a string of ASCII digits, most significant first.
pub open spec fn digits_val(s: Seq<u8>) -> int
    decreases s.len(),
{
    if s.len() == 0 {
        0
    } else {
        digits_val(s.drop_last()) * 10 + (s.last() - DIGIT_ZERO)
    }
}

/// A decimal integer literal: an optional single sign, then at least one
/// ASCII digit and nothing else.
pub open spec fn is_int_literal(s: Seq<u8>) -> bool {
    if s.len() == 0 {
        false
    } else if s[0] == SIGN_PLUS || s[0] == SIGN_MINUS {
        s.len() >= 2 && all_ascii_digits(s.skip(1))
    } else {
        all_ascii_digits(s)
    }
}

/// The signed value of a decimal integer literal.
pub open spec fn int_literal_val(s: Seq<u8>) -> int {
    if s.len() > 0 && s[0] == SIGN_MINUS {
        -digits_val(s.skip(1))
    } else if s.len() > 0 && s[0] == SIGN_PLUS {
        digits_val(s.skip(1))
    } else {
        digits_val(s)
    }
}

/// What parsing a line as a signed 64-bit decimal integer yields: the value
/// when the line is a well-formed literal that fits in `i64`, nothing
/// otherwise.
pub open spec fn spec_parse_i64(s: Seq<u8>) -> Option<int> {
    if is_int_literal(s) && i64::MIN <= int_literal_val(s) <= i64::MAX {
        Some(int_literal_val(s))
    } else {
        None
    }
}

/// The decimal digits of a nonnegative integer: no sign, and no leading zero
/// except for zero itself.
pub open spec fn spec_digits(n: int) -> Seq<u8>
    decreases n,
{
    if n <= 0 {
        seq![DIGIT_ZERO]
    } else if n < 10 {
        seq![(DIGIT_ZERO + n) as u8]
    } else {
        spec_digits(n / 10) + seq![(DIGIT_ZERO + n % 10) as u8]
    }
}

/// The wire spelling of a signed 64-bit integer.
pub open spec fn spec_dec_i64(i: int) -> Seq<u8> {
    if i < 0 {
        seq![SIGN_MINUS] + spec_digits(-i)
    } else {
        spec_digits(i)
    }
}

pub proof fn lemma_digits_val_nonneg(s: Seq<u8>)
    requires
        all_ascii_digits(s),
    ensures
        digits_val(s) >= 0,
    decreases s.len(),
{
    if s.len() > 0 {
        assert(forall|i: int| 0 <= i < s.drop_last().len() ==> is_ascii_digit(#[trigger] s.drop_last()[i]));
        lemma_digits_val_nonneg(s.drop_last());
    }
}

/// A longer digit string never has a smaller value than one of its prefixes.
pub proof fn lemma_digits_val_prefix(s: Seq<u8>, j: int)
    requires
        all_ascii_digits(s),
        0 <= j <= s.len(),
    ensures
        digits_val(s.take(j)) <= digits_val(s),
    decreases s.len() - j,
{
    if j == s.len() {
        assert(s.take(j) =~= s);
    } else {
        assert(s.take(j + 1).drop_last() =~= s.take(j));
        assert(forall|i: int| 0 <= i < s.take(j).len() ==> is_ascii_digit(#[trigger] s.take(j)[i]));
        lemma_digits_val_nonneg(s.take(j));
        assert(s.take(j + 1).last() == s[j]);
        assert(digits_val(s.take(j + 1)) == digits_val(s.take(j)) * 10 + (s[j] - DIGIT_ZERO));
        lemma_digits_val_prefix(s, j + 1);
    }
}

/// The digits of a nonnegative integer really are digits, and spell it.
pub proof fn lemma_spec_digits(n: int)
    requires
        n >= 0,
    ensures
        spec_digits(n).len() >= 1,
        all_ascii_digits(spec_digits(n)),
        digits_val(spec_digits(n)) == n,
    decreases n,
{
    if n < 10 {
        assert(spec_digits(n).drop_last() =~= Seq::<u8>::empty());
        assert(spec_digits(n).last() == (DIGIT_ZERO + n) as u8);
        assert((DIGIT_ZERO + n) as u8 == DIGIT_ZERO + n);
        assert(digits_val(spec_digits(n)) == digits_val(Seq::<u8>::empty()) * 10 + (spec_digits(n).last() - DIGIT_ZERO));
    } else {
        lemma_spec_digits(n / 10);
        assert(spec_digits(n).drop_last() =~= spec_digits(n / 10));
        assert(spec_digits(n).last() == (DIGIT_ZERO + n % 10) as u8);
    }
}

/// The wire spelling of an `i64` parses back to the same value, and contains
/// neither carriage return nor line feed nor any byte outside ASCII.
pub proof fn lemma_dec_i64_parses(i: int)
    requires
        i64::MIN <= i <= i64::MAX,
    ensures
        spec_dec_i64(i).len() >= 1,
        is_int_literal(spec_dec_i64(i)),
        int_literal_val(spec_dec_i64(i)) == i,
        spec_parse_i64(spec_dec_i64(i)) == Some(i),
        forall|j: int|
            0 <= j < spec_dec_i64(i).len() ==> 43 <= #[trigger] spec_dec_i64(i)[j] < 128,
{
    let s = spec_dec_i64(i);
    if i < 0 {
        lemma_spec_digits(-i);
        assert(s.skip(1) =~= spec_digits(-i));
        assert(s[0] == SIGN_MINUS);
    } else {
        lemma_spec_digits(i);
        assert(s[0] != SIGN_PLUS && s[0] != SIGN_MINUS);
    }
}

/// Parses a line as a base-10 signed 64-bit integer, as the wire grammar
/// reads length, count and integer fields.
#[verifier::loop_isolation(false)]
pub fn parse_i64(s: &Vec<u8>) -> (r: Option<i64>)
    ensures
        match r {
            Some(v) => spec_parse_i64(s@) == Some(v as int),
            None => spec_parse_i64(s@) is None,
        },
{
    let n = s.len();
    if n == 0 {
        return None;
    }
    let first = s[0];
    let neg = first == SIGN_MINUS;
    let start: usize = if first == SIGN_MINUS || first == SIGN_PLUS {
        1
    } else {
        0
    };
    if n == start {
        return None;
    }
    let limit: u64 = if neg {
        9223372036854775808
    } else {
        9223372036854775807
    };
    let ghost ds = s@.skip(start as int);
    proof {
        if start == 0 {
            assert(ds =~= s@);
        }
    }
    let mut mag: u64 = 0;
    let mut i = start;
    while i < n
        invariant
            start <= i <= n,
            all_ascii_digits(ds.take(i - start)),
            mag == digits_val(ds.take(i - start)),
            mag <= limit,
        decreases n - i,
    {
        let b = s[i];
        if b < DIGIT_ZERO || b > DIGIT_NINE {
            proof {
                assert(ds[i - start] == s@[i as int]);
                assert(!all_ascii_digits(ds));
            }
            return None;
        }
        let d = (b - DIGIT_ZERO) as u64;
        proof {
            assert(ds.take(i - start + 1).drop_last() =~= ds.take(i - start));
            assert(ds.take(i - start + 1).last() == s@[i as int]);
            assert(digits_val(ds.take(i - start + 1)) == mag * 10 + d);
        }
        if mag > limit / 10 || (mag == limit / 10 && d > limit % 10) {
            proof {
                // the digits seen so far already outgrow the representable
                // range, and further digits can only increase the value
                if is_int_literal(s@) {
                    assert(all_ascii_digits(ds));
                    lemma_digits_val_prefix(ds, i - start + 1);
                    assert(digits_val(ds) >= mag * 10 + d);
                    assert(mag * 10 + d > limit);
                }
            }
            return None;
        }
        mag = mag * 10 + d;
        i = i + 1;
    }
    proof {
        assert(ds.take(n - start) =~= ds);
        assert(all_ascii_digits(ds) && mag == digits_val(ds));
        assert(is_int_literal(s@));
    }
    if neg {
        if mag == 9223372036854775808 {
            Some(i64::MIN)
        } else {
            Some(-(mag as i64))
        }
    } else {
        Some(mag as i64)
    }
}

/// Appends the decimal digits of `n` to `out`.
pub fn push_digits(n: u64, out: &mut Vec<u8>)
    ensures
        final(out)@ == old(out)@ + spec_digits(n as int),
    decreases n,
{
    if n < 10 {
        out.push(DIGIT_ZERO + (n as u8));
        proof {
            assert(out@ =~= old(out)@ + spec_digits(n as int));
        }
    } else {
        push_digits(n / 10, out);
        out.push(DIGIT_ZERO + ((n % 10) as u8));
        proof {
            assert(out@ =~= old(out)@ + spec_digits(n as int));
        }
    }
}

/// Appends the wire spelling of a signed 64-bit integer to `out`.
pub fn push_dec_i64(i: i64, out: &mut Vec<u8>)
    ensures
        final(out)@ == old(out)@ + spec_dec_i64(i as int),
{
    if i < 0 {
        out.push(SIGN_MINUS);
        let mag: u64 = if i == i64::MIN {
            9223372036854775808
        } else {
            (-i) as u64
        };
        assert(mag == -(i as int));
        push_digits(mag, out);
        proof {
            assert(out@ =~= old(out)@ + spec_dec_i64(i as int));
        }
    } else {
        push_digits(i as u64, out);
    }
}

} // verus!
