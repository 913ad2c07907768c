//! Decimal digit strings: the value of a digit sequence, parsing a `u64`
//! out of one, and rendering a `u64` into one. Shared by the `Range`
//! header parser and by header-value construction.

use vstd::prelude::*;

verus! {

/// ASCII `'0'`.
pub const DIGIT_ZERO: u8 = 48;

/// ASCII `'9'`.
pub const DIGIT_NINE: u8 = 57;

/// `b` is an ASCII decimal digit.
pub open spec fn is_digit(b: u8) -> bool {
    DIGIT_ZERO <= b && b <= DIGIT_NINE
}

/// Every byte of `s` is an ASCII decimal digit.
pub open spec fn is_digit_seq(s: Seq<u8>) -> bool {
    forall|i: int| 0 <= i < s.len() ==> is_digit(#[trigger] s[i])
}

/// The numeric value of the digit string `s`, read in base ten,
/// most significant digit first.
pub open spec fn digits_val(s: Seq<u8>) -> int
    decreases s.len(),
{
    if s.len() == 0 {
        0
    } else {
        digits_val(s.drop_last()) * 10 + (s.last() - DIGIT_ZERO)
    }
}

/// A digit string has a non-negative value.
pub proof fn lemma_digits_val_nonneg(s: Seq<u8>)
    requires
        is_digit_seq(s),
    ensures
        digits_val(s) >= 0,
    decreases s.len(),
{
    if s.len() > 0 {
        assert(is_digit_seq(s.drop_last())) by {
            assert(forall|i: int|
                0 <= i < s.drop_last().len() ==> is_digit(#[trigger] s.drop_last()[i]));
        }
        lemma_digits_val_nonneg(s.drop_last());
    }
}

/// Appending one digit multiplies the value by ten and adds the digit.
pub proof fn lemma_digits_val_push(s: Seq<u8>, b: u8)
    ensures
        digits_val(s.push(b)) == digits_val(s) * 10 + (b - DIGIT_ZERO),
{
    assert(s.push(b).drop_last() =~= s);
    assert(s.push(b).last() == b);
}

/// Extending a digit string never shrinks its value.
pub proof fn lemma_digits_val_prefix(s: Seq<u8>, i: int)
    requires
        is_digit_seq(s),
        0 <= i <= s.len(),
    ensures
        digits_val(s.take(i)) <= digits_val(s),
    decreases s.len() - i,
{
    if i < s.len() {
        assert(s.take(i + 1).drop_last() =~= s.take(i));
        assert(s.take(i + 1).last() == s[i]);
        assert(is_digit_seq(s.take(i))) by {
            assert(forall|j: int|
                0 <= j < s.take(i).len() ==> is_digit(#[trigger] s.take(i)[j]));
        }
        lemma_digits_val_nonneg(s.take(i));
        assert(digits_val(s.take(i + 1)) == digits_val(s.take(i)) * 10 + (s[i] - DIGIT_ZERO));
        assert(digits_val(s.take(i)) <= digits_val(s.take(i)) * 10) by (nonlinear_arith)
            requires digits_val(s.take(i)) >= 0;
        assert(is_digit(s[i]));
        lemma_digits_val_prefix(s, i + 1);
    } else {
        assert(s.take(i) =~= s);
    }
}

/// Parses the digit string held in `v[from..to]` as a `u64`.
///
/// Returns `Some` exactly when that slice is non-empty, all digits, and its
/// value fits in a `u64`; the returned number is then the slice's value.
pub fn parse_u64_digits(v: &Vec<u8>, from: usize, to: usize) -> (r: Option<u64>)
    requires
        from <= to <= v.len(),
    ensures
        r is Some <==> (from < to && is_digit_seq(v@.subrange(from as int, to as int))
            && digits_val(v@.subrange(from as int, to as int)) <= u64::MAX),
        r is Some ==> r->0 == digits_val(v@.subrange(from as int, to as int)),
{
    let ghost s = v@.subrange(from as int, to as int);
    if from == to {
        return None;
    }
    let mut val: u64 = 0;
    let mut i: usize = from;
    while i < to
        invariant
            from <= i <= to <= v.len(),
            s == v@.subrange(from as int, to as int),
            is_digit_seq(s.take(i - from)),
            val == digits_val(s.take(i - from)),
        decreases to - i,
    {
        let b = v[i];
        proof {
            assert(s[i - from] == v@[i as int]);
        }
        if b < DIGIT_ZERO || b > DIGIT_NINE {
            proof {
                assert(!is_digit(s[i - from]));
            }
            return None;
        }
        let d: u64 = (b - DIGIT_ZERO) as u64;
        proof {
            lemma_digits_val_push(s.take(i - from), b);
            assert(s.take(i - from).push(b) =~= s.take(i - from + 1));
        }
        if val > u64::MAX / 10 || (val == u64::MAX / 10 && d > u64::MAX % 10) {
            // The value of the digits seen so far already exceeds u64::MAX,
            // so the whole string's value does too.
            proof {
                assert(digits_val(s.take(i - from + 1)) > u64::MAX) by (nonlinear_arith)
                    requires
                        digits_val(s.take(i - from + 1)) == val * 10 + d,
                        val > u64::MAX / 10 || (val == u64::MAX / 10 && d > u64::MAX % 10),
                        val >= 0,
                        d >= 0;
                assert(is_digit_seq(s.take(i - from + 1)));
                if is_digit_seq(s) {
                    lemma_digits_val_prefix(s, i - from + 1);
                }
            }
            return None;
        }
        proof {
            assert(val * 10 + d <= u64::MAX) by (nonlinear_arith)
                requires
                    0 <= val,
                    0 <= d <= 9,
                    val < u64::MAX / 10 || (val == u64::MAX / 10 && d <= u64::MAX % 10);
        }
        val = val * 10 + d;
        i = i + 1;
    }
    proof {
        assert(s.take(to - from) =~= s);
    }
    Some(val)
}

/// The decimal rendering of the non-negative number `v`, most significant
/// digit first, with no leading zeros (`0` renders as `"0"`).
pub open spec fn dec_digits(v: int) -> Seq<u8>
    decreases v,
{
    if v < 10 {
        seq![(DIGIT_ZERO + if v >= 0 { v } else { 0 }) as u8]
    } else {
        dec_digits(v / 10).push((DIGIT_ZERO + v % 10) as u8)
    }
}

/// A rendered number is a non-empty string of digits: what headers such
/// as `Content-Range` and the derived entity tag carry is well-formed.
pub proof fn lemma_dec_digits_are_digits(v: int)
    requires
        v >= 0,
    ensures
        is_digit_seq(dec_digits(v)),
        dec_digits(v).len() >= 1,
    decreases v,
{
    if v >= 10 {
        lemma_dec_digits_are_digits(v / 10);
        let prefix = dec_digits(v / 10);
        let whole = dec_digits(v);
        assert forall|i: int| 0 <= i < whole.len() implies is_digit(#[trigger] whole[i]) by {
            if i < prefix.len() {
                assert(whole[i] == prefix[i]);
            }
        }
    }
}

/// Reading a rendered number back gives the number: the decimal rendering
/// and the digit-string value are inverses, so the numbers written into
/// `Content-Range` and entity-tag values denote exactly the quantities
/// they were built from.
pub proof fn lemma_dec_digits_roundtrip(v: int)
    requires
        v >= 0,
    ensures
        digits_val(dec_digits(v)) == v,
    decreases v,
{
    if v < 10 {
        let s = seq![(DIGIT_ZERO + v) as u8];
        assert(dec_digits(v) == s);
        assert(s.drop_last() =~= Seq::<u8>::empty());
        assert(digits_val(s.drop_last()) == 0);
        assert(s.last() == (DIGIT_ZERO + v) as u8);
        assert(digits_val(s) == v);
    } else {
        lemma_dec_digits_roundtrip(v / 10);
        lemma_digits_val_push(dec_digits(v / 10), (DIGIT_ZERO + v % 10) as u8);
        vstd::arithmetic::div_mod::lemma_fundamental_div_mod(v, 10);
        assert(digits_val(dec_digits(v)) == (v / 10) * 10 + (v % 10));
        assert((v / 10) * 10 + (v % 10) == v);
    }
}

/// Renders `n` in decimal.
pub fn render_u64(n: u64) -> (r: Vec<u8>)
    ensures
        r@ == dec_digits(n as int),
    decreases n,
{
    if n < 10 {
        let mut r: Vec<u8> = Vec::new();
        r.push(DIGIT_ZERO + n as u8);
        proof {
            assert(r@ =~= dec_digits(n as int));
        }
        r
    } else {
        let mut r = render_u64(n / 10);
        r.push(DIGIT_ZERO + (n % 10) as u8);
        r
    }
}

} // verus!
