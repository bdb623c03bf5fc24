//! Decimal digit strings: the numeric value of an ASCII digit sequence, the
//! canonical decimal rendering of a number, and executable helpers for both.
//! The range-header parser and the content-range framing are built on these.

use vstd::prelude::*;

verus! {

/// An ASCII decimal digit.
pub open spec fn is_digit(b: u8) -> bool {
    48 <= b && b <= 57
}

/// Every byte of `s` is an ASCII decimal digit.
pub open spec fn all_digits(s: Seq<u8>) -> bool {
    forall|i: int| 0 <= i < s.len() ==> is_digit(#[trigger] s[i])
}

/// Numeric value of a digit string, most significant digit first.
/// Non-digit bytes contribute nothing; callers guard with `all_digits`.
pub open spec fn digits_val(s: Seq<u8>) -> nat
    decreases s.len(),
{
    if s.len() == 0 {
        0
    } else {
        digits_val(s.drop_last()) * 10 + (if is_digit(s.last()) {
            (s.last() - 48) as nat
        } else {
            0
        })
    }
}

/// The canonical decimal rendering of `n`: no sign, no leading zero
/// (except for `n == 0` itself).
pub open spec fn dec_of(n: nat) -> Seq<u8>
    decreases n,
{
    if n < 10 {
        seq![(48 + n) as u8]
    } else {
        dec_of(n / 10) + seq![(48 + n % 10) as u8]
    }
}

/// `n` capped at the largest `u64`.
pub open spec fn sat64(n: nat) -> u64 {
    if n > u64::MAX {
        u64::MAX
    } else {
        n as u64
    }
}

/// Appending one digit multiplies the value by ten and adds the digit.
pub proof fn lemma_digits_val_push(s: Seq<u8>, b: u8)
    requires
        is_digit(b),
    ensures
        digits_val(s + seq![b]) == digits_val(s) * 10 + (b - 48),
{
    let t = s + seq![b];
    assert(t.drop_last() =~= s);
    assert(t.last() == b);
}

/// The decimal rendering of `n` is made of digits and reads back as `n`.
pub proof fn lemma_dec_of_val(n: nat)
    ensures
        dec_of(n).len() >= 1,
        all_digits(dec_of(n)),
        digits_val(dec_of(n)) == n,
    decreases n,
{
    if n < 10 {
        let s = dec_of(n);
        assert(s == seq![(48 + n) as u8]);
        assert(s.drop_last() =~= Seq::<u8>::empty());
        assert(digits_val(Seq::<u8>::empty()) == 0);
        assert(digits_val(s) == n);
    } else {
        lemma_dec_of_val(n / 10);
        let p = dec_of(n / 10);
        let b = (48 + n % 10) as u8;
        lemma_digits_val_push(p, b);
        assert(dec_of(n) == p + seq![b]);
        assert(digits_val(dec_of(n)) == (n / 10) * 10 + n % 10);
        assert((n / 10) * 10 + n % 10 == n) by (nonlinear_arith);
        assert forall|i: int| 0 <= i < dec_of(n).len() implies is_digit(
            #[trigger] dec_of(n)[i],
        ) by {
            if i < p.len() {
                assert(is_digit(p[i]));
            }
        }
    }
}

/// One step of saturating left-to-right accumulation: if `acc` is the value
/// accumulated so far capped at `u64::MAX`, the result is the value with one
/// more digit, capped the same way.
pub fn push_digit_sat(acc: u64, d: u8, Ghost(n): Ghost<nat>) -> (r: u64)
    requires
        is_digit(d),
        acc == sat64(n),
    ensures
        r == sat64(n * 10 + ((d - 48) as nat)),
{
    proof {
        if n > u64::MAX {
            assert(n * 10 >= n) by (nonlinear_arith);
        } else {
            assert(n * 10 == acc * 10);
        }
    }
    let t: u64 = match acc.checked_mul(10) {
        Some(t) => t,
        None => u64::MAX,
    };
    t.saturating_add((d - 48) as u64)
}

/// Render `n` in decimal, exactly as `dec_of` describes.
pub fn format_u64(n: u64) -> (r: Vec<u8>)
    ensures
        r@ == dec_of(n as nat),
    decreases n,
{
    if n < 10 {
        let mut v: Vec<u8> = Vec::new();
        v.push((48 + n) as u8);
        proof {
            assert(v@ =~= dec_of(n as nat));
        }
        v
    } else {
        let mut v = format_u64(n / 10);
        v.push((48 + n % 10) as u8);
        proof {
            assert(v@ =~= dec_of(n as nat));
        }
        v
    }
}

} // verus!
