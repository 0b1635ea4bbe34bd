//! Numbers: what a pattern is worth, and how patterns compare.

use crate::single::{halves_of, lemma_halves_exist, lemma_stands_for_one, Single};
use vstd::arithmetic::power2::{lemma2_to64, lemma_pow2_unfold, pow2};
use vstd::prelude::*;

verus! {

/// What patterns are worth. The least ones count upwards one by one; from there on, the same
/// fraction under the next exponent is worth twice as much; the sign bit turns the sign; and what
/// lies beyond the infinities is no number.
pub proof fn law_patterns_count_and_double(x: Single, y: Single)
    ensures
        x.bits <= 0x100_0000 ==> x.value() == x.bits,
        0x80_0000 <= x.bits && y.bits == x.bits + 0x80_0000 && y.bits <= 0x7f80_0000 ==> y.value()
            == 2 * x.value(),
        y.bits == x.bits + 0x8000_0000 ==> y.value() == -x.value() && y.is_nan() == x.is_nan(),
        x.bits <= 0x7f80_0000 ==> !x.is_nan(),
        0x7f80_0000 < x.bits && x.bits < 0x8000_0000 ==> x.is_nan(),
{
    let b = x.bits;
    if b <= 0x100_0000 {
        lemma2_to64();
        assert(x.magnitude() == b);
        let e = b as int / 0x80_0000;
        let f = b as int % 0x80_0000;
        if e == 1 {
            assert((0x80_0000 + f) * pow2(0) == 0x80_0000 + f);
        } else if e == 2 {
            assert(b == 0x100_0000 && f == 0);
            assert(0x80_0000 * pow2(1) == 0x100_0000);
        }
    }
    if 0x80_0000 <= b <= 0x7f00_0000 {
        let m = b as int;
        let e = m / 0x80_0000;
        let f = m % 0x80_0000;
        assert((m + 0x80_0000) / 0x80_0000 == e + 1 && (m + 0x80_0000) % 0x80_0000 == f);
        lemma_pow2_unfold(e as nat);
        let p = pow2((e - 1) as nat) as int;
        assert((0x80_0000 + f) * (2 * p) == 2 * ((0x80_0000 + f) * p)) by (nonlinear_arith);
    }
}

/// Patterns compare as the numbers that they stand for; nothing compares with what is no number.
pub proof fn law_comparisons(x: Single, y: Single, n: int)
    ensures
        x.less(y) <==> !x.is_nan() && !y.is_nan() && x.value() < y.value(),
        x.below(n) <==> !x.is_nan() && x.value() < n * pow2(148),
        x.above(n) <==> !x.is_nan() && x.value() > n * pow2(148),
        x.at_least(n) <==> !x.is_nan() && x.value() >= n * pow2(148),
        !(x.below(n) && x.at_least(n)),
        !x.is_nan() ==> x.below(n) || x.at_least(n),
{
}

/// Turning the sign changes the sign bit and nothing else; done twice it changes nothing.
pub proof fn law_turning_the_sign(x: Single)
    ensures
        x.negated().value() == -x.value(),
        x.negated().is_nan() == x.is_nan(),
        x.negated().negated() == x,
        x.negated() != x,
        x.negated().bits as int - x.bits == 0x8000_0000 || x.bits as int - x.negated().bits
            == 0x8000_0000,
{
}

/// Whole and half numbers of up to twenty-four bits have a pattern, and only one.
pub proof fn law_half_numbers(n: int, x: Single)
    requires
        -0x100_0000 < n < 0x100_0000,
    ensures
        !halves_of(n).is_nan(),
        halves_of(n).value() == n * pow2(148),
        n != 0 && !x.is_nan() && x.value() == n * pow2(148) ==> x == halves_of(n),
        n == 0 ==> halves_of(n).bits == 0,
{
    lemma_halves_exist(n);
    if n != 0 && !x.is_nan() && x.value() == n * pow2(148) {
        lemma_stands_for_one(x, halves_of(n), n);
    }
}

} // verus!
