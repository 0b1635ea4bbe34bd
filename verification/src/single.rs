//! Binary32 numbers, held by their bit patterns.
//!
//! The moving things of the game have single precision coordinates. The arithmetic that moves
//! them is the caller's; what the rules need of a coordinate is its order, its sign, and which
//! pattern stands for a given whole or half number, and that is here.

use vstd::arithmetic::power2::{lemma2_to64, lemma_pow2_adds, lemma_pow2_pos, lemma_pow2_unfold, pow2};
use vstd::prelude::*;

verus! {

/// A binary32 number: one sign bit, eight exponent bits, twenty-three fraction bits.
#[derive(Clone, Copy, Debug, PartialEq, Eq, Structural)]
pub struct Single {
    pub bits: u32,
}

/// How many least steps (of `2^-149`) the magnitude bits `m` amount to.
///
/// The pattern of an infinity follows the same rule: it counts as `2^128`, more than any finite
/// number.
pub open spec fn steps(m: int) -> int {
    let exponent = m / 0x80_0000;
    let fraction = m % 0x80_0000;
    if exponent <= 0 {
        fraction
    } else {
        (0x80_0000 + fraction) * pow2((exponent - 1) as nat)
    }
}

/// Half of one, in least steps.
pub open spec fn half() -> int {
    pow2(148) as int
}

impl Single {
    /// The pattern without its sign bit.
    pub open spec fn magnitude(self) -> int {
        self.bits as int % 0x8000_0000
    }

    pub open spec fn is_negative(self) -> bool {
        self.bits >= 0x8000_0000
    }

    pub open spec fn is_nan(self) -> bool {
        self.magnitude() > 0x7f80_0000
    }

    /// The number, in least steps of `2^-149`; an infinity counts as `2^128`.
    pub open spec fn value(self) -> int {
        if self.is_negative() {
            -steps(self.magnitude())
        } else {
            steps(self.magnitude())
        }
    }

    /// `self < other`: never so where one of them is no number.
    pub open spec fn less(self, other: Single) -> bool {
        !self.is_nan() && !other.is_nan() && self.value() < other.value()
    }

    /// `self < n / 2`.
    pub open spec fn below(self, n: int) -> bool {
        !self.is_nan() && self.value() < n * half()
    }

    /// `self > n / 2`.
    pub open spec fn above(self, n: int) -> bool {
        !self.is_nan() && self.value() > n * half()
    }

    /// `self >= n / 2`.
    pub open spec fn at_least(self, n: int) -> bool {
        !self.is_nan() && self.value() >= n * half()
    }

    /// Whether this is the pattern of `n / 2`; of the two zeros, the positive one.
    pub open spec fn stands_for(self, n: int) -> bool {
        &&& !self.is_nan()
        &&& self.value() == n * half()
        &&& n == 0 ==> self.bits == 0
    }

    /// The same number with the other sign.
    pub open spec fn negated(self) -> Single {
        Single {
            bits: if self.is_negative() {
                (self.bits - 0x8000_0000) as u32
            } else {
                (self.bits + 0x8000_0000) as u32
            },
        }
    }
}

/// The number `n / 2`.
pub open spec fn halves_of(n: int) -> Single {
    choose|s: Single| s.stands_for(n)
}

proof fn lemma_steps_next(m: int)
    requires
        0 <= m < 0x7f80_0000,
    ensures
        steps(m) < steps(m + 1),
{
    let e = m / 0x80_0000;
    let f = m % 0x80_0000;
    if f < 0x7f_ffff {
        assert((m + 1) / 0x80_0000 == e && (m + 1) % 0x80_0000 == f + 1);
        if e > 0 {
            let p = pow2((e - 1) as nat) as int;
            lemma_pow2_pos((e - 1) as nat);
            assert((0x80_0000 + f) * p < (0x80_0000 + (f + 1)) * p) by (nonlinear_arith)
                requires
                    p > 0,
            ;
        }
    } else {
        assert((m + 1) / 0x80_0000 == e + 1 && (m + 1) % 0x80_0000 == 0);
        if e > 0 {
            let p = pow2((e - 1) as nat) as int;
            lemma_pow2_pos((e - 1) as nat);
            lemma_pow2_unfold(e as nat);
            assert((0x80_0000 + f) * p < 0x80_0000 * (2 * p)) by (nonlinear_arith)
                requires
                    p > 0,
                    f == 0x7f_ffff,
            ;
        } else {
            lemma2_to64();
        }
    }
}

proof fn lemma_steps_increase(a: int, b: int)
    requires
        0 <= a < b <= 0x7f80_0000,
    ensures
        steps(a) < steps(b),
    decreases b - a,
{
    lemma_steps_next(b - 1);
    if a < b - 1 {
        lemma_steps_increase(a, b - 1);
    }
}

/// The order of the numbers is the order of their patterns read as signed magnitudes.
proof fn lemma_order(a: Single, b: Single)
    requires
        !a.is_nan(),
        !b.is_nan(),
    ensures
        ({
            let ra = if a.is_negative() { -a.magnitude() } else { a.magnitude() };
            let rb = if b.is_negative() { -b.magnitude() } else { b.magnitude() };
            (ra < rb) == (a.value() < b.value())
        }),
{
    let x = a.magnitude();
    let y = b.magnitude();
    if x < y {
        lemma_steps_increase(x, y);
    } else if y < x {
        lemma_steps_increase(y, x);
    }
    if 0 < x {
        lemma_steps_increase(0, x);
    }
    if 0 < y {
        lemma_steps_increase(0, y);
    }
}

/// No two patterns stand for the same half number.
pub proof fn lemma_stands_for_one(a: Single, b: Single, n: int)
    requires
        a.stands_for(n),
        b.stands_for(n),
    ensures
        a == b,
        a == halves_of(n),
{
    assert(halves_of(n).stands_for(n));
    lemma_same(a, b, n);
    lemma_same(a, halves_of(n), n);
}

proof fn lemma_same(a: Single, b: Single, n: int)
    requires
        a.stands_for(n),
        b.stands_for(n),
    ensures
        a == b,
{
    lemma_order(a, b);
    lemma_order(b, a);
    if n != 0 {
        lemma_pow2_pos(148);
        assert(n * half() != 0) by (nonlinear_arith)
            requires
                n != 0,
                half() > 0,
        ;
        assert(a.magnitude() != 0 && b.magnitude() != 0);
    }
}

/// The pattern that a number `m / 2` has, once `m` has been doubled `k` times to take up
/// twenty-four bits.
proof fn lemma_pattern(m: int, k: nat, s: Single)
    requires
        0 < m,
        k <= 23,
        0x80_0000 <= m * pow2(k) < 0x100_0000,
        s.bits == (148 - k) * 0x80_0000 + m * pow2(k),
    ensures
        s.stands_for(m),
{
    let scaled = m * pow2(k);
    let e = (148 - k) as nat;
    lemma_pow2_adds(k, e);
    let bits = s.bits as int;
    assert(bits / 0x80_0000 == e + 1);
    assert(bits % 0x80_0000 == scaled - 0x80_0000);
    assert(steps(bits) == scaled * pow2(e));
    assert((m * pow2(k)) * pow2(e) == m * (pow2(k) * pow2(e))) by (nonlinear_arith);
}

/// A number with its sign turned stands for the opposite.
proof fn lemma_opposite(s: Single, n: int)
    requires
        n != 0,
        s.stands_for(n),
    ensures
        s.negated().stands_for(-n),
{
    assert((-n) * half() == -(n * half())) by (nonlinear_arith);
}

/// How often `m` has to be doubled to take up twenty-four bits, `k` times at least.
proof fn lemma_doublings(m: int, k: nat) -> (r: nat)
    requires
        0 < m,
        k <= 23,
        m * pow2(k) < 0x100_0000,
    ensures
        r <= 23,
        0x80_0000 <= m * pow2(r) < 0x100_0000,
    decreases 23 - k,
{
    if m * pow2(k) >= 0x80_0000 {
        k
    } else {
        lemma_doubled(m, k);
        lemma_doublings(m, k + 1)
    }
}

/// Doubling once more, short of twenty-four bits.
proof fn lemma_doubled(m: int, k: nat)
    requires
        0 < m,
        k <= 23,
        m * pow2(k) < 0x80_0000,
    ensures
        k < 23,
        m * pow2(k + 1) == 2 * (m * pow2(k)),
{
    let p = pow2(k) as int;
    lemma_pow2_unfold(k + 1);
    assert(m * (2 * p) == 2 * (m * p)) by (nonlinear_arith);
    if k == 23 {
        lemma2_to64();
        assert(m * 0x80_0000 >= 0x80_0000) by (nonlinear_arith)
            requires
                m >= 1,
        ;
    }
}

/// Half numbers of up to twenty-four bits all have a pattern.
pub proof fn lemma_halves_exist(n: int)
    requires
        -0x100_0000 < n < 0x100_0000,
    ensures
        halves_of(n).stands_for(n),
{
    if n == 0 {
        assert(Single { bits: 0 }.stands_for(0));
    } else {
        let m = if n < 0 {
            -n
        } else {
            n
        };
        lemma2_to64();
        assert(m * pow2(0) == m);
        let k = lemma_doublings(m, 0);
        let s = Single { bits: ((148 - k) * 0x80_0000 + m * pow2(k)) as u32 };
        lemma_pattern(m, k, s);
        if n < 0 {
            lemma_opposite(s, m);
            assert(s.negated().stands_for(n));
        }
    }
}

impl Single {
    /// Whether the pattern is no number at all.
    pub fn nan(self) -> (r: bool)
        ensures
            r == self.is_nan(),
    {
        self.bits % 0x8000_0000 > 0x7f80_0000
    }

    /// `self < other`.
    pub fn lt(self, other: Single) -> (r: bool)
        ensures
            r == self.less(other),
    {
        if self.nan() || other.nan() {
            return false;
        }
        proof {
            lemma_order(self, other);
        }
        self.rank() < other.rank()
    }

    fn rank(self) -> (r: i64)
        ensures
            r == (if self.is_negative() { -self.magnitude() } else { self.magnitude() }),
    {
        let m: i64 = (self.bits % 0x8000_0000) as i64;
        if self.bits >= 0x8000_0000 {
            -m
        } else {
            m
        }
    }

    /// The number with its sign turned.
    pub fn neg(self) -> (r: Single)
        ensures
            r == self.negated(),
            r.is_nan() == self.is_nan(),
            r.value() == -self.value(),
    {
        if self.bits >= 0x8000_0000 {
            Single { bits: self.bits - 0x8000_0000 }
        } else {
            Single { bits: self.bits + 0x8000_0000 }
        }
    }

    /// The number `n / 2`.
    pub fn halves(n: i32) -> (r: Single)
        requires
            -0x100_0000 < n < 0x100_0000,
        ensures
            r.stands_for(n as int),
            r == halves_of(n as int),
    {
        if n == 0 {
            let zero = Single { bits: 0 };
            proof {
                assert(zero.stands_for(0));
                lemma_stands_for_one(zero, zero, 0);
            }
            return zero;
        }
        let m: u32 = if n < 0 {
            (-n) as u32
        } else {
            n as u32
        };
        let mut scaled: u32 = m;
        let mut k: u32 = 0;
        proof {
            lemma2_to64();
            assert(m * pow2(0) == m);
        }
        while scaled < 0x80_0000
            invariant
                0 < m < 0x100_0000,
                0 < scaled < 0x100_0000,
                k <= 23,
                scaled == m * pow2(k as nat),
            decreases 23 - k,
        {
            proof {
                lemma_doubled(m as int, k as nat);
            }
            scaled = scaled * 2;
            k = k + 1;
        }
        let r = Single { bits: (148 - k) * 0x80_0000 + scaled };
        proof {
            lemma_pattern(m as int, k as nat, r);
            lemma_stands_for_one(r, r, m as int);
        }
        if n < 0 {
            proof {
                lemma_opposite(r, m as int);
                lemma_stands_for_one(r.negated(), r.negated(), n as int);
            }
            r.neg()
        } else {
            r
        }
    }

    /// `self < n / 2`.
    pub fn lt_halves(self, n: i32) -> (r: bool)
        requires
            -0x100_0000 < n < 0x100_0000,
        ensures
            r == self.below(n as int),
    {
        self.lt(Single::halves(n))
    }

    /// `self > n / 2`.
    pub fn gt_halves(self, n: i32) -> (r: bool)
        requires
            -0x100_0000 < n < 0x100_0000,
        ensures
            r == self.above(n as int),
    {
        Single::halves(n).lt(self)
    }

    /// `self >= n / 2`.
    pub fn ge_halves(self, n: i32) -> (r: bool)
        requires
            -0x100_0000 < n < 0x100_0000,
        ensures
            r == self.at_least(n as int),
    {
        !self.nan() && !self.lt(Single::halves(n))
    }
}

} // verus!
