//! Single-precision numbers held by their bit patterns.
//!
//! The renderer's numbers are IEEE 754 binary32 values. This module keeps a
//! number as its 32 bits and decides, from the bits alone, everything that
//! needs no rounding: the order of two numbers, the smaller and the larger of
//! two, the sign flip, the absolute value and the floor. Sums, products and
//! quotients are rounded and are not found here: whoever uses the library
//! computes them and hands in the bits of the result.
//!
//! Two models give the bits their meaning. The `rank` of a bit pattern is an
//! integer that orders the patterns as the numbers are ordered. The `scaled`
//! value is the number itself, counted in steps of two to the power of -149.
//! `lemma_rank_orders_values` shows that the two agree.
use vstd::arithmetic::div_mod::{lemma_fundamental_div_mod, lemma_fundamental_div_mod_converse};
use vstd::arithmetic::power2::{
    lemma2_to64, lemma_pow2_adds, lemma_pow2_pos, lemma_pow2_strictly_increases,
    lemma_pow2_unfold, pow2,
};
use vstd::prelude::*;

verus! {

/// The bit that holds the sign.
pub const SIGN_BIT: u32 = 0x8000_0000;

/// The bits of positive infinity; every larger magnitude is a NaN.
pub const INFINITY_BITS: u32 = 0x7f80_0000;

/// The bits of the number one.
pub const ONE_BITS: u32 = 0x3f80_0000;

/// The smallest magnitude with the exponent field 1: two to the power of 23.
pub const HIDDEN_BIT: u32 = 0x80_0000;

/// A binary32 number, stored as its bit pattern.
#[derive(Clone, Copy, Debug, PartialEq, Eq, Structural)]
pub struct Scalar {
    pub bits: u32,
}

impl Scalar {
    /// The bits without the sign.
    pub open spec fn magnitude(self) -> int {
        if self.bits >= SIGN_BIT {
            self.bits - SIGN_BIT
        } else {
            self.bits as int
        }
    }

    /// Whether the sign bit is set.
    pub open spec fn is_negative(self) -> bool {
        self.bits >= SIGN_BIT
    }

    /// Whether the bits stand for no number at all.
    pub open spec fn nan(self) -> bool {
        self.magnitude() > INFINITY_BITS
    }

    /// The place of a number on the number line: for two numbers `a` and `b`,
    /// `a` is below `b` exactly when `a.rank() < b.rank()`. Both zeros have
    /// rank 0.
    pub open spec fn rank(self) -> int {
        if self.is_negative() {
            -self.magnitude()
        } else {
            self.magnitude()
        }
    }

    /// The exponent field: the eight bits below the sign.
    pub open spec fn exponent_field(self) -> int {
        self.magnitude() / (HIDDEN_BIT as int)
    }

    /// The fraction field: the lowest 23 bits.
    pub open spec fn fraction_field(self) -> int {
        self.magnitude() % (HIDDEN_BIT as int)
    }

    /// The size of the number, counted in steps of two to the power of
    /// -149, of which every number is a whole multiple. With the exponent
    /// field 0 the fraction field counts the steps itself; a larger exponent
    /// field `e` puts a one before the fraction and doubles it `e - 1` times.
    /// (Infinity comes out larger than every number.)
    pub open spec fn steps(self) -> int {
        if self.exponent_field() == 0 {
            self.fraction_field()
        } else {
            (HIDDEN_BIT + self.fraction_field()) * pow2((self.exponent_field() - 1) as nat)
        }
    }

    /// The number itself in steps of two to the power of -149: the value of
    /// the number is `scaled() / 2^149`.
    pub open spec fn scaled(self) -> int {
        if self.is_negative() {
            -self.steps()
        } else {
            self.steps()
        }
    }

    /// The largest whole number that is not above the number doubled
    /// `doublings` times.
    pub open spec fn floor_of_multiple(self, doublings: nat) -> int {
        (self.scaled() * pow2(doublings)) / (pow2(149) as int)
    }

    /// The largest whole number that is not above the number.
    pub open spec fn floor_value(self) -> int {
        self.floor_of_multiple(0)
    }

    /// What the cast of a whole number to a 32-bit integer gives: the
    /// number where it fits, else the nearest end of the range.
    pub open spec fn in_range(whole: int) -> int {
        if whole < i32::MIN {
            i32::MIN as int
        } else if whole > i32::MAX {
            i32::MAX as int
        } else {
            whole
        }
    }

    /// What the cast of the floor to a 32-bit integer gives: the floor where
    /// it fits, the nearest end of the range where it does not, and 0 for a
    /// NaN.
    pub open spec fn floor_in_range(self) -> int {
        if self.nan() {
            0
        } else {
            Scalar::in_range(self.floor_value())
        }
    }

    /// The comparison `<`: false as soon as one side is a NaN.
    pub open spec fn less(self, other: Scalar) -> bool {
        !self.nan() && !other.nan() && self.rank() < other.rank()
    }

    /// The comparison `<=`: false as soon as one side is a NaN.
    pub open spec fn less_eq(self, other: Scalar) -> bool {
        !self.nan() && !other.nan() && self.rank() <= other.rank()
    }

    /// A key that orders every bit pattern: numbers by rank, and every NaN
    /// after positive infinity.
    pub open spec fn order_key(self) -> int {
        if self.nan() {
            INFINITY_BITS + 1
        } else {
            self.rank()
        }
    }

    /// A key that tells every two bit patterns apart and agrees with `rank`
    /// on numbers; negative zero comes just below positive zero.
    pub open spec fn total_key(self) -> int {
        if self.is_negative() {
            -1 - self.magnitude()
        } else {
            self.magnitude()
        }
    }

    /// The smaller of two: where exactly one side is a NaN, the other side;
    /// otherwise the side with the smaller total key.
    pub open spec fn min_of(self, other: Scalar) -> Scalar {
        if self.nan() && !other.nan() {
            other
        } else if other.nan() && !self.nan() {
            self
        } else if self.total_key() <= other.total_key() {
            self
        } else {
            other
        }
    }

    /// The larger of two: where exactly one side is a NaN, the other side;
    /// otherwise the side with the larger total key.
    pub open spec fn max_of(self, other: Scalar) -> Scalar {
        if self.nan() && !other.nan() {
            other
        } else if other.nan() && !self.nan() {
            self
        } else if self.total_key() >= other.total_key() {
            self
        } else {
            other
        }
    }

    /// The same magnitude with the opposite sign.
    pub open spec fn negated(self) -> Scalar {
        if self.bits >= SIGN_BIT {
            Scalar { bits: (self.bits - SIGN_BIT) as u32 }
        } else {
            Scalar { bits: (self.bits + SIGN_BIT) as u32 }
        }
    }

    /// The same magnitude with the sign cleared.
    pub open spec fn absolute(self) -> Scalar {
        Scalar { bits: self.magnitude() as u32 }
    }

    pub fn from_bits(bits: u32) -> (r: Scalar)
        ensures
            r.bits == bits,
    {
        Scalar { bits }
    }

    pub fn to_bits(self) -> (r: u32)
        ensures
            r == self.bits,
    {
        self.bits
    }

    /// Positive zero.
    pub fn zero() -> (r: Scalar)
        ensures
            r.bits == 0,
    {
        Scalar { bits: 0 }
    }

    /// The number one.
    pub fn one() -> (r: Scalar)
        ensures
            r.bits == ONE_BITS,
    {
        Scalar { bits: ONE_BITS }
    }

    /// Positive infinity.
    pub fn infinity() -> (r: Scalar)
        ensures
            r.bits == INFINITY_BITS,
    {
        Scalar { bits: INFINITY_BITS }
    }

    fn magnitude_bits(self) -> (r: u32)
        ensures
            r == self.magnitude(),
    {
        if self.bits >= SIGN_BIT {
            self.bits - SIGN_BIT
        } else {
            self.bits
        }
    }

    pub fn is_nan(self) -> (r: bool)
        ensures
            r == self.nan(),
    {
        self.magnitude_bits() > INFINITY_BITS
    }

    /// The rank as a machine integer.
    pub fn rank_value(self) -> (r: i64)
        ensures
            r == self.rank(),
    {
        let m: i64 = self.magnitude_bits() as i64;
        if self.bits >= SIGN_BIT {
            -m
        } else {
            m
        }
    }

    /// The order key as a machine integer.
    pub fn sort_key(self) -> (r: i64)
        ensures
            r == self.order_key(),
    {
        if self.is_nan() {
            INFINITY_BITS as i64 + 1
        } else {
            self.rank_value()
        }
    }

    fn total_value(self) -> (r: i64)
        ensures
            r == self.total_key(),
    {
        let m: i64 = self.magnitude_bits() as i64;
        if self.bits >= SIGN_BIT {
            -1 - m
        } else {
            m
        }
    }

    pub fn lt(self, other: Scalar) -> (r: bool)
        ensures
            r == self.less(other),
    {
        !self.is_nan() && !other.is_nan() && self.rank_value() < other.rank_value()
    }

    pub fn le(self, other: Scalar) -> (r: bool)
        ensures
            r == self.less_eq(other),
    {
        !self.is_nan() && !other.is_nan() && self.rank_value() <= other.rank_value()
    }

    pub fn gt(self, other: Scalar) -> (r: bool)
        ensures
            r == other.less(self),
    {
        other.lt(self)
    }

    pub fn ge(self, other: Scalar) -> (r: bool)
        ensures
            r == other.less_eq(self),
    {
        other.le(self)
    }

    pub fn min(self, other: Scalar) -> (r: Scalar)
        ensures
            r == self.min_of(other),
    {
        let a_nan = self.is_nan();
        let b_nan = other.is_nan();
        if a_nan && !b_nan {
            other
        } else if b_nan && !a_nan {
            self
        } else if self.total_value() <= other.total_value() {
            self
        } else {
            other
        }
    }

    pub fn max(self, other: Scalar) -> (r: Scalar)
        ensures
            r == self.max_of(other),
    {
        let a_nan = self.is_nan();
        let b_nan = other.is_nan();
        if a_nan && !b_nan {
            other
        } else if b_nan && !a_nan {
            self
        } else if self.total_value() >= other.total_value() {
            self
        } else {
            other
        }
    }

    /// The floor of the number as a 32-bit integer, as the cast of the
    /// floor gives it.
    pub fn floor_to_i32(self) -> (r: i32)
        ensures
            r == self.floor_in_range(),
    {
        self.floor_of_multiple_to_i32(0)
    }

    /// The floor of the number doubled `doublings` times, as a 32-bit
    /// integer: the floor where it fits, the nearest end of the range where
    /// it does not, and 0 for a NaN.
    pub(crate) fn floor_of_multiple_to_i32(self, doublings: u8) -> (r: i32)
        requires
            doublings <= 8,
        ensures
            self.nan() ==> r == 0,
            !self.nan() ==> r == Scalar::in_range(self.floor_of_multiple(doublings as nat)),
    {
        let mag: u32 = self.magnitude_bits();
        if mag > INFINITY_BITS {
            return 0;
        }
        let negative = self.bits >= SIGN_BIT;
        let e: u32 = mag / HIDDEN_BIT;
        let f: u32 = mag % HIDDEN_BIT;
        // The number is `m * 2^(k - 149)`, with the sign.
        let m: u32 = if e == 0 {
            f
        } else {
            HIDDEN_BIT + f
        };
        let k: u32 = if e == 0 {
            doublings as u32
        } else {
            e - 1 + doublings as u32
        };
        let ghost signed: int = if negative {
            -(m as int)
        } else {
            m as int
        };
        proof {
            lemma2_to64();
            lemma_pow2_pos(149);
            lemma_multiple(self, doublings as nat);
        }
        if k < 126 {
            proof {
                lemma_below_one(signed, k as nat);
            }
            return if negative && m != 0 {
                -1
            } else {
                0
            };
        }
        if k >= 157 {
            proof {
                lemma_beyond_range(signed, k as nat);
            }
            return if negative {
                i32::MIN
            } else {
                i32::MAX
            };
        }
        if k >= 149 {
            let up: u32 = k - 149;
            proof {
                lemma_shift_up(m, up);
                lemma_scale_floor(signed, k as nat, 149, up as nat);
                assert((-(m as int)) * pow2(up as nat) == -(m * pow2(up as nat)))
                    by (nonlinear_arith);
            }
            let q: u32 = m << up;
            if negative {
                (-(q as i64)) as i32
            } else {
                q as i32
            }
        } else {
            let down: u32 = 149 - k;
            proof {
                lemma_shift_up(1, down);
                lemma_pow2_pos(down as nat);
                vstd::bits::lemma_u32_shr_is_div(m, down);
                lemma_floor_of_fraction(signed, k as nat, down as nat);
                lemma_floor_negated(m as int, pow2(down as nat) as int);
            }
            let q: u32 = m >> down;
            let d: u32 = 1u32 << down;
            if negative {
                if m % d == 0 {
                    -(q as i32)
                } else {
                    -(q as i32) - 1
                }
            } else {
                q as i32
            }
        }
    }

    pub fn neg(self) -> (r: Scalar)
        ensures
            r == self.negated(),
    {
        if self.bits >= SIGN_BIT {
            Scalar { bits: self.bits - SIGN_BIT }
        } else {
            Scalar { bits: self.bits + SIGN_BIT }
        }
    }

    pub fn abs(self) -> (r: Scalar)
        ensures
            r == self.absolute(),
    {
        Scalar { bits: self.magnitude_bits() }
    }
}

/// A left shift that loses no bit multiplies by a power of two.
proof fn lemma_shift_up(m: u32, up: u32)
    requires
        m < 0x100_0000,
        up < 24,
        up < 8 || m == 1,
    ensures
        m << up == m * pow2(up as nat),
        m * pow2(up as nat) < 0x8000_0000,
{
    lemma2_to64();
    lemma_pow2_pos(up as nat);
    lemma_pow2_strictly_increases(up as nat, 24);
    if up < 7 {
        lemma_pow2_strictly_increases(up as nat, 7);
    }
    assert(m * pow2(up as nat) < 0x8000_0000) by (nonlinear_arith)
        requires
            m < 0x100_0000,
            0 < pow2(up as nat) < 0x100_0000,
            up < 8 ==> pow2(up as nat) <= 128,
            up >= 8 ==> m == 1,
    ;
    vstd::bits::lemma_u32_shl_is_mul(m, up);
}

/// Dividing `a * 2^k` by `2^total`, where `k = total + up`: the quotient
/// is `a * 2^up`, without a rest.
proof fn lemma_scale_floor(a: int, k: nat, total: nat, up: nat)
    requires
        k == total + up,
    ensures
        (a * pow2(k)) / (pow2(total) as int) == a * pow2(up),
{
    lemma_pow2_adds(total, up);
    lemma_pow2_pos(total);
    assert(a * pow2(k) == (a * pow2(up)) * pow2(total) + 0) by (nonlinear_arith)
        requires
            pow2(k) == pow2(total) * pow2(up),
    ;
    lemma_fundamental_div_mod_converse(a * pow2(k), pow2(total) as int, a * pow2(up), 0);
}

/// Dividing `a * 2^k` by `2^(k + down)` is dividing `a` by `2^down`.
proof fn lemma_floor_of_fraction(a: int, k: nat, down: nat)
    ensures
        (a * pow2(k)) / (pow2(k + down) as int) == a / (pow2(down) as int),
{
    lemma_pow2_adds(k, down);
    lemma_pow2_pos(k);
    lemma_pow2_pos(down);
    let d = pow2(down) as int;
    let x = pow2(k) as int;
    let q = a / d;
    let r = a % d;
    lemma_fundamental_div_mod(a, d);
    assert(a * x == q * (x * d) + r * x && 0 <= r * x < x * d) by (nonlinear_arith)
        requires
            a == d * q + r,
            0 <= r < d,
            x > 0,
    ;
    lemma_fundamental_div_mod_converse(a * x, x * d, q, r * x);
}

/// The floor of a negative quotient: one below the negated quotient, unless
/// the division leaves no rest.
proof fn lemma_floor_negated(m: int, d: int)
    requires
        m >= 0,
        d > 0,
    ensures
        (-m) / d == (if m % d == 0 { -(m / d) } else { -(m / d) - 1 }),
{
    let q = m / d;
    let r = m % d;
    lemma_fundamental_div_mod(m, d);
    if r == 0 {
        assert(-m == (-q) * d + 0) by (nonlinear_arith)
            requires
                m == d * q + r,
                r == 0,
        ;
        lemma_fundamental_div_mod_converse(-m, d, -q, 0);
    } else {
        assert(-m == (-q - 1) * d + (d - r)) by (nonlinear_arith)
            requires
                m == d * q + r,
        ;
        lemma_fundamental_div_mod_converse(-m, d, -q - 1, d - r);
    }
}

/// A number doubled `doublings` times is `m * 2^(k - 149)` with the sign,
/// where a number with the exponent field 0 has `m` its fraction field and
/// `k` the doublings, and any other has `m` the fraction field with a one
/// before it and `k` the exponent field less one plus the doublings.
proof fn lemma_multiple(a: Scalar, doublings: nat)
    ensures
        a.scaled() * pow2(doublings) == (if a.is_negative() { -1int } else { 1int }) * (if a.exponent_field()
            == 0 {
            a.fraction_field()
        } else {
            HIDDEN_BIT + a.fraction_field()
        }) * pow2(
            if a.exponent_field() == 0 {
                doublings
            } else {
                (a.exponent_field() - 1 + doublings) as nat
            },
        ),
{
    let e = a.exponent_field();
    let f = a.fraction_field();
    let j = pow2(doublings);
    if e == 0 {
        assert((-f) * j == (-1int) * f * j && f * j == 1int * f * j) by (nonlinear_arith);
    } else {
        let m = HIDDEN_BIT + f;
        let p = pow2((e - 1) as nat);
        lemma_pow2_adds((e - 1) as nat, doublings);
        assert((-(m * p)) * j == (-1int) * m * (p * j) && (m * p) * j == 1int * m * (p * j))
            by (nonlinear_arith);
    }
}

/// A number of magnitude below one has the floor 0, or -1 where it is
/// negative.
proof fn lemma_below_one(signed: int, k: nat)
    requires
        -0x100_0000 < signed < 0x100_0000,
        k < 126,
    ensures
        (signed * pow2(k)) / (pow2(149) as int) == (if signed < 0 { -1int } else { 0 }),
        (1int * signed * pow2(k)) / (pow2(149) as int) == (if signed < 0 { -1int } else { 0 }),
        ((-1int) * (-signed) * pow2(k)) / (pow2(149) as int) == (if signed < 0 {
            -1int
        } else {
            0
        }),
{
    lemma2_to64();
    lemma_pow2_pos(149);
    lemma_pow2_pos(k);
    lemma_pow2_adds(k, 24);
    if k + 24 < 149 {
        lemma_pow2_strictly_increases(k + 24, 149);
    }
    let size = if signed < 0 { -signed } else { signed };
    assert(0 <= size * pow2(k) < pow2(k) * pow2(24)) by (nonlinear_arith)
        requires
            0 <= size < pow2(24),
            pow2(k) > 0,
    ;
    assert(signed < 0 ==> size * pow2(k) > 0) by (nonlinear_arith)
        requires
            signed < 0 ==> size > 0,
            pow2(k) > 0,
    ;
    assert(signed * pow2(k) == (if signed < 0 { -(size * pow2(k)) } else { size * pow2(k) })
        && 1int * signed * pow2(k) == signed * pow2(k) && (-1int) * (-signed) * pow2(k) == signed
        * pow2(k)) by (nonlinear_arith)
        requires
            size == (if signed < 0 { -signed } else { signed }),
    ;
    if signed < 0 {
        lemma_fundamental_div_mod_converse(
            signed * pow2(k),
            pow2(149) as int,
            -1,
            pow2(149) - size * pow2(k),
        );
    } else {
        lemma_fundamental_div_mod_converse(signed * pow2(k), pow2(149) as int, 0, size * pow2(k));
    }
}

/// A number of magnitude two to the power of 31 or more has a floor at or
/// beyond the end of the 32-bit range.
proof fn lemma_beyond_range(signed: int, k: nat)
    requires
        signed >= 0x80_0000 || signed <= -0x80_0000,
        k >= 157,
    ensures
        signed < 0 ==> (signed * pow2(k)) / (pow2(149) as int) <= i32::MIN,
        signed > 0 ==> (signed * pow2(k)) / (pow2(149) as int) > i32::MAX,
{
    lemma2_to64();
    let up = (k - 149) as nat;
    lemma_scale_floor(signed, k, 149, up);
    if up > 8 {
        lemma_pow2_strictly_increases(8, up);
    }
    assert(signed > 0 ==> signed * pow2(up) >= 0x8000_0000) by (nonlinear_arith)
        requires
            signed >= 0x80_0000 || signed <= -0x80_0000,
            pow2(up) >= 256,
    ;
    assert(signed < 0 ==> signed * pow2(up) <= -0x8000_0000) by (nonlinear_arith)
        requires
            signed >= 0x80_0000 || signed <= -0x80_0000,
            pow2(up) >= 256,
    ;
}

/// A larger magnitude stands for a larger size.
proof fn lemma_steps_increase(a: Scalar, b: Scalar)
    requires
        a.magnitude() < b.magnitude(),
    ensures
        a.steps() < b.steps(),
{
    let e = a.exponent_field();
    let f = a.fraction_field();
    let e2 = b.exponent_field();
    let f2 = b.fraction_field();
    assert(e < e2 || (e == e2 && f < f2));
    if e == e2 {
        if e > 0 {
            let p = pow2((e - 1) as nat);
            lemma_pow2_pos((e - 1) as nat);
            assert((HIDDEN_BIT + f) * p < (HIDDEN_BIT + f2) * p) by (nonlinear_arith)
                requires
                    f < f2,
                    p > 0,
            ;
        }
    } else {
        let upper = pow2((e2 - 1) as nat);
        lemma_pow2_pos((e2 - 1) as nat);
        assert(HIDDEN_BIT * upper <= (HIDDEN_BIT + f2) * upper) by (nonlinear_arith)
            requires
                0 <= f2,
                upper > 0,
        ;
        if e == 0 {
            assert(HIDDEN_BIT * 1 <= HIDDEN_BIT * upper) by (nonlinear_arith)
                requires
                    upper >= 1,
            ;
        } else {
            let p = pow2((e - 1) as nat);
            lemma_pow2_pos((e - 1) as nat);
            lemma_pow2_unfold(e as nat);
            if e < e2 - 1 {
                lemma_pow2_strictly_increases(e as nat, (e2 - 1) as nat);
            }
            assert((HIDDEN_BIT + f) * p < HIDDEN_BIT * (2 * p)) by (nonlinear_arith)
                requires
                    f < HIDDEN_BIT,
                    p > 0,
            ;
            assert(HIDDEN_BIT * (2 * p) <= HIDDEN_BIT * upper) by (nonlinear_arith)
                requires
                    2 * p <= upper,
            ;
        }
    }
}

/// The rank orders numbers as their values do: of two numbers the one with
/// the smaller rank is the smaller number, and numbers of equal rank are
/// equal.
pub proof fn lemma_rank_orders_values(a: Scalar, b: Scalar)
    ensures
        a.rank() < b.rank() <==> a.scaled() < b.scaled(),
        a.rank() == b.rank() <==> a.scaled() == b.scaled(),
{
    if a.magnitude() < b.magnitude() {
        lemma_steps_increase(a, b);
    }
    if b.magnitude() < a.magnitude() {
        lemma_steps_increase(b, a);
    }
    let zero = Scalar { bits: 0 };
    if a.magnitude() > 0 {
        lemma_steps_increase(zero, a);
    }
    if b.magnitude() > 0 {
        lemma_steps_increase(zero, b);
    }
    assert(zero.steps() == 0);
}

/// The floor of a smaller number is not above the floor of a larger one.
pub proof fn lemma_floor_is_monotone(a: Scalar, b: Scalar, doublings: nat)
    requires
        a.rank() <= b.rank(),
    ensures
        a.floor_of_multiple(doublings) <= b.floor_of_multiple(doublings),
{
    lemma_rank_orders_values(a, b);
    lemma_pow2_pos(doublings);
    lemma_pow2_pos(149);
    assert(a.scaled() * pow2(doublings) <= b.scaled() * pow2(doublings)) by (nonlinear_arith)
        requires
            a.scaled() <= b.scaled(),
            pow2(doublings) > 0,
    ;
    vstd::arithmetic::div_mod::lemma_div_is_ordered(
        a.scaled() * pow2(doublings),
        b.scaled() * pow2(doublings),
        pow2(149) as int,
    );
}

/// The floor of a number with a fraction, doubled: the significand with its
/// leading one, divided by the power of two that is left of its scale.
pub proof fn lemma_floor_of_fraction_bits(a: Scalar, doublings: nat)
    requires
        !a.is_negative(),
        a.exponent_field() > 0,
        a.exponent_field() + doublings <= 150,
    ensures
        a.floor_of_multiple(doublings) == (HIDDEN_BIT + a.fraction_field()) / (pow2(
            (150 - a.exponent_field() - doublings) as nat,
        ) as int),
{
    let k = (a.exponent_field() - 1 + doublings) as nat;
    lemma_multiple(a, doublings);
    lemma_floor_of_fraction(HIDDEN_BIT + a.fraction_field(), k, (149 - k) as nat);
    assert(1int * (HIDDEN_BIT + a.fraction_field()) * pow2(k) == (HIDDEN_BIT + a.fraction_field())
        * pow2(k)) by (nonlinear_arith);
}

/// Two bit patterns with the same total key are the same bit pattern.
pub proof fn lemma_total_key_injective(a: Scalar, b: Scalar)
    requires
        a.total_key() == b.total_key(),
    ensures
        a == b,
{
}

/// The smaller and the larger of two do not depend on the order in which the
/// two are given.
pub proof fn lemma_min_max_commute(a: Scalar, b: Scalar)
    ensures
        a.min_of(b) == b.min_of(a),
        a.max_of(b) == b.max_of(a),
{
    if a.total_key() == b.total_key() {
        lemma_total_key_injective(a, b);
    }
}

/// Of two numbers the smaller is not above either, the larger is not below
/// either, and each is one of the two.
pub proof fn lemma_min_max_bounds(a: Scalar, b: Scalar)
    requires
        !a.nan(),
        !b.nan(),
    ensures
        a.min_of(b).less_eq(a),
        a.min_of(b).less_eq(b),
        a.less_eq(a.max_of(b)),
        b.less_eq(a.max_of(b)),
        a.min_of(b) == a || a.min_of(b) == b,
        a.max_of(b) == a || a.max_of(b) == b,
        a.min_of(b).rank() == if a.rank() <= b.rank() { a.rank() } else { b.rank() },
        a.max_of(b).rank() == if a.rank() >= b.rank() { a.rank() } else { b.rank() },
{
}

/// Flipping the sign mirrors the number line and undoes itself.
pub proof fn lemma_negated(a: Scalar)
    ensures
        a.negated().negated() == a,
        a.negated().nan() == a.nan(),
        a.negated().rank() == -a.rank(),
        a.negated().magnitude() == a.magnitude(),
{
}

/// On numbers `<` is a strict order and `<=` adds equality of rank.
pub proof fn lemma_order(a: Scalar, b: Scalar, c: Scalar)
    ensures
        !a.less(a),
        a.less(b) && b.less(c) ==> a.less(c),
        a.less_eq(b) && b.less_eq(c) ==> a.less_eq(c),
        a.less(b) ==> a.less_eq(b) && !b.less_eq(a),
        !a.nan() && !b.nan() ==> (a.less(b) || b.less_eq(a)),
{
}

} // verus!
