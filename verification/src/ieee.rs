//! IEEE 754 numbers held by their bit patterns.
//!
//! Which class a number falls in (NaN, infinite, finite, zero) and how two
//! numbers compare are facts about their bits alone.  This module states them
//! over the exact value that a bit pattern denotes: an integer count of the
//! smallest subnormal step (2^-1074 for [`Double`], 2^-149 for [`Single`]).
//! Arithmetic is left to the code that owns the hardware numbers.
use vstd::arithmetic::power2::{lemma_pow2_adds, lemma_pow2_pos, lemma_pow2_strictly_increases, pow2};
use vstd::arithmetic::mul::{lemma_mul_inequality, lemma_mul_strict_inequality};
use vstd::prelude::*;

verus! {

/// Sign bit of a binary64 pattern.
pub const DOUBLE_SIGN: u64 = 0x8000_0000_0000_0000;

/// Magnitude of binary64 infinity; larger magnitudes are NaNs.
pub const DOUBLE_INF: u64 = 0x7ff0_0000_0000_0000;

/// The binary64 number one.
pub const DOUBLE_ONE: u64 = 0x3ff0_0000_0000_0000;

/// The quiet NaN that blanks a binary64 pixel.
pub const DOUBLE_NAN: u64 = 0x7ff8_0000_0000_0000;

/// Sign bit of a binary32 pattern.
pub const SINGLE_SIGN: u32 = 0x8000_0000;

/// Magnitude of binary32 infinity; larger magnitudes are NaNs.
pub const SINGLE_INF: u32 = 0x7f80_0000;

/// The binary32 number one.
pub const SINGLE_ONE: u32 = 0x3f80_0000;

/// The quiet NaN that blanks a binary32 pixel.
pub const SINGLE_NAN: u32 = 0x7fc0_0000;

/// The value of a magnitude (a bit pattern without its sign) with `p` fraction
/// bits, counted in the format's smallest subnormal step.
///
/// A zero exponent field leaves the fraction as it is; every larger exponent
/// adds the hidden bit and doubles the step.  Infinity takes the value that
/// follows the largest finite number.
pub open spec fn steps(magnitude: int, p: nat) -> int {
    let exponent = magnitude / (pow2(p) as int);
    let fraction = magnitude % (pow2(p) as int);
    if exponent == 0 {
        fraction
    } else {
        (pow2(p) + fraction) * pow2((exponent - 1) as nat)
    }
}

/// A larger magnitude denotes a larger number: comparing bit patterns without
/// their signs compares the numbers.
pub proof fn law_magnitude_orders_values(a: int, b: int, p: nat)
    requires
        0 <= a < b,
    ensures
        0 <= steps(a, p) < steps(b, p),
{
    lemma_pow2_pos(p);
    let w = pow2(p) as int;
    let ea = a / w;
    let eb = b / w;
    let fa = a % w;
    let fb = b % w;
    vstd::arithmetic::div_mod::lemma_fundamental_div_mod(a, w);
    vstd::arithmetic::div_mod::lemma_fundamental_div_mod(b, w);
    vstd::arithmetic::div_mod::lemma_mod_bound(a, w);
    vstd::arithmetic::div_mod::lemma_mod_bound(b, w);
    vstd::arithmetic::div_mod::lemma_div_pos_is_pos(a, w);
    vstd::arithmetic::div_mod::lemma_div_is_ordered(a, b, w);
    if ea > 0 {
        lemma_pow2_pos((ea - 1) as nat);
        assert((w + fa) * pow2((ea - 1) as nat) >= 0) by (nonlinear_arith)
            requires
                w + fa >= 0,
                pow2((ea - 1) as nat) > 0,
        ;
    }
    if ea == eb {
        if ea > 0 {
            lemma_mul_strict_inequality(w + fa, w + fb, pow2((ea - 1) as nat) as int);
        }
    } else {
        lemma_pow2_pos((eb - 1) as nat);
        if ea == 0 {
            assert(w + fb <= (w + fb) * pow2((eb - 1) as nat)) by (nonlinear_arith)
                requires
                    w + fb >= 0,
                    pow2((eb - 1) as nat) >= 1,
            ;
        } else {
            let low = pow2((ea - 1) as nat) as int;
            let high = pow2((eb - 1) as nat) as int;
            assert(2 * low <= high) by {
                lemma_pow2_adds(1, (ea - 1) as nat);
                vstd::arithmetic::power2::lemma2_to64();
                if ea < eb - 1 {
                    lemma_pow2_strictly_increases(ea as nat, (eb - 1) as nat);
                }
            }
            lemma_mul_strict_inequality(w + fa, 2 * w, low);
            lemma_mul_inequality(2 * low, high, w);
            assert(2 * w * low == 2 * low * w) by (nonlinear_arith);
            assert(high * w == w * high) by (nonlinear_arith);
            lemma_mul_inequality(w, w + fb, high);
        }
    }
}

/// The number that a big-endian byte string spells in base 256.
pub open spec fn big_endian(bytes: Seq<u8>) -> int
    decreases bytes.len(),
{
    if bytes.len() == 0 {
        0
    } else {
        256 * big_endian(bytes.drop_last()) + bytes.last()
    }
}

/// Element type of an image: binary32 or binary64, by bit pattern.
pub trait FftFloat: Copy {
    /// True for the patterns that denote no number.
    spec fn not_a_number(self) -> bool;

    /// The exact value in smallest subnormal steps; unspecified for a NaN.
    spec fn value(self) -> int;

    /// The bit pattern as an unsigned number.
    spec fn pattern(self) -> int;

    /// Bytes that one element takes in a FITS data unit.
    spec fn width() -> nat;

    /// Positive zero.
    spec fn zero_spec() -> Self;

    /// One.
    spec fn one_spec() -> Self;

    /// The NaN that marks a pixel without data.
    spec fn nan_spec() -> Self;

    /// Zero is the number 0, one is a larger number, and the blank is no number.
    proof fn constants_are_distinct()
        ensures
            !Self::zero_spec().not_a_number(),
            Self::zero_spec().value() == 0,
            !Self::one_spec().not_a_number(),
            Self::one_spec().value() > 0,
            Self::nan_spec().not_a_number(),
    ;

    /// Elements with the same pattern are the same.
    proof fn pattern_is_faithful(a: Self, b: Self)
        requires
            a.pattern() == b.pattern(),
        ensures
            a == b,
    ;

    fn zero() -> (r: Self)
        ensures
            r == Self::zero_spec(),
    ;

    fn one() -> (r: Self)
        ensures
            r == Self::one_spec(),
    ;

    fn nan() -> (r: Self)
        ensures
            r == Self::nan_spec(),
    ;

    fn is_nan(&self) -> (r: bool)
        ensures
            r == self.not_a_number(),
    ;

    /// `self >= other`; false when either is a NaN.
    fn at_least(&self, other: &Self) -> (r: bool)
        ensures
            r == (!self.not_a_number() && !other.not_a_number() && self.value() >= other.value()),
    ;

    /// Bytes that one element takes in a FITS data unit.
    fn byte_width() -> (r: usize)
        ensures
            r == Self::width(),
            0 < r <= 8,
    ;

    /// Append the element in FITS (big-endian) byte order.
    fn push_be_bytes(&self, out: &mut Vec<u8>)
        ensures
            final(out)@.len() == old(out)@.len() + Self::width(),
            final(out)@.take(old(out)@.len() as int) == old(out)@,
            big_endian(final(out)@.skip(old(out)@.len() as int)) == self.pattern(),
    ;
}

/// A binary64 number.
#[derive(Clone, Copy, Debug, PartialEq, Eq, Structural)]
pub struct Double {
    pub bits: u64,
}

/// A binary32 number.
#[derive(Clone, Copy, Debug, PartialEq, Eq, Structural)]
pub struct Single {
    pub bits: u32,
}

impl Double {
    /// The pattern without its sign bit.
    pub open spec fn magnitude(self) -> int {
        if self.bits >= DOUBLE_SIGN {
            self.bits - DOUBLE_SIGN
        } else {
            self.bits as int
        }
    }

    /// The exact value in steps of 2^-1074; unspecified for a NaN.
    pub open spec fn units(self) -> int {
        if self.bits >= DOUBLE_SIGN {
            -steps(self.magnitude(), 52)
        } else {
            steps(self.magnitude(), 52)
        }
    }

    pub open spec fn nan(self) -> bool {
        self.magnitude() > DOUBLE_INF
    }

    pub open spec fn finite(self) -> bool {
        self.magnitude() < DOUBLE_INF
    }

    /// `self < other` as numbers; false when either is a NaN.
    pub open spec fn below(self, other: Double) -> bool {
        !self.nan() && !other.nan() && self.units() < other.units()
    }

    /// `self <= other` as numbers; false when either is a NaN.
    pub open spec fn at_most(self, other: Double) -> bool {
        !self.nan() && !other.nan() && self.units() <= other.units()
    }

    /// Both denote the same number (so the two zeros agree).
    pub open spec fn same_number(self, other: Double) -> bool {
        !self.nan() && !other.nan() && self.units() == other.units()
    }

    /// The larger of two numbers, the other operand where one is a NaN.
    pub open spec fn larger(self, other: Double) -> Double {
        if self.nan() || self.below(other) {
            other
        } else {
            self
        }
    }

    /// `|self|`: the same pattern with the sign cleared.
    pub open spec fn absolute(self) -> Double {
        Double { bits: self.magnitude() as u64 }
    }

    pub fn from_bits(bits: u64) -> (r: Double)
        ensures
            r.bits == bits,
    {
        Double { bits }
    }

    pub fn to_bits(&self) -> (r: u64)
        ensures
            r == self.bits,
    {
        self.bits
    }

    fn abs_bits(&self) -> (r: u64)
        ensures
            r == self.magnitude(),
            r < DOUBLE_SIGN,
    {
        if self.bits >= DOUBLE_SIGN {
            self.bits - DOUBLE_SIGN
        } else {
            self.bits
        }
    }

    pub fn is_finite(&self) -> (r: bool)
        ensures
            r == self.finite(),
    {
        self.abs_bits() < DOUBLE_INF
    }

    /// `self == 0.0`.
    pub fn is_zero(&self) -> (r: bool)
        ensures
            r == (!self.nan() && self.units() == 0),
    {
        proof {
            lemma_zero_steps(52);
            if self.magnitude() > 0 {
                law_magnitude_orders_values(0, self.magnitude(), 52);
            }
        }
        self.abs_bits() == 0
    }

    /// `self < other`.
    pub fn lt(&self, other: &Double) -> (r: bool)
        ensures
            r == self.below(*other),
    {
        let a = self.abs_bits();
        let b = other.abs_bits();
        proof {
            lemma_steps_order(a as int, b as int, 52);
        }
        if a > DOUBLE_INF || b > DOUBLE_INF {
            false
        } else if self.bits < DOUBLE_SIGN {
            other.bits < DOUBLE_SIGN && a < b
        } else if other.bits < DOUBLE_SIGN {
            a != 0 || b != 0
        } else {
            b < a
        }
    }

    /// `self <= other`.
    pub fn le(&self, other: &Double) -> (r: bool)
        ensures
            r == self.at_most(*other),
    {
        if FftFloat::is_nan(self) || FftFloat::is_nan(other) {
            false
        } else {
            !other.lt(self)
        }
    }

    /// `self.max(other)`: a NaN gives way to the other operand.
    pub fn max(self, other: Double) -> (r: Double)
        ensures
            r == self.larger(other),
    {
        if FftFloat::is_nan(&self) || self.lt(&other) {
            other
        } else {
            self
        }
    }

    /// `self.abs()`.
    pub fn abs(&self) -> (r: Double)
        ensures
            r == self.absolute(),
    {
        Double { bits: self.abs_bits() }
    }
}

impl Single {
    /// The pattern without its sign bit.
    pub open spec fn magnitude(self) -> int {
        if self.bits >= SINGLE_SIGN {
            self.bits - SINGLE_SIGN
        } else {
            self.bits as int
        }
    }

    /// The exact value in steps of 2^-149; unspecified for a NaN.
    pub open spec fn units(self) -> int {
        if self.bits >= SINGLE_SIGN {
            -steps(self.magnitude(), 23)
        } else {
            steps(self.magnitude(), 23)
        }
    }

    pub fn from_bits(bits: u32) -> (r: Single)
        ensures
            r.bits == bits,
    {
        Single { bits }
    }

    pub fn to_bits(&self) -> (r: u32)
        ensures
            r == self.bits,
    {
        self.bits
    }

    fn abs_bits(&self) -> (r: u32)
        ensures
            r == self.magnitude(),
            r < SINGLE_SIGN,
    {
        if self.bits >= SINGLE_SIGN {
            self.bits - SINGLE_SIGN
        } else {
            self.bits
        }
    }
}

proof fn lemma_zero_steps(p: nat)
    ensures
        steps(0, p) == 0,
{
    lemma_pow2_pos(p);
    vstd::arithmetic::div_mod::lemma_div_basics(pow2(p) as int);
    vstd::arithmetic::div_mod::lemma_small_mod(0, pow2(p));
}

proof fn lemma_steps_order(a: int, b: int, p: nat)
    requires
        0 <= a,
        0 <= b,
    ensures
        a < b <==> steps(a, p) < steps(b, p),
        b < a <==> steps(b, p) < steps(a, p),
        0 <= steps(a, p),
        0 <= steps(b, p),
        a == 0 <==> steps(a, p) == 0,
        b == 0 <==> steps(b, p) == 0,
{
    lemma_zero_steps(p);
    if a > 0 {
        law_magnitude_orders_values(0, a, p);
    }
    if b > 0 {
        law_magnitude_orders_values(0, b, p);
    }
    if a < b {
        law_magnitude_orders_values(a, b, p);
    } else if b < a {
        law_magnitude_orders_values(b, a, p);
    }
}

proof fn lemma_push_byte(s: Seq<u8>, b: u8)
    ensures
        big_endian(s.push(b)) == 256 * big_endian(s) + b,
{
    assert(s.push(b).drop_last() =~= s);
}

impl FftFloat for Double {
    open spec fn not_a_number(self) -> bool {
        self.nan()
    }

    open spec fn value(self) -> int {
        self.units()
    }

    open spec fn pattern(self) -> int {
        self.bits as int
    }

    open spec fn width() -> nat {
        8
    }

    open spec fn zero_spec() -> Self {
        Double { bits: 0 }
    }

    open spec fn one_spec() -> Self {
        Double { bits: DOUBLE_ONE }
    }

    open spec fn nan_spec() -> Self {
        Double { bits: DOUBLE_NAN }
    }

    proof fn constants_are_distinct() {
        lemma_zero_steps(52);
        law_magnitude_orders_values(0, DOUBLE_ONE as int, 52);
    }

    proof fn pattern_is_faithful(a: Self, b: Self) {
    }

    fn zero() -> (r: Self) {
        Double { bits: 0 }
    }

    fn one() -> (r: Self) {
        Double { bits: DOUBLE_ONE }
    }

    fn nan() -> (r: Self) {
        Double { bits: DOUBLE_NAN }
    }

    fn is_nan(&self) -> (r: bool) {
        self.abs_bits() > DOUBLE_INF
    }

    fn at_least(&self, other: &Self) -> (r: bool) {
        other.le(self)
    }

    fn byte_width() -> (r: usize) {
        8
    }

    fn push_be_bytes(&self, out: &mut Vec<u8>) {
        let x = self.bits;
        let ghost before = out@;
        let ghost mut tail: Seq<u8> = Seq::empty();
        let mut scale: u64 = 0x0100_0000_0000_0000;
        let mut i: usize = 0;
        while i < 8
            invariant
                i <= 8,
                x == self.bits,
                tail.len() == i,
                out@ == before + tail,
                i == 0 ==> scale == 0x0100_0000_0000_0000,
                i == 1 ==> scale == 0x0001_0000_0000_0000,
                i == 2 ==> scale == 0x0000_0100_0000_0000,
                i == 3 ==> scale == 0x0000_0001_0000_0000,
                i == 4 ==> scale == 0x0100_0000,
                i == 5 ==> scale == 0x0001_0000,
                i == 6 ==> scale == 0x0100,
                i == 7 ==> scale == 1,
                i < 8 ==> big_endian(tail) == x as int / (256 * scale),
                i == 8 ==> big_endian(tail) == x,
            decreases 8 - i,
        {
            let digit = ((x / scale) % 256) as u8;
            out.push(digit);
            proof {
                lemma_push_byte(tail, digit);
                tail = tail.push(digit);
                assert(out@ =~= before + tail);
                assert((x as int / scale as int) == 256 * (x as int / (256 * scale)) + (x as int
                    / scale as int) % 256) by {
                    vstd::arithmetic::div_mod::lemma_div_denominator(x as int, scale as int, 256);
                    vstd::arithmetic::div_mod::lemma_fundamental_div_mod(
                        x as int / scale as int,
                        256,
                    );
                }
            }
            scale = scale / 256;
            i = i + 1;
        }
        proof {
            assert(out@.take(before.len() as int) =~= before);
            assert(out@.skip(before.len() as int) =~= tail);
        }
    }
}

impl FftFloat for Single {
    open spec fn not_a_number(self) -> bool {
        self.magnitude() > SINGLE_INF
    }

    open spec fn value(self) -> int {
        self.units()
    }

    open spec fn pattern(self) -> int {
        self.bits as int
    }

    open spec fn width() -> nat {
        4
    }

    open spec fn zero_spec() -> Self {
        Single { bits: 0 }
    }

    open spec fn one_spec() -> Self {
        Single { bits: SINGLE_ONE }
    }

    open spec fn nan_spec() -> Self {
        Single { bits: SINGLE_NAN }
    }

    proof fn constants_are_distinct() {
        lemma_zero_steps(23);
        law_magnitude_orders_values(0, SINGLE_ONE as int, 23);
    }

    proof fn pattern_is_faithful(a: Self, b: Self) {
    }

    fn zero() -> (r: Self) {
        Single { bits: 0 }
    }

    fn one() -> (r: Self) {
        Single { bits: SINGLE_ONE }
    }

    fn nan() -> (r: Self) {
        Single { bits: SINGLE_NAN }
    }

    fn is_nan(&self) -> (r: bool) {
        self.abs_bits() > SINGLE_INF
    }

    fn at_least(&self, other: &Self) -> (r: bool) {
        let a = self.abs_bits();
        let b = other.abs_bits();
        proof {
            lemma_steps_order(a as int, b as int, 23);
        }
        if a > SINGLE_INF || b > SINGLE_INF {
            false
        } else if other.bits < SINGLE_SIGN {
            if self.bits < SINGLE_SIGN {
                a >= b
            } else {
                a == 0 && b == 0
            }
        } else if self.bits < SINGLE_SIGN {
            true
        } else {
            a <= b
        }
    }

    fn byte_width() -> (r: usize) {
        4
    }

    fn push_be_bytes(&self, out: &mut Vec<u8>) {
        let x = self.bits;
        let ghost before = out@;
        let b0 = (x / 0x0100_0000) as u8;
        let b1 = ((x / 0x0001_0000) % 256) as u8;
        let b2 = ((x / 0x0100) % 256) as u8;
        let b3 = (x % 256) as u8;
        out.push(b0);
        out.push(b1);
        out.push(b2);
        out.push(b3);
        proof {
            let none: Seq<u8> = Seq::empty();
            let tail = none.push(b0).push(b1).push(b2).push(b3);
            lemma_push_byte(none, b0);
            lemma_push_byte(none.push(b0), b1);
            lemma_push_byte(none.push(b0).push(b1), b2);
            lemma_push_byte(none.push(b0).push(b1).push(b2), b3);
            assert(big_endian(none) == 0);
            assert(out@.take(before.len() as int) =~= before);
            assert(out@.skip(before.len() as int) =~= tail);
        }
    }
}

} // verus!
