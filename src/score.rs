use vstd::arithmetic::div_mod::{lemma_fundamental_div_mod, lemma_multiply_divide_lt};
use vstd::arithmetic::power2::{
    lemma2_to64, lemma2_to64_rest, lemma_pow2_adds, lemma_pow2_pos, lemma_pow2_strictly_increases,
    pow2,
};
use vstd::prelude::*;

verus! {

/// The sign bit of a binary64 bit pattern.
pub const SIGN_BIT: u64 = 0x8000_0000_0000_0000;

/// The bit pattern of positive infinity; a larger magnitude is a NaN.
pub const INFINITY_BITS: u64 = 0x7FF0_0000_0000_0000;

/// The bit pattern of `1.0`.
pub const ONE_BITS: u64 = 0x3FF0_0000_0000_0000;

/// `2^52`: the span of the stored mantissa, and the weight of the lowest exponent bit.
pub const MANTISSA_SPAN: u64 = 0x0010_0000_0000_0000;

/// A real-valued score (a probability, a logit, a similarity), held as the IEEE-754 binary64
/// bit pattern of its value.
///
/// The library never does floating-point arithmetic on scores. It compares them through
/// [`Score::spec_rank`], an integer that grows with the value, and reads the exact value of a
/// score in `[0, 1]` as `significand / 2^scale`.
#[derive(Clone, Copy, Debug)]
pub struct Score {
    pub bits: u64,
}

/// `(x + d / 2) / d`: the quotient `x / d` rounded to the nearest integer, halves upwards.
pub open spec fn round_half_up(x: nat, d: nat) -> nat
    recommends
        d > 0,
{
    (x + d / 2) / d
}

impl Score {
    /// The bit pattern without its sign bit.
    pub open spec fn magnitude(self) -> nat {
        if self.bits >= SIGN_BIT {
            (self.bits - SIGN_BIT) as nat
        } else {
            self.bits as nat
        }
    }

    /// True when the bit pattern encodes a NaN, which is unordered with every value.
    pub open spec fn spec_is_nan(self) -> bool {
        self.magnitude() > INFINITY_BITS
    }

    /// A position on the real line that grows strictly with the value of a non-NaN score;
    /// `+0.0` and `-0.0` share one position, as they compare equal.
    pub open spec fn spec_rank(self) -> nat {
        if self.bits >= SIGN_BIT {
            (SIGN_BIT - self.magnitude()) as nat
        } else {
            (SIGN_BIT + self.bits) as nat
        }
    }

    /// `min <= self <= max` as the floating-point comparison decides it: false where any of the
    /// three is a NaN.
    pub open spec fn spec_within(self, min: Score, max: Score) -> bool {
        &&& !self.spec_is_nan()
        &&& !min.spec_is_nan()
        &&& !max.spec_is_nan()
        &&& min.spec_rank() <= self.spec_rank()
        &&& self.spec_rank() <= max.spec_rank()
    }

    /// `self > other` as the floating-point comparison decides it.
    pub open spec fn spec_greater(self, other: Score) -> bool {
        !self.spec_is_nan() && !other.spec_is_nan() && self.spec_rank() > other.spec_rank()
    }

    /// True for every score in `[0, 1]`, zero of either sign included.
    pub open spec fn is_probability(self) -> bool {
        self.spec_within(Score { bits: 0 }, Score { bits: ONE_BITS })
    }

    /// The biased exponent field.
    pub open spec fn exponent_field(self) -> nat {
        self.magnitude() / (MANTISSA_SPAN as nat)
    }

    /// The significand: the stored mantissa, with the implicit leading bit of a normal number.
    pub open spec fn significand(self) -> nat {
        let f = self.magnitude() % (MANTISSA_SPAN as nat);
        if self.exponent_field() == 0 {
            f
        } else {
            f + (MANTISSA_SPAN as nat)
        }
    }

    /// The power of two that divides the significand: a probability equals
    /// `significand / 2^scale` exactly.
    pub open spec fn scale(self) -> nat {
        let e = self.exponent_field();
        if e == 0 {
            1074
        } else if e <= 1075 {
            (1075 - e) as nat
        } else {
            0
        }
    }

    /// The bucket of a probability among `bins` equal-width buckets over `[0, 1]`: its value
    /// times `bins - 1`, rounded to the nearest integer, halves upwards.
    pub open spec fn spec_bucket(self, bins: nat) -> nat {
        round_half_up(self.significand() * ((bins - 1) as nat), pow2(self.scale()))
    }

    /// A probability's significand never exceeds `2^scale`, since its value is at most one,
    /// so its bucket is one of the `bins` buckets.
    pub proof fn lemma_bucket_in_range(self, bins: nat)
        requires
            self.is_probability(),
            bins >= 1,
        ensures
            self.exponent_field() <= 1023,
            self.significand() < 0x20_0000_0000_0000,
            self.significand() <= pow2(self.scale()),
            self.spec_bucket(bins) < bins,
    {
        let sig = self.significand();
        let sc = self.scale();
        let steps = (bins - 1) as nat;
        lemma2_to64();
        lemma2_to64_rest();
        assert(self.exponent_field() <= 1023);
        assert(pow2(53) == 0x20_0000_0000_0000) by {
            lemma_pow2_adds(32, 21);
        }
        if self.exponent_field() == 1023 {
            assert(self.magnitude() % (MANTISSA_SPAN as nat) == 0);
            assert(pow2(52) == MANTISSA_SPAN);
            assert(sig == pow2(sc));
        } else {
            assert(sig < pow2(53));
            if sc > 53 {
                lemma_pow2_strictly_increases(53, sc);
            }
            assert(sig < pow2(sc));
        }
        assert(sig * steps <= pow2(sc) * steps) by (nonlinear_arith)
            requires
                sig <= pow2(sc),
        ;
        lemma_pow2_pos(sc);
        assert(sig * steps + pow2(sc) / 2 < pow2(sc) * bins) by (nonlinear_arith)
            requires
                sig * steps <= pow2(sc) * steps,
                steps + 1 == bins,
                pow2(sc) > 0,
        ;
        lemma_multiply_divide_lt((sig * steps + pow2(sc) / 2) as int, pow2(sc) as int, bins as int);
    }

    /// For probabilities: `other` exceeds `self` by at least one bucket width, that is
    /// `value(other) - value(self) >= 1 / (bins - 1)` with `value = significand / 2^scale`.
    pub open spec fn bucket_width_below(self, other: Score, bins: nat) -> bool {
        (other.significand() * pow2(self.scale()) - self.significand() * pow2(other.scale())) * (
        bins - 1) >= pow2(self.scale()) * pow2(other.scale())
    }

    /// Two probabilities at least a bucket width apart fall in buckets in the same order.
    pub proof fn lemma_separated_buckets(self, other: Score, bins: nat)
        requires
            self.is_probability(),
            other.is_probability(),
            bins >= 2,
            self.bucket_width_below(other, bins),
        ensures
            self.spec_bucket(bins) < other.spec_bucket(bins),
    {
        self.lemma_bucket_in_range(bins);
        other.lemma_bucket_in_range(bins);
        let pi = pow2(self.scale()) as int;
        let pj = pow2(other.scale()) as int;
        let steps = (bins - 1) as int;
        let xi = (self.significand() * steps) as int;
        let xj = (other.significand() * steps) as int;
        lemma2_to64();
        assert(self.scale() >= 1 && other.scale() >= 1);
        lemma_pow2_adds((self.scale() - 1) as nat, 1);
        lemma_pow2_adds((other.scale() - 1) as nat, 1);
        lemma_pow2_pos((self.scale() - 1) as nat);
        lemma_pow2_pos((other.scale() - 1) as nat);
        let hi = pow2((self.scale() - 1) as nat) as int;
        let hj = pow2((other.scale() - 1) as nat) as int;
        assert(pi == 2 * hi && pj == 2 * hj);
        assert(pi / 2 == hi && pj / 2 == hj);
        let k = (xi + hi) / pi;
        lemma_fundamental_div_mod(xi + hi, pi);
        assert(k * pi <= xi + hi) by (nonlinear_arith)
            requires
                xi + hi == pi * k + (xi + hi) % pi,
                (xi + hi) % pi >= 0,
        ;
        let si = self.significand() as int;
        let sj = other.significand() as int;
        assert(xj * pi - xi * pj >= pi * pj) by (nonlinear_arith)
            requires
                (sj * pi - si * pj) * steps >= pi * pj,
                xi == si * steps,
                xj == sj * steps,
        ;
        assert((k + 1) * pj * pi <= pi * (xj + hj)) by (nonlinear_arith)
            requires
                k * pi <= xi + hi,
                xj * pi - xi * pj >= pi * pj,
                pi == 2 * hi,
                pj == 2 * hj,
                pj > 0,
        ;
        assert((k + 1) * pj <= xj + hj) by (nonlinear_arith)
            requires
                (k + 1) * pj * pi <= pi * (xj + hj),
                pi > 0,
        ;
        let kj = (xj + hj) / pj;
        lemma_fundamental_div_mod(xj + hj, pj);
        assert(kj >= k + 1) by (nonlinear_arith)
            requires
                xj + hj == pj * kj + (xj + hj) % pj,
                (xj + hj) % pj < pj,
                (k + 1) * pj <= xj + hj,
                pj > 0,
        ;
    }

    /// Probabilities of equal rank have equal magnitude, hence the same bucket.
    pub proof fn lemma_same_rank_same_bucket(self, other: Score, bins: nat)
        requires
            self.is_probability(),
            other.is_probability(),
            self.spec_rank() == other.spec_rank(),
        ensures
            self.spec_bucket(bins) == other.spec_bucket(bins),
    {
        assert(self.magnitude() == other.magnitude());
    }

    /// Builds a score from the bit pattern of a binary64 value.
    pub fn from_bits(bits: u64) -> (s: Score)
        ensures
            s.bits == bits,
    {
        Score { bits }
    }

    /// The score `0.0`.
    pub fn zero() -> (s: Score)
        ensures
            s.bits == 0,
    {
        Score { bits: 0 }
    }

    /// The score `1.0`.
    pub fn one() -> (s: Score)
        ensures
            s.bits == ONE_BITS,
    {
        Score { bits: ONE_BITS }
    }

    /// The score `0.5`, the customary decision threshold.
    pub fn half() -> (s: Score)
        ensures
            s.bits == 0x3FE0_0000_0000_0000,
            s.is_probability(),
    {
        Score { bits: 0x3FE0_0000_0000_0000 }
    }

    /// Whether the bit pattern encodes a NaN.
    pub fn is_nan(&self) -> (r: bool)
        ensures
            r == self.spec_is_nan(),
    {
        let magnitude: u64 = if self.bits >= SIGN_BIT {
            self.bits - SIGN_BIT
        } else {
            self.bits
        };
        magnitude > INFINITY_BITS
    }

    /// The integer position of the score on the real line (see [`Score::spec_rank`]).
    pub fn rank(&self) -> (r: u64)
        ensures
            r == self.spec_rank(),
    {
        if self.bits >= SIGN_BIT {
            SIGN_BIT - (self.bits - SIGN_BIT)
        } else {
            SIGN_BIT + self.bits
        }
    }

    /// `self > other` as floating-point comparison decides it.
    pub fn greater(&self, other: &Score) -> (r: bool)
        ensures
            r == self.spec_greater(*other),
    {
        !self.is_nan() && !other.is_nan() && self.rank() > other.rank()
    }

    /// `min <= self <= max` as floating-point comparison decides it.
    pub fn within(&self, min: &Score, max: &Score) -> (r: bool)
        ensures
            r == self.spec_within(*min, *max),
    {
        !self.is_nan() && !min.is_nan() && !max.is_nan() && min.rank() <= self.rank()
            && self.rank() <= max.rank()
    }

    /// The bucket of a probability among `bins` buckets (see [`Score::spec_bucket`]).
    pub fn bucket(&self, bins: usize) -> (b: usize)
        requires
            self.is_probability(),
            bins >= 1,
        ensures
            b == self.spec_bucket(bins as nat),
            b < bins,
    {
        let magnitude: u64 = if self.bits >= SIGN_BIT {
            self.bits - SIGN_BIT
        } else {
            self.bits
        };
        let exponent: u64 = magnitude / MANTISSA_SPAN;
        let fraction: u64 = magnitude % MANTISSA_SPAN;
        let significand: u64 = if exponent == 0 {
            fraction
        } else {
            fraction + MANTISSA_SPAN
        };
        let scale: u64 = if exponent == 0 {
            1074
        } else {
            1075 - exponent
        };
        let ghost sig = self.significand();
        let ghost sc = self.scale();
        let ghost steps = (bins - 1) as nat;
        proof {
            self.lemma_bucket_in_range(bins as nat);
            lemma2_to64();
            lemma2_to64_rest();
            assert(significand == sig);
            assert(scale == sc);
            assert(sig * steps <= 0x20_0000_0000_0000 * steps) by (nonlinear_arith)
                requires
                    sig < 0x20_0000_0000_0000,
            ;
            assert(0x20_0000_0000_0000 * steps < 0x20_0000_0000_0000 * 0x1_0000_0000_0000_0000)
                by (nonlinear_arith)
                requires
                    steps < 0x1_0000_0000_0000_0000,
            ;
            lemma_pow2_adds(53, 64);
            assert(pow2(53) == 0x20_0000_0000_0000) by {
                lemma_pow2_adds(32, 21);
            }
            lemma_pow2_pos(sc);
        }
        let scaled: u128 = significand as u128 * (bins - 1) as u128;
        if scale >= 118 {
            proof {
                lemma_pow2_adds(117, (sc - 117) as nat);
                lemma_pow2_strictly_increases(0, (sc - 117) as nat);
                assert(pow2(sc) >= 2 * pow2(117)) by (nonlinear_arith)
                    requires
                        pow2(sc) == pow2(117) * pow2((sc - 117) as nat),
                        pow2((sc - 117) as nat) > pow2(0),
                        pow2(0) == 1,
                ;
                lemma_multiply_divide_lt((sig * steps + pow2(sc) / 2) as int, pow2(sc) as int, 1);
            }
            return 0;
        }
        let mut divisor: u128 = 1;
        let mut i: u64 = 0;
        while i < scale
            invariant
                i <= scale,
                scale < 118,
                divisor == pow2(i as nat),
            decreases scale - i,
        {
            proof {
                lemma_pow2_strictly_increases(i as nat, 127);
                lemma_pow2_adds(63, 64);
                lemma_pow2_adds(i as nat, 1);
                lemma2_to64();
                lemma2_to64_rest();
            }
            divisor = divisor * 2;
            i = i + 1;
        }
        proof {
            lemma_pow2_strictly_increases(sc, 118);
            lemma_pow2_adds(54, 64);
            assert(pow2(54) == 0x40_0000_0000_0000) by {
                lemma_pow2_adds(32, 22);
            }
        }
        let bucket: u128 = (scaled + divisor / 2) / divisor;
        bucket as usize
    }
}

} // verus!
