use crate::text::read_form;
use vstd::prelude::*;

verus! {

/// The numbers a matrix holds.
///
/// Each operation comes as a pair: a model function, which contracts speak of,
/// and the executable operation that computes it. An implementation must make
/// every operation a function of its operands alone.
pub trait Scalar: Copy + Sized {
    /// The additive identity.
    spec fn zero_value() -> Self;

    /// The multiplicative identity.
    spec fn one_value() -> Self;

    /// The scalar that stands for a count of items.
    spec fn of_count(n: usize) -> Self;

    spec fn plus(self, rhs: Self) -> Self;

    spec fn minus(self, rhs: Self) -> Self;

    spec fn times(self, rhs: Self) -> Self;

    spec fn over(self, rhs: Self) -> Self;

    spec fn negated(self) -> Self;

    /// Numeric equality, which need not be identity of representation.
    spec fn same(self, rhs: Self) -> bool;

    /// The strict order by which a maximum is picked.
    spec fn less(self, rhs: Self) -> bool;

    fn zero() -> (r: Self)
        ensures
            r == Self::zero_value(),
    ;

    fn one() -> (r: Self)
        ensures
            r == Self::one_value(),
    ;

    fn from_count(n: usize) -> (r: Self)
        ensures
            r == Self::of_count(n),
    ;

    fn add(self, rhs: Self) -> (r: Self)
        ensures
            r == self.plus(rhs),
    ;

    fn sub(self, rhs: Self) -> (r: Self)
        ensures
            r == self.minus(rhs),
    ;

    fn mul(self, rhs: Self) -> (r: Self)
        ensures
            r == self.times(rhs),
    ;

    /// Division; the divisor must not equal zero.
    fn div(self, rhs: Self) -> (r: Self)
        requires
            !rhs.same(Self::zero_value()),
        ensures
            r == self.over(rhs),
    ;

    fn neg(self) -> (r: Self)
        ensures
            r == self.negated(),
    ;

    fn equals(self, rhs: Self) -> (r: bool)
        ensures
            r == self.same(rhs),
    ;

    fn less_than(self, rhs: Self) -> (r: bool)
        ensures
            r == self.less(rhs),
    ;
}

/// Division of integers that rounds toward zero, over the Euclidean quotient
/// of non-negative dividends.
pub open spec fn truncated_quotient(a: int, b: int) -> int {
    if b == 0 {
        0
    } else if a >= 0 {
        a / b
    } else {
        -((-a) / b)
    }
}

/// Sixty-four-bit integers with two's-complement wrapping arithmetic and
/// division that rounds toward zero.
impl Scalar for i64 {
    open spec fn zero_value() -> i64 {
        0i64
    }

    open spec fn one_value() -> i64 {
        1i64
    }

    open spec fn of_count(n: usize) -> i64 {
        if n <= i64::MAX {
            n as i64
        } else {
            (n - 0x1_0000_0000_0000_0000) as i64
        }
    }

    open spec fn plus(self, rhs: i64) -> i64 {
        vstd::wrapping::i64_specs::wrapping_add(self, rhs)
    }

    open spec fn minus(self, rhs: i64) -> i64 {
        vstd::wrapping::i64_specs::wrapping_sub(self, rhs)
    }

    open spec fn times(self, rhs: i64) -> i64 {
        vstd::wrapping::i64_specs::wrapping_mul(self, rhs)
    }

    open spec fn over(self, rhs: i64) -> i64 {
        if self == i64::MIN && rhs == -1 {
            i64::MIN
        } else {
            truncated_quotient(self as int, rhs as int) as i64
        }
    }

    open spec fn negated(self) -> i64 {
        vstd::wrapping::i64_specs::wrapping_sub(0i64, self)
    }

    open spec fn same(self, rhs: i64) -> bool {
        self == rhs
    }

    open spec fn less(self, rhs: i64) -> bool {
        self < rhs
    }

    fn zero() -> (r: i64) {
        0i64
    }

    fn one() -> (r: i64) {
        1i64
    }

    fn from_count(n: usize) -> (r: i64) {
        let wide: u64 = n as u64;
        if wide <= 0x7fff_ffff_ffff_ffffu64 {
            wide as i64
        } else {
            let high: u64 = wide - 0x8000_0000_0000_0000u64;
            let low: i64 = high as i64;
            low.wrapping_add(i64::MIN)
        }
    }

    fn add(self, rhs: i64) -> (r: i64) {
        self.wrapping_add(rhs)
    }

    fn sub(self, rhs: i64) -> (r: i64) {
        self.wrapping_sub(rhs)
    }

    fn mul(self, rhs: i64) -> (r: i64) {
        self.wrapping_mul(rhs)
    }

    fn div(self, rhs: i64) -> (r: i64) {
        if self == i64::MIN && rhs == -1 {
            i64::MIN
        } else {
            self / rhs
        }
    }

    fn neg(self) -> (r: i64) {
        0i64.wrapping_sub(self)
    }

    fn equals(self, rhs: i64) -> (r: bool) {
        self == rhs
    }

    fn less_than(self, rhs: i64) -> (r: bool) {
        self < rhs
    }
}

/// The value lies at or above `low` and below `high`.
pub open spec fn within<T: Scalar>(value: T, low: T, high: T) -> bool {
    !value.less(low) && value.less(high)
}

/// Scalars that can be drawn at random.
pub trait Sampled: Scalar {
    /// Draws a value evenly from `low` up to, but not including, `high`.
    fn sample_between(low: Self, high: Self) -> (r: Self)
        requires
            low.less(high),
        ensures
            within(r, low, high),
    ;
}

/// An integer drawn by the crate `rand`: the generator of the thread,
/// `thread_rng()`, samples `Uniform::new(low, high)`.
///
/// Taken on trust, not proved: that the integer lies in the half-open range
/// from `low` to `high`, as `rand` documents of `Uniform::new` and as its
/// sampling of integers shows. `Uniform::new` panics unless `low` is below
/// `high`, which the precondition rules out. The generator panics where the
/// system gives it no seed, when it is first used or when it reseeds, and
/// the sampler draws again until a draw falls in the range.
#[verifier::external_body]
fn uniform_integer(low: i64, high: i64) -> (r: i64)
    requires
        low < high,
    ensures
        low <= r < high,
{
    rand::Rng::sample(&mut rand::thread_rng(), rand::distributions::Uniform::new(low, high))
}

impl Sampled for i64 {
    fn sample_between(low: i64, high: i64) -> (r: i64) {
        uniform_integer(low, high)
    }
}

/// Scalars for which the identities below hold exactly. What is proved of
/// matrices and networks over such scalars rests on these alone.
pub trait ExactScalar: Scalar {
    /// Taking away what was added gives the first operand back.
    proof fn lemma_sum_then_difference(a: Self, b: Self)
        ensures
            a.plus(b).minus(b) == a,
    ;

    /// Zero is neutral for sum and difference.
    proof fn lemma_zero_is_neutral(a: Self)
        ensures
            a.plus(Self::zero_value()) == a,
            Self::zero_value().plus(a) == a,
            a.minus(Self::zero_value()) == a,
    ;

    /// A product with zero is zero.
    proof fn lemma_zero_annihilates(a: Self)
        ensures
            a.times(Self::zero_value()) == Self::zero_value(),
            Self::zero_value().times(a) == Self::zero_value(),
    ;

    /// One is neutral for product and quotient.
    proof fn lemma_one_is_neutral(a: Self)
        ensures
            Self::one_value().times(a) == a,
            a.times(Self::one_value()) == a,
            a.over(Self::one_value()) == a,
    ;

    /// Negating twice changes nothing.
    proof fn lemma_double_negation(a: Self)
        ensures
            a.negated().negated() == a,
    ;

    /// One does not equal zero, and zero equals itself.
    proof fn lemma_one_is_not_zero()
        ensures
            !Self::one_value().same(Self::zero_value()),
            Self::zero_value().same(Self::zero_value()),
    ;

    /// What does not equal zero, divided by itself, is one; zero divided by
    /// it is zero.
    proof fn lemma_quotients(a: Self)
        requires
            !a.same(Self::zero_value()),
        ensures
            a.over(a) == Self::one_value(),
            Self::zero_value().over(a) == Self::zero_value(),
    ;

    /// The count of nothing is zero, and no other count equals zero.
    proof fn lemma_counts(n: usize)
        ensures
            Self::of_count(0) == Self::zero_value(),
            n > 0 ==> !Self::of_count(n).same(Self::zero_value()),
    ;

    /// The order is strict, and so is its complement: nothing is less than
    /// itself, less than something less is less, and not less than
    /// something not less is not less.
    proof fn lemma_order(a: Self, b: Self, c: Self)
        ensures
            !a.less(a),
            a.less(b) && b.less(c) ==> a.less(c),
            !a.less(b) && !b.less(c) ==> !a.less(c),
    ;
}

impl ExactScalar for i64 {
    proof fn lemma_sum_then_difference(a: i64, b: i64) {
    }

    proof fn lemma_zero_is_neutral(a: i64) {
    }

    proof fn lemma_zero_annihilates(a: i64) {
        assert(a * 0 == 0) by (nonlinear_arith);
        assert(0 * a == 0) by (nonlinear_arith);
    }

    proof fn lemma_one_is_neutral(a: i64) {
        assert(a * 1 == a) by (nonlinear_arith);
        assert(1 * a == a) by (nonlinear_arith);
        if a >= 0 {
            vstd::arithmetic::div_mod::lemma_div_basics(a as int);
        } else {
            vstd::arithmetic::div_mod::lemma_div_basics(-(a as int));
        }
    }

    proof fn lemma_double_negation(a: i64) {
    }

    proof fn lemma_one_is_not_zero() {
    }

    proof fn lemma_quotients(a: i64) {
        if a > 0 {
            vstd::arithmetic::div_mod::lemma_div_basics(a as int);
        } else {
            vstd::arithmetic::div_mod::lemma_div_basics(-(a as int));
            lemma_negative_divisor(-(a as int), a as int);
        }
        vstd::arithmetic::div_mod::lemma_div_basics(a as int);
    }

    proof fn lemma_counts(n: usize) {
    }

    proof fn lemma_order(a: i64, b: i64, c: i64) {
    }
}

/// The Euclidean quotient of a positive number by its negation is minus one.
proof fn lemma_negative_divisor(x: int, d: int)
    requires
        x > 0,
        d == -x,
    ensures
        x / d == -1,
{
    assert(x / d == -1) by (nonlinear_arith)
        requires
            x > 0,
            d == -x,
    ;
}

/// A number in decimal notation: a sign, the digits as a whole number, and
/// the power of ten by which it is multiplied; or one of the values that a
/// floating-point number has besides.
#[derive(Debug, Clone, Copy, PartialEq, Eq)]
pub enum Numeral {
    Finite { negative: bool, mantissa: u64, exponent: i32 },
    Infinite { negative: bool },
    Undefined,
}

/// Values that have an exact decimal notation, in which they are written to
/// text and read back.
pub trait Textual: Sized {
    /// The decimal notation of a value.
    spec fn numeral(self) -> Numeral;

    /// The value of a decimal notation, where the type has it.
    spec fn of_numeral(n: Numeral) -> Option<Self>;

    fn to_numeral(&self) -> (n: Numeral)
        ensures
            n == self.numeral(),
    ;

    fn from_numeral(n: Numeral) -> (r: Option<Self>)
        ensures
            r == Self::of_numeral(n),
    ;
}

/// An integer is its magnitude with a sign and no power of ten.
impl Textual for i64 {
    open spec fn numeral(self) -> Numeral {
        if self < 0 {
            Numeral::Finite { negative: true, mantissa: (-self) as u64, exponent: 0 }
        } else {
            Numeral::Finite { negative: false, mantissa: self as u64, exponent: 0 }
        }
    }

    open spec fn of_numeral(n: Numeral) -> Option<i64> {
        match n {
            Numeral::Finite { negative, mantissa, exponent } => {
                if exponent != 0 {
                    None
                } else if negative {
                    if mantissa <= 0x8000_0000_0000_0000u64 {
                        Some((-(mantissa as int)) as i64)
                    } else {
                        None
                    }
                } else {
                    if mantissa <= 0x7fff_ffff_ffff_ffffu64 {
                        Some(mantissa as i64)
                    } else {
                        None
                    }
                }
            },
            _ => None,
        }
    }

    fn to_numeral(&self) -> (n: Numeral) {
        if *self < 0 {
            let mantissa: u64 = ((-(*self + 1)) as u64) + 1;
            Numeral::Finite { negative: true, mantissa, exponent: 0 }
        } else {
            Numeral::Finite { negative: false, mantissa: *self as u64, exponent: 0 }
        }
    }

    fn from_numeral(n: Numeral) -> (r: Option<i64>) {
        match n {
            Numeral::Finite { negative, mantissa, exponent } => {
                if exponent != 0 {
                    None
                } else if negative {
                    if mantissa == 0x8000_0000_0000_0000u64 {
                        Some(i64::MIN)
                    } else if mantissa < 0x8000_0000_0000_0000u64 {
                        Some(-(mantissa as i64))
                    } else {
                        None
                    }
                } else {
                    if mantissa <= 0x7fff_ffff_ffff_ffffu64 {
                        Some(mantissa as i64)
                    } else {
                        None
                    }
                }
            },
            _ => None,
        }
    }
}

/// Values that are read back unchanged from the text of their decimal
/// notation.
pub trait FaithfulText: Textual {
    proof fn lemma_numeral_roundtrip(x: Self)
        ensures
            Self::of_numeral(read_form(x.numeral())) == Some(x),
    ;
}

impl FaithfulText for i64 {
    proof fn lemma_numeral_roundtrip(x: i64) {
    }
}

} // verus!
