//! The integers that a walk can be made of.

use vstd::prelude::*;

verus! {

/// What `v` wraps around to in a type whose values run from `lowest` to
/// `highest`: `v` itself where it is in range, else `v` moved by the number
/// of values of the type.
///
/// This is for a `v` that lies at most that number below `lowest` or above
/// `highest`, as the sum and the difference of two values do; the result
/// is then in range.
pub open spec fn wrap(v: int, lowest: int, highest: int) -> int {
    if v > highest {
        v - (highest - lowest + 1)
    } else if v < lowest {
        v + (highest - lowest + 1)
    } else {
        v
    }
}

/// Wrapping gives the one integer in range that differs from `v` by a
/// multiple of the number of integers in the range.
pub proof fn lemma_wrap_congruent(v: int, lowest: int, highest: int)
    requires
        lowest <= highest,
        2 * lowest - highest - 1 <= v <= 2 * highest - lowest + 1,
    ensures
        lowest <= wrap(v, lowest, highest) <= highest,
        wrap(v, lowest, highest) == lowest + (v - lowest) % (highest - lowest + 1),
{
    let n = highest - lowest + 1;
    let a = v - lowest;
    if a < 0 {
        vstd::arithmetic::div_mod::lemma_fundamental_div_mod_converse(a, n, -1, a + n);
    } else if a < n {
        vstd::arithmetic::div_mod::lemma_fundamental_div_mod_converse(a, n, 0, a);
    } else {
        vstd::arithmetic::div_mod::lemma_fundamental_div_mod_converse(a, n, 1, a - n);
    }
}

/// A machine integer with wrapping arithmetic.
///
/// A value stands for the mathematical integer `value()`, which lies
/// between `lowest()` and `highest()`. Every integer in that range is the
/// value of exactly one machine integer, `from_int` of it.
///
/// The integer types of the language are such integers, `i8` to `i128`,
/// `u8` to `u128`, `isize` and `usize`.
pub trait Int: Copy + Sized {
    /// The integer that `self` stands for.
    spec fn value(self) -> int;

    /// The machine integer that stands for `v`, where `v` is in range.
    spec fn from_int(v: int) -> Self;

    /// The least value of the type.
    spec fn lowest() -> int;

    /// The greatest value of the type.
    spec fn highest() -> int;

    /// Zero and one are values of the type.
    proof fn lemma_range()
        ensures
            Self::lowest() <= 0,
            1 <= Self::highest(),
    ;

    /// Every value lies in the type's range, and `from_int` leads back to it.
    proof fn lemma_value(self)
        ensures
            Self::lowest() <= self.value() <= Self::highest(),
            Self::from_int(self.value()) == self,
    ;

    /// Every integer in the type's range is a value.
    proof fn lemma_from_int(v: int)
        requires
            Self::lowest() <= v <= Self::highest(),
        ensures
            Self::from_int(v).value() == v,
    ;

    /// The machine integer that stands for zero.
    fn zero() -> (r: Self)
        ensures
            r.value() == 0,
    ;

    /// The machine integer that stands for one.
    fn one() -> (r: Self)
        ensures
            r.value() == 1,
    ;

    /// The sum, wrapped around where it is out of range.
    fn wrapping_add(self, rhs: Self) -> (r: Self)
        ensures
            r.value() == wrap(self.value() + rhs.value(), Self::lowest(), Self::highest()),
    ;

    /// The difference, wrapped around where it is out of range.
    fn wrapping_sub(self, rhs: Self) -> (r: Self)
        ensures
            r.value() == wrap(self.value() - rhs.value(), Self::lowest(), Self::highest()),
    ;

    /// Whether the two stand for the same integer.
    fn equals(self, rhs: Self) -> (b: bool)
        ensures
            b == (self.value() == rhs.value()),
    ;

    /// Whether `self` stands for a lesser integer than `rhs`.
    fn less_than(self, rhs: Self) -> (b: bool)
        ensures
            b == (self.value() < rhs.value()),
    ;
}

/// What `v` wraps around to in `I`.
pub open spec fn wrapped<I: Int>(v: int) -> int {
    wrap(v, I::lowest(), I::highest())
}

/// The machine integer that lies `by` away from `base`, wrapping around at
/// the ends of the range of `I`.
pub open spec fn shifted<I: Int>(base: I, by: int) -> I {
    I::from_int(wrapped::<I>(base.value() + by))
}

/// A coordinate that lies no further from its base than the greatest value
/// of `I` is the base plus the distance where that is in range, and else
/// the one value that differs from it by a multiple of the number of
/// values of `I`.
pub proof fn lemma_shifted_wraps<I: Int>(base: I, by: int)
    requires
        -I::highest() <= by <= I::highest(),
    ensures
        I::lowest() <= shifted(base, by).value() <= I::highest(),
        I::lowest() <= base.value() + by <= I::highest() ==> shifted(base, by).value()
            == base.value() + by,
        shifted(base, by).value() == I::lowest() + (base.value() + by - I::lowest()) % (
        I::highest() - I::lowest() + 1),
{
    I::lemma_range();
    base.lemma_value();
    lemma_wrap_congruent(base.value() + by, I::lowest(), I::highest());
    I::lemma_from_int(wrapped::<I>(base.value() + by));
}

/// A coordinate is its base where the distance is zero, and no other
/// distance up to the greatest value of `I` leads back to the base.
pub proof fn lemma_shifted_apart<I: Int>(base: I, by: int)
    requires
        -I::highest() <= by <= I::highest(),
    ensures
        shifted(base, by) == base <==> by == 0,
{
    I::lemma_range();
    base.lemma_value();
    lemma_wrap_congruent(base.value() + by, I::lowest(), I::highest());
    I::lemma_from_int(wrapped::<I>(base.value() + by));
}

} // verus!
