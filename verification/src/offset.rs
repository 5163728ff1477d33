//! Signed distances from the centre of a walk.

use vstd::prelude::*;
use crate::integer::{shifted, Int};

verus! {

/// A signed distance along one axis, held as a sign and a magnitude.
///
/// Its magnitude goes up to the greatest value of `I`, whether or not `I`
/// has negative values of its own.
#[derive(Debug)]
pub struct Offset<I: Int> {
    negative: bool,
    magnitude: I,
}

impl<I: Int> Copy for Offset<I> {

}

impl<I: Int> Clone for Offset<I> {
    fn clone(&self) -> (r: Self)
        ensures
            r == *self,
    {
        *self
    }
}

impl<I: Int> Offset<I> {
    /// The magnitude is not negative, and zero has no sign.
    pub closed spec fn wf(self) -> bool {
        &&& self.magnitude.value() >= 0
        &&& self.negative ==> self.magnitude.value() > 0
    }

    /// The distance that `self` stands for.
    pub closed spec fn value(self) -> int {
        if self.negative {
            -self.magnitude.value()
        } else {
            self.magnitude.value()
        }
    }

    /// No distance at all.
    pub fn zero() -> (r: Self)
        ensures
            r.wf(),
            r.value() == 0,
    {
        Offset { negative: false, magnitude: I::zero() }
    }

    /// One step further in the positive direction.
    pub fn inc(self) -> (r: Self)
        requires
            self.wf(),
            self.value() < I::highest(),
        ensures
            r.wf(),
            r.value() == self.value() + 1,
    {
        proof {
            I::lemma_range();
            self.magnitude.lemma_value();
        }
        if self.negative {
            let magnitude: I = self.magnitude.wrapping_sub(I::one());
            Offset { negative: !magnitude.equals(I::zero()), magnitude }
        } else {
            Offset { negative: false, magnitude: self.magnitude.wrapping_add(I::one()) }
        }
    }

    /// One step further in the negative direction.
    pub fn dec(self) -> (r: Self)
        requires
            self.wf(),
            -I::highest() < self.value(),
        ensures
            r.wf(),
            r.value() == self.value() - 1,
    {
        proof {
            I::lemma_range();
            self.magnitude.lemma_value();
        }
        if self.negative || self.magnitude.equals(I::zero()) {
            Offset { negative: true, magnitude: self.magnitude.wrapping_add(I::one()) }
        } else {
            Offset { negative: false, magnitude: self.magnitude.wrapping_sub(I::one()) }
        }
    }

    /// Whether `self` is no distance at all.
    pub fn is_zero(self) -> (b: bool)
        requires
            self.wf(),
        ensures
            b == (self.value() == 0),
    {
        self.magnitude.equals(I::zero())
    }

    /// Whether `self` lies `distance` away in the positive direction.
    pub fn is_at(self, distance: I) -> (b: bool)
        requires
            self.wf(),
            distance.value() >= 1,
        ensures
            b == (self.value() == distance.value()),
    {
        !self.negative && self.magnitude.equals(distance)
    }

    /// Whether `self` lies `distance` away in the negative direction.
    pub fn is_opposite(self, distance: I) -> (b: bool)
        requires
            self.wf(),
            distance.value() >= 1,
        ensures
            b == (-self.value() == distance.value()),
    {
        self.negative && self.magnitude.equals(distance)
    }

    /// The coordinate that lies this far from `base`.
    pub fn shift(self, base: I) -> (r: I)
        requires
            self.wf(),
        ensures
            r == shifted(base, self.value()),
    {
        let r: I = if self.negative {
            base.wrapping_sub(self.magnitude)
        } else {
            base.wrapping_add(self.magnitude)
        };
        proof {
            r.lemma_value();
        }
        r
    }
}

} // verus!
