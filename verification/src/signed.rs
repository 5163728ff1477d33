//! The signed machine integers, each standing for itself.

use vstd::prelude::*;
use crate::integer::Int;

verus! {

impl Int for i8 {
    open spec fn value(self) -> int {
        self as int
    }

    open spec fn from_int(v: int) -> Self {
        v as i8
    }

    open spec fn lowest() -> int {
        i8::MIN as int
    }

    open spec fn highest() -> int {
        i8::MAX as int
    }

    proof fn lemma_range() {
    }

    proof fn lemma_value(self) {
    }

    proof fn lemma_from_int(v: int) {
    }

    fn zero() -> (r: Self) {
        0
    }

    fn one() -> (r: Self) {
        1
    }

    fn wrapping_add(self, rhs: Self) -> (r: Self) {
        self.wrapping_add(rhs)
    }

    fn wrapping_sub(self, rhs: Self) -> (r: Self) {
        self.wrapping_sub(rhs)
    }

    fn equals(self, rhs: Self) -> (b: bool) {
        self == rhs
    }

    fn less_than(self, rhs: Self) -> (b: bool) {
        self < rhs
    }
}

impl Int for i16 {
    open spec fn value(self) -> int {
        self as int
    }

    open spec fn from_int(v: int) -> Self {
        v as i16
    }

    open spec fn lowest() -> int {
        i16::MIN as int
    }

    open spec fn highest() -> int {
        i16::MAX as int
    }

    proof fn lemma_range() {
    }

    proof fn lemma_value(self) {
    }

    proof fn lemma_from_int(v: int) {
    }

    fn zero() -> (r: Self) {
        0
    }

    fn one() -> (r: Self) {
        1
    }

    fn wrapping_add(self, rhs: Self) -> (r: Self) {
        self.wrapping_add(rhs)
    }

    fn wrapping_sub(self, rhs: Self) -> (r: Self) {
        self.wrapping_sub(rhs)
    }

    fn equals(self, rhs: Self) -> (b: bool) {
        self == rhs
    }

    fn less_than(self, rhs: Self) -> (b: bool) {
        self < rhs
    }
}

impl Int for i32 {
    open spec fn value(self) -> int {
        self as int
    }

    open spec fn from_int(v: int) -> Self {
        v as i32
    }

    open spec fn lowest() -> int {
        i32::MIN as int
    }

    open spec fn highest() -> int {
        i32::MAX as int
    }

    proof fn lemma_range() {
    }

    proof fn lemma_value(self) {
    }

    proof fn lemma_from_int(v: int) {
    }

    fn zero() -> (r: Self) {
        0
    }

    fn one() -> (r: Self) {
        1
    }

    fn wrapping_add(self, rhs: Self) -> (r: Self) {
        self.wrapping_add(rhs)
    }

    fn wrapping_sub(self, rhs: Self) -> (r: Self) {
        self.wrapping_sub(rhs)
    }

    fn equals(self, rhs: Self) -> (b: bool) {
        self == rhs
    }

    fn less_than(self, rhs: Self) -> (b: bool) {
        self < rhs
    }
}

impl Int for i64 {
    open spec fn value(self) -> int {
        self as int
    }

    open spec fn from_int(v: int) -> Self {
        v as i64
    }

    open spec fn lowest() -> int {
        i64::MIN as int
    }

    open spec fn highest() -> int {
        i64::MAX as int
    }

    proof fn lemma_range() {
    }

    proof fn lemma_value(self) {
    }

    proof fn lemma_from_int(v: int) {
    }

    fn zero() -> (r: Self) {
        0
    }

    fn one() -> (r: Self) {
        1
    }

    fn wrapping_add(self, rhs: Self) -> (r: Self) {
        self.wrapping_add(rhs)
    }

    fn wrapping_sub(self, rhs: Self) -> (r: Self) {
        self.wrapping_sub(rhs)
    }

    fn equals(self, rhs: Self) -> (b: bool) {
        self == rhs
    }

    fn less_than(self, rhs: Self) -> (b: bool) {
        self < rhs
    }
}

impl Int for i128 {
    open spec fn value(self) -> int {
        self as int
    }

    open spec fn from_int(v: int) -> Self {
        v as i128
    }

    open spec fn lowest() -> int {
        i128::MIN as int
    }

    open spec fn highest() -> int {
        i128::MAX as int
    }

    proof fn lemma_range() {
    }

    proof fn lemma_value(self) {
    }

    proof fn lemma_from_int(v: int) {
    }

    fn zero() -> (r: Self) {
        0
    }

    fn one() -> (r: Self) {
        1
    }

    fn wrapping_add(self, rhs: Self) -> (r: Self) {
        self.wrapping_add(rhs)
    }

    fn wrapping_sub(self, rhs: Self) -> (r: Self) {
        self.wrapping_sub(rhs)
    }

    fn equals(self, rhs: Self) -> (b: bool) {
        self == rhs
    }

    fn less_than(self, rhs: Self) -> (b: bool) {
        self < rhs
    }
}

impl Int for isize {
    open spec fn value(self) -> int {
        self as int
    }

    open spec fn from_int(v: int) -> Self {
        v as isize
    }

    open spec fn lowest() -> int {
        isize::MIN as int
    }

    open spec fn highest() -> int {
        isize::MAX as int
    }

    proof fn lemma_range() {
    }

    proof fn lemma_value(self) {
    }

    proof fn lemma_from_int(v: int) {
    }

    fn zero() -> (r: Self) {
        0
    }

    fn one() -> (r: Self) {
        1
    }

    fn wrapping_add(self, rhs: Self) -> (r: Self) {
        self.wrapping_add(rhs)
    }

    fn wrapping_sub(self, rhs: Self) -> (r: Self) {
        self.wrapping_sub(rhs)
    }

    fn equals(self, rhs: Self) -> (b: bool) {
        self == rhs
    }

    fn less_than(self, rhs: Self) -> (b: bool) {
        self < rhs
    }
}

} // verus!
