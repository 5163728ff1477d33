//! The unsigned machine integers, each standing for itself.

use vstd::prelude::*;
use crate::integer::Int;

verus! {

impl Int for u8 {
    open spec fn value(self) -> int {
        self as int
    }

    open spec fn from_int(v: int) -> Self {
        v as u8
    }

    open spec fn lowest() -> int {
        u8::MIN as int
    }

    open spec fn highest() -> int {
        u8::MAX as int
    }

    proof fn lemma_range() {
    }

    proof fn lemma_value(self) {
    }

    proof fn lemma_from_int(v: int) {
    }

    fn zero() -> (r: Self) {
        0
    }

    fn one() -> (r: Self) {
        1
    }

    fn wrapping_add(self, rhs: Self) -> (r: Self) {
        self.wrapping_add(rhs)
    }

    fn wrapping_sub(self, rhs: Self) -> (r: Self) {
        self.wrapping_sub(rhs)
    }

    fn equals(self, rhs: Self) -> (b: bool) {
        self == rhs
    }

    fn less_than(self, rhs: Self) -> (b: bool) {
        self < rhs
    }
}

impl Int for u16 {
    open spec fn value(self) -> int {
        self as int
    }

    open spec fn from_int(v: int) -> Self {
        v as u16
    }

    open spec fn lowest() -> int {
        u16::MIN as int
    }

    open spec fn highest() -> int {
        u16::MAX as int
    }

    proof fn lemma_range() {
    }

    proof fn lemma_value(self) {
    }

    proof fn lemma_from_int(v: int) {
    }

    fn zero() -> (r: Self) {
        0
    }

    fn one() -> (r: Self) {
        1
    }

    fn wrapping_add(self, rhs: Self) -> (r: Self) {
        self.wrapping_add(rhs)
    }

    fn wrapping_sub(self, rhs: Self) -> (r: Self) {
        self.wrapping_sub(rhs)
    }

    fn equals(self, rhs: Self) -> (b: bool) {
        self == rhs
    }

    fn less_than(self, rhs: Self) -> (b: bool) {
        self < rhs
    }
}

impl Int for u32 {
    open spec fn value(self) -> int {
        self as int
    }

    open spec fn from_int(v: int) -> Self {
        v as u32
    }

    open spec fn lowest() -> int {
        u32::MIN as int
    }

    open spec fn highest() -> int {
        u32::MAX as int
    }

    proof fn lemma_range() {
    }

    proof fn lemma_value(self) {
    }

    proof fn lemma_from_int(v: int) {
    }

    fn zero() -> (r: Self) {
        0
    }

    fn one() -> (r: Self) {
        1
    }

    fn wrapping_add(self, rhs: Self) -> (r: Self) {
        self.wrapping_add(rhs)
    }

    fn wrapping_sub(self, rhs: Self) -> (r: Self) {
        self.wrapping_sub(rhs)
    }

    fn equals(self, rhs: Self) -> (b: bool) {
        self == rhs
    }

    fn less_than(self, rhs: Self) -> (b: bool) {
        self < rhs
    }
}

impl Int for u64 {
    open spec fn value(self) -> int {
        self as int
    }

    open spec fn from_int(v: int) -> Self {
        v as u64
    }

    open spec fn lowest() -> int {
        u64::MIN as int
    }

    open spec fn highest() -> int {
        u64::MAX as int
    }

    proof fn lemma_range() {
    }

    proof fn lemma_value(self) {
    }

    proof fn lemma_from_int(v: int) {
    }

    fn zero() -> (r: Self) {
        0
    }

    fn one() -> (r: Self) {
        1
    }

    fn wrapping_add(self, rhs: Self) -> (r: Self) {
        self.wrapping_add(rhs)
    }

    fn wrapping_sub(self, rhs: Self) -> (r: Self) {
        self.wrapping_sub(rhs)
    }

    fn equals(self, rhs: Self) -> (b: bool) {
        self == rhs
    }

    fn less_than(self, rhs: Self) -> (b: bool) {
        self < rhs
    }
}

impl Int for u128 {
    open spec fn value(self) -> int {
        self as int
    }

    open spec fn from_int(v: int) -> Self {
        v as u128
    }

    open spec fn lowest() -> int {
        u128::MIN as int
    }

    open spec fn highest() -> int {
        u128::MAX as int
    }

    proof fn lemma_range() {
    }

    proof fn lemma_value(self) {
    }

    proof fn lemma_from_int(v: int) {
    }

    fn zero() -> (r: Self) {
        0
    }

    fn one() -> (r: Self) {
        1
    }

    fn wrapping_add(self, rhs: Self) -> (r: Self) {
        self.wrapping_add(rhs)
    }

    fn wrapping_sub(self, rhs: Self) -> (r: Self) {
        self.wrapping_sub(rhs)
    }

    fn equals(self, rhs: Self) -> (b: bool) {
        self == rhs
    }

    fn less_than(self, rhs: Self) -> (b: bool) {
        self < rhs
    }
}

impl Int for usize {
    open spec fn value(self) -> int {
        self as int
    }

    open spec fn from_int(v: int) -> Self {
        v as usize
    }

    open spec fn lowest() -> int {
        usize::MIN as int
    }

    open spec fn highest() -> int {
        usize::MAX as int
    }

    proof fn lemma_range() {
    }

    proof fn lemma_value(self) {
    }

    proof fn lemma_from_int(v: int) {
    }

    fn zero() -> (r: Self) {
        0
    }

    fn one() -> (r: Self) {
        1
    }

    fn wrapping_add(self, rhs: Self) -> (r: Self) {
        self.wrapping_add(rhs)
    }

    fn wrapping_sub(self, rhs: Self) -> (r: Self) {
        self.wrapping_sub(rhs)
    }

    fn equals(self, rhs: Self) -> (b: bool) {
        self == rhs
    }

    fn less_than(self, rhs: Self) -> (b: bool) {
        self < rhs
    }
}

} // verus!
