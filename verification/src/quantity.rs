//! Amounts that can be accumulated.

use vstd::prelude::*;

verus! {

/// A non-negative amount that can be added up: a count of bytes or packets, a
/// cost per event.
///
/// Every value stands for a natural number, its `amount`, and two values can
/// be added as long as their sum is no more than the type's `limit`.
pub trait Quantity: Copy + Sized {
    /// The number that a value stands for.
    spec fn amount(self) -> nat;

    /// The largest number that a value of this type can stand for.
    spec fn limit() -> nat;

    /// No value stands for more than the limit.
    proof fn lemma_amount_within_limit(self)
        ensures
            self.amount() <= Self::limit(),
    ;

    /// Two values that stand for the same number are the same value.
    proof fn lemma_amount_is_injective(self, other: Self)
        requires
            self.amount() == other.amount(),
        ensures
            self == other,
    ;

    /// The additive identity.
    fn zero() -> (z: Self)
        ensures
            z.amount() == 0,
    ;

    /// The sum of two values. The caller shows that the type can hold it.
    fn plus(self, rhs: Self) -> (sum: Self)
        requires
            self.amount() + rhs.amount() <= Self::limit(),
        ensures
            sum.amount() == self.amount() + rhs.amount(),
    ;
}

impl Quantity for u8 {
    open spec fn amount(self) -> nat {
        self as nat
    }

    open spec fn limit() -> nat {
        u8::MAX as nat
    }

    proof fn lemma_amount_within_limit(self) {
    }

    proof fn lemma_amount_is_injective(self, other: Self) {
    }

    fn zero() -> (z: Self) {
        0
    }

    fn plus(self, rhs: Self) -> (sum: Self) {
        self + rhs
    }
}

impl Quantity for u16 {
    open spec fn amount(self) -> nat {
        self as nat
    }

    open spec fn limit() -> nat {
        u16::MAX as nat
    }

    proof fn lemma_amount_within_limit(self) {
    }

    proof fn lemma_amount_is_injective(self, other: Self) {
    }

    fn zero() -> (z: Self) {
        0
    }

    fn plus(self, rhs: Self) -> (sum: Self) {
        self + rhs
    }
}

impl Quantity for u32 {
    open spec fn amount(self) -> nat {
        self as nat
    }

    open spec fn limit() -> nat {
        u32::MAX as nat
    }

    proof fn lemma_amount_within_limit(self) {
    }

    proof fn lemma_amount_is_injective(self, other: Self) {
    }

    fn zero() -> (z: Self) {
        0
    }

    fn plus(self, rhs: Self) -> (sum: Self) {
        self + rhs
    }
}

impl Quantity for u64 {
    open spec fn amount(self) -> nat {
        self as nat
    }

    open spec fn limit() -> nat {
        u64::MAX as nat
    }

    proof fn lemma_amount_within_limit(self) {
    }

    proof fn lemma_amount_is_injective(self, other: Self) {
    }

    fn zero() -> (z: Self) {
        0
    }

    fn plus(self, rhs: Self) -> (sum: Self) {
        self + rhs
    }
}

impl Quantity for u128 {
    open spec fn amount(self) -> nat {
        self as nat
    }

    open spec fn limit() -> nat {
        u128::MAX as nat
    }

    proof fn lemma_amount_within_limit(self) {
    }

    proof fn lemma_amount_is_injective(self, other: Self) {
    }

    fn zero() -> (z: Self) {
        0
    }

    fn plus(self, rhs: Self) -> (sum: Self) {
        self + rhs
    }
}

impl Quantity for usize {
    open spec fn amount(self) -> nat {
        self as nat
    }

    open spec fn limit() -> nat {
        usize::MAX as nat
    }

    proof fn lemma_amount_within_limit(self) {
    }

    proof fn lemma_amount_is_injective(self, other: Self) {
    }

    fn zero() -> (z: Self) {
        0
    }

    fn plus(self, rhs: Self) -> (sum: Self) {
        self + rhs
    }
}

} // verus!
