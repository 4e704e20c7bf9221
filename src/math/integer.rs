//! Primitive integers seen through one trait.
//!
//! The numeric routines of this crate are generic over the primitive integer
//! types. `Integer` gives each such type a mathematical value and the few
//! operations those routines need, each with a contract over that value.

use vstd::prelude::*;

verus! {

/// A primitive integer type, viewed as a bounded range of `int`.
pub trait Integer: Copy + Sized {
    /// The mathematical value of `self`.
    spec fn value(&self) -> int;

    /// The least value of the type.
    spec fn min_value() -> int;

    /// The greatest value of the type.
    spec fn max_value() -> int;

    /// Every value lies in the type's range, and values identify elements.
    proof fn lemma_value(a: Self, b: Self)
        ensures
            Self::min_value() <= a.value() <= Self::max_value(),
            Self::min_value() <= 0 < 1 <= Self::max_value(),
            a.value() == b.value() ==> a == b,
    ;

    fn zero() -> (r: Self)
        ensures
            r.value() == 0,
    ;

    fn one() -> (r: Self)
        ensures
            r.value() == 1,
    ;

    fn is_zero(&self) -> (r: bool)
        ensures
            r == (self.value() == 0),
    ;

    fn less_than(&self, other: &Self) -> (r: bool)
        ensures
            r == (self.value() < other.value()),
    ;

    /// The sum, or `None` where it leaves the type's range.
    fn add_checked(&self, other: &Self) -> (r: Option<Self>)
        ensures
            match r {
                Some(s) => s.value() == self.value() + other.value(),
                None => !(Self::min_value() <= self.value() + other.value() <= Self::max_value()),
            },
    ;

    /// The difference, or `None` where it leaves the type's range.
    fn sub_checked(&self, other: &Self) -> (r: Option<Self>)
        ensures
            match r {
                Some(s) => s.value() == self.value() - other.value(),
                None => !(Self::min_value() <= self.value() - other.value() <= Self::max_value()),
            },
    ;

    /// The remainder of a non-negative value by a positive one.
    fn rem(&self, other: &Self) -> (r: Self)
        requires
            self.value() >= 0,
            other.value() > 0,
        ensures
            r.value() == self.value() % other.value(),
    ;
}

impl Integer for u8 {
    open spec fn value(&self) -> int {
        *self as int
    }

    open spec fn min_value() -> int {
        u8::MIN as int
    }

    open spec fn max_value() -> int {
        u8::MAX as int
    }

    proof fn lemma_value(a: Self, b: Self) {
    }

    fn zero() -> (r: Self) {
        0
    }

    fn one() -> (r: Self) {
        1
    }

    fn is_zero(&self) -> (r: bool) {
        *self == 0
    }

    fn less_than(&self, other: &Self) -> (r: bool) {
        *self < *other
    }

    fn add_checked(&self, other: &Self) -> (r: Option<Self>) {
        self.checked_add(*other)
    }

    fn sub_checked(&self, other: &Self) -> (r: Option<Self>) {
        self.checked_sub(*other)
    }

    fn rem(&self, other: &Self) -> (r: Self) {
        *self % *other
    }
}

impl Integer for u16 {
    open spec fn value(&self) -> int {
        *self as int
    }

    open spec fn min_value() -> int {
        u16::MIN as int
    }

    open spec fn max_value() -> int {
        u16::MAX as int
    }

    proof fn lemma_value(a: Self, b: Self) {
    }

    fn zero() -> (r: Self) {
        0
    }

    fn one() -> (r: Self) {
        1
    }

    fn is_zero(&self) -> (r: bool) {
        *self == 0
    }

    fn less_than(&self, other: &Self) -> (r: bool) {
        *self < *other
    }

    fn add_checked(&self, other: &Self) -> (r: Option<Self>) {
        self.checked_add(*other)
    }

    fn sub_checked(&self, other: &Self) -> (r: Option<Self>) {
        self.checked_sub(*other)
    }

    fn rem(&self, other: &Self) -> (r: Self) {
        *self % *other
    }
}

impl Integer for u32 {
    open spec fn value(&self) -> int {
        *self as int
    }

    open spec fn min_value() -> int {
        u32::MIN as int
    }

    open spec fn max_value() -> int {
        u32::MAX as int
    }

    proof fn lemma_value(a: Self, b: Self) {
    }

    fn zero() -> (r: Self) {
        0
    }

    fn one() -> (r: Self) {
        1
    }

    fn is_zero(&self) -> (r: bool) {
        *self == 0
    }

    fn less_than(&self, other: &Self) -> (r: bool) {
        *self < *other
    }

    fn add_checked(&self, other: &Self) -> (r: Option<Self>) {
        self.checked_add(*other)
    }

    fn sub_checked(&self, other: &Self) -> (r: Option<Self>) {
        self.checked_sub(*other)
    }

    fn rem(&self, other: &Self) -> (r: Self) {
        *self % *other
    }
}

impl Integer for u64 {
    open spec fn value(&self) -> int {
        *self as int
    }

    open spec fn min_value() -> int {
        u64::MIN as int
    }

    open spec fn max_value() -> int {
        u64::MAX as int
    }

    proof fn lemma_value(a: Self, b: Self) {
    }

    fn zero() -> (r: Self) {
        0
    }

    fn one() -> (r: Self) {
        1
    }

    fn is_zero(&self) -> (r: bool) {
        *self == 0
    }

    fn less_than(&self, other: &Self) -> (r: bool) {
        *self < *other
    }

    fn add_checked(&self, other: &Self) -> (r: Option<Self>) {
        self.checked_add(*other)
    }

    fn sub_checked(&self, other: &Self) -> (r: Option<Self>) {
        self.checked_sub(*other)
    }

    fn rem(&self, other: &Self) -> (r: Self) {
        *self % *other
    }
}

impl Integer for usize {
    open spec fn value(&self) -> int {
        *self as int
    }

    open spec fn min_value() -> int {
        usize::MIN as int
    }

    open spec fn max_value() -> int {
        usize::MAX as int
    }

    proof fn lemma_value(a: Self, b: Self) {
    }

    fn zero() -> (r: Self) {
        0
    }

    fn one() -> (r: Self) {
        1
    }

    fn is_zero(&self) -> (r: bool) {
        *self == 0
    }

    fn less_than(&self, other: &Self) -> (r: bool) {
        *self < *other
    }

    fn add_checked(&self, other: &Self) -> (r: Option<Self>) {
        self.checked_add(*other)
    }

    fn sub_checked(&self, other: &Self) -> (r: Option<Self>) {
        self.checked_sub(*other)
    }

    fn rem(&self, other: &Self) -> (r: Self) {
        *self % *other
    }
}

impl Integer for i8 {
    open spec fn value(&self) -> int {
        *self as int
    }

    open spec fn min_value() -> int {
        i8::MIN as int
    }

    open spec fn max_value() -> int {
        i8::MAX as int
    }

    proof fn lemma_value(a: Self, b: Self) {
    }

    fn zero() -> (r: Self) {
        0
    }

    fn one() -> (r: Self) {
        1
    }

    fn is_zero(&self) -> (r: bool) {
        *self == 0
    }

    fn less_than(&self, other: &Self) -> (r: bool) {
        *self < *other
    }

    fn add_checked(&self, other: &Self) -> (r: Option<Self>) {
        self.checked_add(*other)
    }

    fn sub_checked(&self, other: &Self) -> (r: Option<Self>) {
        self.checked_sub(*other)
    }

    fn rem(&self, other: &Self) -> (r: Self) {
        *self % *other
    }
}

impl Integer for i16 {
    open spec fn value(&self) -> int {
        *self as int
    }

    open spec fn min_value() -> int {
        i16::MIN as int
    }

    open spec fn max_value() -> int {
        i16::MAX as int
    }

    proof fn lemma_value(a: Self, b: Self) {
    }

    fn zero() -> (r: Self) {
        0
    }

    fn one() -> (r: Self) {
        1
    }

    fn is_zero(&self) -> (r: bool) {
        *self == 0
    }

    fn less_than(&self, other: &Self) -> (r: bool) {
        *self < *other
    }

    fn add_checked(&self, other: &Self) -> (r: Option<Self>) {
        self.checked_add(*other)
    }

    fn sub_checked(&self, other: &Self) -> (r: Option<Self>) {
        self.checked_sub(*other)
    }

    fn rem(&self, other: &Self) -> (r: Self) {
        *self % *other
    }
}

impl Integer for i32 {
    open spec fn value(&self) -> int {
        *self as int
    }

    open spec fn min_value() -> int {
        i32::MIN as int
    }

    open spec fn max_value() -> int {
        i32::MAX as int
    }

    proof fn lemma_value(a: Self, b: Self) {
    }

    fn zero() -> (r: Self) {
        0
    }

    fn one() -> (r: Self) {
        1
    }

    fn is_zero(&self) -> (r: bool) {
        *self == 0
    }

    fn less_than(&self, other: &Self) -> (r: bool) {
        *self < *other
    }

    fn add_checked(&self, other: &Self) -> (r: Option<Self>) {
        self.checked_add(*other)
    }

    fn sub_checked(&self, other: &Self) -> (r: Option<Self>) {
        self.checked_sub(*other)
    }

    fn rem(&self, other: &Self) -> (r: Self) {
        *self % *other
    }
}

impl Integer for i64 {
    open spec fn value(&self) -> int {
        *self as int
    }

    open spec fn min_value() -> int {
        i64::MIN as int
    }

    open spec fn max_value() -> int {
        i64::MAX as int
    }

    proof fn lemma_value(a: Self, b: Self) {
    }

    fn zero() -> (r: Self) {
        0
    }

    fn one() -> (r: Self) {
        1
    }

    fn is_zero(&self) -> (r: bool) {
        *self == 0
    }

    fn less_than(&self, other: &Self) -> (r: bool) {
        *self < *other
    }

    fn add_checked(&self, other: &Self) -> (r: Option<Self>) {
        self.checked_add(*other)
    }

    fn sub_checked(&self, other: &Self) -> (r: Option<Self>) {
        self.checked_sub(*other)
    }

    fn rem(&self, other: &Self) -> (r: Self) {
        *self % *other
    }
}

} // verus!
