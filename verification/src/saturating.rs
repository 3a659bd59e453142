//! Integer types that saturate instead of overflowing, as counters need.

use vstd::prelude::*;

verus! {

/// `v` clamped into `[lo, hi]`.
pub open spec fn saturate(v: int, lo: int, hi: int) -> int {
    if v > hi {
        hi
    } else if v < lo {
        lo
    } else {
        v
    }
}

/// Addition and subtraction that stop at the bounds of the type.
pub trait Saturating: Sized {
    /// The number a value stands for.
    spec fn number(&self) -> int;

    /// The least number of the type.
    spec fn lowest() -> int;

    /// The greatest number of the type.
    spec fn highest() -> int;

    /// The sum, clamped to the bounds of the type.
    fn saturating_add(&self, other: Self) -> (r: Self)
        ensures
            r.number() == saturate(self.number() + other.number(), Self::lowest(), Self::highest()),
    ;

    /// The difference, clamped to the bounds of the type.
    fn saturating_sub(&self, other: Self) -> (r: Self)
        ensures
            r.number() == saturate(self.number() - other.number(), Self::lowest(), Self::highest()),
    ;
}

/// A primitive that a counter can hold: addition and subtraction saturate.
pub trait CounterPrimitive: PartialEq + Copy + Default {
    /// The number a value stands for.
    spec fn number(self) -> int;

    /// The least number of the type.
    spec fn lowest() -> int;

    /// The greatest number of the type.
    spec fn highest() -> int;

    /// Saturating addition.
    fn saturating_add(self, rhs: Self) -> (r: Self)
        ensures
            r.number() == saturate(self.number() + rhs.number(), Self::lowest(), Self::highest()),
    ;

    /// Saturating subtraction.
    fn saturating_sub(self, rhs: Self) -> (r: Self)
        ensures
            r.number() == saturate(self.number() - rhs.number(), Self::lowest(), Self::highest()),
    ;
}

/// A counter primitive without negative values.
pub trait UnsignedCounterPrimitive: CounterPrimitive {

}

/// Saturating addition of `i8`.
fn i8_saturating_add(a: i8, b: i8) -> (r: i8)
    ensures
        r == saturate(a + b, i8::MIN as int, i8::MAX as int),
{
    if b >= 0 {
        if a > i8::MAX - b {
            i8::MAX
        } else {
            a + b
        }
    } else {
        if a < i8::MIN - b {
            i8::MIN
        } else {
            a + b
        }
    }
}

/// Saturating subtraction of `i8`.
fn i8_saturating_sub(a: i8, b: i8) -> (r: i8)
    ensures
        r == saturate(a - b, i8::MIN as int, i8::MAX as int),
{
    if b >= 0 {
        if a < i8::MIN + b {
            i8::MIN
        } else {
            a - b
        }
    } else {
        if a > i8::MAX + b {
            i8::MAX
        } else {
            a - b
        }
    }
}

/// Saturating addition of `i16`.
fn i16_saturating_add(a: i16, b: i16) -> (r: i16)
    ensures
        r == saturate(a + b, i16::MIN as int, i16::MAX as int),
{
    if b >= 0 {
        if a > i16::MAX - b {
            i16::MAX
        } else {
            a + b
        }
    } else {
        if a < i16::MIN - b {
            i16::MIN
        } else {
            a + b
        }
    }
}

/// Saturating subtraction of `i16`.
fn i16_saturating_sub(a: i16, b: i16) -> (r: i16)
    ensures
        r == saturate(a - b, i16::MIN as int, i16::MAX as int),
{
    if b >= 0 {
        if a < i16::MIN + b {
            i16::MIN
        } else {
            a - b
        }
    } else {
        if a > i16::MAX + b {
            i16::MAX
        } else {
            a - b
        }
    }
}

/// Saturating addition of `i32`.
fn i32_saturating_add(a: i32, b: i32) -> (r: i32)
    ensures
        r == saturate(a + b, i32::MIN as int, i32::MAX as int),
{
    if b >= 0 {
        if a > i32::MAX - b {
            i32::MAX
        } else {
            a + b
        }
    } else {
        if a < i32::MIN - b {
            i32::MIN
        } else {
            a + b
        }
    }
}

/// Saturating subtraction of `i32`.
fn i32_saturating_sub(a: i32, b: i32) -> (r: i32)
    ensures
        r == saturate(a - b, i32::MIN as int, i32::MAX as int),
{
    if b >= 0 {
        if a < i32::MIN + b {
            i32::MIN
        } else {
            a - b
        }
    } else {
        if a > i32::MAX + b {
            i32::MAX
        } else {
            a - b
        }
    }
}

/// Saturating addition of `i64`.
fn i64_saturating_add(a: i64, b: i64) -> (r: i64)
    ensures
        r == saturate(a + b, i64::MIN as int, i64::MAX as int),
{
    if b >= 0 {
        if a > i64::MAX - b {
            i64::MAX
        } else {
            a + b
        }
    } else {
        if a < i64::MIN - b {
            i64::MIN
        } else {
            a + b
        }
    }
}

/// Saturating subtraction of `i64`.
fn i64_saturating_sub(a: i64, b: i64) -> (r: i64)
    ensures
        r == saturate(a - b, i64::MIN as int, i64::MAX as int),
{
    if b >= 0 {
        if a < i64::MIN + b {
            i64::MIN
        } else {
            a - b
        }
    } else {
        if a > i64::MAX + b {
            i64::MAX
        } else {
            a - b
        }
    }
}

/// Saturating addition of `isize`.
fn isize_saturating_add(a: isize, b: isize) -> (r: isize)
    ensures
        r == saturate(a + b, isize::MIN as int, isize::MAX as int),
{
    if b >= 0 {
        if a > isize::MAX - b {
            isize::MAX
        } else {
            a + b
        }
    } else {
        if a < isize::MIN - b {
            isize::MIN
        } else {
            a + b
        }
    }
}

/// Saturating subtraction of `isize`.
fn isize_saturating_sub(a: isize, b: isize) -> (r: isize)
    ensures
        r == saturate(a - b, isize::MIN as int, isize::MAX as int),
{
    if b >= 0 {
        if a < isize::MIN + b {
            isize::MIN
        } else {
            a - b
        }
    } else {
        if a > isize::MAX + b {
            isize::MAX
        } else {
            a - b
        }
    }
}

impl Saturating for u8 {
    open spec fn number(&self) -> int {
        *self as int
    }

    open spec fn lowest() -> int {
        u8::MIN as int
    }

    open spec fn highest() -> int {
        u8::MAX as int
    }

    fn saturating_add(&self, other: Self) -> (r: Self) {
        (*self).saturating_add(other)
    }

    fn saturating_sub(&self, other: Self) -> (r: Self) {
        (*self).saturating_sub(other)
    }
}

impl CounterPrimitive for u8 {
    open spec fn number(self) -> int {
        self as int
    }

    open spec fn lowest() -> int {
        u8::MIN as int
    }

    open spec fn highest() -> int {
        u8::MAX as int
    }

    fn saturating_add(self, rhs: Self) -> (r: Self) {
        u8::saturating_add(self, rhs)
    }

    fn saturating_sub(self, rhs: Self) -> (r: Self) {
        u8::saturating_sub(self, rhs)
    }
}

impl UnsignedCounterPrimitive for u8 {

}

impl Saturating for u16 {
    open spec fn number(&self) -> int {
        *self as int
    }

    open spec fn lowest() -> int {
        u16::MIN as int
    }

    open spec fn highest() -> int {
        u16::MAX as int
    }

    fn saturating_add(&self, other: Self) -> (r: Self) {
        (*self).saturating_add(other)
    }

    fn saturating_sub(&self, other: Self) -> (r: Self) {
        (*self).saturating_sub(other)
    }
}

impl CounterPrimitive for u16 {
    open spec fn number(self) -> int {
        self as int
    }

    open spec fn lowest() -> int {
        u16::MIN as int
    }

    open spec fn highest() -> int {
        u16::MAX as int
    }

    fn saturating_add(self, rhs: Self) -> (r: Self) {
        u16::saturating_add(self, rhs)
    }

    fn saturating_sub(self, rhs: Self) -> (r: Self) {
        u16::saturating_sub(self, rhs)
    }
}

impl UnsignedCounterPrimitive for u16 {

}

impl Saturating for u32 {
    open spec fn number(&self) -> int {
        *self as int
    }

    open spec fn lowest() -> int {
        u32::MIN as int
    }

    open spec fn highest() -> int {
        u32::MAX as int
    }

    fn saturating_add(&self, other: Self) -> (r: Self) {
        (*self).saturating_add(other)
    }

    fn saturating_sub(&self, other: Self) -> (r: Self) {
        (*self).saturating_sub(other)
    }
}

impl CounterPrimitive for u32 {
    open spec fn number(self) -> int {
        self as int
    }

    open spec fn lowest() -> int {
        u32::MIN as int
    }

    open spec fn highest() -> int {
        u32::MAX as int
    }

    fn saturating_add(self, rhs: Self) -> (r: Self) {
        u32::saturating_add(self, rhs)
    }

    fn saturating_sub(self, rhs: Self) -> (r: Self) {
        u32::saturating_sub(self, rhs)
    }
}

impl UnsignedCounterPrimitive for u32 {

}

impl Saturating for u64 {
    open spec fn number(&self) -> int {
        *self as int
    }

    open spec fn lowest() -> int {
        u64::MIN as int
    }

    open spec fn highest() -> int {
        u64::MAX as int
    }

    fn saturating_add(&self, other: Self) -> (r: Self) {
        (*self).saturating_add(other)
    }

    fn saturating_sub(&self, other: Self) -> (r: Self) {
        (*self).saturating_sub(other)
    }
}

impl CounterPrimitive for u64 {
    open spec fn number(self) -> int {
        self as int
    }

    open spec fn lowest() -> int {
        u64::MIN as int
    }

    open spec fn highest() -> int {
        u64::MAX as int
    }

    fn saturating_add(self, rhs: Self) -> (r: Self) {
        u64::saturating_add(self, rhs)
    }

    fn saturating_sub(self, rhs: Self) -> (r: Self) {
        u64::saturating_sub(self, rhs)
    }
}

impl UnsignedCounterPrimitive for u64 {

}

impl Saturating for usize {
    open spec fn number(&self) -> int {
        *self as int
    }

    open spec fn lowest() -> int {
        usize::MIN as int
    }

    open spec fn highest() -> int {
        usize::MAX as int
    }

    fn saturating_add(&self, other: Self) -> (r: Self) {
        (*self).saturating_add(other)
    }

    fn saturating_sub(&self, other: Self) -> (r: Self) {
        (*self).saturating_sub(other)
    }
}

impl CounterPrimitive for usize {
    open spec fn number(self) -> int {
        self as int
    }

    open spec fn lowest() -> int {
        usize::MIN as int
    }

    open spec fn highest() -> int {
        usize::MAX as int
    }

    fn saturating_add(self, rhs: Self) -> (r: Self) {
        usize::saturating_add(self, rhs)
    }

    fn saturating_sub(self, rhs: Self) -> (r: Self) {
        usize::saturating_sub(self, rhs)
    }
}

impl UnsignedCounterPrimitive for usize {

}

impl Saturating for i8 {
    open spec fn number(&self) -> int {
        *self as int
    }

    open spec fn lowest() -> int {
        i8::MIN as int
    }

    open spec fn highest() -> int {
        i8::MAX as int
    }

    fn saturating_add(&self, other: Self) -> (r: Self) {
        i8_saturating_add(*self, other)
    }

    fn saturating_sub(&self, other: Self) -> (r: Self) {
        i8_saturating_sub(*self, other)
    }
}

impl CounterPrimitive for i8 {
    open spec fn number(self) -> int {
        self as int
    }

    open spec fn lowest() -> int {
        i8::MIN as int
    }

    open spec fn highest() -> int {
        i8::MAX as int
    }

    fn saturating_add(self, rhs: Self) -> (r: Self) {
        i8_saturating_add(self, rhs)
    }

    fn saturating_sub(self, rhs: Self) -> (r: Self) {
        i8_saturating_sub(self, rhs)
    }
}

impl Saturating for i16 {
    open spec fn number(&self) -> int {
        *self as int
    }

    open spec fn lowest() -> int {
        i16::MIN as int
    }

    open spec fn highest() -> int {
        i16::MAX as int
    }

    fn saturating_add(&self, other: Self) -> (r: Self) {
        i16_saturating_add(*self, other)
    }

    fn saturating_sub(&self, other: Self) -> (r: Self) {
        i16_saturating_sub(*self, other)
    }
}

impl CounterPrimitive for i16 {
    open spec fn number(self) -> int {
        self as int
    }

    open spec fn lowest() -> int {
        i16::MIN as int
    }

    open spec fn highest() -> int {
        i16::MAX as int
    }

    fn saturating_add(self, rhs: Self) -> (r: Self) {
        i16_saturating_add(self, rhs)
    }

    fn saturating_sub(self, rhs: Self) -> (r: Self) {
        i16_saturating_sub(self, rhs)
    }
}

impl Saturating for i32 {
    open spec fn number(&self) -> int {
        *self as int
    }

    open spec fn lowest() -> int {
        i32::MIN as int
    }

    open spec fn highest() -> int {
        i32::MAX as int
    }

    fn saturating_add(&self, other: Self) -> (r: Self) {
        i32_saturating_add(*self, other)
    }

    fn saturating_sub(&self, other: Self) -> (r: Self) {
        i32_saturating_sub(*self, other)
    }
}

impl CounterPrimitive for i32 {
    open spec fn number(self) -> int {
        self as int
    }

    open spec fn lowest() -> int {
        i32::MIN as int
    }

    open spec fn highest() -> int {
        i32::MAX as int
    }

    fn saturating_add(self, rhs: Self) -> (r: Self) {
        i32_saturating_add(self, rhs)
    }

    fn saturating_sub(self, rhs: Self) -> (r: Self) {
        i32_saturating_sub(self, rhs)
    }
}

impl Saturating for i64 {
    open spec fn number(&self) -> int {
        *self as int
    }

    open spec fn lowest() -> int {
        i64::MIN as int
    }

    open spec fn highest() -> int {
        i64::MAX as int
    }

    fn saturating_add(&self, other: Self) -> (r: Self) {
        i64_saturating_add(*self, other)
    }

    fn saturating_sub(&self, other: Self) -> (r: Self) {
        i64_saturating_sub(*self, other)
    }
}

impl CounterPrimitive for i64 {
    open spec fn number(self) -> int {
        self as int
    }

    open spec fn lowest() -> int {
        i64::MIN as int
    }

    open spec fn highest() -> int {
        i64::MAX as int
    }

    fn saturating_add(self, rhs: Self) -> (r: Self) {
        i64_saturating_add(self, rhs)
    }

    fn saturating_sub(self, rhs: Self) -> (r: Self) {
        i64_saturating_sub(self, rhs)
    }
}

impl Saturating for isize {
    open spec fn number(&self) -> int {
        *self as int
    }

    open spec fn lowest() -> int {
        isize::MIN as int
    }

    open spec fn highest() -> int {
        isize::MAX as int
    }

    fn saturating_add(&self, other: Self) -> (r: Self) {
        isize_saturating_add(*self, other)
    }

    fn saturating_sub(&self, other: Self) -> (r: Self) {
        isize_saturating_sub(*self, other)
    }
}

impl CounterPrimitive for isize {
    open spec fn number(self) -> int {
        self as int
    }

    open spec fn lowest() -> int {
        isize::MIN as int
    }

    open spec fn highest() -> int {
        isize::MAX as int
    }

    fn saturating_add(self, rhs: Self) -> (r: Self) {
        isize_saturating_add(self, rhs)
    }

    fn saturating_sub(self, rhs: Self) -> (r: Self) {
        isize_saturating_sub(self, rhs)
    }
}

} // verus!
