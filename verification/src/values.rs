//! The numeric interface for aggregated chart values.

use vstd::prelude::*;

use crate::decimal::{append_decimal, append_signed_decimal, dec_rep, signed_dec_rep};

verus! {

/// A summable chart value: it has a zero, a (partial, overflow-guarded)
/// addition, and a display label.
///
/// `can_add` delimits the pairs whose sum stays within the type's range;
/// every verified addition in the library is guarded by it, so the running
/// totals are exact mathematical sums.
pub trait ChartValue: Sized + Copy {
    /// The zero of the value type, the starting point of every total.
    spec fn zero_spec() -> Self;

    /// Whether `self + other` stays within the type's range.
    spec fn can_add(self, other: Self) -> bool;

    /// The sum of the two values.
    spec fn add_spec(self, other: Self) -> Self;

    /// Zero is neutral: adding a value to zero is always in range and
    /// yields that value.
    proof fn lemma_zero_add(v: Self)
        ensures
            Self::zero_spec().can_add(v),
            Self::zero_spec().add_spec(v) == v,
    ;

    /// The character sequence that `value_label` renders.
    spec fn value_label_spec(self) -> Seq<char>;

    /// The zero value.
    fn zero_value() -> (r: Self)
        ensures
            r == Self::zero_spec(),
    ;

    /// Adds `other` to `self`; the caller must rule overflow out.
    fn add_value(self, other: Self) -> (r: Self)
        requires
            self.can_add(other),
        ensures
            r == self.add_spec(other),
    ;

    /// The display label of the value.
    fn value_label(self) -> (r: String)
        ensures
            r@ == self.value_label_spec(),
    ;
}

impl ChartValue for usize {
    open spec fn zero_spec() -> Self {
        0
    }

    open spec fn can_add(self, other: Self) -> bool {
        self + other <= usize::MAX
    }

    open spec fn add_spec(self, other: Self) -> Self {
        (self + other) as usize
    }

    proof fn lemma_zero_add(v: Self) {
    }

    open spec fn value_label_spec(self) -> Seq<char> {
        dec_rep(self as int)
    }

    fn zero_value() -> (r: Self) {
        0
    }

    fn add_value(self, other: Self) -> (r: Self) {
        self + other
    }

    fn value_label(self) -> (r: String) {
        let mut s = String::new();
        append_decimal(&mut s, self as u64);
        proof {
            assert(s@ =~= self.value_label_spec());
        }
        s
    }
}

impl ChartValue for u8 {
    open spec fn zero_spec() -> Self {
        0
    }

    open spec fn can_add(self, other: Self) -> bool {
        self + other <= u8::MAX
    }

    open spec fn add_spec(self, other: Self) -> Self {
        (self + other) as u8
    }

    proof fn lemma_zero_add(v: Self) {
    }

    open spec fn value_label_spec(self) -> Seq<char> {
        dec_rep(self as int)
    }

    fn zero_value() -> (r: Self) {
        0
    }

    fn add_value(self, other: Self) -> (r: Self) {
        self + other
    }

    fn value_label(self) -> (r: String) {
        let mut s = String::new();
        append_decimal(&mut s, self as u64);
        proof {
            assert(s@ =~= self.value_label_spec());
        }
        s
    }
}

impl ChartValue for u16 {
    open spec fn zero_spec() -> Self {
        0
    }

    open spec fn can_add(self, other: Self) -> bool {
        self + other <= u16::MAX
    }

    open spec fn add_spec(self, other: Self) -> Self {
        (self + other) as u16
    }

    proof fn lemma_zero_add(v: Self) {
    }

    open spec fn value_label_spec(self) -> Seq<char> {
        dec_rep(self as int)
    }

    fn zero_value() -> (r: Self) {
        0
    }

    fn add_value(self, other: Self) -> (r: Self) {
        self + other
    }

    fn value_label(self) -> (r: String) {
        let mut s = String::new();
        append_decimal(&mut s, self as u64);
        proof {
            assert(s@ =~= self.value_label_spec());
        }
        s
    }
}

impl ChartValue for u32 {
    open spec fn zero_spec() -> Self {
        0
    }

    open spec fn can_add(self, other: Self) -> bool {
        self + other <= u32::MAX
    }

    open spec fn add_spec(self, other: Self) -> Self {
        (self + other) as u32
    }

    proof fn lemma_zero_add(v: Self) {
    }

    open spec fn value_label_spec(self) -> Seq<char> {
        dec_rep(self as int)
    }

    fn zero_value() -> (r: Self) {
        0
    }

    fn add_value(self, other: Self) -> (r: Self) {
        self + other
    }

    fn value_label(self) -> (r: String) {
        let mut s = String::new();
        append_decimal(&mut s, self as u64);
        proof {
            assert(s@ =~= self.value_label_spec());
        }
        s
    }
}

impl ChartValue for u64 {
    open spec fn zero_spec() -> Self {
        0
    }

    open spec fn can_add(self, other: Self) -> bool {
        self + other <= u64::MAX
    }

    open spec fn add_spec(self, other: Self) -> Self {
        (self + other) as u64
    }

    proof fn lemma_zero_add(v: Self) {
    }

    open spec fn value_label_spec(self) -> Seq<char> {
        dec_rep(self as int)
    }

    fn zero_value() -> (r: Self) {
        0
    }

    fn add_value(self, other: Self) -> (r: Self) {
        self + other
    }

    fn value_label(self) -> (r: String) {
        let mut s = String::new();
        append_decimal(&mut s, self);
        proof {
            assert(s@ =~= self.value_label_spec());
        }
        s
    }
}

impl ChartValue for i8 {
    open spec fn zero_spec() -> Self {
        0
    }

    open spec fn can_add(self, other: Self) -> bool {
        i8::MIN <= self + other <= i8::MAX
    }

    open spec fn add_spec(self, other: Self) -> Self {
        (self + other) as i8
    }

    proof fn lemma_zero_add(v: Self) {
    }

    open spec fn value_label_spec(self) -> Seq<char> {
        signed_dec_rep(self as int)
    }

    fn zero_value() -> (r: Self) {
        0
    }

    fn add_value(self, other: Self) -> (r: Self) {
        self + other
    }

    fn value_label(self) -> (r: String) {
        let mut s = String::new();
        append_signed_decimal(&mut s, self as i64);
        proof {
            assert(s@ =~= self.value_label_spec());
        }
        s
    }
}

impl ChartValue for i16 {
    open spec fn zero_spec() -> Self {
        0
    }

    open spec fn can_add(self, other: Self) -> bool {
        i16::MIN <= self + other <= i16::MAX
    }

    open spec fn add_spec(self, other: Self) -> Self {
        (self + other) as i16
    }

    proof fn lemma_zero_add(v: Self) {
    }

    open spec fn value_label_spec(self) -> Seq<char> {
        signed_dec_rep(self as int)
    }

    fn zero_value() -> (r: Self) {
        0
    }

    fn add_value(self, other: Self) -> (r: Self) {
        self + other
    }

    fn value_label(self) -> (r: String) {
        let mut s = String::new();
        append_signed_decimal(&mut s, self as i64);
        proof {
            assert(s@ =~= self.value_label_spec());
        }
        s
    }
}

impl ChartValue for i32 {
    open spec fn zero_spec() -> Self {
        0
    }

    open spec fn can_add(self, other: Self) -> bool {
        i32::MIN <= self + other <= i32::MAX
    }

    open spec fn add_spec(self, other: Self) -> Self {
        (self + other) as i32
    }

    proof fn lemma_zero_add(v: Self) {
    }

    open spec fn value_label_spec(self) -> Seq<char> {
        signed_dec_rep(self as int)
    }

    fn zero_value() -> (r: Self) {
        0
    }

    fn add_value(self, other: Self) -> (r: Self) {
        self + other
    }

    fn value_label(self) -> (r: String) {
        let mut s = String::new();
        append_signed_decimal(&mut s, self as i64);
        proof {
            assert(s@ =~= self.value_label_spec());
        }
        s
    }
}

} // verus!
