//! The integer element types.

use super::{decimal_text, TensorTypeNumeric};
use vstd::prelude::*;

verus! {

/// The standard formatter on an integer: `format!("{}", v)`. Its result
/// is the decimal text of `v`: a minus sign for a negative number, then
/// the digits without leading zeros.
#[verifier::external_body]
pub(crate) fn render_decimal(v: i128) -> (text: String)
    ensures
        text@ == decimal_text(v as int),
{
    format!("{}", v)
}

/// `num_traits::Bounded::min_value` of `i8`, which is `i8::MIN`.
#[verifier::external_body]
fn bounded_min_i8() -> (r: i8)
    ensures
        r == i8::MIN,
{
    <i8 as num_traits::Bounded>::min_value()
}

/// `num_traits::Bounded::max_value` of `i8`, which is `i8::MAX`.
#[verifier::external_body]
fn bounded_max_i8() -> (r: i8)
    ensures
        r == i8::MAX,
{
    <i8 as num_traits::Bounded>::max_value()
}

impl TensorTypeNumeric for i8 {
    open spec fn val(self) -> int {
        self as int
    }

    open spec fn min_val() -> int {
        i8::MIN as int
    }

    open spec fn max_val() -> int {
        i8::MAX as int
    }

    proof fn lemma_val_in_range(self) {
    }

    proof fn lemma_val_determines(a: Self, b: Self) {
    }

    fn zero() -> (r: Self) {
        0i8
    }

    fn min_value() -> (r: Self) {
        bounded_min_i8()
    }

    fn max_value() -> (r: Self) {
        bounded_max_i8()
    }

    fn plus(self, rhs: Self) -> (r: Self) {
        self + rhs
    }

    fn minus(self, rhs: Self) -> (r: Self) {
        self - rhs
    }

    fn times(self, rhs: Self) -> (r: Self) {
        self * rhs
    }

    fn less_than(self, rhs: Self) -> (r: bool) {
        self < rhs
    }

    fn same(self, rhs: Self) -> (r: bool) {
        self == rhs
    }

    fn to_text(self) -> (r: String) {
        render_decimal(self as i128)
    }
}

/// `num_traits::Bounded::min_value` of `u8`, which is `u8::MIN`.
#[verifier::external_body]
fn bounded_min_u8() -> (r: u8)
    ensures
        r == u8::MIN,
{
    <u8 as num_traits::Bounded>::min_value()
}

/// `num_traits::Bounded::max_value` of `u8`, which is `u8::MAX`.
#[verifier::external_body]
fn bounded_max_u8() -> (r: u8)
    ensures
        r == u8::MAX,
{
    <u8 as num_traits::Bounded>::max_value()
}

impl TensorTypeNumeric for u8 {
    open spec fn val(self) -> int {
        self as int
    }

    open spec fn min_val() -> int {
        u8::MIN as int
    }

    open spec fn max_val() -> int {
        u8::MAX as int
    }

    proof fn lemma_val_in_range(self) {
    }

    proof fn lemma_val_determines(a: Self, b: Self) {
    }

    fn zero() -> (r: Self) {
        0u8
    }

    fn min_value() -> (r: Self) {
        bounded_min_u8()
    }

    fn max_value() -> (r: Self) {
        bounded_max_u8()
    }

    fn plus(self, rhs: Self) -> (r: Self) {
        self + rhs
    }

    fn minus(self, rhs: Self) -> (r: Self) {
        self - rhs
    }

    fn times(self, rhs: Self) -> (r: Self) {
        self * rhs
    }

    fn less_than(self, rhs: Self) -> (r: bool) {
        self < rhs
    }

    fn same(self, rhs: Self) -> (r: bool) {
        self == rhs
    }

    fn to_text(self) -> (r: String) {
        render_decimal(self as i128)
    }
}

/// `num_traits::Bounded::min_value` of `i32`, which is `i32::MIN`.
#[verifier::external_body]
fn bounded_min_i32() -> (r: i32)
    ensures
        r == i32::MIN,
{
    <i32 as num_traits::Bounded>::min_value()
}

/// `num_traits::Bounded::max_value` of `i32`, which is `i32::MAX`.
#[verifier::external_body]
fn bounded_max_i32() -> (r: i32)
    ensures
        r == i32::MAX,
{
    <i32 as num_traits::Bounded>::max_value()
}

impl TensorTypeNumeric for i32 {
    open spec fn val(self) -> int {
        self as int
    }

    open spec fn min_val() -> int {
        i32::MIN as int
    }

    open spec fn max_val() -> int {
        i32::MAX as int
    }

    proof fn lemma_val_in_range(self) {
    }

    proof fn lemma_val_determines(a: Self, b: Self) {
    }

    fn zero() -> (r: Self) {
        0i32
    }

    fn min_value() -> (r: Self) {
        bounded_min_i32()
    }

    fn max_value() -> (r: Self) {
        bounded_max_i32()
    }

    fn plus(self, rhs: Self) -> (r: Self) {
        self + rhs
    }

    fn minus(self, rhs: Self) -> (r: Self) {
        self - rhs
    }

    fn times(self, rhs: Self) -> (r: Self) {
        self * rhs
    }

    fn less_than(self, rhs: Self) -> (r: bool) {
        self < rhs
    }

    fn same(self, rhs: Self) -> (r: bool) {
        self == rhs
    }

    fn to_text(self) -> (r: String) {
        render_decimal(self as i128)
    }
}

/// `num_traits::Bounded::min_value` of `u32`, which is `u32::MIN`.
#[verifier::external_body]
fn bounded_min_u32() -> (r: u32)
    ensures
        r == u32::MIN,
{
    <u32 as num_traits::Bounded>::min_value()
}

/// `num_traits::Bounded::max_value` of `u32`, which is `u32::MAX`.
#[verifier::external_body]
fn bounded_max_u32() -> (r: u32)
    ensures
        r == u32::MAX,
{
    <u32 as num_traits::Bounded>::max_value()
}

impl TensorTypeNumeric for u32 {
    open spec fn val(self) -> int {
        self as int
    }

    open spec fn min_val() -> int {
        u32::MIN as int
    }

    open spec fn max_val() -> int {
        u32::MAX as int
    }

    proof fn lemma_val_in_range(self) {
    }

    proof fn lemma_val_determines(a: Self, b: Self) {
    }

    fn zero() -> (r: Self) {
        0u32
    }

    fn min_value() -> (r: Self) {
        bounded_min_u32()
    }

    fn max_value() -> (r: Self) {
        bounded_max_u32()
    }

    fn plus(self, rhs: Self) -> (r: Self) {
        self + rhs
    }

    fn minus(self, rhs: Self) -> (r: Self) {
        self - rhs
    }

    fn times(self, rhs: Self) -> (r: Self) {
        self * rhs
    }

    fn less_than(self, rhs: Self) -> (r: bool) {
        self < rhs
    }

    fn same(self, rhs: Self) -> (r: bool) {
        self == rhs
    }

    fn to_text(self) -> (r: String) {
        render_decimal(self as i128)
    }
}

/// `num_traits::Bounded::min_value` of `i64`, which is `i64::MIN`.
#[verifier::external_body]
fn bounded_min_i64() -> (r: i64)
    ensures
        r == i64::MIN,
{
    <i64 as num_traits::Bounded>::min_value()
}

/// `num_traits::Bounded::max_value` of `i64`, which is `i64::MAX`.
#[verifier::external_body]
fn bounded_max_i64() -> (r: i64)
    ensures
        r == i64::MAX,
{
    <i64 as num_traits::Bounded>::max_value()
}

impl TensorTypeNumeric for i64 {
    open spec fn val(self) -> int {
        self as int
    }

    open spec fn min_val() -> int {
        i64::MIN as int
    }

    open spec fn max_val() -> int {
        i64::MAX as int
    }

    proof fn lemma_val_in_range(self) {
    }

    proof fn lemma_val_determines(a: Self, b: Self) {
    }

    fn zero() -> (r: Self) {
        0i64
    }

    fn min_value() -> (r: Self) {
        bounded_min_i64()
    }

    fn max_value() -> (r: Self) {
        bounded_max_i64()
    }

    fn plus(self, rhs: Self) -> (r: Self) {
        self + rhs
    }

    fn minus(self, rhs: Self) -> (r: Self) {
        self - rhs
    }

    fn times(self, rhs: Self) -> (r: Self) {
        self * rhs
    }

    fn less_than(self, rhs: Self) -> (r: bool) {
        self < rhs
    }

    fn same(self, rhs: Self) -> (r: bool) {
        self == rhs
    }

    fn to_text(self) -> (r: String) {
        render_decimal(self as i128)
    }
}

/// `num_traits::Bounded::min_value` of `u64`, which is `u64::MIN`.
#[verifier::external_body]
fn bounded_min_u64() -> (r: u64)
    ensures
        r == u64::MIN,
{
    <u64 as num_traits::Bounded>::min_value()
}

/// `num_traits::Bounded::max_value` of `u64`, which is `u64::MAX`.
#[verifier::external_body]
fn bounded_max_u64() -> (r: u64)
    ensures
        r == u64::MAX,
{
    <u64 as num_traits::Bounded>::max_value()
}

impl TensorTypeNumeric for u64 {
    open spec fn val(self) -> int {
        self as int
    }

    open spec fn min_val() -> int {
        u64::MIN as int
    }

    open spec fn max_val() -> int {
        u64::MAX as int
    }

    proof fn lemma_val_in_range(self) {
    }

    proof fn lemma_val_determines(a: Self, b: Self) {
    }

    fn zero() -> (r: Self) {
        0u64
    }

    fn min_value() -> (r: Self) {
        bounded_min_u64()
    }

    fn max_value() -> (r: Self) {
        bounded_max_u64()
    }

    fn plus(self, rhs: Self) -> (r: Self) {
        self + rhs
    }

    fn minus(self, rhs: Self) -> (r: Self) {
        self - rhs
    }

    fn times(self, rhs: Self) -> (r: Self) {
        self * rhs
    }

    fn less_than(self, rhs: Self) -> (r: bool) {
        self < rhs
    }

    fn same(self, rhs: Self) -> (r: bool) {
        self == rhs
    }

    fn to_text(self) -> (r: String) {
        render_decimal(self as i128)
    }
}

} // verus!
