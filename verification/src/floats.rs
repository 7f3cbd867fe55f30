//! IEEE 754 binary32/binary64 arithmetic on raw bit patterns.
//!
//! The interpreter carries `float` and `double` values as their bit patterns
//! (`u32` and `u64`).  The arithmetic itself is software floating point from
//! the `rustc_apfloat` crate, reached through trusted wrappers.  Each
//! operation is a pure function of the operand bits, so its result is given a
//! name (an uninterpreted spec function) that the callers' contracts speak of.

use core::cmp::Ordering;
use rustc_apfloat::ieee::{Double, Single};
use rustc_apfloat::{Float, FloatConvert, Round, StatusAnd};
use vstd::prelude::*;

verus! {

pub uninterp spec fn f32_add_bits(a: u32, b: u32) -> u32;

pub uninterp spec fn f32_sub_bits(a: u32, b: u32) -> u32;

pub uninterp spec fn f32_mul_bits(a: u32, b: u32) -> u32;

pub uninterp spec fn f32_div_bits(a: u32, b: u32) -> u32;

pub uninterp spec fn f32_rem_bits(a: u32, b: u32) -> u32;

pub uninterp spec fn f64_add_bits(a: u64, b: u64) -> u64;

pub uninterp spec fn f64_sub_bits(a: u64, b: u64) -> u64;

pub uninterp spec fn f64_mul_bits(a: u64, b: u64) -> u64;

pub uninterp spec fn f64_div_bits(a: u64, b: u64) -> u64;

pub uninterp spec fn f64_rem_bits(a: u64, b: u64) -> u64;

pub uninterp spec fn f32_of_long_bits(v: i64) -> u32;

pub uninterp spec fn f64_of_long_bits(v: i64) -> u64;

pub uninterp spec fn f32_to_int_bits(a: u32, width: usize) -> i64;

pub uninterp spec fn f64_to_int_bits(a: u64, width: usize) -> i64;

pub uninterp spec fn f32_to_f64_bits(a: u32) -> u64;

pub uninterp spec fn f64_to_f32_bits(a: u64) -> u32;

pub uninterp spec fn f32_cmp_bits(a: u32, b: u32) -> i32;

pub uninterp spec fn f64_cmp_bits(a: u64, b: u64) -> i32;

/// Relies on `rustc_apfloat::ieee::Single::add_r`: IEEE binary32 addition,
/// round to nearest even.
#[verifier::external_body]
pub(crate) fn f32_add(a: u32, b: u32) -> (r: u32)
    ensures
        r == f32_add_bits(a, b),
{
    let x = Single::from_bits(a as u128);
    let y = Single::from_bits(b as u128);
    x.add_r(y, Round::NearestTiesToEven).value.to_bits() as u32
}

/// Relies on `rustc_apfloat::ieee::Single::sub_r`: IEEE binary32 subtraction,
/// round to nearest even.
#[verifier::external_body]
pub(crate) fn f32_sub(a: u32, b: u32) -> (r: u32)
    ensures
        r == f32_sub_bits(a, b),
{
    let x = Single::from_bits(a as u128);
    let y = Single::from_bits(b as u128);
    x.sub_r(y, Round::NearestTiesToEven).value.to_bits() as u32
}

/// Relies on `rustc_apfloat::ieee::Single::mul_r`: IEEE binary32
/// multiplication, round to nearest even.
#[verifier::external_body]
pub(crate) fn f32_mul(a: u32, b: u32) -> (r: u32)
    ensures
        r == f32_mul_bits(a, b),
{
    let x = Single::from_bits(a as u128);
    let y = Single::from_bits(b as u128);
    x.mul_r(y, Round::NearestTiesToEven).value.to_bits() as u32
}

/// Relies on `rustc_apfloat::ieee::Single::div_r`: IEEE binary32 division,
/// round to nearest even (division by zero yields an infinity or NaN, it
/// never traps).
#[verifier::external_body]
pub(crate) fn f32_div(a: u32, b: u32) -> (r: u32)
    ensures
        r == f32_div_bits(a, b),
{
    let x = Single::from_bits(a as u128);
    let y = Single::from_bits(b as u128);
    x.div_r(y, Round::NearestTiesToEven).value.to_bits() as u32
}

/// Relies on `rustc_apfloat::ieee::Single::c_fmod`: the C `fmod` remainder,
/// which is the remainder operation the instruction set prescribes.
#[verifier::external_body]
pub(crate) fn f32_rem(a: u32, b: u32) -> (r: u32)
    ensures
        r == f32_rem_bits(a, b),
{
    let x = Single::from_bits(a as u128);
    let y = Single::from_bits(b as u128);
    x.c_fmod(y).value.to_bits() as u32
}

/// Relies on `rustc_apfloat::ieee::Double::add_r`: IEEE binary64 addition,
/// round to nearest even.
#[verifier::external_body]
pub(crate) fn f64_add(a: u64, b: u64) -> (r: u64)
    ensures
        r == f64_add_bits(a, b),
{
    let x = Double::from_bits(a as u128);
    let y = Double::from_bits(b as u128);
    x.add_r(y, Round::NearestTiesToEven).value.to_bits() as u64
}

/// Relies on `rustc_apfloat::ieee::Double::sub_r`: IEEE binary64 subtraction,
/// round to nearest even.
#[verifier::external_body]
pub(crate) fn f64_sub(a: u64, b: u64) -> (r: u64)
    ensures
        r == f64_sub_bits(a, b),
{
    let x = Double::from_bits(a as u128);
    let y = Double::from_bits(b as u128);
    x.sub_r(y, Round::NearestTiesToEven).value.to_bits() as u64
}

/// Relies on `rustc_apfloat::ieee::Double::mul_r`: IEEE binary64
/// multiplication, round to nearest even.
#[verifier::external_body]
pub(crate) fn f64_mul(a: u64, b: u64) -> (r: u64)
    ensures
        r == f64_mul_bits(a, b),
{
    let x = Double::from_bits(a as u128);
    let y = Double::from_bits(b as u128);
    x.mul_r(y, Round::NearestTiesToEven).value.to_bits() as u64
}

/// Relies on `rustc_apfloat::ieee::Double::div_r`: IEEE binary64 division,
/// round to nearest even (division by zero yields an infinity or NaN, it
/// never traps).
#[verifier::external_body]
pub(crate) fn f64_div(a: u64, b: u64) -> (r: u64)
    ensures
        r == f64_div_bits(a, b),
{
    let x = Double::from_bits(a as u128);
    let y = Double::from_bits(b as u128);
    x.div_r(y, Round::NearestTiesToEven).value.to_bits() as u64
}

/// Relies on `rustc_apfloat::ieee::Double::c_fmod`: the C `fmod` remainder,
/// which is the remainder operation the instruction set prescribes.
#[verifier::external_body]
pub(crate) fn f64_rem(a: u64, b: u64) -> (r: u64)
    ensures
        r == f64_rem_bits(a, b),
{
    let x = Double::from_bits(a as u128);
    let y = Double::from_bits(b as u128);
    x.c_fmod(y).value.to_bits() as u64
}

/// Relies on `rustc_apfloat::Float::from_i128`: the signed integer converted
/// to IEEE binary32, round to nearest even.
#[verifier::external_body]
pub(crate) fn f32_of_long(v: i64) -> (r: u32)
    ensures
        r == f32_of_long_bits(v),
{
    Single::from_i128(v as i128).value.to_bits() as u32
}

/// Relies on `rustc_apfloat::Float::from_i128`: the signed integer converted
/// to IEEE binary64, round to nearest even.
#[verifier::external_body]
pub(crate) fn f64_of_long(v: i64) -> (r: u64)
    ensures
        r == f64_of_long_bits(v),
{
    Double::from_i128(v as i128).value.to_bits() as u64
}

/// Relies on `rustc_apfloat::Float::to_i128`: conversion to a signed integer
/// of the given width, rounding toward zero; NaN yields zero and values out
/// of range yield the width's minimum or maximum.
#[verifier::external_body]
pub(crate) fn f32_to_int(a: u32, width: usize) -> (r: i64)
    requires
        width == 32 || width == 64,
    ensures
        r == f32_to_int_bits(a, width),
        width == 32 ==> i32::MIN <= r <= i32::MAX,
{
    Single::from_bits(a as u128).to_i128(width).value as i64
}

/// Relies on `rustc_apfloat::Float::to_i128`: conversion to a signed integer
/// of the given width, rounding toward zero; NaN yields zero and values out
/// of range yield the width's minimum or maximum.
#[verifier::external_body]
pub(crate) fn f64_to_int(a: u64, width: usize) -> (r: i64)
    requires
        width == 32 || width == 64,
    ensures
        r == f64_to_int_bits(a, width),
        width == 32 ==> i32::MIN <= r <= i32::MAX,
{
    Double::from_bits(a as u128).to_i128(width).value as i64
}

/// Relies on `rustc_apfloat::FloatConvert::convert`: the binary32 value
/// widened to binary64 (every binary32 value is exactly representable).
#[verifier::external_body]
pub(crate) fn f32_to_f64(a: u32) -> (r: u64)
    ensures
        r == f32_to_f64_bits(a),
{
    let mut loses_info = false;
    let d: StatusAnd<Double> = Single::from_bits(a as u128).convert(&mut loses_info);
    d.value.to_bits() as u64
}

/// Relies on `rustc_apfloat::FloatConvert::convert`: the binary64 value
/// narrowed to binary32, round to nearest even.
#[verifier::external_body]
pub(crate) fn f64_to_f32(a: u64) -> (r: u32)
    ensures
        r == f64_to_f32_bits(a),
{
    let mut loses_info = false;
    let s: StatusAnd<Single> = Double::from_bits(a as u128).convert(&mut loses_info);
    s.value.to_bits() as u32
}

/// Relies on `PartialOrd for rustc_apfloat::ieee::IeeeFloat`: the IEEE
/// comparison of the two binary32 values; less, equal and greater become -1,
/// 0 and 1, and an unordered pair (a NaN operand) becomes 2.
#[verifier::external_body]
pub(crate) fn f32_cmp(a: u32, b: u32) -> (r: i32)
    ensures
        r == f32_cmp_bits(a, b),
        -1 <= r <= 2,
{
    let x = Single::from_bits(a as u128);
    let y = Single::from_bits(b as u128);
    match x.partial_cmp(&y) {
        Some(Ordering::Less) => -1,
        Some(Ordering::Equal) => 0,
        Some(Ordering::Greater) => 1,
        None => 2,
    }
}

/// Relies on `PartialOrd for rustc_apfloat::ieee::IeeeFloat`: the IEEE
/// comparison of the two binary64 values; less, equal and greater become -1,
/// 0 and 1, and an unordered pair (a NaN operand) becomes 2.
#[verifier::external_body]
pub(crate) fn f64_cmp(a: u64, b: u64) -> (r: i32)
    ensures
        r == f64_cmp_bits(a, b),
        -1 <= r <= 2,
{
    let x = Double::from_bits(a as u128);
    let y = Double::from_bits(b as u128);
    match x.partial_cmp(&y) {
        Some(Ordering::Less) => -1,
        Some(Ordering::Equal) => 0,
        Some(Ordering::Greater) => 1,
        None => 2,
    }
}

} // verus!
