//! Lengths used by the page splitter.
//!
//! Every vertical length is an `i64` count of sub-pixels: one sub-pixel is
//! 1/7200 of a pixel, so that a length in HWP units (1/7200 inch) at an
//! integer resolution of `dpi` pixels per inch is exactly `hu * dpi`
//! sub-pixels. Sums and differences are computed exactly in a wider type;
//! only where an `i64` cannot hold the result does it saturate, at
//! `[-LEN_LIMIT, LEN_LIMIT]`.

use vstd::prelude::*;

verus! {

/// Largest magnitude of a length: the largest `i64` (about 1.3e15 pixels).
pub const LEN_LIMIT: i64 = 9_223_372_036_854_775_807;

/// Sub-pixels per pixel.
pub const SUBPX_PER_PX: i64 = 7200;

/// Whether `x` is a length the splitter can hold.
pub open spec fn len_ok(x: int) -> bool {
    -LEN_LIMIT <= x <= LEN_LIMIT
}

/// `x` saturated into the range of lengths.
pub open spec fn clamp_len(x: int) -> int {
    if x > LEN_LIMIT as int {
        LEN_LIMIT as int
    } else if x < -(LEN_LIMIT as int) {
        -(LEN_LIMIT as int)
    } else {
        x
    }
}

pub open spec fn max_int(a: int, b: int) -> int {
    if a >= b { a } else { b }
}

pub open spec fn min_int(a: int, b: int) -> int {
    if a <= b { a } else { b }
}

/// Saturates an exactly computed value into the range of lengths.
pub fn clamp_len_exec(x: i64) -> (r: i64)
    ensures
        r == clamp_len(x as int),
        len_ok(r as int),
{
    if x < -LEN_LIMIT {
        -LEN_LIMIT
    } else {
        x
    }
}

/// Saturates a value computed exactly in a wider type into the range of
/// lengths.
pub fn clamp_wide(x: i128) -> (r: i64)
    ensures
        r == clamp_len(x as int),
        len_ok(r as int),
{
    if x > LEN_LIMIT as i128 {
        LEN_LIMIT
    } else if x < -(LEN_LIMIT as i128) {
        -LEN_LIMIT
    } else {
        x as i64
    }
}

/// What is left of a room computed exactly in a wider type: never below
/// zero, saturated.
pub fn len_room(x: i128) -> (r: i64)
    ensures
        r == clamp_len(max_int(x as int, 0)),
        len_ok(r as int),
        r >= 0,
{
    clamp_wide(if x >= 0 { x } else { 0 })
}

/// Sum of two lengths, saturated.
pub fn len_add(a: i64, b: i64) -> (r: i64)
    requires
        len_ok(a as int),
        len_ok(b as int),
    ensures
        r == clamp_len(a + b),
        len_ok(r as int),
{
    clamp_wide(a as i128 + b as i128)
}

/// Difference of two lengths, saturated.
pub fn len_sub(a: i64, b: i64) -> (r: i64)
    requires
        len_ok(a as int),
        len_ok(b as int),
    ensures
        r == clamp_len(a - b),
        len_ok(r as int),
{
    clamp_wide(a as i128 - b as i128)
}

pub fn len_max(a: i64, b: i64) -> (r: i64)
    ensures
        r == max_int(a as int, b as int),
{
    if a >= b { a } else { b }
}

pub fn len_min(a: i64, b: i64) -> (r: i64)
    ensures
        r == min_int(a as int, b as int),
{
    if a <= b { a } else { b }
}

/// A length in HWP units converted to sub-pixels at `dpi` pixels per inch
/// (saturated).
pub open spec fn spec_hwpunit_to_px(hu: int, dpi: int) -> int {
    clamp_len(hu * dpi)
}

/// Converts a length in HWP units (1/7200 inch) to sub-pixels at `dpi`
/// pixels per inch: exactly `hu * dpi`, saturated.
pub fn hwpunit_to_px(hu: i64, dpi: i64) -> (r: i64)
    requires
        -0x4_0000_0000 <= hu <= 0x4_0000_0000,
    ensures
        r == spec_hwpunit_to_px(hu as int, dpi as int),
        len_ok(r as int),
{
    assert(-0x4_0000_0000 * 0x8000_0000_0000_0000 <= hu * dpi <= 0x4_0000_0000 * 0x8000_0000_0000_0000) by (nonlinear_arith)
        requires -0x4_0000_0000 <= hu <= 0x4_0000_0000, -0x8000_0000_0000_0000 <= dpi < 0x8000_0000_0000_0000;
    let p: i128 = (hu as i128) * (dpi as i128);
    if p > LEN_LIMIT as i128 {
        LEN_LIMIT
    } else if p < -(LEN_LIMIT as i128) {
        -LEN_LIMIT
    } else {
        p as i64
    }
}

} // verus!
