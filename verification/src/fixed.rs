use vstd::prelude::*;

verus! {

/// Angles, lengths and ratios are fixed-point numbers: this many units make
/// one radian, one unit of length or the ratio 1.
pub const FIXED_ONE: i64 = 65536;

/// Screen coordinates are fixed-point: this many units make one pixel.
pub const SUBPIXEL: i32 = 256;

/// The offset of a pixel's center from its corner, in sub-pixel units.
pub const HALF_PIXEL: i32 = 128;

/// The fixed-point depth that stands for 1: normalized depths run from
/// `-DEPTH_ONE` at the near plane to `DEPTH_ONE` at the far plane.
pub const DEPTH_ONE: i32 = 0x100_0000;

/// The quotient of `n` by a positive `d`, rounded toward zero.
pub open spec fn trunc_div(n: int, d: int) -> int {
    if n >= 0 {
        n / d
    } else {
        -((-n) / d)
    }
}

/// The quotient of `n` by `d`, which is not zero, rounded toward zero.
pub open spec fn quotient(n: int, d: int) -> int {
    if d > 0 {
        trunc_div(n, d)
    } else {
        trunc_div(-n, -d)
    }
}

/// `v` brought into the range of a 32-bit integer.
pub open spec fn clamp_i32(v: int) -> int {
    if v < i32::MIN {
        i32::MIN as int
    } else if v > i32::MAX {
        i32::MAX as int
    } else {
        v
    }
}

pub open spec fn fits_i32(v: int) -> bool {
    i32::MIN <= v <= i32::MAX
}

/// The quotient of `n` by `d`, rounded toward zero.
pub fn divide(n: i128, d: i128) -> (q: i128)
    requires
        d != 0,
        i128::MIN < n,
        i128::MIN < d,
    ensures
        q == quotient(n as int, d as int),
{
    if d > 0 {
        n / d
    } else {
        (-n) / (-d)
    }
}

/// `v` as a 32-bit integer, if it is one.
pub fn narrow(v: i128) -> (r: Option<i32>)
    ensures
        r == (if fits_i32(v as int) {
            Some(v as i32)
        } else {
            None
        }),
{
    if v < i32::MIN as i128 || v > i32::MAX as i128 {
        None
    } else {
        Some(v as i32)
    }
}

/// The 32-bit integer nearest to `v`.
pub fn saturate(v: i128) -> (r: i32)
    ensures
        r == clamp_i32(v as int),
{
    if v < i32::MIN as i128 {
        i32::MIN
    } else if v > i32::MAX as i128 {
        i32::MAX
    } else {
        v as i32
    }
}

/// The product of two 32-bit integers is far from the limits of 128 bits.
pub proof fn lemma_product_small(a: int, b: int)
    requires
        -0x1_0000_0000 <= a <= 0x1_0000_0000,
        -0x1_0000_0000 <= b <= 0x1_0000_0000,
    ensures
        -0x1_0000_0000_0000_0000 <= a * b <= 0x1_0000_0000_0000_0000,
{
    assert(-0x1_0000_0000_0000_0000 <= a * b <= 0x1_0000_0000_0000_0000) by (nonlinear_arith)
        requires
            -0x1_0000_0000 <= a <= 0x1_0000_0000,
            -0x1_0000_0000 <= b <= 0x1_0000_0000,
    ;
}

} // verus!
