use vstd::prelude::*;

verus! {

/// The noise of one cell of a lattice in space: the three cell numbers are
/// scrambled by three large primes, folded, cut to 31 bits and reduced to
/// thousandths.
pub open spec fn noise_of(xi: i64, yi: i64, zi: i64) -> i64 {
    let mixed = xi.wrapping_mul(73856093) ^ yi.wrapping_mul(19349663) ^ zi.wrapping_mul(83492791);
    ((mixed ^ mixed.wrapping_shl(13)) & 0x7fff_ffff) % 1000
}

/// The noise of the cell `(xi, yi, zi)`, in thousandths: a number from 0 to
/// 999 that depends on nothing but the cell.
pub fn hash_cell(xi: i64, yi: i64, zi: i64) -> (n: i64)
    ensures
        n == noise_of(xi, yi, zi),
        0 <= n < 1000,
{
    let mixed = xi.wrapping_mul(73856093) ^ yi.wrapping_mul(19349663) ^ zi.wrapping_mul(83492791);
    let folded = mixed ^ mixed.wrapping_shl(13);
    let cut = folded & 0x7fff_ffff;
    assert(0 <= cut <= 0x7fff_ffff) by (bit_vector)
        requires
            cut == folded & 0x7fff_ffff,
    ;
    cut % 1000
}

} // verus!
