//! Drawing bounded values from the block's random seed.

use vstd::prelude::*;

verus! {

/// The value that `random_u8_range` draws from the entropy byte `e` for an
/// upper bound `max`: the byte divided by `256 / max` (rounded down), or zero
/// when `max` is at most one.
pub open spec fn bucket(e: int, max: int) -> int {
    if max > 1 {
        e / (256int / max)
    } else {
        0
    }
}

/// The byte of the block's random seed at position `index`.
pub fn random_u8(seed: &Vec<u8>, index: usize) -> (r: u8)
    requires
        index < seed@.len(),
    ensures
        r == seed@[index as int],
{
    seed[index]
}

/// A value drawn from the seed byte at `index`, meant to fall in `[0, max)`.
///
/// The byte is divided by `256 / max`; when 256 is not a multiple of `max`
/// the top bytes land on `max` or above (with `max == 3`, byte 255 gives 3).
pub fn random_u8_range(seed: &Vec<u8>, index: usize, max: usize) -> (r: u8)
    requires
        max > 1 ==> index < seed@.len(),
        max <= 256,
    ensures
        max > 1 ==> r as int == bucket(seed@[index as int] as int, max as int),
        max <= 1 ==> r == 0,
{
    if max > 1 {
        let divider: u32 = 256u32 / (max as u32);
        assert(1 <= divider <= 128) by (nonlinear_arith)
            requires
                divider == 256int / (max as int),
                2 <= max <= 256,
        ;
        let d: u8 = divider as u8;
        random_u8(seed, index) / d
    } else {
        0
    }
}

/// Every drawn value stays below `256 / floor(256 / max)`: for a bound
/// `max` between 1 and 256 and any byte `e`, the value times the divider
/// `floor(256 / max)` is less than 256.
pub proof fn lemma_bucket_bound(e: u8, max: int)
    requires
        1 <= max <= 256,
    ensures
        0 <= bucket(e as int, max),
        bucket(e as int, max) * (256int / max) < 256,
{
    let d = 256int / max;
    assert(1 <= d <= 256) by (nonlinear_arith)
        requires
            d == 256int / max,
            1 <= max <= 256,
    ;
    if max > 1 {
        let q = (e as int) / d;
        assert(0 <= q && q * d <= e as int) by (nonlinear_arith)
            requires
                q == (e as int) / d,
                d >= 1,
                0 <= e as int,
        ;
    }
}

} // verus!
