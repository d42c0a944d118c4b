//! How many permits of the shared job semaphore one compaction job draws.

use vstd::prelude::*;

verus! {

/// Column count from which a job runs alone, holding every permit.
pub const SINGLE_THREADED_COLUMN_COUNT: usize = 100;

/// The share of `total_permits` that a job over `columns` columns needs,
/// before it is fitted into the semaphore's 32-bit permit count.
///
/// At or above [`SINGLE_THREADED_COLUMN_COUNT`] it is every permit. Below,
/// it is the total scaled by the square of `columns / 100`, rounded down,
/// and never less than one.
pub open spec fn permit_share(total_permits: nat, columns: nat) -> nat {
    if columns >= 100 {
        total_permits
    } else if total_permits * columns * columns / 10_000 < 1 {
        1
    } else {
        total_permits * columns * columns / 10_000
    }
}

/// What [`compute_permits`] returns: [`permit_share`] as a `u32`.
///
/// A wide job's share is the total cut down to its low 32 bits; a narrow
/// job's share stops at `u32::MAX`. Neither matters while the total itself
/// fits in 32 bits.
pub open spec fn spec_compute_permits(total_permits: usize, columns: usize) -> u32 {
    if columns >= 100 {
        total_permits as u32
    } else if permit_share(total_permits as nat, columns as nat) > u32::MAX {
        u32::MAX
    } else {
        permit_share(total_permits as nat, columns as nat) as u32
    }
}

/// Determines how many permits must be acquired from the job semaphore, from
/// the column count of this job and the total number of permits.
pub fn compute_permits(total_permits: usize, columns: usize) -> (permits: u32)
    ensures
        permits == spec_compute_permits(total_permits, columns),
        total_permits <= u32::MAX ==> permits == permit_share(total_permits as nat, columns as nat),
{
    if columns >= SINGLE_THREADED_COLUMN_COUNT {
        // this job requires all permits, forcing it to run by itself
        return #[verifier::truncate] (total_permits as u32);
    }
    let total: u128 = total_permits as u128;
    let cols: u128 = columns as u128;
    assert(total * cols <= 0xffff_ffff_ffff_ffff * 99 && total * cols * cols
        <= 0xffff_ffff_ffff_ffff * 99 * 99) by (nonlinear_arith)
        requires
            total <= 0xffff_ffff_ffff_ffff,
            cols <= 99,
    ;
    assert(total * cols * cols / 10_000 <= total) by (nonlinear_arith)
        requires
            cols <= 99,
    ;
    let scaled: u128 = total * cols * cols / 10_000;
    if scaled < 1 {
        1
    } else if scaled > 0xffff_ffff {
        u32::MAX
    } else {
        scaled as u32
    }
}

/// The permit count never shrinks as a job gets wider, as long as the
/// semaphore has at least one permit and its total fits in 32 bits.
pub proof fn lemma_permits_monotonic(total_permits: usize, narrow: usize, wide: usize)
    requires
        1 <= total_permits <= u32::MAX,
        narrow <= wide,
    ensures
        spec_compute_permits(total_permits, narrow) <= spec_compute_permits(total_permits, wide),
{
    let t = total_permits as nat;
    let a = narrow as nat;
    let b = wide as nat;
    lemma_share_bounded(t, a);
    lemma_share_bounded(t, b);
    if b < 100 {
        assert(t * a * a / 10_000 <= t * b * b / 10_000) by (nonlinear_arith)
            requires
                a <= b,
        ;
    }
}

/// A job at or above the single-threaded column count takes every permit,
/// as long as the total fits in 32 bits.
pub proof fn lemma_permits_all_when_wide(total_permits: usize, columns: usize)
    requires
        total_permits <= u32::MAX,
        columns >= SINGLE_THREADED_COLUMN_COUNT,
    ensures
        spec_compute_permits(total_permits, columns) == total_permits,
{
}

/// With at least one permit in the semaphore, a share is between one and the
/// total.
pub proof fn lemma_share_bounded(total_permits: nat, columns: nat)
    requires
        total_permits >= 1,
    ensures
        1 <= permit_share(total_permits, columns) <= total_permits,
{
    if columns < 100 {
        assert(total_permits * columns * columns / 10_000 <= total_permits) by (nonlinear_arith)
            requires
                columns <= 99,
        ;
    }
}

} // verus!
