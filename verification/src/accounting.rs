//! Byte counts for reports. A count that does not fit into `usize` is
//! reported as `usize::MAX`.

use vstd::prelude::*;

verus! {

/// A byte count as `usize`: itself where it fits, `usize::MAX` where it does
/// not.
pub open spec fn saturated(bytes: nat) -> usize {
    if bytes <= usize::MAX {
        bytes as usize
    } else {
        usize::MAX
    }
}

/// `a + b`, or `usize::MAX` where the sum does not fit.
pub fn saturating_sum(a: usize, b: usize) -> (sum: usize)
    ensures
        sum == saturated((a + b) as nat),
{
    a.saturating_add(b)
}

/// `a * b`, or `usize::MAX` where the product does not fit.
pub fn saturating_product(a: usize, b: usize) -> (product: usize)
    ensures
        product == saturated((a * b) as nat),
{
    match a.checked_mul(b) {
        Some(product) => product,
        None => usize::MAX,
    }
}

} // verus!
