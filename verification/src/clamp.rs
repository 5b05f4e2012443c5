//! Clamping a value into a closed range.

use vstd::prelude::*;
use vstd::std_specs::cmp::PartialOrdSpec;
use vstd::std_specs::cmp::PartialOrdIs;

verus! {

/// Clamp a value to [low, high]: `low` when below it, `high` when above it,
/// otherwise the value itself.
pub fn clamp_val<T: PartialOrd>(value: T, low: T, high: T) -> (r: T)
    ensures
        T::obeys_partial_cmp_spec() ==> r == (if value.is_lt(&low) {
            low
        } else if value.is_gt(&high) {
            high
        } else {
            value
        }),
{
    if value < low {
        low
    } else if value > high {
        high
    } else {
        value
    }
}

} // verus!
