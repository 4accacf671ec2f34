use vstd::prelude::*;

verus! {

/// Adds `percentage` percent of `value` to `value`, rounding the added part down.
pub fn add_percent(value: usize, percentage: usize) -> (r: usize)
    requires
        value * percentage <= usize::MAX,
        value + value * percentage / 100 <= usize::MAX,
    ensures
        r == value + value * percentage / 100,
{
    value + (value * percentage / 100)
}

/// Subtracts `percentage` percent of `value` from `value`, rounding the
/// subtracted part down.
pub fn sub_percent(value: usize, percentage: usize) -> (r: usize)
    requires
        value * percentage <= usize::MAX,
        value * percentage / 100 <= value,
    ensures
        r == value - value * percentage / 100,
{
    value - (value * percentage / 100)
}

} // verus!
