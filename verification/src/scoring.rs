//! Scoring of drops: one point for every 100,000 coins of a drop's total
//! value.

use vstd::prelude::*;

verus! {

/// The coins that one point stands for.
pub const COINS_PER_POINT: i64 = 100_000;

/// The points for a total value: the quotient by 100,000, cut off toward
/// zero.
pub open spec fn points_of_value(total_value: int) -> int {
    if total_value >= 0 {
        total_value / 100_000
    } else {
        -((-total_value) / 100_000)
    }
}

/// The points for a drop of `total_value` coins.
pub fn points_for_value(total_value: i64) -> (points: i64)
    ensures
        points == points_of_value(total_value as int),
{
    total_value / COINS_PER_POINT
}

/// The total value of `quantity` items of `unit_value` coins each, or `None`
/// where the product does not fit.
pub fn total_value(unit_value: i64, quantity: i64) -> (total: Option<i64>)
    ensures
        total.is_some() <==> i64::MIN <= unit_value * quantity <= i64::MAX,
        total.is_some() ==> total.unwrap() == unit_value * quantity,
{
    unit_value.checked_mul(quantity)
}

/// The points for `quantity` items of `unit_value` coins each, or `None`
/// where the total value does not fit.
pub fn drop_points(unit_value: i64, quantity: i64) -> (points: Option<i64>)
    ensures
        points.is_some() <==> i64::MIN <= unit_value * quantity <= i64::MAX,
        points.is_some() ==> points.unwrap() == points_of_value(unit_value * quantity),
{
    match total_value(unit_value, quantity) {
        Some(total) => Some(points_for_value(total)),
        None => None,
    }
}

} // verus!
