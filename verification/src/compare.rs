//! The version comparator.

use crate::version::{version_order, versions_order};
use std::cmp::Ordering;
use vstd::prelude::*;

verus! {

/// Compares two dot-separated numeric versions piece by piece. A piece that
/// writes no number counts as 0, and so does a piece that is missing, so
/// `1.2.0` is below `1.10.0` and `21` is the same version as `21.0.0`.
pub fn compare_versions(v1: &str, v2: &str) -> (r: Ordering)
    ensures
        r == Ordering::Less <==> versions_order(v1@, v2@) < 0,
        r == Ordering::Equal <==> versions_order(v1@, v2@) == 0,
        r == Ordering::Greater <==> versions_order(v1@, v2@) > 0,
{
    let sign = version_order(v1, v2);
    if sign < 0 {
        Ordering::Less
    } else if sign == 0 {
        Ordering::Equal
    } else {
        Ordering::Greater
    }
}

} // verus!
