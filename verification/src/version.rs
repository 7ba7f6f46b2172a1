use vstd::prelude::*;
use std::cmp::Ordering;
use crate::update::{version_order, version_sign};

verus! {

/// Compares two semantic versions; a version with a pre-release suffix is lower than the
/// release with the same numbers.
pub fn compare_versions(a: &str, b: &str) -> (r: Ordering)
    ensures
        r == if version_order(a@, b@) < 0 {
            Ordering::Less
        } else if version_order(a@, b@) > 0 {
            Ordering::Greater
        } else {
            Ordering::Equal
        },
{
    let s = version_sign(a, b);
    if s < 0 {
        Ordering::Less
    } else if s > 0 {
        Ordering::Greater
    } else {
        Ordering::Equal
    }
}

} // verus!
