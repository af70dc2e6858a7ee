//! Sample host functions of the kind a module registers with the
//! machine under a named table; the registration glue itself lives
//! outside the marshaling core.

use vstd::prelude::*;

verus! {

/// Adds two numbers.
pub fn function1(a: i64, b: i64) -> (r: i64)
    requires
        i64::MIN <= a + b <= i64::MAX,
    ensures
        r == a + b,
{
    a + b
}

/// Adds five to a number.
pub fn function2(a: i64) -> (r: i64)
    requires
        a + 5 <= i64::MAX,
    ensures
        r == a + 5,
{
    a + 5
}

} // verus!
