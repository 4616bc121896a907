//! Small pure arithmetic functions, each with an exact contract and a
//! precondition that rules overflow out.

use vstd::prelude::*;

verus! {

/// The factorial of `n`.
pub open spec fn spec_factorial(n: nat) -> nat
    decreases n,
{
    if n == 0 {
        1
    } else {
        n * spec_factorial((n - 1) as nat)
    }
}

/// The factorial of `n`, for inputs whose factorial fits in a `u32`.
pub fn factorial(n: u32) -> (r: u32)
    requires
        spec_factorial(n as nat) <= u32::MAX,
    ensures
        r == spec_factorial(n as nat),
    decreases n,
{
    if n == 0 {
        1
    } else {
        proof {
            lemma_factorial_monotonic_step(n as nat);
        }
        n * factorial(n - 1)
    }
}

/// A factorial bounds the factorial of the predecessor.
proof fn lemma_factorial_monotonic_step(n: nat)
    requires
        n >= 1,
    ensures
        spec_factorial((n - 1) as nat) <= spec_factorial(n),
{
    assert(spec_factorial(n) == n * spec_factorial((n - 1) as nat));
    assert(spec_factorial((n - 1) as nat) <= n * spec_factorial((n - 1) as nat)) by (nonlinear_arith)
        requires
            n >= 1,
            spec_factorial((n - 1) as nat) >= 0,
    ;
}

/// The sum of `a` and `b`, where it fits in an `i32`.
pub fn add(a: i32, b: i32) -> (r: i32)
    requires
        i32::MIN <= a + b <= i32::MAX,
    ensures
        r == a + b,
{
    a + b
}

/// Twice `x`, where it fits in an `i32`.
pub fn double(x: i32) -> (r: i32)
    requires
        i32::MIN <= 2 * x <= i32::MAX,
    ensures
        r == 2 * x,
{
    x * 2
}

/// `x` plus three, where it fits in an `i32`.
pub fn add_three(x: i32) -> (r: i32)
    requires
        x + 3 <= i32::MAX,
    ensures
        r == x + 3,
{
    x + 3
}

} // verus!
