//! Powers of two: rounding down, rounding up, and the facts that the transform
//! planner rests on.

use vstd::prelude::*;

verus! {

/// `n` is a power of two.
pub open spec fn is_pow2(n: nat) -> bool
    decreases n,
{
    n == 1 || (n > 1 && n % 2 == 0 && is_pow2(n / 2))
}

/// The largest power of two that does not exceed `x` (1 for `x <= 1`).
pub open spec fn floor_pow2_of(x: nat) -> nat
    decreases x,
{
    if x <= 1 {
        1
    } else {
        2 * floor_pow2_of(x / 2)
    }
}

/// The smallest power of two that is at least `x`.
pub open spec fn next_pow2_of(x: nat) -> nat {
    if x <= 1 {
        1
    } else {
        2 * floor_pow2_of((x - 1) as nat)
    }
}

/// The exponent of the largest power of two below or at `x`.
pub open spec fn floor_log2_of(x: nat) -> nat
    decreases x,
{
    if x <= 1 {
        0
    } else {
        1 + floor_log2_of(x / 2)
    }
}

/// Two to the power `k`.
pub open spec fn two_to(k: nat) -> nat
    decreases k,
{
    if k == 0 {
        1
    } else {
        2 * two_to((k - 1) as nat)
    }
}

/// Rounding down gives a power of two within a factor of two below the argument.
pub proof fn floor_pow2_is_tight(x: nat)
    requires
        x >= 1,
    ensures
        is_pow2(floor_pow2_of(x)),
        floor_pow2_of(x) <= x < 2 * floor_pow2_of(x),
    decreases x,
{
    if x > 1 {
        floor_pow2_is_tight(x / 2);
        let h = floor_pow2_of(x / 2);
        assert((2 * h) / 2 == h);
    }
}

/// Rounding up gives a power of two within a factor of two above the argument.
pub proof fn next_pow2_is_tight(x: nat)
    ensures
        is_pow2(next_pow2_of(x)),
        x <= next_pow2_of(x),
        x >= 1 ==> next_pow2_of(x) < 2 * x,
{
    if x > 1 {
        floor_pow2_is_tight((x - 1) as nat);
        let h = floor_pow2_of((x - 1) as nat);
        assert((2 * h) / 2 == h);
    }
}

/// Of two powers of two the smaller is at most half the larger.
pub proof fn pow2_gap(a: nat, b: nat)
    requires
        is_pow2(a),
        is_pow2(b),
        a < b,
    ensures
        2 * a <= b,
    decreases a,
{
    if a > 1 {
        pow2_gap(a / 2, b / 2);
    }
}

/// Rounding up never passes a power of two that bounds the argument.
pub proof fn next_pow2_below(x: nat, cap: nat)
    requires
        is_pow2(cap),
        x <= cap,
    ensures
        next_pow2_of(x) <= cap,
{
    next_pow2_is_tight(x);
    if x >= 1 && next_pow2_of(x) > cap {
        pow2_gap(cap, next_pow2_of(x));
    }
}

/// A power of two is two to its own exponent.
pub proof fn pow2_is_two_to(n: nat)
    requires
        is_pow2(n),
    ensures
        n >= 1,
        two_to(floor_log2_of(n)) == n,
    decreases n,
{
    if n > 1 {
        pow2_is_two_to(n / 2);
    }
}

/// A number lies between two to its exponent and the next power of two.
pub proof fn log2_bounds(x: nat)
    requires
        x >= 1,
    ensures
        two_to(floor_log2_of(x)) <= x < two_to(floor_log2_of(x) + 1),
    decreases x,
{
    if x > 1 {
        log2_bounds(x / 2);
        let e = floor_log2_of(x / 2);
        assert(two_to(e + 2) == 2 * two_to(e + 1));
    } else {
        assert(two_to(1) == 2 * two_to(0));
    }
}

/// Two to a larger power is larger, by at least a factor of two.
pub proof fn two_to_ascends(a: nat, b: nat)
    requires
        a < b,
    ensures
        1 <= two_to(a),
        2 * two_to(a) <= two_to(b),
    decreases b,
{
    if a + 1 < b {
        two_to_ascends(a, (b - 1) as nat);
    } else if a > 0 {
        two_to_ascends((a - 1) as nat, a);
    }
}

/// The largest power of two that does not exceed `x`; 1 for `x <= 1`.
pub fn floor_pow2(x: usize) -> (r: usize)
    ensures
        r == floor_pow2_of(x as nat),
        is_pow2(r as nat),
        x >= 1 ==> r <= x < 2 * r,
{
    let mut p: usize = 1;
    let mut q: usize = x;
    while q > 1
        invariant
            1 <= p,
            x >= 1 ==> p * q <= x,
            x == 0 ==> q == 0 && p == 1,
            floor_pow2_of(x as nat) == p * floor_pow2_of(q as nat),
        decreases q,
    {
        proof {
            assert(p * 2 * (q / 2) <= p * q) by (nonlinear_arith)
                requires p >= 1, q > 1;
            assert(p * 2 <= p * q) by (nonlinear_arith)
                requires p >= 1, q > 1;
            let h = floor_pow2_of((q / 2) as nat);
            assert(p * (2 * h) == (p * 2) * h) by (nonlinear_arith);
        }
        p = p * 2;
        q = q / 2;
    }
    proof {
        assert(floor_pow2_of(q as nat) == 1);
        assert(p * 1 == p);
        if x >= 1 {
            floor_pow2_is_tight(x as nat);
        }
    }
    p
}

/// The smallest power of two that is at least `x`.
pub(crate) fn next_pow2(x: usize) -> (r: usize)
    requires
        x <= usize::MAX / 2,
    ensures
        r == next_pow2_of(x as nat),
        is_pow2(r as nat),
        x <= r,
        x >= 1 ==> r < 2 * x,
{
    proof {
        next_pow2_is_tight(x as nat);
    }
    if x <= 1 {
        1
    } else {
        2 * floor_pow2(x - 1)
    }
}

} // verus!
