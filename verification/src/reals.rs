//! Products of real numbers.

use vstd::prelude::*;

verus! {

/// A product of positive numbers is positive.
pub proof fn positive(a: real, b: real)
    requires
        a > 0real,
        b > 0real,
    ensures
        a * b > 0real,
{
    assert(a * b > 0real) by (nonlinear_arith)
        requires
            a > 0real,
            b > 0real,
    ;
}

/// A product of numbers that are not negative is not negative.
pub proof fn not_negative(a: real, b: real)
    requires
        a >= 0real,
        b >= 0real,
    ensures
        a * b >= 0real,
{
    if a > 0real && b > 0real {
        positive(a, b);
    } else if a == 0real {
        assert(0real * b == 0real);
    } else {
        assert(a * 0real == 0real);
    }
}

/// Multiplication by a positive number keeps the order.
pub proof fn ordered(a: real, b: real, c: real)
    requires
        a < b,
        c > 0real,
    ensures
        a * c < b * c,
{
    positive(b - a, c);
    assert((b - a) * c == b * c - a * c) by (nonlinear_arith);
}

/// Multiplication by a number that is not negative keeps the order.
pub proof fn weakly_ordered(a: real, b: real, c: real)
    requires
        a <= b,
        c >= 0real,
    ensures
        a * c <= b * c,
{
    not_negative(b - a, c);
    assert((b - a) * c == b * c - a * c) by (nonlinear_arith);
}

/// A square is not negative.
pub proof fn square(a: real)
    ensures
        a * a >= 0real,
{
    if a >= 0real {
        not_negative(a, a);
    } else {
        positive(-a, -a);
        assert((-a) * (-a) == a * a) by (nonlinear_arith);
    }
}

/// Of two numbers that are not negative, the larger has the larger square.
pub proof fn squares_ordered(a: real, b: real)
    requires
        0real <= a < b,
    ensures
        a * a < b * b,
{
    weakly_ordered(a, b, a);
    ordered(a, b, b);
    assert(b * a == a * b) by (nonlinear_arith);
}

/// A quotient has the sign of what is divided, for a positive divisor.
pub proof fn quotient_sign(q: real, d: real)
    requires
        d > 0real,
        q * d >= 0real,
    ensures
        q >= 0real,
{
    if q < 0real {
        positive(-q, d);
        assert((-q) * d == -(q * d)) by (nonlinear_arith);
    }
}

/// A quotient is at most `c` where what is divided is at most `c` times the divisor.
pub proof fn quotient_at_most(q: real, d: real, c: real)
    requires
        d > 0real,
        q * d <= c * d,
    ensures
        q <= c,
{
    if q > c {
        ordered(c, q, d);
    }
}

/// Factors may be grouped and ordered in any way.
pub proof fn regrouped(a: real, b: real, c: real, d: real)
    ensures
        (a * b) * (c * d) == (a * c) * (b * d),
{
    let e = c * d;
    let f = b * d;
    associated(a, b, e);
    associated(b, c, d);
    associated(c, b, d);
    associated(a, c, f);
    assert(b * c == c * b);
}

/// Factors may be grouped in any way.
pub proof fn associated(a: real, b: real, c: real)
    ensures
        (a * b) * c == a * (b * c),
{
    assert((a * b) * c == a * (b * c)) by (nonlinear_arith);
}

/// A negated factor negates the product.
pub proof fn negated(a: real, b: real)
    ensures
        (-a) * b == -(a * b),
        b * (-a) == -(b * a),
{
    assert((-a) * b == -(a * b)) by (nonlinear_arith);
    assert(b * (-a) == (-a) * b);
    assert(b * a == a * b);
}

/// A sum or a difference times a number.
pub proof fn distributed(a: real, b: real, c: real)
    ensures
        (a + b) * c == a * c + b * c,
        (a - b) * c == a * c - b * c,
        c * (a + b) == c * a + c * b,
        c * (a - b) == c * a - c * b,
{
    assert((a - b) * c == a * c - b * c) by (nonlinear_arith);
    let d = -b;
    assert((a - d) * c == a * c - d * c) by (nonlinear_arith);
    negated(b, c);
    assert(a - d == a + b);
    assert(c * (a + b) == (a + b) * c && c * (a - b) == (a - b) * c);
    assert(c * a == a * c && c * b == b * c);
}

/// The square of a sum.
pub proof fn square_of_sum(a: real, b: real)
    ensures
        (a + b) * (a + b) == a * a + 2real * (a * b) + b * b,
{
    distributed(a, b, a + b);
    distributed(a, b, a);
    distributed(a, b, b);
    assert(a * (a + b) == (a + b) * a && b * (a + b) == (a + b) * b);
    assert(b * a == a * b);
}

/// The square of a product.
pub proof fn squared(a: real, n: real)
    ensures
        (a * n) * (a * n) == (a * a) * (n * n),
{
    regrouped(a, n, a, n);
}

/// Turning a vector multiplies its squared length by that of the turn.
pub proof fn turned(x: real, y: real, c: real, s: real)
    ensures
        (x * c - y * s) * (x * c - y * s) + (y * c + x * s) * (y * c + x * s) == (x * x + y * y) * (c
            * c + s * s),
{
    let (p, q, u, w) = (x * c, y * s, y * c, x * s);
    square_of_sum(p, -q);
    negated(q, p);
    negated(q, q);
    negated(q, -q);
    square_of_sum(u, w);
    regrouped(x, c, y, s);
    regrouped(y, c, x, s);
    assert(p * q == (x * y) * (c * s));
    assert(u * w == (y * x) * (c * s));
    assert(x * y == y * x);
    squared(x, c);
    squared(y, s);
    squared(y, c);
    squared(x, s);
    let (xx, yy, cc, ss) = (x * x, y * y, c * c, s * s);
    distributed(xx, yy, cc + ss);
    distributed(cc, ss, xx);
    distributed(cc, ss, yy);
}

} // verus!
