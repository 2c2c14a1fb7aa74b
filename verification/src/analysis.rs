//! What a tracked ridge says of an oscillator: Allan deviation, timing residual, order
//! parameter and phase locking.

use std::ops::{Add, Div, Mul, Rem, Sub};
use vstd::prelude::*;

use crate::numeric;
#[allow(unused_imports)]
use crate::pow2;
#[allow(unused_imports)]
use crate::reals;

verus! {

/// `x` accumulates `y * tau0`, starting from zero.
pub open spec fn time_error<T: Add<Output = T> + Mul<Output = T>>(
    zero: T,
    y: Seq<T>,
    tau0: T,
    x: Seq<T>,
) -> bool {
    &&& x.len() == y.len() + 1
    &&& x[0] == zero
    &&& forall|i: int|
        0 <= i < y.len() ==> advanced(#[trigger] y[i], tau0, x[i], x[i + 1])
}

/// `b` is `a` plus `y * tau0`.
pub open spec fn advanced<T: Add<Output = T> + Mul<Output = T>>(y: T, tau0: T, a: T, b: T) -> bool {
    exists|p: T| #[trigger] numeric::product(y, tau0, p) && numeric::sum(a, p, b)
}

/// `s` is the square of the second difference of `x` at `i` with lag `m`.
pub open spec fn squared_difference<T: Add<Output = T> + Sub<Output = T> + Mul<Output = T>>(
    two: T,
    x: Seq<T>,
    m: int,
    i: int,
    s: T,
) -> bool {
    exists|p: T, q: T, d: T|
        {
            &&& #[trigger] numeric::product(two, x[i + m], p)
            &&& #[trigger] numeric::difference(x[i + 2 * m], p, q)
            &&& numeric::sum(q, x[i], d)
            &&& #[trigger] numeric::product(d, d, s)
        }
}

/// `acc` adds up the squared differences with lag `m`, one for each start that leaves
/// room for two lags.
pub open spec fn sum_of_squares<T: Add<Output = T> + Sub<Output = T> + Mul<Output = T>>(
    zero: T,
    two: T,
    x: Seq<T>,
    m: int,
    squares: Seq<T>,
    acc: T,
) -> bool {
    &&& squares.len() == x.len() - 2 * m
    &&& forall|i: int|
        0 <= i < squares.len() ==> squared_difference(two, x, m, i, #[trigger] squares[i])
    &&& numeric::sums_to(zero, squares, acc)
}

/// `tau` is `m` sampling intervals.
pub open spec fn averaging_time<T: Mul<Output = T>, N: Fn(usize) -> T>(
    number: N,
    tau0: T,
    m: int,
    tau: T,
) -> bool {
    exists|k: T| #[trigger]
        call_ensures(number, (m as usize,), k) && numeric::product(k, tau0, tau)
}

/// `sigma` is the root of the sum `acc` of `terms` squares over `two * tau * tau * terms`.
pub open spec fn deviation<
    T: Mul<Output = T> + Div<Output = T>,
    N: Fn(usize) -> T,
    R: Fn(T) -> T,
>(two: T, number: N, root: R, tau: T, acc: T, terms: int, sigma: T) -> bool {
    exists|a: T, b: T, n: T, c: T, q: T|
        {
            &&& #[trigger] numeric::product(two, tau, a)
            &&& #[trigger] numeric::product(a, tau, b)
            &&& #[trigger] call_ensures(number, (terms as usize,), n)
            &&& #[trigger] numeric::product(b, n, c)
            &&& #[trigger] numeric::quotient(acc, c, q)
            &&& call_ensures(root, (q,), sigma)
        }
}

/// `r` holds averaging time and deviation with lag `m`.
pub open spec fn allan_point<
    T: Add<Output = T> + Sub<Output = T> + Mul<Output = T> + Div<Output = T>,
    N: Fn(usize) -> T,
    R: Fn(T) -> T,
>(zero: T, two: T, x: Seq<T>, tau0: T, number: N, root: R, m: int, r: [T; 2]) -> bool {
    exists|squares: Seq<T>, acc: T|
        {
            &&& #[trigger] sum_of_squares(zero, two, x, m, squares, acc)
            &&& averaging_time(number, tau0, m, r[0])
            &&& deviation(two, number, root, r[0], acc, x.len() - 2 * m, r[1])
        }
}

/// Number of octave-spaced averaging factors for `n` samples.
pub open spec fn octaves(n: int) -> nat {
    if n < 2 {
        0
    } else {
        pow2::floor_log2_of((n - 1) as nat)
    }
}

/// Averaging factors are the powers of two whose double leaves at least two phase samples
/// beyond, and there are no others.
pub proof fn octaves_are_all(n: int, k: nat)
    requires
        n >= 2,
    ensures
        k < octaves(n) <==> 2 * pow2::two_to(k) + 2 <= n + 1,
{
    pow2::log2_bounds((n - 1) as nat);
    let e = octaves(n);
    if k < e {
        if k + 1 < e {
            pow2::two_to_ascends(k, e);
        }
        assert(pow2::two_to(k + 1) == 2 * pow2::two_to(k));
        if k + 1 < e {
            pow2::two_to_ascends(k + 1, e);
        }
    } else {
        assert(pow2::two_to(k + 1) == 2 * pow2::two_to(k));
        if e + 1 < k + 1 {
            pow2::two_to_ascends(e + 1, k + 1);
        }
    }
}

fn accumulate<T: Copy + Add<Output = T> + Mul<Output = T>>(zero: T, y: &Vec<T>, tau0: T) -> (x: Vec<
    T,
>)
    requires
        numeric::adds::<T>(),
        numeric::multiplies::<T>(),
    ensures
        time_error(zero, y@, tau0, x@),
{
    let mut x: Vec<T> = Vec::new();
    x.push(zero);
    let mut i: usize = 0;
    while i < y.len()
        invariant
            numeric::adds::<T>(),
            numeric::multiplies::<T>(),
            i <= y@.len(),
            x@.len() == i + 1,
            x@[0] == zero,
            forall|k: int|
                0 <= k < i ==> advanced(#[trigger] y@[k], tau0, x@[k], x@[k + 1]),
        decreases y@.len() - i,
    {
        let ghost before = x@;
        let p: T = y[i] * tau0;
        let next: T = x[i] + p;
        x.push(next);
        assert(numeric::product(y@[i as int], tau0, p));
        i = i + 1;
        assert forall|k: int| 0 <= k < i implies advanced(
            #[trigger] y@[k],
            tau0,
            x@[k],
            x@[k + 1],
        ) by {
            if k < i - 1 {
                assert(x@[k] == before[k] && x@[k + 1] == before[k + 1]);
            }
        }
    }
    x
}

fn squares_at<T: Copy + Add<Output = T> + Sub<Output = T> + Mul<Output = T>>(
    zero: T,
    two: T,
    x: &Vec<T>,
    m: usize,
    terms: usize,
) -> (r: (Vec<T>, T))
    requires
        numeric::adds::<T>(),
        numeric::subtracts::<T>(),
        numeric::multiplies::<T>(),
        terms == x@.len() - 2 * m,
    ensures
        sum_of_squares(zero, two, x@, m as int, r.0@, r.1),
{
    let mut squares: Vec<T> = Vec::new();
    let len: usize = x.len();
    let mut i: usize = 0;
    while i < terms
        invariant
            numeric::adds::<T>(),
            numeric::subtracts::<T>(),
            numeric::multiplies::<T>(),
            len == x@.len(),
            terms == len - 2 * m,
            i <= terms,
            squares@.len() == i,
            forall|k: int|
                0 <= k < i ==> squared_difference(two, x@, m as int, k, #[trigger] squares@[k]),
        decreases terms - i,
    {
        let p: T = two * x[i + m];
        let q: T = x[i + 2 * m] - p;
        let d: T = q + x[i];
        let s: T = d * d;
        assert(numeric::product(two, x@[i + m as int], p));
        assert(numeric::difference(x@[i + 2 * m as int], p, q));
        assert(numeric::product(d, d, s));
        squares.push(s);
        i = i + 1;
    }
    let acc: T = numeric::sum_range(zero, &squares, 0, squares.len());
    assert(squares@.subrange(0, squares@.len() as int) =~= squares@);
    (squares, acc)
}

fn finish<
    T: Copy + Mul<Output = T> + Div<Output = T>,
    N: Fn(usize) -> T,
    R: Fn(T) -> T,
>(two: T, number: &N, root: &R, tau0: T, m: usize, acc: T, terms: usize) -> (r: [T; 2])
    requires
        numeric::multiplies::<T>(),
        numeric::divides::<T>(),
        forall|n: usize| call_requires(number, (n,)),
        forall|v: T| call_requires(root, (v,)),
    ensures
        averaging_time(*number, tau0, m as int, r[0]),
        deviation(two, *number, *root, r[0], acc, terms as int, r[1]),
{
    let k: T = number(m);
    let tau: T = k * tau0;
    let a: T = two * tau;
    let b: T = a * tau;
    let n: T = number(terms);
    let c: T = b * n;
    let q: T = acc / c;
    let sigma: T = root(q);
    proof {
        assert((m as int) as usize == m && (terms as int) as usize == terms);
        assert(call_ensures(*number, (m,), k) && numeric::product(k, tau0, tau));
        assert(numeric::product(two, tau, a) && numeric::product(a, tau, b));
        assert(call_ensures(*number, (terms,), n) && numeric::product(b, n, c));
        assert(numeric::quotient(acc, c, q));
    }
    [tau, sigma]
}

/// `out` is the Allan deviation of `y` at every octave.
pub open spec fn allan_points<
    T: Add<Output = T> + Sub<Output = T> + Mul<Output = T> + Div<Output = T>,
    N: Fn(usize) -> T,
    R: Fn(T) -> T,
>(
    zero: T,
    two: T,
    y: Seq<T>,
    tau0: T,
    number: N,
    root: R,
    x: Seq<T>,
    out: Seq<[T; 2]>,
) -> bool {
    &&& time_error(zero, y, tau0, x)
    &&& forall|k: int|
        0 <= k < out.len() ==> allan_point(
            zero,
            two,
            x,
            tau0,
            number,
            root,
            pow2::two_to(k as nat) as int,
            #[trigger] out[k],
        )
}

/// `out` is the Allan deviation of `y`: a point for every octave, or none where the sampling
/// interval is not above zero.
pub open spec fn allan_of<
    T: Add<Output = T> + Sub<Output = T> + Mul<Output = T> + Div<Output = T> + PartialOrd,
    N: Fn(usize) -> T,
    R: Fn(T) -> T,
>(zero: T, two: T, y: Seq<T>, tau0: T, number: N, root: R, out: Seq<[T; 2]>) -> bool {
    &&& out.len() == 0 || out.len() == octaves(y.len() as int)
    &&& out.len() == 0 ==> octaves(y.len() as int) == 0 || numeric::at_most(tau0, zero, true)
    &&& out.len() > 0 ==> numeric::at_most(tau0, zero, false) && exists|x: Seq<T>| #[trigger]
        allan_points(zero, two, y, tau0, number, root, x, out)
}

/// Overlapping Allan deviation of a uniformly sampled fractional frequency series, at
/// octave-spaced averaging factors 1, 2, 4, and so on: pairs of averaging time and
/// deviation. `number` gives a number as a value, `root` the square root.
pub fn allan_deviation<
    T: Copy + Add<Output = T> + Sub<Output = T> + Mul<Output = T> + Div<Output = T> + PartialOrd,
    N: Fn(usize) -> T,
    R: Fn(T) -> T,
>(zero: T, two: T, y: &Vec<T>, tau0: T, number: N, root: R) -> (out: Vec<[T; 2]>)
    requires
        numeric::adds::<T>(),
        numeric::subtracts::<T>(),
        numeric::multiplies::<T>(),
        numeric::divides::<T>(),
        forall|n: usize| call_requires(number, (n,)),
        forall|v: T| call_requires(root, (v,)),
    ensures
        allan_of(zero, two, y@, tau0, number, root, out@),
{
    let n: usize = y.len();
    let mut out: Vec<[T; 2]> = Vec::new();
    if n < 2 || tau0 <= zero {
        return out;
    }
    let x: Vec<T> = accumulate(zero, y, tau0);
    let nx: usize = x.len();
    let mut m: usize = 1;
    let ghost mut k: nat = 0;
    proof {
        octaves_are_all(n as int, 0);
    }
    while nx >= 2 && m <= (nx - 2) / 2
        invariant
            numeric::adds::<T>(),
            numeric::subtracts::<T>(),
            numeric::multiplies::<T>(),
            numeric::divides::<T>(),
            forall|n: usize| call_requires(number, (n,)),
            forall|v: T| call_requires(root, (v,)),
            n >= 2,
            n == y@.len(),
            nx == x@.len() == n + 1,
            k == out@.len(),
            k <= octaves(n as int),
            m == pow2::two_to(k),
            1 <= m,
            forall|j: int|
                0 <= j < out@.len() ==> allan_point(
                    zero,
                    two,
                    x@,
                    tau0,
                    number,
                    root,
                    pow2::two_to(j as nat) as int,
                    #[trigger] out@[j],
                ),
        decreases nx - m,
    {
        let terms: usize = nx - 2 * m;
        let (squares, acc): (Vec<T>, T) = squares_at(zero, two, &x, m, terms);
        let point: [T; 2] = finish(two, &number, &root, tau0, m, acc, terms);
        proof {
            octaves_are_all(n as int, k);
            assert(sum_of_squares(zero, two, x@, m as int, squares@, acc));
            assert(allan_point(
                zero,
                two,
                x@,
                tau0,
                number,
                root,
                pow2::two_to(k) as int,
                point,
            ));
            k = k + 1;
            assert(pow2::two_to(k) == 2 * pow2::two_to((k - 1) as nat));
        }
        out.push(point);
        m = m * 2;
    }
    proof {
        octaves_are_all(n as int, k);
        assert(allan_points(zero, two, y@, tau0, number, root, x@, out@));
    }
    out
}

/// `root` gives square roots where values are read as real numbers.
pub open spec fn exact_roots<T, R: Fn(T) -> T>(val: spec_fn(T) -> real, root: R) -> bool {
    forall|v: T, r: T| #[trigger]
        call_ensures(root, (v,), r) && val(v) >= 0real ==> val(r) >= 0real && val(r) * val(r)
            == val(v)
}

/// With exact arithmetic, averaging times are the sampling interval, doubled from one
/// octave to the next.
pub proof fn averaging_times_double<
    T: Add<Output = T> + Sub<Output = T> + Mul<Output = T> + Div<Output = T>,
    N: Fn(usize) -> T,
    R: Fn(T) -> T,
>(
    val: spec_fn(T) -> real,
    zero: T,
    two: T,
    y: Seq<T>,
    tau0: T,
    number: N,
    root: R,
    x: Seq<T>,
    out: Seq<[T; 2]>,
    k: int,
)
    requires
        numeric::exact_products(val),
        numeric::exact_numbers(val, number),
        allan_points(zero, two, y, tau0, number, root, x, out),
        0 <= k < out.len(),
        pow2::two_to(k as nat) <= usize::MAX,
    ensures
        k == 0 ==> val(out[k][0]) == val(tau0),
        k > 0 ==> val(out[k][0]) == 2real * val(out[k - 1][0]),
        val(out[k][0]) == pow2::two_to(k as nat) as int as real * val(tau0),
    decreases k,
{
    let m = pow2::two_to(k as nat) as int;
    assert(allan_point(zero, two, x, tau0, number, root, m, out[k]));
    assert(averaging_time(number, tau0, m, out[k][0]));
    if k == 0 {
        assert(m == 1);
        assert(1real * val(tau0) == val(tau0));
    } else {
        let h = pow2::two_to((k - 1) as nat) as int;
        assert(m == 2 * h);
        averaging_times_double(val, zero, two, y, tau0, number, root, x, out, k - 1);
        assert(m as real == 2real * (h as real));
        reals::distributed(h as real, h as real, val(tau0));
    }
}

/// With exact arithmetic, the square of a deviation is the sum of the squared second
/// differences over twice the squared averaging time and their number.
pub proof fn deviation_squared<
    T: Mul<Output = T> + Div<Output = T>,
    N: Fn(usize) -> T,
    R: Fn(T) -> T,
>(
    val: spec_fn(T) -> real,
    two: T,
    number: N,
    root: R,
    tau: T,
    acc: T,
    terms: int,
    sigma: T,
)
    requires
        numeric::exact_products(val),
        numeric::exact_quotients(val),
        numeric::exact_numbers(val, number),
        exact_roots(val, root),
        val(two) == 2real,
        deviation(two, number, root, tau, acc, terms, sigma),
        val(tau) > 0real,
        0 < terms <= usize::MAX,
        val(acc) >= 0real,
    ensures
        val(sigma) >= 0real,
        val(sigma) * val(sigma) * (2real * val(tau) * val(tau) * (terms as real)) == val(acc),
{
    let (a, b, n, c, q) = choose|a: T, b: T, n: T, c: T, q: T|
        {
            &&& #[trigger] numeric::product(two, tau, a)
            &&& #[trigger] numeric::product(a, tau, b)
            &&& #[trigger] call_ensures(number, (terms as usize,), n)
            &&& #[trigger] numeric::product(b, n, c)
            &&& #[trigger] numeric::quotient(acc, c, q)
            &&& call_ensures(root, (q,), sigma)
        };
    let (t, d) = (val(tau), val(c));
    assert(d == 2real * t * t * (terms as real));
    reals::positive(2real, t);
    reals::positive(2real * t, t);
    reals::positive(2real * t * t, terms as real);
    reals::quotient_sign(val(q), d);
}

/// The time error after `k` samples: the sampling interval times the sum of what deviated.
pub open spec fn error_after<T>(val: spec_fn(T) -> real, y: Seq<T>, tau0: real, k: int) -> real
    decreases k,
{
    if k <= 0 {
        0real
    } else {
        error_after(val, y, tau0, k - 1) + val(y[k - 1]) * tau0
    }
}

/// The second difference of the time error over `m` samples, from sample `i` on.
pub open spec fn second_difference<T>(
    val: spec_fn(T) -> real,
    y: Seq<T>,
    tau0: real,
    m: int,
    i: int,
) -> real {
    error_after(val, y, tau0, i + 2 * m) - 2real * error_after(val, y, tau0, i + m) + error_after(
        val,
        y,
        tau0,
        i,
    )
}

/// The sum of the first `n` squared second differences.
pub open spec fn squares_total<T>(
    val: spec_fn(T) -> real,
    y: Seq<T>,
    tau0: real,
    m: int,
    n: int,
) -> real
    decreases n,
{
    if n <= 0 {
        0real
    } else {
        let d = second_difference(val, y, tau0, m, n - 1);
        squares_total(val, y, tau0, m, n - 1) + d * d
    }
}

proof fn errors_are_exact<T: Add<Output = T> + Mul<Output = T>>(
    val: spec_fn(T) -> real,
    zero: T,
    y: Seq<T>,
    tau0: T,
    x: Seq<T>,
    k: int,
)
    requires
        numeric::exact_sums(val),
        numeric::exact_products(val),
        val(zero) == 0real,
        time_error(zero, y, tau0, x),
        0 <= k < x.len(),
    ensures
        val(x[k]) == error_after(val, y, val(tau0), k),
    decreases k,
{
    if k > 0 {
        errors_are_exact(val, zero, y, tau0, x, k - 1);
        assert(advanced(y[k - 1], tau0, x[k - 1], x[k - 1 + 1]));
    }
}

proof fn squares_are_exact<T: Add<Output = T> + Sub<Output = T> + Mul<Output = T>>(
    val: spec_fn(T) -> real,
    zero: T,
    two: T,
    y: Seq<T>,
    tau0: T,
    x: Seq<T>,
    m: int,
    squares: Seq<T>,
    acc: T,
)
    requires
        numeric::exact_sums(val),
        numeric::exact_differences(val),
        numeric::exact_products(val),
        val(zero) == 0real,
        val(two) == 2real,
        time_error(zero, y, tau0, x),
        1 <= m,
        squares.len() + 2 * m <= x.len(),
        forall|i: int|
            0 <= i < squares.len() ==> squared_difference(two, x, m, i, #[trigger] squares[i]),
        numeric::sums_to(zero, squares, acc),
    ensures
        val(acc) >= 0real,
        val(acc) == squares_total(val, y, val(tau0), m, squares.len() as int),
    decreases squares.len(),
{
    let n = squares.len() as int;
    if n > 0 {
        let q = choose|q: T|
            numeric::sums_to(zero, squares.drop_last(), q) && #[trigger] numeric::sum(
                q,
                squares.last(),
                acc,
            );
        let fewer = squares.drop_last();
        assert forall|i: int| 0 <= i < fewer.len() implies squared_difference(
            two,
            x,
            m,
            i,
            #[trigger] fewer[i],
        ) by {
            assert(fewer[i] == squares[i]);
        }
        squares_are_exact(val, zero, two, y, tau0, x, m, fewer, q);
        let i = n - 1;
        assert(squared_difference(two, x, m, i, squares[i]));
        errors_are_exact(val, zero, y, tau0, x, i);
        errors_are_exact(val, zero, y, tau0, x, i + m);
        errors_are_exact(val, zero, y, tau0, x, i + 2 * m);
        let d = second_difference(val, y, val(tau0), m, i);
        assert(val(squares[i]) == d * d);
        reals::square(d);
    }
}

/// With exact arithmetic, there is a point for every power of two `m` that leaves at least
/// two second differences, from the smallest on: its averaging time is `m` sampling
/// intervals, and its deviation is the root of the mean squared second difference of the
/// time error over `m` samples, at every start, divided by twice the squared averaging time.
pub proof fn deviations_are_root_mean_squares<
    T: Add<Output = T> + Sub<Output = T> + Mul<Output = T> + Div<Output = T> + PartialOrd,
    N: Fn(usize) -> T,
    R: Fn(T) -> T,
>(
    val: spec_fn(T) -> real,
    zero: T,
    two: T,
    y: Seq<T>,
    tau0: T,
    number: N,
    root: R,
    out: Seq<[T; 2]>,
    k: nat,
)
    requires
        numeric::exact_sums(val),
        numeric::exact_differences(val),
        numeric::exact_products(val),
        numeric::exact_quotients(val),
        numeric::exact_order(val),
        numeric::exact_numbers(val, number),
        exact_roots(val, root),
        val(zero) == 0real,
        val(two) == 2real,
        y.len() < usize::MAX,
        allan_of(zero, two, y, tau0, number, root, out),
    ensures
        val(tau0) <= 0real ==> out.len() == 0,
        val(tau0) > 0real ==> (k < out.len() <==> 2 * pow2::two_to(k) + 1 <= y.len()),
        k < out.len() ==> {
            let m = pow2::two_to(k) as int;
            let n = y.len() + 1 - 2 * m;
            let (t, s) = (val(out[k as int][0]), val(out[k as int][1]));
            &&& t == m as real * val(tau0)
            &&& s >= 0real
            &&& s * s * (2real * t * t * (n as real)) == squares_total(val, y, val(tau0), m, n)
        },
{
    pow2::two_to_ascends(k, k + 1);
    if y.len() >= 2 {
        octaves_are_all(y.len() as int, k);
    }
    if k < out.len() {
        let x = choose|x: Seq<T>| #[trigger]
            allan_points(zero, two, y, tau0, number, root, x, out);
        let m = pow2::two_to(k) as int;
        averaging_times_double(val, zero, two, y, tau0, number, root, x, out, k as int);
        assert(allan_point(zero, two, x, tau0, number, root, m, out[k as int]));
        let (squares, acc) = choose|squares: Seq<T>, acc: T|
            {
                &&& #[trigger] sum_of_squares(zero, two, x, m, squares, acc)
                &&& averaging_time(number, tau0, m, out[k as int][0])
                &&& deviation(
                    two,
                    number,
                    root,
                    out[k as int][0],
                    acc,
                    x.len() - 2 * m,
                    out[k as int][1],
                )
            };
        squares_are_exact(val, zero, two, y, tau0, x, m, squares, acc);
        reals::positive(m as real, val(tau0));
        deviation_squared(
            val,
            two,
            number,
            root,
            out[k as int][0],
            acc,
            x.len() - 2 * m,
            out[k as int][1],
        );
    }
}

/// With exact arithmetic, a constant frequency has no deviation.
pub proof fn constant_frequency_has_no_deviation<
    T: Add<Output = T> + Sub<Output = T> + Mul<Output = T> + Div<Output = T>,
    N: Fn(usize) -> T,
    R: Fn(T) -> T,
>(
    val: spec_fn(T) -> real,
    zero: T,
    two: T,
    y: Seq<T>,
    tau0: T,
    number: N,
    root: R,
    x: Seq<T>,
    out: Seq<[T; 2]>,
    f: real,
    k: int,
)
    requires
        numeric::exact_sums(val),
        numeric::exact_differences(val),
        numeric::exact_products(val),
        numeric::exact_quotients(val),
        numeric::exact_numbers(val, number),
        exact_roots(val, root),
        val(zero) == 0real,
        val(two) == 2real,
        val(tau0) > 0real,
        forall|i: int| 0 <= i < y.len() ==> val(#[trigger] y[i]) == f,
        allan_points(zero, two, y, tau0, number, root, x, out),
        out.len() == octaves(y.len() as int),
        x.len() <= usize::MAX,
        0 <= k < out.len(),
    ensures
        val(out[k][1]) == 0real,
{
    let m = pow2::two_to(k as nat) as int;
    let terms = x.len() - 2 * m;
    octaves_are_all(y.len() as int, k as nat);
    pow2::two_to_ascends(k as nat, (k + 1) as nat);
    averaging_times_double(val, zero, two, y, tau0, number, root, x, out, k);
    let (squares, acc) = choose|squares: Seq<T>, acc: T|
        {
            &&& #[trigger] sum_of_squares(zero, two, x, m, squares, acc)
            &&& averaging_time(number, tau0, m, out[k][0])
            &&& deviation(two, number, root, out[k][0], acc, x.len() - 2 * m, out[k][1])
        };
    let step = f * val(tau0);
    assert forall|i: int| 0 <= i < squares.len() implies val(#[trigger] squares[i]) == 0real by {
        phase_is_linear(val, zero, y, tau0, x, f, i);
        phase_is_linear(val, zero, y, tau0, x, f, i + m);
        phase_is_linear(val, zero, y, tau0, x, f, i + 2 * m);
        assert(squared_difference(two, x, m, i, squares[i]));
        let (p, q, d) = choose|p: T, q: T, d: T|
            {
                &&& #[trigger] numeric::product(two, x[i + m], p)
                &&& #[trigger] numeric::difference(x[i + 2 * m], p, q)
                &&& numeric::sum(q, x[i], d)
                &&& #[trigger] numeric::product(d, d, squares[i])
            };
        let (ri, rm) = (i as real, m as real);
        assert((i + m) as real == ri + rm && (i + 2 * m) as real == ri + 2real * rm);
        reals::distributed(ri, 2real * rm, step);
        reals::distributed(ri, rm, step);
        reals::associated(2real, rm, step);
        assert(val(d) == 0real);
        assert(0real * 0real == 0real);
    }
    numeric::sum_of_zeros(val, zero, squares, acc);
    let t = val(out[k][0]);
    reals::positive(m as real, val(tau0));
    deviation_squared(val, two, number, root, out[k][0], acc, terms, out[k][1]);
    let (sg, rt) = (val(out[k][1]), terms as real);
    if sg > 0real {
        reals::positive(2real, t);
        reals::positive(2real * t, t);
        reals::positive(2real * t * t, rt);
        reals::positive(sg, sg);
        reals::positive(sg * sg, 2real * t * t * rt);
    }
}

proof fn phase_is_linear<T: Add<Output = T> + Mul<Output = T>>(
    val: spec_fn(T) -> real,
    zero: T,
    y: Seq<T>,
    tau0: T,
    x: Seq<T>,
    f: real,
    i: int,
)
    requires
        numeric::exact_sums(val),
        numeric::exact_products(val),
        val(zero) == 0real,
        forall|i: int| 0 <= i < y.len() ==> val(#[trigger] y[i]) == f,
        time_error(zero, y, tau0, x),
        0 <= i < x.len(),
    ensures
        val(x[i]) == i as real * (f * val(tau0)),
    decreases i,
{
    let step = f * val(tau0);
    if i == 0 {
        assert(0real * step == 0real);
    } else {
        phase_is_linear(val, zero, y, tau0, x, f, i - 1);
        assert(advanced(y[i - 1], tau0, x[i - 1], x[i - 1 + 1]));
        assert(i as real == (i - 1) as real + 1real);
        reals::distributed((i - 1) as real, 1real, step);
    }
}

/// `r` is the residual at a sample: the accumulated `y` before it, times `tau0`, times `f0`.
pub open spec fn residual<T: Add<Output = T> + Mul<Output = T>>(
    zero: T,
    y: Seq<T>,
    f0: T,
    tau0: T,
    k: int,
    r: T,
) -> bool {
    exists|acc: T, p: T|
        {
            &&& numeric::sums_to(zero, y.take(k), acc)
            &&& #[trigger] numeric::product(acc, tau0, p)
            &&& #[trigger] numeric::product(p, f0, r)
        }
}

/// `oc` holds the residual at every sample.
pub open spec fn residuals<T: Add<Output = T> + Mul<Output = T>>(
    zero: T,
    y: Seq<T>,
    f0: T,
    tau0: T,
    oc: Seq<T>,
) -> bool {
    &&& oc.len() == y.len()
    &&& forall|k: int| 0 <= k < oc.len() ==> residual(zero, y, f0, tau0, k, #[trigger] oc[k])
}

/// With exact arithmetic, the timing residual in cycles is the carrier frequency times the
/// time error: the sampling interval times the sum of all deviations before the sample. It
/// starts at zero, and from one sample to the next it grows by what that sample deviates.
pub proof fn residuals_accumulate<T: Add<Output = T> + Mul<Output = T>>(
    val: spec_fn(T) -> real,
    zero: T,
    y: Seq<T>,
    f0: T,
    tau0: T,
    oc: Seq<T>,
    k: int,
)
    requires
        numeric::exact_sums(val),
        numeric::exact_products(val),
        val(zero) == 0real,
        residuals(zero, y, f0, tau0, oc),
        0 <= k < y.len(),
    ensures
        oc.len() == y.len(),
        val(oc[0]) == 0real,
        k > 0 ==> val(oc[k]) == val(oc[k - 1]) + val(y[k - 1]) * val(tau0) * val(f0),
{
    assert(residual(zero, y, f0, tau0, 0, oc[0]));
    assert(residual(zero, y, f0, tau0, k, oc[k]));
    let (a, p) = choose|acc: T, p: T|
        {
            &&& numeric::sums_to(zero, y.take(0), acc)
            &&& #[trigger] numeric::product(acc, tau0, p)
            &&& #[trigger] numeric::product(p, f0, oc[0])
        };
    let (t, f) = (val(tau0), val(f0));
    assert(0real * t == 0real && 0real * f == 0real);
    if k > 0 {
        assert(residual(zero, y, f0, tau0, k - 1, oc[k - 1]));
        let (b, q) = choose|acc: T, p: T|
            {
                &&& numeric::sums_to(zero, y.take(k), acc)
                &&& #[trigger] numeric::product(acc, tau0, p)
                &&& #[trigger] numeric::product(p, f0, oc[k])
            };
        let (c, r) = choose|acc: T, p: T|
            {
                &&& numeric::sums_to(zero, y.take(k - 1), acc)
                &&& #[trigger] numeric::product(acc, tau0, p)
                &&& #[trigger] numeric::product(p, f0, oc[k - 1])
            };
        let plain = |x: real| x;
        sum_is_total(val, plain, zero, y.take(k), y.take(k), b);
        sum_is_total(val, plain, zero, y.take(k - 1), y.take(k - 1), c);
        assert(y.take(k).drop_last() =~= y.take(k - 1));
        let last = val(y[k - 1]);
        assert(val(b) == val(c) + last);
        reals::distributed(val(c), last, t);
        reals::distributed(val(c) * t, last * t, f);
    }
}

/// Observed minus calculated timing along the ridge, in cycles of the carrier `f0`: one
/// entry per sample, starting from the sum of nothing.
pub fn oc_cycles<T: Copy + Add<Output = T> + Mul<Output = T>>(
    zero: T,
    y: &Vec<T>,
    f0: T,
    tau0: T,
) -> (oc: Vec<T>)
    requires
        numeric::adds::<T>(),
        numeric::multiplies::<T>(),
    ensures
        residuals(zero, y@, f0, tau0, oc@),
{
    let mut oc: Vec<T> = Vec::new();
    let mut acc: T = zero;
    let mut i: usize = 0;
    while i < y.len()
        invariant
            numeric::adds::<T>(),
            numeric::multiplies::<T>(),
            i <= y@.len(),
            oc@.len() == i,
            numeric::sums_to(zero, y@.take(i as int), acc),
            forall|k: int|
                0 <= k < i ==> residual(zero, y@, f0, tau0, k, #[trigger] oc@[k]),
        decreases y@.len() - i,
    {
        let p: T = acc * tau0;
        let r: T = p * f0;
        assert(numeric::product(acc, tau0, p) && numeric::product(p, f0, r));
        assert(residual(zero, y@, f0, tau0, i as int, r));
        oc.push(r);
        let ghost before = acc;
        acc = acc + y[i];
        i = i + 1;
        proof {
            numeric::one_more(zero, y@.take(i - 1), y@[i - 1], before, acc);
            assert(y@.take(i - 1).push(y@[i - 1]) =~= y@.take(i as int));
        }
    }
    oc
}

/// `r` is the size of the cosine of half the phase difference.
pub open spec fn order_parameter<T: Mul<Output = T>, C: Fn(T) -> T, A: Fn(T) -> T>(
    half: T,
    cos: C,
    abs: A,
    d: T,
    r: T,
) -> bool {
    exists|h: T, c: T|
        {
            &&& #[trigger] numeric::product(d, half, h)
            &&& #[trigger] call_ensures(cos, (h,), c)
            &&& call_ensures(abs, (c,), r)
        }
}

/// `r` holds the order parameter of every phase difference.
pub open spec fn order_parameters<T: Mul<Output = T>, C: Fn(T) -> T, A: Fn(T) -> T>(
    half: T,
    cos: C,
    abs: A,
    dphi: Seq<T>,
    r: Seq<T>,
) -> bool {
    &&& r.len() == dphi.len()
    &&& forall|i: int|
        0 <= i < r.len() ==> order_parameter(half, cos, abs, dphi[i], #[trigger] r[i])
}

/// Order parameter of two oscillators at every sample, from their phase difference: one in
/// phase, zero in antiphase.
pub fn kuramoto_r<T: Copy + Mul<Output = T>, C: Fn(T) -> T, A: Fn(T) -> T>(
    half: T,
    dphi: &Vec<T>,
    cos: C,
    abs: A,
) -> (r: Vec<T>)
    requires
        numeric::multiplies::<T>(),
        forall|v: T| call_requires(cos, (v,)),
        forall|v: T| call_requires(abs, (v,)),
    ensures
        order_parameters(half, cos, abs, dphi@, r@),
{
    let mut r: Vec<T> = Vec::new();
    let mut i: usize = 0;
    while i < dphi.len()
        invariant
            numeric::multiplies::<T>(),
            forall|v: T| call_requires(cos, (v,)),
            forall|v: T| call_requires(abs, (v,)),
            i <= dphi@.len(),
            r@.len() == i,
            forall|k: int|
                0 <= k < i ==> order_parameter(half, cos, abs, dphi@[k], #[trigger] r@[k]),
        decreases dphi@.len() - i,
    {
        let h: T = dphi[i] * half;
        let c: T = cos(h);
        let a: T = abs(c);
        assert(numeric::product(dphi@[i as int], half, h) && call_ensures(cos, (h,), c));
        r.push(a);
        i = i + 1;
    }
    r
}

/// `cosine` and `sine` are real functions with the addition theorems, whose squares add up
/// to one.
pub open spec fn circular(cosine: spec_fn(real) -> real, sine: spec_fn(real) -> real) -> bool {
    &&& forall|x: real|
        #![trigger cosine(x)]
        #![trigger sine(x)]
        cosine(x) * cosine(x) + sine(x) * sine(x) == 1real
    &&& forall|x: real, y: real| #[trigger]
        cosine(x + y) == cosine(x) * cosine(y) - sine(x) * sine(y)
    &&& forall|x: real, y: real| #[trigger]
        sine(x + y) == sine(x) * cosine(y) + cosine(x) * sine(y)
}

/// `f` computes a real function where values are read as real numbers.
pub open spec fn computes<T, F: Fn(T) -> T>(
    val: spec_fn(T) -> real,
    f: F,
    function: spec_fn(real) -> real,
) -> bool {
    forall|v: T, r: T| #[trigger] call_ensures(f, (v,), r) ==> val(r) == function(val(v))
}

/// With exact arithmetic, the order parameter lies between zero and one, and its square is
/// that of the cosine of half the phase difference.
pub proof fn order_is_a_share<T: Mul<Output = T>, C: Fn(T) -> T, A: Fn(T) -> T>(
    val: spec_fn(T) -> real,
    cosine: spec_fn(real) -> real,
    sine: spec_fn(real) -> real,
    half: T,
    cos: C,
    abs: A,
    d: T,
    r: T,
)
    requires
        numeric::exact_products(val),
        circular(cosine, sine),
        computes(val, cos, cosine),
        forall|v: T, a: T| #[trigger]
            call_ensures(abs, (v,), a) ==> val(a) >= 0real && (val(a) == val(v) || val(a)
                == -val(v)),
        order_parameter(half, cos, abs, d, r),
    ensures
        0real <= val(r) <= 1real,
        val(r) * val(r) == cosine(val(d) * val(half)) * cosine(val(d) * val(half)),
{
    let (h, c) = choose|h: T, c: T|
        {
            &&& #[trigger] numeric::product(d, half, h)
            &&& #[trigger] call_ensures(cos, (h,), c)
            &&& call_ensures(abs, (c,), r)
        };
    let (x, y, a) = (cosine(val(h)), sine(val(h)), val(r));
    reals::negated(x, x);
    reals::negated(x, -x);
    reals::square(y);
    if a > 1real {
        reals::squares_ordered(1real, a);
    }
}

/// With exact arithmetic, the order parameter of two oscillators is half the length of the
/// sum of their unit vectors, at every sample: it is not negative, and four times its square
/// is the squared length of (1 + cos d, sin d) for the phase difference `d`. So it lies
/// between zero and one.
pub proof fn order_is_half_the_sum<T: Mul<Output = T>, C: Fn(T) -> T, A: Fn(T) -> T>(
    val: spec_fn(T) -> real,
    cosine: spec_fn(real) -> real,
    sine: spec_fn(real) -> real,
    half: T,
    cos: C,
    abs: A,
    dphi: Seq<T>,
    r: Seq<T>,
    i: int,
)
    requires
        numeric::exact_products(val),
        circular(cosine, sine),
        computes(val, cos, cosine),
        forall|v: T, a: T| #[trigger]
            call_ensures(abs, (v,), a) ==> val(a) >= 0real && (val(a) == val(v) || val(a)
                == -val(v)),
        2real * val(half) == 1real,
        order_parameters(half, cos, abs, dphi, r),
        0 <= i < dphi.len(),
    ensures
        r.len() == dphi.len(),
        0real <= val(r[i]) <= 1real,
        ({
            let (c, s) = (cosine(val(dphi[i])), sine(val(dphi[i])));
            4real * (val(r[i]) * val(r[i])) == (1real + c) * (1real + c) + s * s
        }),
{
    let d = dphi[i];
    assert(order_parameter(half, cos, abs, d, r[i]));
    let (h, k) = choose|h: T, c: T|
        {
            &&& #[trigger] numeric::product(d, half, h)
            &&& #[trigger] call_ensures(cos, (h,), c)
            &&& call_ensures(abs, (c,), r[i])
        };
    let (x, y, a) = (cosine(val(h)), sine(val(h)), val(r[i]));
    reals::distributed(val(half), val(half), val(d));
    assert(val(d) * 1real == val(d) && val(half) + val(half) == 1real);
    assert(val(h) + val(h) == val(d));
    let (c, s) = (cosine(val(d)), sine(val(d)));
    assert(cosine(val(h) + val(h)) == x * x - y * y);
    reals::negated(x, x);
    reals::negated(x, -x);
    assert(a * a == x * x);
    reals::square(y);
    reals::square_of_sum(1real, c);
    assert(c * c + s * s == 1real && x * x + y * y == 1real);
    if a > 1real {
        reals::squares_ordered(1real, a);
    }
}

/// What phase locking needs of a number type.
pub struct Phasors<T, C, S, N, R> {
    pub zero: T,
    pub cos: C,
    pub sin: S,
    /// A number as a value.
    pub number: N,
    /// The square root.
    pub root: R,
}

impl<
    T: Copy + Add<Output = T> + Mul<Output = T> + Div<Output = T>,
    C: Fn(T) -> T,
    S: Fn(T) -> T,
    N: Fn(usize) -> T,
    R: Fn(T) -> T,
> Phasors<T, C, S, N, R> {
    pub open spec fn callable(self) -> bool {
        &&& numeric::adds::<T>()
        &&& numeric::multiplies::<T>()
        &&& numeric::divides::<T>()
        &&& forall|v: T| call_requires(self.cos, (v,))
        &&& forall|v: T| call_requires(self.sin, (v,))
        &&& forall|n: usize| call_requires(self.number, (n,))
        &&& forall|v: T| call_requires(self.root, (v,))
    }

    /// `cosines` and `sines` are those of the phase differences.
    pub open spec fn components(self, dphi: Seq<T>, cosines: Seq<T>, sines: Seq<T>) -> bool {
        &&& cosines.len() == sines.len() == dphi.len()
        &&& forall|i: int|
            0 <= i < dphi.len() ==> call_ensures(self.cos, (dphi[i],), #[trigger] cosines[i])
        &&& forall|i: int|
            0 <= i < dphi.len() ==> call_ensures(self.sin, (dphi[i],), #[trigger] sines[i])
    }

    /// `r` is the length of the vector (`re`, `im`) divided by `count`.
    pub open spec fn mean_length(self, re: T, im: T, count: int, r: T) -> bool {
        exists|n: T, a: T, b: T, aa: T, bb: T, s: T|
            {
                &&& #[trigger] call_ensures(self.number, (count as usize,), n)
                &&& #[trigger] numeric::quotient(re, n, a)
                &&& #[trigger] numeric::quotient(im, n, b)
                &&& #[trigger] numeric::product(a, a, aa)
                &&& #[trigger] numeric::product(b, b, bb)
                &&& #[trigger] numeric::sum(aa, bb, s)
                &&& call_ensures(self.root, (s,), r)
            }
    }

    /// `r` is the length of the mean of the unit vectors with these angles, zero without
    /// any.
    pub open spec fn locked(self, dphi: Seq<T>, r: T) -> bool {
        if dphi.len() == 0 {
            r == self.zero
        } else {
            exists|cosines: Seq<T>, sines: Seq<T>, re: T, im: T|
                {
                    &&& #[trigger] self.components(dphi, cosines, sines)
                    &&& #[trigger] numeric::sums_to(self.zero, cosines, re)
                    &&& #[trigger] numeric::sums_to(self.zero, sines, im)
                    &&& self.mean_length(re, im, dphi.len() as int, r)
                }
        }
    }

    fn measure(&self, re: T, im: T, count: usize) -> (r: T)
        requires
            self.callable(),
        ensures
            self.mean_length(re, im, count as int, r),
    {
        let n: T = (self.number)(count);
        let a: T = re / n;
        let b: T = im / n;
        let aa: T = a * a;
        let bb: T = b * b;
        let s: T = aa + bb;
        proof {
            assert((count as int) as usize == count);
            assert(call_ensures(self.number, (count,), n));
            assert(numeric::quotient(re, n, a) && numeric::quotient(im, n, b));
            assert(numeric::product(a, a, aa) && numeric::product(b, b, bb));
            assert(numeric::sum(aa, bb, s));
        }
        (self.root)(s)
    }

    /// The arithmetic is exact where values are read as real numbers, and the functions
    /// compute `cosine`, `sine` and square roots.
    pub open spec fn exact(
        self,
        val: spec_fn(T) -> real,
        cosine: spec_fn(real) -> real,
        sine: spec_fn(real) -> real,
    ) -> bool {
        &&& numeric::exact_sums(val)
        &&& numeric::exact_products(val)
        &&& numeric::exact_quotients(val)
        &&& numeric::exact_numbers(val, self.number)
        &&& exact_roots(val, self.root)
        &&& circular(cosine, sine)
        &&& computes(val, self.cos, cosine)
        &&& computes(val, self.sin, sine)
        &&& val(self.zero) == 0real
    }

    /// With exact arithmetic, the locking value is not negative, and its square times the
    /// squared number of angles is the squared length of the sum of their unit vectors.
    pub proof fn locking_squared(
        self,
        val: spec_fn(T) -> real,
        cosine: spec_fn(real) -> real,
        sine: spec_fn(real) -> real,
        dphi: Seq<T>,
        r: T,
    )
        requires
            self.exact(val, cosine, sine),
            self.locked(dphi, r),
            0 < dphi.len() <= usize::MAX,
        ensures
            val(r) >= 0real,
            ({
                let n = dphi.len() as int as real;
                let x = total(val, cosine, dphi);
                let y = total(val, sine, dphi);
                val(r) * val(r) * (n * n) == x * x + y * y
            }),
    {
        let (cosines, sines, re, im) = choose|cosines: Seq<T>, sines: Seq<T>, re: T, im: T|
            {
                &&& #[trigger] self.components(dphi, cosines, sines)
                &&& #[trigger] numeric::sums_to(self.zero, cosines, re)
                &&& #[trigger] numeric::sums_to(self.zero, sines, im)
                &&& self.mean_length(re, im, dphi.len() as int, r)
            };
        sum_is_total(val, cosine, self.zero, dphi, cosines, re);
        sum_is_total(val, sine, self.zero, dphi, sines, im);
        let (n, a, b, aa, bb, s) = choose|n: T, a: T, b: T, aa: T, bb: T, s: T|
            {
                &&& #[trigger] call_ensures(self.number, (dphi.len() as usize,), n)
                &&& #[trigger] numeric::quotient(re, n, a)
                &&& #[trigger] numeric::quotient(im, n, b)
                &&& #[trigger] numeric::product(a, a, aa)
                &&& #[trigger] numeric::product(b, b, bb)
                &&& #[trigger] numeric::sum(aa, bb, s)
                &&& call_ensures(self.root, (s,), r)
            };
        let (vn, va, vb) = (val(n), val(a), val(b));
        let (x, y) = (val(re), val(im));
        reals::square(va);
        reals::square(vb);
        reals::squared(va, vn);
        reals::squared(vb, vn);
        reals::distributed(va * va, vb * vb, vn * vn);
    }

    /// With exact arithmetic, the locking value lies between zero and one.
    pub proof fn locking_is_a_share(
        self,
        val: spec_fn(T) -> real,
        cosine: spec_fn(real) -> real,
        sine: spec_fn(real) -> real,
        dphi: Seq<T>,
        r: T,
    )
        requires
            self.exact(val, cosine, sine),
            self.locked(dphi, r),
            dphi.len() <= usize::MAX,
        ensures
            0real <= val(r) <= 1real,
    {
        if dphi.len() > 0 {
            self.locking_squared(val, cosine, sine, dphi, r);
            sum_is_no_longer_than_its_parts(val, cosine, sine, dphi);
            let n = dphi.len() as int as real;
            let v = val(r);
            if v > 1real {
                reals::positive(n, n);
                reals::squares_ordered(1real, v);
                reals::ordered(1real, v * v, n * n);
            }
        }
    }

    /// With exact arithmetic, equal phase differences lock perfectly.
    pub proof fn equal_phases_lock(
        self,
        val: spec_fn(T) -> real,
        cosine: spec_fn(real) -> real,
        sine: spec_fn(real) -> real,
        dphi: Seq<T>,
        d: real,
        r: T,
    )
        requires
            self.exact(val, cosine, sine),
            self.locked(dphi, r),
            0 < dphi.len() <= usize::MAX,
            forall|i: int| 0 <= i < dphi.len() ==> val(#[trigger] dphi[i]) == d,
        ensures
            val(r) == 1real,
    {
        self.locking_squared(val, cosine, sine, dphi, r);
        total_of_equals(val, cosine, dphi, d);
        total_of_equals(val, sine, dphi, d);
        let n = dphi.len() as int as real;
        let (c, s, v) = (cosine(d), sine(d), val(r));
        reals::squared(n, c);
        reals::squared(n, s);
        reals::distributed(c * c, s * s, n * n);
        assert(c * c + s * s == 1real);
        assert(1real * 1real * (n * n) == n * n);
        same_root(v, 1real, n);
    }

    /// With exact arithmetic, adding the same angle to every phase difference leaves the
    /// locking value as it is.
    pub proof fn locking_ignores_a_common_shift(
        self,
        val: spec_fn(T) -> real,
        cosine: spec_fn(real) -> real,
        sine: spec_fn(real) -> real,
        dphi: Seq<T>,
        shifted: Seq<T>,
        shift: real,
        r: T,
        q: T,
    )
        requires
            self.exact(val, cosine, sine),
            self.locked(dphi, r),
            self.locked(shifted, q),
            dphi.len() == shifted.len() <= usize::MAX,
            forall|i: int|
                0 <= i < dphi.len() ==> val(#[trigger] shifted[i]) == val(dphi[i]) + shift,
        ensures
            val(r) == val(q),
    {
        if dphi.len() > 0 {
            self.locking_squared(val, cosine, sine, dphi, r);
            self.locking_squared(val, cosine, sine, shifted, q);
            totals_turn(val, cosine, sine, dphi, shifted, shift);
            let (x, y) = (total(val, cosine, dphi), total(val, sine, dphi));
            let (c, s) = (cosine(shift), sine(shift));
            reals::turned(x, y, c, s);
            assert(c * c + s * s == 1real);
            assert((x * x + y * y) * 1real == x * x + y * y);
            let n = dphi.len() as int as real;
            same_root(val(r), val(q), n);
        }
    }

    /// With exact arithmetic, the order of the phase differences does not matter.
    pub proof fn locking_ignores_order(
        self,
        val: spec_fn(T) -> real,
        cosine: spec_fn(real) -> real,
        sine: spec_fn(real) -> real,
        dphi: Seq<T>,
        other: Seq<T>,
        r: T,
        q: T,
    )
        requires
            self.exact(val, cosine, sine),
            self.locked(dphi, r),
            self.locked(other, q),
            dphi.len() <= usize::MAX,
            dphi.to_multiset() == other.to_multiset(),
        ensures
            val(r) == val(q),
    {
        dphi.to_multiset_ensures();
        other.to_multiset_ensures();
        if dphi.len() > 0 {
            self.locking_squared(val, cosine, sine, dphi, r);
            self.locking_squared(val, cosine, sine, other, q);
            total_ignores_order(val, cosine, dphi, other);
            total_ignores_order(val, sine, dphi, other);
            same_root(val(r), val(q), dphi.len() as int as real);
        }
    }
}

proof fn same_root(a: real, b: real, n: real)
    requires
        a >= 0real,
        b >= 0real,
        n >= 1real,
        a * a * (n * n) == b * b * (n * n),
    ensures
        a == b,
{
    reals::positive(n, n);
    if a < b {
        reals::squares_ordered(a, b);
        reals::ordered(a * a, b * b, n * n);
    } else if b < a {
        reals::squares_ordered(b, a);
        reals::ordered(b * b, a * a, n * n);
    }
}

/// The total of a real function of some values.
pub open spec fn total<T>(
    val: spec_fn(T) -> real,
    function: spec_fn(real) -> real,
    values: Seq<T>,
) -> real
    decreases values.len(),
{
    if values.len() == 0 {
        0real
    } else {
        total(val, function, values.drop_last()) + function(val(values.last()))
    }
}

proof fn sum_is_total<T: Add<Output = T>>(
    val: spec_fn(T) -> real,
    function: spec_fn(real) -> real,
    zero: T,
    values: Seq<T>,
    images: Seq<T>,
    r: T,
)
    requires
        numeric::exact_sums(val),
        val(zero) == 0real,
        images.len() == values.len(),
        forall|i: int|
            0 <= i < values.len() ==> val(#[trigger] images[i]) == function(val(values[i])),
        numeric::sums_to(zero, images, r),
    ensures
        val(r) == total(val, function, values),
    decreases values.len(),
{
    if values.len() > 0 {
        let q = choose|q: T|
            numeric::sums_to(zero, images.drop_last(), q) && #[trigger] numeric::sum(
                q,
                images.last(),
                r,
            );
        assert forall|i: int| 0 <= i < values.drop_last().len() implies val(
            #[trigger] images.drop_last()[i],
        ) == function(val(values.drop_last()[i])) by {
            assert(images.drop_last()[i] == images[i]);
        }
        sum_is_total(val, function, zero, values.drop_last(), images.drop_last(), q);
    }
}

proof fn sum_is_no_longer_than_its_parts<T>(
    val: spec_fn(T) -> real,
    cosine: spec_fn(real) -> real,
    sine: spec_fn(real) -> real,
    values: Seq<T>,
)
    requires
        circular(cosine, sine),
    ensures
        ({
            let n = values.len() as int as real;
            let x = total(val, cosine, values);
            let y = total(val, sine, values);
            x * x + y * y <= n * n
        }),
    decreases values.len(),
{
    if values.len() == 0 {
        assert(0real * 0real == 0real);
    } else {
        let front = values.drop_last();
        sum_is_no_longer_than_its_parts(val, cosine, sine, front);
        let m = front.len() as int as real;
        let (x, y) = (total(val, cosine, front), total(val, sine, front));
        let a = val(values.last());
        let (c, s) = (cosine(a), sine(a));
        assert(c * c + s * s == 1real);
        let p = x * c + y * s;
        let d = y * c - x * s;
        reals::turned(x, y, c, -s);
        reals::negated(s, y);
        reals::negated(s, x);
        reals::negated(s, s);
        reals::negated(s, -s);
        assert((x * x + y * y) * 1real == x * x + y * y);
        reals::square(d);
        if p > m {
            reals::squares_ordered(m, p);
        }
        let n = values.len() as int as real;
        assert(n == m + 1real);
        reals::square_of_sum(x, c);
        reals::square_of_sum(y, s);
        reals::square_of_sum(m, 1real);
    }
}

proof fn total_of_equals<T>(
    val: spec_fn(T) -> real,
    function: spec_fn(real) -> real,
    values: Seq<T>,
    d: real,
)
    requires
        forall|i: int| 0 <= i < values.len() ==> val(#[trigger] values[i]) == d,
    ensures
        total(val, function, values) == values.len() as int as real * function(d),
    decreases values.len(),
{
    let f = function(d);
    if values.len() == 0 {
        assert(0real * f == 0real);
    } else {
        let front = values.drop_last();
        assert forall|i: int| 0 <= i < front.len() implies val(#[trigger] front[i]) == d by {
            assert(front[i] == values[i]);
        }
        total_of_equals(val, function, front, d);
        let (m, n) = (front.len() as int as real, values.len() as int as real);
        assert(n == m + 1real);
        reals::distributed(m, 1real, f);
        assert(val(values.last()) == d);
    }
}

proof fn totals_turn<T>(
    val: spec_fn(T) -> real,
    cosine: spec_fn(real) -> real,
    sine: spec_fn(real) -> real,
    values: Seq<T>,
    shifted: Seq<T>,
    shift: real,
)
    requires
        circular(cosine, sine),
        values.len() == shifted.len(),
        forall|i: int|
            0 <= i < values.len() ==> val(#[trigger] shifted[i]) == val(values[i]) + shift,
    ensures
        ({
            let (x, y) = (total(val, cosine, values), total(val, sine, values));
            let (c, s) = (cosine(shift), sine(shift));
            &&& total(val, cosine, shifted) == x * c - y * s
            &&& total(val, sine, shifted) == y * c + x * s
        }),
    decreases values.len(),
{
    let (c, s) = (cosine(shift), sine(shift));
    if values.len() == 0 {
        assert(0real * c == 0real && 0real * s == 0real);
    } else {
        let (front, moved) = (values.drop_last(), shifted.drop_last());
        assert forall|i: int| 0 <= i < front.len() implies val(#[trigger] moved[i]) == val(front[i])
            + shift by {
            assert(moved[i] == shifted[i]);
        }
        totals_turn(val, cosine, sine, front, moved, shift);
        let (x, y) = (total(val, cosine, front), total(val, sine, front));
        let a = val(values.last());
        let (p, q) = (cosine(a), sine(a));
        assert(val(shifted.last()) == a + shift);
        assert(cosine(a + shift) == p * c - q * s);
        assert(sine(a + shift) == q * c + p * s);
        reals::distributed(x, p, c);
        reals::distributed(x, p, s);
        reals::distributed(y, q, c);
        reals::distributed(y, q, s);
    }
}

proof fn total_without<T>(
    val: spec_fn(T) -> real,
    function: spec_fn(real) -> real,
    values: Seq<T>,
    i: int,
)
    requires
        0 <= i < values.len(),
    ensures
        total(val, function, values) == total(val, function, values.remove(i)) + function(
            val(values[i]),
        ),
    decreases values.len(),
{
    if i == values.len() - 1 {
        assert(values.remove(i) =~= values.drop_last());
    } else {
        total_without(val, function, values.drop_last(), i);
        assert(values.remove(i).drop_last() =~= values.drop_last().remove(i));
        assert(values.remove(i).last() == values.last());
    }
}

proof fn total_ignores_order<T>(
    val: spec_fn(T) -> real,
    function: spec_fn(real) -> real,
    values: Seq<T>,
    other: Seq<T>,
)
    requires
        values.to_multiset() == other.to_multiset(),
    ensures
        total(val, function, values) == total(val, function, other),
    decreases values.len(),
{
    values.to_multiset_ensures();
    other.to_multiset_ensures();
    if values.len() > 0 {
        let v = values.last();
        assert(values.contains(v));
        assert(values.to_multiset().count(v) > 0);
        assert(other.contains(v));
        let i = choose|i: int| 0 <= i < other.len() && other[i] == v;
        total_without(val, function, other, i);
        let last = values.len() - 1;
        assert(values.remove(last) =~= values.drop_last());
        assert(values.remove(last).to_multiset() =~= values.to_multiset().remove(v));
        assert(other.remove(i).to_multiset() =~= other.to_multiset().remove(v));
        total_ignores_order(val, function, values.drop_last(), other.remove(i));
    }
}

/// Phase-locking value: the length of the mean of the unit vectors with the given angles,
/// zero without any. It is one for a steady phase relationship and zero for a smeared one.
pub fn mean_plv<
    T: Copy + Add<Output = T> + Mul<Output = T> + Div<Output = T>,
    C: Fn(T) -> T,
    S: Fn(T) -> T,
    N: Fn(usize) -> T,
    R: Fn(T) -> T,
>(dphi: &Vec<T>, phasors: &Phasors<T, C, S, N, R>) -> (r: T)
    requires
        phasors.callable(),
    ensures
        phasors.locked(dphi@, r),
{
    let n: usize = dphi.len();
    if n == 0 {
        return phasors.zero;
    }
    let mut sines: Vec<T> = Vec::new();
    let mut cosines: Vec<T> = Vec::new();
    let mut i: usize = 0;
    while i < n
        invariant
            phasors.callable(),
            i <= n == dphi@.len(),
            sines@.len() == cosines@.len() == i,
            forall|k: int|
                0 <= k < i ==> call_ensures(phasors.cos, (dphi@[k],), #[trigger] cosines@[k]),
            forall|k: int|
                0 <= k < i ==> call_ensures(phasors.sin, (dphi@[k],), #[trigger] sines@[k]),
        decreases n - i,
    {
        cosines.push((phasors.cos)(dphi[i]));
        sines.push((phasors.sin)(dphi[i]));
        i = i + 1;
    }
    let re: T = numeric::sum_range(phasors.zero, &cosines, 0, n);
    let im: T = numeric::sum_range(phasors.zero, &sines, 0, n);
    proof {
        assert(cosines@.subrange(0, n as int) =~= cosines@);
        assert(sines@.subrange(0, n as int) =~= sines@);
        assert(phasors.components(dphi@, cosines@, sines@));
    }
    phasors.measure(re, im, n)
}

/// The values that an angle is wrapped with.
#[derive(Clone, Copy, Debug)]
pub struct Circle<T> {
    /// Half a turn.
    pub half: T,
    /// Minus half a turn.
    pub minus_half: T,
    /// A full turn.
    pub full: T,
}

impl<T> Circle<T> {
    /// The turns are what they are called where values are read as real numbers.
    pub open spec fn exact(self, val: spec_fn(T) -> real) -> bool {
        &&& val(self.half) > 0real
        &&& val(self.minus_half) == -val(self.half)
        &&& val(self.full) == 2real * val(self.half)
    }
}

/// `x` is the remainder `r` of an angle, moved by a full turn where it is above half a
/// turn, or at most minus half a turn.
pub open spec fn wrapped<T: Add<Output = T> + Sub<Output = T> + PartialOrd>(
    circle: Circle<T>,
    r: T,
    x: T,
) -> bool {
    ||| numeric::above(r, circle.half, true) && numeric::difference(r, circle.full, x)
    ||| numeric::above(r, circle.half, false) && numeric::at_most(r, circle.minus_half, true)
        && numeric::sum(r, circle.full, x)
    ||| numeric::above(r, circle.half, false) && numeric::at_most(r, circle.minus_half, false) && x
        == r
}

/// `x` is angle `a`, wrapped.
pub open spec fn wraps<
    T: Add<Output = T> + Sub<Output = T> + Rem<Output = T> + PartialOrd,
>(circle: Circle<T>, a: T, x: T) -> bool {
    exists|r: T| #[trigger]
        call_ensures(<T as Rem>::rem, (a, circle.full), r) && wrapped(circle, r, x)
}

/// Wraps an angle to the half-open turn around zero that ends with half a turn.
pub fn wrap_pi<
    T: Copy + Add<Output = T> + Sub<Output = T> + Rem<Output = T> + PartialOrd,
>(a: T, circle: Circle<T>) -> (x: T)
    requires
        numeric::adds::<T>(),
        numeric::subtracts::<T>(),
        call_requires(<T as Rem>::rem, (a, circle.full)),
    ensures
        wraps(circle, a, x),
{
    let r: T = a % circle.full;
    assert(call_ensures(<T as Rem>::rem, (a, circle.full), r));
    if r > circle.half {
        r - circle.full
    } else if r <= circle.minus_half {
        r + circle.full
    } else {
        r
    }
}

/// `k` turns.
pub open spec fn turns(k: int, turn: real) -> real {
    k as real * turn
}

/// `a` and `b` differ by a whole number of turns.
pub open spec fn whole_turns_apart(a: real, b: real, turn: real) -> bool {
    exists|k: int| a - b == #[trigger] turns(k, turn)
}

/// Where values are read as real numbers, a remainder is smaller than a positive divisor in
/// size, has the sign of what is divided, and differs from it by a multiple of the divisor.
pub open spec fn exact_remainders<T: Rem<Output = T>>(val: spec_fn(T) -> real) -> bool {
    forall|a: T, b: T, r: T| #[trigger]
        call_ensures(<T as Rem>::rem, (a, b), r) && val(b) > 0real ==> {
            &&& -val(b) < val(r) < val(b)
            &&& val(a) >= 0real ==> val(r) >= 0real
            &&& val(a) <= 0real ==> val(r) <= 0real
            &&& whole_turns_apart(val(a), val(r), val(b))
        }
}

/// With exact arithmetic, a wrapped angle lies above minus half a turn, reaches half a turn
/// at most, and differs from the angle by whole turns.
pub proof fn wrapped_angles_are_in_range<
    T: Add<Output = T> + Sub<Output = T> + Rem<Output = T> + PartialOrd,
>(val: spec_fn(T) -> real, circle: Circle<T>, a: T, x: T)
    requires
        numeric::exact_sums(val),
        numeric::exact_differences(val),
        numeric::exact_order(val),
        exact_remainders(val),
        circle.exact(val),
        wraps(circle, a, x),
    ensures
        -val(circle.half) < val(x) <= val(circle.half),
        whole_turns_apart(val(a), val(x), val(circle.full)),
{
    let r = choose|r: T| #[trigger]
        call_ensures(<T as Rem>::rem, (a, circle.full), r) && wrapped(circle, r, x);
    let t = val(circle.full);
    let k = choose|k: int| val(a) - val(r) == #[trigger] turns(k, t);
    let one = 1real;
    assert(1real * t == t);
    reals::distributed(k as real, one, t);
    assert((k + 1) as real == k as real + one && (k - 1) as real == k as real - one);
    if val(x) == val(r) - t {
        assert(val(a) - val(x) == turns(k + 1, t));
    } else if val(x) == val(r) + t {
        assert(val(a) - val(x) == turns(k - 1, t));
    }
}

/// With exact arithmetic, wrapping a wrapped angle leaves it as it is.
pub proof fn wrapping_twice_is_wrapping_once<
    T: Add<Output = T> + Sub<Output = T> + Rem<Output = T> + PartialOrd,
>(val: spec_fn(T) -> real, circle: Circle<T>, a: T, x: T, y: T)
    requires
        numeric::exact_sums(val),
        numeric::exact_differences(val),
        numeric::exact_order(val),
        exact_remainders(val),
        circle.exact(val),
        wraps(circle, a, x),
        wraps(circle, x, y),
    ensures
        val(y) == val(x),
{
    wrapped_angles_are_in_range(val, circle, a, x);
    let r = choose|r: T| #[trigger]
        call_ensures(<T as Rem>::rem, (x, circle.full), r) && wrapped(circle, r, y);
    let t = val(circle.full);
    let k = choose|k: int| val(x) - val(r) == #[trigger] turns(k, t);
    assert(1real * t == t && 0real * t == 0real);
    if k >= 1 {
        reals::weakly_ordered(1real, k as real, t);
    } else if k <= -1 {
        let m = -k;
        reals::weakly_ordered(1real, m as real, t);
        reals::negated(m as real, t);
        assert(k as real == -(m as real));
    } else {
        assert(k as real == 0real);
    }
}

} // verus!
