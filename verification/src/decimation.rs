//! Anti-aliasing decimation: a cascade of zero-phase half-band filter stages, each of
//! which halves the sample rate, or a plain average over blocks.

use std::ops::{Add, Div, Mul, Sub};
use vstd::prelude::*;
use vstd::arithmetic::div_mod::*;

use crate::numeric;
#[allow(unused_imports)]
use crate::plan;
#[allow(unused_imports)]
use crate::pow2;
#[allow(unused_imports)]
use crate::reals;

verus! {

/// Length of the half-band filter.
pub const HALFBAND_TAPS: usize = 63;

/// What the half-band filter's weights are computed with: a half-band response under a
/// window of three cosine terms.
pub struct Window<V, N, S, C> {
    pub zero: V,
    pub half: V,
    /// Half a turn, a full turn and two turns.
    pub half_turn: V,
    pub turn: V,
    pub two_turns: V,
    /// The terms of the window: constant, once and twice round.
    pub terms: (V, V, V),
    /// A number as a value.
    pub number: N,
    pub sin: S,
    pub cos: C,
}

impl<
    V: Copy + Add<Output = V> + Sub<Output = V> + Mul<Output = V> + Div<Output = V>,
    N: Fn(i64) -> V,
    S: Fn(V) -> V,
    C: Fn(V) -> V,
> Window<V, N, S, C> {
    pub open spec fn callable(self) -> bool {
        &&& numeric::adds::<V>()
        &&& numeric::subtracts::<V>()
        &&& numeric::multiplies::<V>()
        &&& numeric::divides::<V>()
        &&& forall|n: i64| call_requires(self.number, (n,))
        &&& forall|v: V| call_requires(self.sin, (v,))
        &&& forall|v: V| call_requires(self.cos, (v,))
    }

    /// `r` is the ideal response at offset `k` from the centre: a half at the centre, and
    /// half of sin(x) / x elsewhere, where x is half a turn per two offsets.
    pub open spec fn ideal(self, k: int, r: V) -> bool {
        if k == 0 {
            r == self.half
        } else {
            exists|n: V, h: V, x: V, s: V, p: V|
                {
                    &&& #[trigger] call_ensures(self.number, (k as i64,), n)
                    &&& #[trigger] numeric::product(self.half, n, h)
                    &&& #[trigger] numeric::product(self.half_turn, h, x)
                    &&& #[trigger] call_ensures(self.sin, (x,), s)
                    &&& #[trigger] numeric::product(self.half, s, p)
                    &&& numeric::quotient(p, x, r)
                }
        }
    }

    /// `r` is the window at tap `n`: its terms, the middle one subtracted, as the taps go
    /// once round.
    pub open spec fn windowed(self, n: int, r: V) -> bool {
        exists|a: V, b: V, t: V, x: V, c: V, p: V, q: V, y: V, d: V, e: V|
            {
                &&& #[trigger] call_ensures(self.number, (n as i64,), a)
                &&& #[trigger] call_ensures(self.number, ((HALFBAND_TAPS - 1) as i64,), b)
                &&& #[trigger] numeric::quotient(a, b, t)
                &&& #[trigger] numeric::product(self.turn, t, x)
                &&& #[trigger] call_ensures(self.cos, (x,), c)
                &&& #[trigger] numeric::product(self.terms.1, c, p)
                &&& #[trigger] numeric::difference(self.terms.0, p, q)
                &&& #[trigger] numeric::product(self.two_turns, t, y)
                &&& #[trigger] call_ensures(self.cos, (y,), d)
                &&& #[trigger] numeric::product(self.terms.2, d, e)
                &&& numeric::sum(q, e, r)
            }
    }

    /// `r` is the weight of tap `n`: the ideal response under the window.
    pub open spec fn weighs(self, n: int, r: V) -> bool {
        exists|i: V, w: V|
            {
                &&& #[trigger] self.ideal(n - HALFBAND_TAPS as int / 2, i)
                &&& #[trigger] self.windowed(n, w)
                &&& numeric::product(i, w, r)
            }
    }

    fn response(&self, k: i64) -> (r: V)
        requires
            self.callable(),
        ensures
            self.ideal(k as int, r),
    {
        if k == 0 {
            return self.half;
        }
        let n: V = (self.number)(k);
        let h: V = self.half * n;
        let x: V = self.half_turn * h;
        let s: V = (self.sin)(x);
        let p: V = self.half * s;
        proof {
            assert((k as int) as i64 == k);
            assert(call_ensures(self.number, (k,), n) && numeric::product(self.half, n, h));
            assert(numeric::product(self.half_turn, h, x) && call_ensures(self.sin, (x,), s));
            assert(numeric::product(self.half, s, p));
        }
        p / x
    }

    fn window(&self, n: i64) -> (r: V)
        requires
            self.callable(),
        ensures
            self.windowed(n as int, r),
    {
        let a: V = (self.number)(n);
        let last: i64 = 62;
        let b: V = (self.number)(last);
        let t: V = a / b;
        let x: V = self.turn * t;
        let c: V = (self.cos)(x);
        let p: V = self.terms.1 * c;
        let q: V = self.terms.0 - p;
        let y: V = self.two_turns * t;
        let d: V = (self.cos)(y);
        let e: V = self.terms.2 * d;
        proof {
            assert((n as int) as i64 == n && (HALFBAND_TAPS - 1) as i64 == last);
            assert(call_ensures(self.number, (n,), a) && call_ensures(self.number, (last,), b));
            assert(numeric::quotient(a, b, t) && numeric::product(self.turn, t, x));
            assert(call_ensures(self.cos, (x,), c) && numeric::product(self.terms.1, c, p));
            assert(numeric::difference(self.terms.0, p, q));
            assert(numeric::product(self.two_turns, t, y) && call_ensures(self.cos, (y,), d));
            assert(numeric::product(self.terms.2, d, e));
        }
        q + e
    }

    /// The weight of tap `n`.
    pub fn weight(&self, n: usize) -> (r: V)
        requires
            self.callable(),
            n < HALFBAND_TAPS,
        ensures
            self.weighs(n as int, r),
    {
        let i: V = self.response(n as i64 - 31);
        let w: V = self.window(n as i64);
        assert(self.ideal(n - HALFBAND_TAPS as int / 2, i) && self.windowed(n as int, w));
        i * w
    }

    /// `taps` are the weights, divided by their sum, as `narrow` makes them.
    pub open spec fn taps_from<T, M: Fn(V) -> T>(
        self,
        narrow: M,
        weights: Seq<V>,
        total: V,
        taps: Seq<T>,
    ) -> bool {
        &&& weights.len() == HALFBAND_TAPS
        &&& forall|i: int| 0 <= i < weights.len() ==> self.weighs(i, #[trigger] weights[i])
        &&& numeric::sums_to(self.zero, weights, total)
        &&& taps.len() == HALFBAND_TAPS
        &&& forall|i: int|
            0 <= i < taps.len() ==> tap_from(weights[i], total, narrow, #[trigger] taps[i])
    }
}

pub open spec fn tap_from<V: Div<Output = V>, T, M: Fn(V) -> T>(
    w: V,
    total: V,
    narrow: M,
    tap: T,
) -> bool {
    exists|q: V| #[trigger] numeric::quotient(w, total, q) && call_ensures(narrow, (q,), tap)
}

/// The half-band filter: windowed weights, scaled so that a constant signal passes
/// unchanged.
pub fn halfband_taps<
    V: Copy + Add<Output = V> + Sub<Output = V> + Mul<Output = V> + Div<Output = V>,
    N: Fn(i64) -> V,
    S: Fn(V) -> V,
    C: Fn(V) -> V,
    T,
    M: Fn(V) -> T,
>(window: &Window<V, N, S, C>, narrow: M) -> (taps: Vec<T>)
    requires
        window.callable(),
        forall|v: V| call_requires(narrow, (v,)),
    ensures
        taps_fit(taps@.len() as int),
        exists|weights: Seq<V>, total: V| #[trigger]
            window.taps_from(narrow, weights, total, taps@),
{
    let mut weights: Vec<V> = Vec::new();
    let mut i: usize = 0;
    while i < HALFBAND_TAPS
        invariant
            window.callable(),
            i <= HALFBAND_TAPS,
            weights@.len() == i,
            forall|k: int| 0 <= k < i ==> window.weighs(k, #[trigger] weights@[k]),
        decreases HALFBAND_TAPS - i,
    {
        weights.push(window.weight(i));
        i = i + 1;
    }
    let total: V = numeric::sum_range(window.zero, &weights, 0, HALFBAND_TAPS);
    assert(weights@.subrange(0, HALFBAND_TAPS as int) =~= weights@);
    let mut taps: Vec<T> = Vec::new();
    let mut i: usize = 0;
    while i < HALFBAND_TAPS
        invariant
            numeric::divides::<V>(),
            forall|v: V| call_requires(narrow, (v,)),
            i <= HALFBAND_TAPS == weights@.len(),
            taps@.len() == i,
            forall|k: int|
                0 <= k < i ==> tap_from(weights@[k], total, narrow, #[trigger] taps@[k]),
        decreases HALFBAND_TAPS - i,
    {
        let q: V = weights[i] / total;
        let tap: T = narrow(q);
        assert(numeric::quotient(weights@[i as int], total, q));
        taps.push(tap);
        i = i + 1;
    }
    assert(window.taps_from(narrow, weights@, total, taps@));
    taps
}

/// Sample `t` of a signal that is zero outside its range.
pub open spec fn extended<T>(zero: T, x: Seq<T>, t: int) -> T {
    if 0 <= t < x.len() {
        x[t]
    } else {
        zero
    }
}

/// The taps can be applied: the centre tap exists and every odd offset up to the centre
/// has its tap.
pub open spec fn taps_fit(taps: int) -> bool {
    taps % 2 == 1 || (taps >= 1 && (taps / 2) % 2 == 0)
}

/// `r` is the centre tap's contribution at sample `t` plus those of the first `j` odd
/// offsets. The even offsets of a half-band filter are zero and are left out.
pub open spec fn filtered<T: Add<Output = T> + Mul<Output = T>>(
    zero: T,
    x: Seq<T>,
    taps: Seq<T>,
    t: int,
    j: int,
    r: T,
) -> bool
    decreases j,
{
    let c = taps.len() as int / 2;
    if j <= 0 {
        numeric::product(taps[c], x[t], r)
    } else {
        let k = 2 * j - 1;
        exists|q: T, s: T, p: T|
            {
                &&& filtered(zero, x, taps, t, j - 1, q)
                &&& numeric::sum(extended(zero, x, t - k), extended(zero, x, t + k), s)
                &&& #[trigger] numeric::product(taps[c + k], s, p)
                &&& #[trigger] numeric::sum(q, p, r)
            }
    }
}

/// `y` is `x` filtered at every other sample, starting with the first.
pub open spec fn halved<T: Add<Output = T> + Mul<Output = T>>(
    zero: T,
    x: Seq<T>,
    taps: Seq<T>,
    y: Seq<T>,
) -> bool {
    &&& y.len() == x.len() / 2
    &&& forall|m: int|
        0 <= m < y.len() ==> filtered(
            zero,
            x,
            taps,
            2 * m,
            (taps.len() as int / 2 + 1) / 2,
            #[trigger] y[m],
        )
}

/// `y` is `x` after `stages` halvings.
pub open spec fn cascaded<T: Add<Output = T> + Mul<Output = T>>(
    zero: T,
    x: Seq<T>,
    taps: Seq<T>,
    stages: nat,
    y: Seq<T>,
) -> bool
    decreases stages,
{
    if stages == 0 {
        y == x
    } else {
        exists|mid: Seq<T>|
            cascaded(zero, x, taps, (stages - 1) as nat, mid) && #[trigger] halved(
                zero,
                mid,
                taps,
                y,
            )
    }
}

/// Filters and decimates by two. Output sample `m` is the filtered input at `2m`: the
/// filter is symmetric about its centre, so there is no time shift. The signal is
/// extended by zeros.
pub fn halfband_decim2<T: Copy + Add<Output = T> + Mul<Output = T>>(
    zero: T,
    x: &Vec<T>,
    taps: &Vec<T>,
) -> (y: Vec<T>)
    requires
        x@.len() >= 2 ==> taps_fit(taps@.len() as int),
        numeric::adds::<T>(),
        numeric::multiplies::<T>(),
    ensures
        halved(zero, x@, taps@, y@),
{
    let m: usize = taps.len();
    let c: usize = m / 2;
    let n: usize = x.len();
    let half: usize = n / 2;
    let mut y: Vec<T> = Vec::new();
    let mut i: usize = 0;
    while i < half
        invariant
            i <= half == n / 2,
            n == x@.len(),
            m == taps@.len(),
            c == taps@.len() / 2,
            half >= 1 ==> taps_fit(taps@.len() as int),
            numeric::adds::<T>(),
            numeric::multiplies::<T>(),
            y@.len() == i,
            forall|m: int|
                0 <= m < i ==> filtered(
                    zero,
                    x@,
                    taps@,
                    2 * m,
                    (taps@.len() as int / 2 + 1) / 2,
                    #[trigger] y@[m],
                ),
        decreases half - i,
    {
        let t: usize = 2 * i;
        let mut acc: T = taps[c] * x[t];
        let mut k: usize = 1;
        let ghost mut j: int = 0;
        while k <= c
            invariant
                t < n == x@.len(),
                m == taps@.len(),
                c == taps@.len() / 2,
                taps_fit(taps@.len() as int),
                numeric::adds::<T>(),
                numeric::multiplies::<T>(),
                0 <= j,
                k == 2 * j + 1,
                k <= c + 2,
                t <= 2 * (n / 2),
                filtered(zero, x@, taps@, t as int, j, acc),
            decreases c + 2 - k,
        {
            let xa: T = if t >= k {
                x[t - k]
            } else {
                zero
            };
            let xb: T = if k < n - t {
                x[t + k]
            } else {
                zero
            };
            assert(c + k < taps@.len());
            let ghost q = acc;
            let s: T = xa + xb;
            let p: T = taps[c + k] * s;
            acc = acc + p;
            proof {
                j = j + 1;
                assert(numeric::product(taps@[c + (2 * j - 1)], s, p));
                assert(numeric::sum(q, p, acc));
            }
            k = k + 2;
        }
        assert(j == (taps@.len() as int / 2 + 1) / 2);
        y.push(acc);
        i = i + 1;
    }
    y
}

/// `r` is the mean of block `i` of `d` samples; the last block may be shorter.
pub open spec fn block_mean<T: Add<Output = T> + Div<Output = T>, C: Fn(usize) -> T>(
    zero: T,
    x: Seq<T>,
    d: int,
    count: C,
    i: int,
    r: T,
) -> bool {
    let lo = i * d;
    let hi = plan::min_of(lo + d, x.len() as int);
    exists|s: T, k: T|
        {
            &&& #[trigger] numeric::sums_to(zero, x.subrange(lo, hi), s)
            &&& call_ensures(count, ((hi - lo) as usize,), k)
            &&& #[trigger] numeric::quotient(s, k, r)
        }
}

fn block_means<T: Copy + Add<Output = T> + Div<Output = T>, C: Fn(usize) -> T>(
    zero: T,
    x: &Vec<T>,
    d: usize,
    count: &C,
) -> (y: Vec<T>)
    requires
        d >= 1,
        numeric::adds::<T>(),
        numeric::divides::<T>(),
        forall|n: usize| call_requires(*count, (n,)),
    ensures
        y@.len() == (x@.len() + d - 1) / d as int,
        forall|i: int|
            0 <= i < y@.len() ==> block_mean(zero, x@, d as int, *count, i, #[trigger] y@[i]),
{
    let mut y: Vec<T> = Vec::new();
    let mut lo: usize = 0;
    proof {
        assert(0 * d == 0);
    }
    while lo < x.len()
        invariant
            d >= 1,
            numeric::adds::<T>(),
            numeric::divides::<T>(),
            forall|n: usize| call_requires(*count, (n,)),
            lo <= x@.len(),
            lo == y@.len() * d || lo == x@.len(),
            lo == x@.len() ==> (y@.len() - 1) * d < x@.len() <= y@.len() * d,
            forall|i: int|
                0 <= i < y@.len() ==> block_mean(zero, x@, d as int, *count, i, #[trigger] y@[i]),
        decreases x@.len() - lo,
    {
        let hi: usize = if d < x.len() - lo {
            lo + d
        } else {
            x.len()
        };
        let s: T = numeric::sum_range(zero, x, lo, hi);
        let k: T = count(hi - lo);
        let r: T = s / k;
        proof {
            let i = y@.len() as int;
            assert(lo == i * d);
            assert((i + 1) * d == i * d + d) by (nonlinear_arith);
            let e = d as int;
            assert(i * e == lo);
            assert(hi == plan::min_of(i * e + e, x@.len() as int));
            assert(numeric::sums_to(zero, x@.subrange(lo as int, hi as int), s));
            assert(call_ensures(*count, ((hi - lo) as usize,), k));
            assert(numeric::quotient(s, k, r));
            assert(block_mean(zero, x@, d as int, *count, i, r));
        }
        y.push(r);
        lo = hi;
    }
    proof {
        let (n, q, e) = (x@.len() as int, y@.len() as int, d as int);
        assert((q - 1) * e == q * e - e) by (nonlinear_arith);
        lemma_fundamental_div_mod_converse(n + e - 1, e, q, n + e - 1 - q * e);
        assert(q * e == e * q) by (nonlinear_arith);
    }
    y
}

/// Decimates by the power of two `d`: with `antialias` through the half-band cascade,
/// otherwise by the mean of each block of `d` samples.
pub fn downsample<
    T: Copy + Add<Output = T> + Mul<Output = T> + Div<Output = T>,
    C: Fn(usize) -> T,
>(zero: T, x: &Vec<T>, d: usize, antialias: bool, taps: &Vec<T>, count: C) -> (y: Vec<T>)
    requires
        antialias && d > 1 && x@.len() >= 2 ==> taps_fit(taps@.len() as int),
        pow2::is_pow2(d as nat),
        numeric::adds::<T>(),
        numeric::multiplies::<T>(),
        numeric::divides::<T>(),
        forall|n: usize| call_requires(count, (n,)),
    ensures
        y@.len() == plan::decimated_len(x@.len() as int, d as int, antialias),
        antialias ==> cascaded(zero, x@, taps@, pow2::floor_log2_of(d as nat), y@),
        !antialias ==> forall|i: int|
            0 <= i < y@.len() ==> block_mean(zero, x@, d as int, count, i, #[trigger] y@[i]),
{
    proof {
        pow2::pow2_is_two_to(d as nat);
    }
    if antialias {
        let mut cur: Vec<T> = numeric::copied(x);
        let mut dd: usize = d;
        let ghost mut stages: nat = 0;
        proof {
            lemma_div_basics_3(x@.len() as int);
            assert(pow2::two_to(0) == 1);
        }
        while dd > 1
            invariant
                d > 1 && x@.len() >= 2 ==> taps_fit(taps@.len() as int),
                cur@.len() <= x@.len(),
                1 <= dd <= d,
                numeric::adds::<T>(),
                numeric::multiplies::<T>(),
                pow2::is_pow2(dd as nat),
                stages + pow2::floor_log2_of(dd as nat) == pow2::floor_log2_of(d as nat),
                cascaded(zero, x@, taps@, stages, cur@),
                cur@.len() == x@.len() / pow2::two_to(stages),
                pow2::two_to(stages) >= 1,
                pow2::two_to(pow2::floor_log2_of(d as nat)) == d,
            decreases dd,
        {
            let next: Vec<T> = halfband_decim2(zero, &cur, taps);
            proof {
                lemma_div_denominator(x@.len() as int, pow2::two_to(stages) as int, 2);
                assert(cascaded(zero, x@, taps@, stages, cur@));
                stages = stages + 1;
                assert(cascaded(zero, x@, taps@, stages, next@));
            }
            cur = next;
            dd = dd / 2;
        }
        cur
    } else {
        block_means(zero, x, d, &count)
    }
}

/// The sum of all taps up to `k` away from the centre, each times the sample of a signal
/// that far from `t`.
pub open spec fn convolved<T>(
    val: spec_fn(T) -> real,
    x: Seq<T>,
    taps: Seq<T>,
    t: int,
    k: int,
) -> real
    decreases k,
{
    let c = taps.len() as int / 2;
    if k <= 0 {
        val(taps[c]) * sample(val, x, t)
    } else {
        convolved(val, x, taps, t, k - 1) + val(taps[c + k]) * sample(val, x, t + k) + val(
            taps[c - k],
        ) * sample(val, x, t - k)
    }
}

/// Sample `t` of a signal as a real number, zero outside its range.
pub open spec fn sample<T>(val: spec_fn(T) -> real, x: Seq<T>, t: int) -> real {
    if 0 <= t < x.len() {
        val(x[t])
    } else {
        0real
    }
}

/// The taps are those of a half-band filter: the same on both sides of the centre, and zero
/// at even distances from it.
pub open spec fn half_band<T>(val: spec_fn(T) -> real, taps: Seq<T>) -> bool {
    let c = taps.len() as int / 2;
    &&& taps.len() % 2 == 1
    &&& forall|k: int| 1 <= k <= c ==> #[trigger] val(taps[c + k]) == val(taps[c - k])
    &&& forall|k: int| 1 <= k <= c && k % 2 == 0 ==> #[trigger] val(taps[c + k]) == 0real
}

/// With exact arithmetic, halving with a half-band filter is a convolution with all of its
/// taps: output sample `m` is the filter, centred on input sample `2 * m`. There is one
/// output sample for every two input samples.
pub proof fn halving_is_a_convolution<T: Add<Output = T> + Mul<Output = T>>(
    val: spec_fn(T) -> real,
    zero: T,
    x: Seq<T>,
    taps: Seq<T>,
    y: Seq<T>,
    m: int,
)
    requires
        numeric::exact_sums(val),
        numeric::exact_products(val),
        val(zero) == 0real,
        half_band(val, taps),
        halved(zero, x, taps, y),
        0 <= m < y.len(),
    ensures
        2 * y.len() <= x.len() < 2 * y.len() + 2,
        val(y[m]) == convolved(val, x, taps, 2 * m, taps.len() as int / 2),
{
    let c = taps.len() as int / 2;
    let j = (c + 1) / 2;
    assert(filtered(zero, x, taps, 2 * m, j, y[m]));
    filter_is_a_convolution(val, zero, x, taps, 2 * m, j, y[m]);
    if c % 2 == 0 && c > 0 {
        assert(val(taps[c + c]) == 0real && val(taps[c + c]) == val(taps[c - c]));
        assert(0real * sample(val, x, 2 * m + c) == 0real);
        assert(0real * sample(val, x, 2 * m - c) == 0real);
    }
}

proof fn filter_is_a_convolution<T: Add<Output = T> + Mul<Output = T>>(
    val: spec_fn(T) -> real,
    zero: T,
    x: Seq<T>,
    taps: Seq<T>,
    t: int,
    j: int,
    r: T,
)
    requires
        numeric::exact_sums(val),
        numeric::exact_products(val),
        val(zero) == 0real,
        half_band(val, taps),
        0 <= t < x.len(),
        0 <= j,
        2 * j - 1 <= taps.len() as int / 2,
        filtered(zero, x, taps, t, j, r),
    ensures
        val(r) == convolved(
            val,
            x,
            taps,
            t,
            if j == 0 {
                0
            } else {
                2 * j - 1
            },
        ),
    decreases j,
{
    let c = taps.len() as int / 2;
    if j > 0 {
        let k = 2 * j - 1;
        let (q, s, p) = choose|q: T, s: T, p: T|
            {
                &&& filtered(zero, x, taps, t, j - 1, q)
                &&& numeric::sum(extended(zero, x, t - k), extended(zero, x, t + k), s)
                &&& #[trigger] numeric::product(taps[c + k], s, p)
                &&& #[trigger] numeric::sum(q, p, r)
            };
        filter_is_a_convolution(val, zero, x, taps, t, j - 1, q);
        let (a, b) = (sample(val, x, t + k), sample(val, x, t - k));
        reals::distributed(b, a, val(taps[c + k]));
        assert(val(taps[c + k]) == val(taps[c - k]));
        if j > 1 {
            let e = k - 1;
            assert(val(taps[c + e]) == 0real && val(taps[c + e]) == val(taps[c - e]));
            assert(0real * sample(val, x, t + e) == 0real);
            assert(0real * sample(val, x, t - e) == 0real);
            assert(convolved(val, x, taps, t, e) == convolved(val, x, taps, t, e - 1));
        }
        assert(convolved(val, x, taps, t, k) == convolved(val, x, taps, t, k - 1) + val(
            taps[c + k],
        ) * a + val(taps[c - k]) * b);
    }
}

/// The sum of samples `lo` to below `hi`, as real numbers.
pub open spec fn block_total<T>(val: spec_fn(T) -> real, x: Seq<T>, lo: int, hi: int) -> real
    decreases hi - lo,
{
    if hi <= lo {
        0real
    } else {
        block_total(val, x, lo, hi - 1) + val(x[hi - 1])
    }
}

/// The sum of samples of a segment is that of the samples of the whole signal that it was
/// cut from.
pub proof fn totals_move_along<T>(
    val: spec_fn(T) -> real,
    x: Seq<T>,
    s: int,
    e: int,
    lo: int,
    hi: int,
)
    requires
        0 <= s <= e <= x.len(),
        0 <= lo,
        hi <= e - s,
    ensures
        block_total(val, x.subrange(s, e), lo, hi) == block_total(val, x, s + lo, s + hi),
    decreases hi - lo,
{
    if hi > lo {
        totals_move_along(val, x, s, e, lo, hi - 1);
    }
}

/// With exact arithmetic, a block mean times the number of its samples is their sum: block
/// `i` holds samples `i * d` to below `(i + 1) * d`, or to the end of the signal.
pub proof fn blocks_are_averaged<T: Add<Output = T> + Div<Output = T>, C: Fn(usize) -> T>(
    val: spec_fn(T) -> real,
    zero: T,
    x: Seq<T>,
    d: int,
    count: C,
    i: int,
    r: T,
    hi: int,
)
    requires
        numeric::exact_sums(val),
        numeric::exact_quotients(val),
        numeric::exact_numbers(val, count),
        val(zero) == 0real,
        block_mean(zero, x, d, count, i, r),
        d >= 1,
        0 <= i,
        i * d < x.len() <= usize::MAX,
        hi == i * d + d || hi == x.len(),
        hi <= i * d + d,
        hi <= x.len(),
    ensures
        val(r) * (hi - i * d) as real == block_total(val, x, i * d, hi),
{
    let lo = i * d;
    assert(lo >= 0) by (nonlinear_arith)
        requires
            lo == i * d,
            i >= 0,
            d >= 1,
    ;
    assert(hi == plan::min_of(lo + d, x.len() as int));
    let (s, k) = choose|s: T, k: T|
        {
            &&& #[trigger] numeric::sums_to(zero, x.subrange(lo, hi), s)
            &&& call_ensures(count, ((hi - lo) as usize,), k)
            &&& #[trigger] numeric::quotient(s, k, r)
        };
    sum_is_block_total(val, zero, x, lo, hi, s);
    assert(val(k) == (hi - lo) as real);
}

proof fn sum_is_block_total<T: Add<Output = T>>(
    val: spec_fn(T) -> real,
    zero: T,
    x: Seq<T>,
    lo: int,
    hi: int,
    s: T,
)
    requires
        numeric::exact_sums(val),
        val(zero) == 0real,
        0 <= lo <= hi <= x.len(),
        numeric::sums_to(zero, x.subrange(lo, hi), s),
    ensures
        val(s) == block_total(val, x, lo, hi),
    decreases hi - lo,
{
    if lo < hi {
        let v = x.subrange(lo, hi);
        let q = choose|q: T|
            numeric::sums_to(zero, v.drop_last(), q) && #[trigger] numeric::sum(q, v.last(), s);
        assert(v.drop_last() =~= x.subrange(lo, hi - 1));
        sum_is_block_total(val, zero, x, lo, hi - 1, q);
    }
}

impl<
    V: Copy + Add<Output = V> + Sub<Output = V> + Mul<Output = V> + Div<Output = V>,
    N: Fn(i64) -> V,
    S: Fn(V) -> V,
    C: Fn(V) -> V,
> Window<V, N, S, C> {
    /// The arithmetic is exact where values are read as real numbers, the angles are what
    /// they are called, and sine and cosine are those of the circle.
    pub open spec fn exact(
        self,
        val: spec_fn(V) -> real,
        sine: spec_fn(real) -> real,
        cosine: spec_fn(real) -> real,
        pi: real,
    ) -> bool {
        &&& numeric::exact_sums(val)
        &&& numeric::exact_differences(val)
        &&& numeric::exact_products(val)
        &&& numeric::exact_quotients(val)
        &&& forall|n: i64, r: V| #[trigger]
            call_ensures(self.number, (n,), r) ==> val(r) == n as int as real
        &&& forall|v: V, r: V| #[trigger]
            call_ensures(self.sin, (v,), r) ==> val(r) == sine(val(v))
        &&& forall|v: V, r: V| #[trigger]
            call_ensures(self.cos, (v,), r) ==> val(r) == cosine(val(v))
        &&& val(self.zero) == 0real
        &&& val(self.half) == 1real / 2real
        &&& pi > 0real
        &&& val(self.half_turn) == pi
        &&& val(self.turn) == 2real * pi
        &&& val(self.two_turns) == 4real * pi
        &&& forall|x: real| #[trigger] sine(-x) == -sine(x)
        &&& forall|k: int| sine(#[trigger] multiple(k, pi)) == 0real
        &&& forall|x: real, y: real|
            #![trigger cosine(x), cosine(y)]
            x + y == 2real * pi || x + y == 4real * pi ==> cosine(x) == cosine(y)
    }

    proof fn ideal_is_even(
        self,
        val: spec_fn(V) -> real,
        sine: spec_fn(real) -> real,
        cosine: spec_fn(real) -> real,
        pi: real,
        k: int,
        r: V,
        q: V,
    )
        requires
            self.exact(val, sine, cosine, pi),
            0 < k <= 31,
            self.ideal(k, r),
            self.ideal(-k, q),
        ensures
            val(r) == val(q),
            k % 2 == 0 ==> val(r) == 0real,
    {
        let (n, h, x, s, p) = choose|n: V, h: V, x: V, s: V, p: V|
            {
                &&& #[trigger] call_ensures(self.number, (k as i64,), n)
                &&& #[trigger] numeric::product(self.half, n, h)
                &&& #[trigger] numeric::product(self.half_turn, h, x)
                &&& #[trigger] call_ensures(self.sin, (x,), s)
                &&& #[trigger] numeric::product(self.half, s, p)
                &&& numeric::quotient(p, x, r)
            };
        let (n2, h2, x2, s2, p2) = choose|n: V, h: V, x: V, s: V, p: V|
            {
                &&& #[trigger] call_ensures(self.number, ((-k) as i64,), n)
                &&& #[trigger] numeric::product(self.half, n, h)
                &&& #[trigger] numeric::product(self.half_turn, h, x)
                &&& #[trigger] call_ensures(self.sin, (x,), s)
                &&& #[trigger] numeric::product(self.half, s, p)
                &&& numeric::quotient(p, x, q)
            };
        let half = 1real / 2real;
        assert(val(n) == k as real && val(n2) == -(k as real));
        assert(val(h) == half * (k as real) && val(h2) == half * (-(k as real)));
        assert(val(h2) == -val(h));
        reals::negated(val(h), pi);
        assert(val(x2) == -val(x));
        assert(sine(-val(x)) == -sine(val(x)));
        assert(val(s2) == -val(s));
        assert(val(p) == half * val(s) && val(p2) == half * (-val(s)));
        assert(val(p2) == -val(p));
        reals::positive(pi, val(h));
        assert(pi * val(h) == val(x));
        assert(val(x) > 0real);
        reals::negated(val(x), val(q));
        assert(val(q) * val(x2) == -(val(q) * val(x)));
        reals::quotient_at_most(val(r), val(x), val(q));
        reals::quotient_at_most(val(q), val(x), val(r));
        if k % 2 == 0 {
            let m = k / 2;
            assert(val(h) == m as real);
            assert(multiple(m, pi) == val(x));
            assert(sine(multiple(m, pi)) == 0real);
            assert(half * 0real == 0real && 0real * val(x) == 0real);
            reals::quotient_at_most(val(r), val(x), 0real);
            reals::quotient_at_most(0real, val(x), val(r));
        }
    }

    proof fn window_is_even(
        self,
        val: spec_fn(V) -> real,
        sine: spec_fn(real) -> real,
        cosine: spec_fn(real) -> real,
        pi: real,
        k: int,
        r: V,
        q: V,
    )
        requires
            self.exact(val, sine, cosine, pi),
            0 <= k <= 31,
            self.windowed(31 + k, r),
            self.windowed(31 - k, q),
        ensures
            val(r) == val(q),
    {
        let (a, b, t, x, c, p, u, y, d, e) = choose|
            a: V,
            b: V,
            t: V,
            x: V,
            c: V,
            p: V,
            q: V,
            y: V,
            d: V,
            e: V,
        |
            {
                &&& #[trigger] call_ensures(self.number, ((31 + k) as i64,), a)
                &&& #[trigger] call_ensures(self.number, ((HALFBAND_TAPS - 1) as i64,), b)
                &&& #[trigger] numeric::quotient(a, b, t)
                &&& #[trigger] numeric::product(self.turn, t, x)
                &&& #[trigger] call_ensures(self.cos, (x,), c)
                &&& #[trigger] numeric::product(self.terms.1, c, p)
                &&& #[trigger] numeric::difference(self.terms.0, p, q)
                &&& #[trigger] numeric::product(self.two_turns, t, y)
                &&& #[trigger] call_ensures(self.cos, (y,), d)
                &&& #[trigger] numeric::product(self.terms.2, d, e)
                &&& numeric::sum(q, e, r)
            };
        let (a2, b2, t2, x2, c2, p2, u2, y2, d2, e2) = choose|
            a: V,
            b: V,
            t: V,
            x: V,
            c: V,
            p: V,
            u: V,
            y: V,
            d: V,
            e: V,
        |
            {
                &&& #[trigger] call_ensures(self.number, ((31 - k) as i64,), a)
                &&& #[trigger] call_ensures(self.number, ((HALFBAND_TAPS - 1) as i64,), b)
                &&& #[trigger] numeric::quotient(a, b, t)
                &&& #[trigger] numeric::product(self.turn, t, x)
                &&& #[trigger] call_ensures(self.cos, (x,), c)
                &&& #[trigger] numeric::product(self.terms.1, c, p)
                &&& #[trigger] numeric::difference(self.terms.0, p, u)
                &&& #[trigger] numeric::product(self.two_turns, t, y)
                &&& #[trigger] call_ensures(self.cos, (y,), d)
                &&& #[trigger] numeric::product(self.terms.2, d, e)
                &&& numeric::sum(u, e, q)
            };
        assert(val(b) == 62real && val(b2) == 62real);
        assert(val(a) + val(a2) == 62real);
        assert(val(t) + val(t2) == 1real);
        let (f, g) = (2real * pi, 4real * pi);
        reals::distributed(val(t), val(t2), f);
        reals::distributed(val(t), val(t2), g);
        assert(f * 1real == f && g * 1real == g);
        assert(val(x) + val(x2) == f && val(y) + val(y2) == g);
        assert(cosine(val(x)) == cosine(val(x2)) && cosine(val(y)) == cosine(val(y2)));
    }

    /// With exact arithmetic, the weight of a tap is the response of an ideal half-band filter,
    /// half of which is `sin(x) / x` for `x` a quarter turn per tap from the centre, under a
    /// window: a constant less a cosine that goes once round from the first tap to the last,
    /// plus one that goes round twice. `at` is how far round tap `n` is.
    pub proof fn weights_are_windowed_sines(
        self,
        val: spec_fn(V) -> real,
        sine: spec_fn(real) -> real,
        cosine: spec_fn(real) -> real,
        pi: real,
        n: int,
        r: V,
        at: real,
    ) -> (parts: (real, real))
        requires
            self.exact(val, sine, cosine, pi),
            self.weighs(n, r),
            0 <= n < 63,
            at * 62real == (2real * pi) * (n as real),
        ensures
            val(r) == parts.0 * parts.1,
            n == 31 ==> parts.0 == 1real / 2real,
            n != 31 ==> ({
                let x = pi * ((n - 31) as real / 2real);
                2real * (parts.0 * x) == sine(x)
            }),
            parts.1 == val(self.terms.0) - val(self.terms.1) * cosine(at) + val(self.terms.2)
                * cosine(2real * at),
    {
        let (i, w) = choose|i: V, w: V|
            {
                &&& #[trigger] self.ideal(n - HALFBAND_TAPS as int / 2, i)
                &&& #[trigger] self.windowed(n, w)
                &&& numeric::product(i, w, r)
            };
        let (a, b, t, x, c, p, q, y, d, e) = choose|
            a: V,
            b: V,
            t: V,
            x: V,
            c: V,
            p: V,
            q: V,
            y: V,
            d: V,
            e: V,
        |
            {
                &&& #[trigger] call_ensures(self.number, (n as i64,), a)
                &&& #[trigger] call_ensures(self.number, ((HALFBAND_TAPS - 1) as i64,), b)
                &&& #[trigger] numeric::quotient(a, b, t)
                &&& #[trigger] numeric::product(self.turn, t, x)
                &&& #[trigger] call_ensures(self.cos, (x,), c)
                &&& #[trigger] numeric::product(self.terms.1, c, p)
                &&& #[trigger] numeric::difference(self.terms.0, p, q)
                &&& #[trigger] numeric::product(self.two_turns, t, y)
                &&& #[trigger] call_ensures(self.cos, (y,), d)
                &&& #[trigger] numeric::product(self.terms.2, d, e)
                &&& numeric::sum(q, e, w)
            };
        let turn = 2real * pi;
        assert(val(t) * 62real == n as real);
        reals::associated(turn, val(t), 62real);
        assert(val(x) * 62real == at * 62real);
        assert(val(x) == at);
        reals::associated(2real, turn, val(t));
        assert(val(y) == 2real * at);
        let k = n - 31;
        if k != 0 {
            let (m, h, z, s, g) = choose|m: V, h: V, z: V, s: V, g: V|
                {
                    &&& #[trigger] call_ensures(self.number, (k as i64,), m)
                    &&& #[trigger] numeric::product(self.half, m, h)
                    &&& #[trigger] numeric::product(self.half_turn, h, z)
                    &&& #[trigger] call_ensures(self.sin, (z,), s)
                    &&& #[trigger] numeric::product(self.half, s, g)
                    &&& numeric::quotient(g, z, i)
                };
            assert(val(h) == k as real / 2real);
            assert(val(z) == pi * (k as real / 2real));
            let b = k as real / 2real;
            if b > 0real {
                reals::positive(pi, b);
            } else {
                reals::positive(pi, -b);
                reals::negated(b, pi);
            }
            assert(val(i) * val(z) == val(g));
        }
        (val(i), val(w))
    }

    /// With exact arithmetic, the taps are those of a half-band filter that leaves a
    /// constant as it is: they add up to one, are the same on both sides of the centre, and
    /// are zero at even distances from it.
    pub proof fn taps_are_half_band<T, M: Fn(V) -> T>(
        self,
        val: spec_fn(V) -> real,
        sine: spec_fn(real) -> real,
        cosine: spec_fn(real) -> real,
        pi: real,
        narrow: M,
        narrowed: spec_fn(T) -> real,
        weights: Seq<V>,
        total: V,
        taps: Seq<T>,
    )
        requires
            self.exact(val, sine, cosine, pi),
            forall|v: V, t: T| #[trigger]
                call_ensures(narrow, (v,), t) ==> narrowed(t) == val(v),
            self.taps_from(narrow, weights, total, taps),
            val(total) > 0real,
        ensures
            taps.len() == 63,
            half_band(narrowed, taps),
            block_total(narrowed, taps, 0, 63) == 1real,
    {
        let d = val(total);
        assert forall|i: int| 0 <= i < 63 implies #[trigger] narrowed(taps[i]) * d == val(
            weights[i],
        ) by {
            assert(tap_from(weights[i], total, narrow, taps[i]));
        }
        let c = 31int;
        assert forall|k: int| 1 <= k <= c implies #[trigger] narrowed(taps[c + k]) == narrowed(
            taps[c - k],
        ) && (k % 2 == 0 ==> narrowed(taps[c + k]) == 0real) by {
            let (i, j) = (c + k, c - k);
            assert(self.weighs(i, weights[i]) && self.weighs(j, weights[j]));
            let (a, w) = choose|a: V, w: V|
                {
                    &&& #[trigger] self.ideal(i - HALFBAND_TAPS as int / 2, a)
                    &&& #[trigger] self.windowed(i, w)
                    &&& numeric::product(a, w, weights[i])
                };
            let (b, u) = choose|a: V, w: V|
                {
                    &&& #[trigger] self.ideal(j - HALFBAND_TAPS as int / 2, a)
                    &&& #[trigger] self.windowed(j, w)
                    &&& numeric::product(a, w, weights[j])
                };
            self.ideal_is_even(val, sine, cosine, pi, k, a, b);
            self.window_is_even(val, sine, cosine, pi, k, w, u);
            let (x, y) = (narrowed(taps[i]), narrowed(taps[j]));
            assert(x * d == val(weights[i]) && y * d == val(weights[j]));
            reals::quotient_at_most(x, d, y);
            reals::quotient_at_most(y, d, x);
            if k % 2 == 0 {
                assert(0real * val(w) == 0real && 0real * d == 0real);
                reals::quotient_at_most(x, d, 0real);
                reals::quotient_at_most(0real, d, x);
            }
        }
        assert(weights.subrange(0, 63) =~= weights);
        sum_is_block_total(val, self.zero, weights, 0, 63, total);
        shares_add_up(val, narrowed, weights, taps, d, 63);
        let s = block_total(narrowed, taps, 0, 63);
        assert(s * d == 1real * d);
        reals::quotient_at_most(s, d, 1real);
        reals::quotient_at_most(1real, d, s);
    }
}

/// `k` times a number.
pub open spec fn multiple(k: int, x: real) -> real {
    x * k as real
}

proof fn shares_add_up<V, T>(
    val: spec_fn(V) -> real,
    narrowed: spec_fn(T) -> real,
    weights: Seq<V>,
    taps: Seq<T>,
    d: real,
    n: int,
)
    requires
        0 <= n <= weights.len() == taps.len(),
        forall|i: int| 0 <= i < n ==> #[trigger] narrowed(taps[i]) * d == val(weights[i]),
    ensures
        block_total(narrowed, taps, 0, n) * d == block_total(val, weights, 0, n),
    decreases n,
{
    if n > 0 {
        shares_add_up(val, narrowed, weights, taps, d, n - 1);
        reals::distributed(block_total(narrowed, taps, 0, n - 1), narrowed(taps[n - 1]), d);
        assert(narrowed(taps[n - 1]) * d == val(weights[n - 1]));
    } else {
        assert(0real * d == 0real);
    }
}

} // verus!
