//! Pixel-level synchrosqueezing: each pixel's amplitude moves along the frequency axis to
//! the rows that match its mean instantaneous frequency.

use std::ops::{Add, Div, Mul, Sub};
use vstd::prelude::*;
use vstd::arithmetic::div_mod::*;
use vstd::arithmetic::mul::*;

use crate::numeric;
#[allow(unused_imports)]
use crate::reals;
use crate::viewport;

verus! {

/// Where a pixel's value goes: `lower` to row `row`, `upper` to the row after it.
#[derive(Debug)]
pub struct Place<T> {
    pub row: usize,
    pub lower: T,
    pub upper: T,
}

/// How pixels are placed. Rows are spaced evenly in the logarithm of frequency.
pub struct Grid<T, N, L, W> {
    pub num_scales: usize,
    pub width: usize,
    pub zero: T,
    pub one: T,
    /// The last row as a number.
    pub top: T,
    /// The least factor that a frequency counts as changed by.
    pub floor: T,
    /// Rows per unit of the logarithm.
    pub rows_per_log: T,
    /// A number as a value.
    pub number: N,
    /// The logarithm.
    pub ln: L,
    /// The whole part of a value that is not negative.
    pub whole: W,
}

/// `r` is the number of rows per unit of the logarithm, of an axis whose ends are
/// `log_ratio` apart.
pub open spec fn log_density<T: Div<Output = T> + PartialOrd>(
    top: T,
    log_ratio: T,
    floor: T,
    r: T,
) -> bool {
    exists|d: T| #[trigger] viewport::raised(log_ratio, floor, d) && numeric::quotient(top, d, r)
}

/// The number of rows per unit of the logarithm.
pub fn rows_per_log<T: Copy + Div<Output = T> + PartialOrd>(top: T, log_ratio: T, floor: T) -> (r:
    T)
    requires
        numeric::divides::<T>(),
    ensures
        log_density(top, log_ratio, floor, r),
{
    let d: T = viewport::raise(log_ratio, floor);
    assert(viewport::raised(log_ratio, floor, d));
    top / d
}

impl<
    T: Copy + Add<Output = T> + Sub<Output = T> + Mul<Output = T> + PartialOrd,
    N: Fn(usize) -> T,
    L: Fn(T) -> T,
    W: Fn(T) -> usize,
> Grid<T, N, L, W> {
    /// Target rows within the grid split into rows of the grid.
    pub open spec fn well_formed(self) -> bool {
        &&& self.num_scales >= 1
        &&& numeric::subtracts::<T>()
        &&& numeric::multiplies::<T>()
        &&& numeric::adds::<T>()
        &&& forall|n: usize| call_requires(self.number, (n,))
        &&& forall|t: T| call_requires(self.ln, (t,))
        &&& forall|t: T| call_requires(self.whole, (t,))
        &&& forall|t: T, r: usize|
            self.on_grid(t, true) && #[trigger] call_ensures(self.whole, (t,), r) ==> r
                < self.num_scales
    }

    /// `t` is the row, a real number, that a pixel of row `s` belongs to by its relative
    /// frequency deviation: `s` plus the rows that the logarithm of the change spans.
    pub open spec fn targets(self, s: usize, dev: T, t: T) -> bool {
        exists|k: T, a: T, b: T, l: T, p: T|
            {
                &&& #[trigger] call_ensures(self.number, (s,), k)
                &&& #[trigger] numeric::sum(self.one, dev, a)
                &&& #[trigger] viewport::raised(a, self.floor, b)
                &&& #[trigger] call_ensures(self.ln, (b,), l)
                &&& #[trigger] numeric::product(l, self.rows_per_log, p)
                &&& numeric::sum(k, p, t)
            }
    }

    /// `t` is `f` beyond row `row`.
    pub open spec fn splits(self, t: T, row: usize, f: T) -> bool {
        exists|k: T|
            {
                &&& call_ensures(self.whole, (t,), row)
                &&& #[trigger] call_ensures(self.number, (row,), k)
                &&& numeric::difference(t, k, f)
            }
    }

    fn target(&self, s: usize, dev: T) -> (t: T)
        requires
            self.well_formed(),
        ensures
            self.targets(s, dev, t),
    {
        let k: T = (self.number)(s);
        let a: T = self.one + dev;
        let b: T = viewport::raise(a, self.floor);
        let l: T = (self.ln)(b);
        let p: T = l * self.rows_per_log;
        assert(call_ensures(self.number, (s,), k) && numeric::sum(self.one, dev, a));
        assert(viewport::raised(a, self.floor, b) && call_ensures(self.ln, (b,), l));
        assert(numeric::product(l, self.rows_per_log, p));
        k + p
    }

    /// `t` tested for lying between row 0 and the last row, and found to or not to.
    pub open spec fn on_grid(self, t: T, found: bool) -> bool {
        if found {
            numeric::at_least(t, self.zero, true) && numeric::at_most(t, self.top, true)
        } else {
            numeric::at_least(t, self.zero, false) || numeric::at_most(t, self.top, false)
        }
    }

    /// A pixel of row `s` with amplitude `a` and deviation `dev` goes to `p`: its amplitude
    /// is split linearly between the two rows nearest to its target.
    pub open spec fn kept(self, s: usize, a: T, dev: T, p: Place<T>) -> bool {
        exists|t: T, f: T, g: T|
            {
                &&& numeric::at_most(a, self.zero, false)
                &&& numeric::at_most(dev, dev, true)
                &&& #[trigger] self.targets(s, dev, t)
                &&& self.on_grid(t, true)
                &&& self.splits(t, p.row, f)
                &&& #[trigger] numeric::difference(self.one, f, g)
                &&& numeric::product(a, g, p.lower)
                &&& numeric::product(a, f, p.upper)
            }
    }

    /// A pixel goes nowhere: it has no amplitude, its deviation is no number (and so not at
    /// most itself), or its target is not on the grid.
    pub open spec fn dropped(self, s: usize, a: T, dev: T) -> bool {
        ||| numeric::at_most(a, self.zero, true)
        ||| numeric::at_most(a, self.zero, false) && numeric::at_most(dev, dev, false)
        ||| exists|t: T|
            {
                &&& numeric::at_most(a, self.zero, false)
                &&& numeric::at_most(dev, dev, true)
                &&& #[trigger] self.targets(s, dev, t)
                &&& self.on_grid(t, false)
            }
    }

    pub open spec fn placed(self, s: usize, a: T, dev: T, p: Option<Place<T>>) -> bool {
        match p {
            Some(place) => self.kept(s, a, dev, place) && place.row < self.num_scales,
            None => self.dropped(s, a, dev),
        }
    }

    /// The places of all pixels.
    pub open spec fn all_placed(
        self,
        amp: Seq<T>,
        dev: Seq<T>,
        places: Seq<Option<Place<T>>>,
    ) -> bool {
        &&& places.len() == self.num_scales * self.width
        &&& forall|i: int|
            0 <= i < places.len() ==> self.placed(
                (i / self.width as int) as usize,
                amp[i],
                dev[i],
                #[trigger] places[i],
            )
    }

    fn place(&self, s: usize, a: T, dev: T) -> (p: Option<Place<T>>)
        requires
            self.well_formed(),
        ensures
            self.placed(s, a, dev, p),
    {
        if a <= self.zero {
            return None;
        }
        if !(dev <= dev) {
            return None;
        }
        let t: T = self.target(s, dev);
        if !(t >= self.zero && t <= self.top) {
            return None;
        }
        let row: usize = (self.whole)(t);
        let k: T = (self.number)(row);
        let f: T = t - k;
        let g: T = self.one - f;
        let lower: T = a * g;
        let upper: T = a * f;
        proof {
            assert(self.targets(s, dev, t));
            assert(call_ensures(self.number, (row,), k));
            assert(self.splits(t, row, f));
            assert(numeric::difference(self.one, f, g));
        }
        Some(Place { row, lower, upper })
    }

    fn place_all(&self, amp: &Vec<T>, dev: &Vec<T>) -> (places: Vec<Option<Place<T>>>)
        requires
            self.well_formed(),
            amp@.len() >= self.num_scales * self.width,
            dev@.len() >= self.num_scales * self.width,
        ensures
            self.all_placed(amp@, dev@, places@),
    {
        let mut places: Vec<Option<Place<T>>> = Vec::new();
        let mut s: usize = 0;
        while s < self.num_scales
            invariant
                self.well_formed(),
                amp@.len() >= self.num_scales * self.width,
                dev@.len() >= self.num_scales * self.width,
                s <= self.num_scales,
                places@.len() == s * self.width,
                forall|i: int|
                    0 <= i < places@.len() ==> self.placed(
                        (i / self.width as int) as usize,
                        amp@[i],
                        dev@[i],
                        #[trigger] places@[i],
                    ),
            decreases self.num_scales - s,
        {
            let mut c: usize = 0;
            while c < self.width
                invariant
                    self.well_formed(),
                    amp@.len() >= self.num_scales * self.width,
                    dev@.len() >= self.num_scales * self.width,
                    s < self.num_scales,
                    c <= self.width,
                    places@.len() == s * self.width + c,
                    forall|i: int|
                        0 <= i < places@.len() ==> self.placed(
                            (i / self.width as int) as usize,
                            amp@[i],
                            dev@[i],
                            #[trigger] places@[i],
                        ),
                decreases self.width - c,
            {
                proof {
                    pixel_index(s as int, c as int, self.width as int, self.num_scales as int);
                }
                let i: usize = places.len();
                let p = self.place(s, amp[i], dev[i]);
                places.push(p);
                c = c + 1;
            }
            assert((s + 1) * self.width == s * self.width + self.width) by (nonlinear_arith);
            s = s + 1;
        }
        places
    }
}

/// Pixel (`s`, `c`) of an image lies at `s * width + c`.
pub proof fn pixel_index(s: int, c: int, width: int, num_scales: int)
    requires
        0 <= s < num_scales,
        0 <= c < width,
    ensures
        0 <= s * width + c < num_scales * width,
        (s * width + c) / width == s,
        (s * width + c) % width == c,
{
    lemma_fundamental_div_mod_converse(s * width + c, width, s, c);
    assert(s * width + width == (s + 1) * width) by (nonlinear_arith);
    lemma_mul_inequality(s + 1, num_scales, width);
    lemma_mul_nonnegative(s, width);
}

/// What row `r` of column `c` receives from the first `k` rows, in row order.
pub open spec fn received<T>(
    places: Seq<Option<Place<T>>>,
    width: int,
    r: int,
    c: int,
    k: int,
) -> Seq<T>
    decreases k,
{
    if k <= 0 {
        seq![]
    } else {
        let before = received(places, width, r, c, k - 1);
        match places[(k - 1) * width + c] {
            Some(p) => if p.row == r {
                before.push(p.lower)
            } else if p.row + 1 == r {
                before.push(p.upper)
            } else {
                before
            },
            None => before,
        }
    }
}

/// `out` holds, at every pixel, the sum of what the pixel receives; what lies behind the
/// image is zero.
pub open spec fn scattered<T: Add<Output = T>>(
    zero: T,
    places: Seq<Option<Place<T>>>,
    width: usize,
    num_scales: usize,
    out: Seq<T>,
) -> bool {
    forall|i: int|
        0 <= i < out.len() ==> if i < num_scales * width {
            numeric::sums_to(
                zero,
                received(
                    places,
                    width as int,
                    i / width as int,
                    i % width as int,
                    num_scales as int,
                ),
                #[trigger] out[i],
            )
        } else {
            out[i] == zero
        }
}

impl<
    T: Copy + Add<Output = T> + Sub<Output = T> + Mul<Output = T> + PartialOrd,
    N: Fn(usize) -> T,
    L: Fn(T) -> T,
    W: Fn(T) -> usize,
> Grid<T, N, L, W> {
    /// `out` holds what every pixel receives of an image of amplitude and one of deviation.
    pub open spec fn squeezed(self, amp: Seq<T>, dev: Seq<T>, out: Seq<T>) -> bool {
        exists|places: Seq<Option<Place<T>>>| #[trigger]
            self.all_placed(amp, dev, places) && scattered(
                self.zero,
                places,
                self.width,
                self.num_scales,
                out,
            )
    }
}

fn scatter_column<T: Copy + Add<Output = T>>(
    zero: T,
    places: &Vec<Option<Place<T>>>,
    width: usize,
    num_scales: usize,
    c: usize,
) -> (col: Vec<T>)
    requires
        c < width,
        places@.len() == num_scales * width,
        numeric::adds::<T>(),
        forall|i: int|
            0 <= i < places@.len() ==> (#[trigger] places@[i] matches Some(p) ==> p.row
                < num_scales),
    ensures
        col@.len() == num_scales,
        forall|r: int|
            0 <= r < num_scales ==> numeric::sums_to(
                zero,
                received(places@, width as int, r, c as int, num_scales as int),
                #[trigger] col@[r],
            ),
{
    let mut col: Vec<T> = Vec::new();
    let mut r: usize = 0;
    while r < num_scales
        invariant
            r <= num_scales,
            col@.len() == r,
            forall|k: int| 0 <= k < r ==> #[trigger] col@[k] == zero,
        decreases num_scales - r,
    {
        col.push(zero);
        r = r + 1;
    }
    let total: usize = places.len();
    let mut s: usize = 0;
    while s < num_scales
        invariant
            s <= num_scales,
            c < width,
            total == places@.len() == num_scales * width,
            numeric::adds::<T>(),
            forall|i: int|
                0 <= i < places@.len() ==> (#[trigger] places@[i] matches Some(p) ==> p.row
                    < num_scales),
            col@.len() == num_scales,
            forall|r: int|
                0 <= r < num_scales ==> numeric::sums_to(
                    zero,
                    received(places@, width as int, r, c as int, s as int),
                    #[trigger] col@[r],
                ),
        decreases num_scales - s,
    {
        proof {
            pixel_index(s as int, c as int, width as int, num_scales as int);
            lemma_mul_inequality(s as int, num_scales as int, width as int);
        }
        let ghost before = col@;
        let i: usize = s * width + c;
        match &places[i] {
            Some(p) => {
                let r0: usize = p.row;
                let v: T = col[r0] + p.lower;
                col.set(r0, v);
                if r0 + 1 < num_scales {
                    let w: T = col[r0 + 1] + p.upper;
                    col.set(r0 + 1, w);
                }
            },
            None => {},
        }
        s = s + 1;
        assert forall|r: int| 0 <= r < num_scales implies numeric::sums_to(
            zero,
            received(places@, width as int, r, c as int, s as int),
            #[trigger] col@[r],
        ) by {
            let was = received(places@, width as int, r, c as int, s - 1);
            assert(numeric::sums_to(zero, was, before[r]));
            match places@[i as int] {
                Some(p) => {
                    if p.row == r {
                        numeric::one_more(zero, was, p.lower, before[r], col@[r]);
                    } else if p.row + 1 == r {
                        numeric::one_more(zero, was, p.upper, before[r], col@[r]);
                    }
                },
                None => {},
            }
        }
    }
    col
}

/// Adds up what every pixel receives.
pub(crate) fn scatter<T: Copy + Add<Output = T>>(
    zero: T,
    places: &Vec<Option<Place<T>>>,
    width: usize,
    num_scales: usize,
    len: usize,
) -> (out: Vec<T>)
    requires
        places@.len() == num_scales * width <= len,
        numeric::adds::<T>(),
        forall|i: int|
            0 <= i < places@.len() ==> (#[trigger] places@[i] matches Some(p) ==> p.row
                < num_scales),
    ensures
        out@.len() == len,
        scattered(zero, places@, width, num_scales, out@),
{
    let mut columns: Vec<Vec<T>> = Vec::new();
    let mut c: usize = 0;
    while c < width
        invariant
            c <= width,
            places@.len() == num_scales * width,
            numeric::adds::<T>(),
            forall|i: int|
                0 <= i < places@.len() ==> (#[trigger] places@[i] matches Some(p) ==> p.row
                    < num_scales),
            columns@.len() == c,
            forall|k: int| 0 <= k < c ==> (#[trigger] columns@[k])@.len() == num_scales,
            forall|k: int, r: int|
                0 <= k < c && 0 <= r < num_scales ==> numeric::sums_to(
                    zero,
                    received(places@, width as int, r, k, num_scales as int),
                    #[trigger] columns@[k]@[r],
                ),
        decreases width - c,
    {
        columns.push(scatter_column(zero, places, width, num_scales, c));
        c = c + 1;
    }
    let mut out: Vec<T> = Vec::new();
    let mut r: usize = 0;
    while r < num_scales
        invariant
            r <= num_scales,
            columns@.len() == width,
            forall|k: int| 0 <= k < width ==> (#[trigger] columns@[k])@.len() == num_scales,
            forall|k: int, r: int|
                0 <= k < width && 0 <= r < num_scales ==> numeric::sums_to(
                    zero,
                    received(places@, width as int, r, k, num_scales as int),
                    #[trigger] columns@[k]@[r],
                ),
            out@.len() == r * width,
            forall|i: int|
                0 <= i < out@.len() ==> numeric::sums_to(
                    zero,
                    received(
                        places@,
                        width as int,
                        i / width as int,
                        i % width as int,
                        num_scales as int,
                    ),
                    #[trigger] out@[i],
                ),
        decreases num_scales - r,
    {
        let mut c: usize = 0;
        while c < width
            invariant
                r < num_scales,
                c <= width,
                columns@.len() == width,
                forall|k: int| 0 <= k < width ==> (#[trigger] columns@[k])@.len() == num_scales,
                forall|k: int, r: int|
                    0 <= k < width && 0 <= r < num_scales ==> numeric::sums_to(
                        zero,
                        received(places@, width as int, r, k, num_scales as int),
                        #[trigger] columns@[k]@[r],
                    ),
                out@.len() == r * width + c,
                forall|i: int|
                    0 <= i < out@.len() ==> numeric::sums_to(
                        zero,
                        received(
                            places@,
                            width as int,
                            i / width as int,
                            i % width as int,
                            num_scales as int,
                        ),
                        #[trigger] out@[i],
                    ),
            decreases width - c,
        {
            proof {
                pixel_index(r as int, c as int, width as int, num_scales as int);
            }
            out.push(columns[c][r]);
            c = c + 1;
        }
        assert((r + 1) * width == r * width + width) by (nonlinear_arith);
        r = r + 1;
    }
    while out.len() < len
        invariant
            num_scales * width <= out@.len() <= len,
            scattered(zero, places@, width, num_scales, out@),
        decreases len - out@.len(),
    {
        out.push(zero);
    }
    out
}

/// Pixel-level synchrosqueezing: moves every pixel's amplitude to the rows that match its
/// mean instantaneous frequency. Pixels whose target lies off the grid are dropped.
pub fn synchrosqueeze<
    T: Copy + Add<Output = T> + Sub<Output = T> + Mul<Output = T> + PartialOrd,
    N: Fn(usize) -> T,
    L: Fn(T) -> T,
    W: Fn(T) -> usize,
>(amp: &Vec<T>, dev: &Vec<T>, grid: &Grid<T, N, L, W>) -> (out: Vec<T>)
    requires
        grid.well_formed(),
        numeric::adds::<T>(),
        amp@.len() >= grid.num_scales * grid.width,
        dev@.len() >= grid.num_scales * grid.width,
    ensures
        out@.len() == amp@.len(),
        grid.squeezed(amp@, dev@, out@),
{
    let places = grid.place_all(amp, dev);
    let out = scatter(grid.zero, &places, grid.width, grid.num_scales, amp.len());
    assert(grid.all_placed(amp@, dev@, places@));
    out
}

/// `re` and `im` are the places of `a * cos` and `a * sin` for pixels whose amplitudes go
/// to `places`; `turn` gives sine and cosine of a phase.
pub open spec fn turned<T: Mul<Output = T>, R: Fn(T) -> (T, T)>(
    turn: R,
    phase: Seq<T>,
    places: Seq<Option<Place<T>>>,
    re: Seq<Option<Place<T>>>,
    im: Seq<Option<Place<T>>>,
) -> bool {
    &&& re.len() == im.len() == places.len()
    &&& forall|i: int|
        0 <= i < places.len() ==> turned_pixel(
            turn,
            phase[i],
            #[trigger] places[i],
            re[i],
            im[i],
        )
}

pub open spec fn turned_pixel<T: Mul<Output = T>, R: Fn(T) -> (T, T)>(
    turn: R,
    phase: T,
    place: Option<Place<T>>,
    re: Option<Place<T>>,
    im: Option<Place<T>>,
) -> bool {
    match place {
        Some(p) => exists|sin: T, cos: T|
            {
                &&& #[trigger] call_ensures(turn, (phase,), (sin, cos))
                &&& re matches Some(q) && q.row == p.row && numeric::product(p.lower, cos, q.lower)
                    && numeric::product(p.upper, cos, q.upper)
                &&& im matches Some(q) && q.row == p.row && numeric::product(p.lower, sin, q.lower)
                    && numeric::product(p.upper, sin, q.upper)
            },
        None => re is None && im is None,
    }
}

/// How complex numbers are taken apart and put together.
pub struct Polar<R, A, H> {
    /// Sine and cosine of an angle.
    pub sin_cos: R,
    /// The angle of a vector, from its height and width.
    pub angle: A,
    /// The length of a vector.
    pub length: H,
}

impl<R, A, H> Polar<R, A, H> {
    pub open spec fn callable<T: Div<Output = T>>(self) -> bool where
        R: Fn(T) -> (T, T),
        A: Fn(T, T) -> T,
        H: Fn(T, T) -> T,
     {
        &&& numeric::divides::<T>()
        &&& forall|x: T| call_requires(self.sin_cos, (x,))
        &&& forall|a: T, b: T| call_requires(self.angle, (a, b))
        &&& forall|a: T, b: T| call_requires(self.length, (a, b))
    }

    /// Where the amplitude is above zero, `phase` is the angle of the complex sum and
    /// `coherence` its length over the amplitude, at most one; elsewhere the sums stand.
    pub open spec fn collapsed_pixel<T: Div<Output = T> + PartialOrd>(
        self,
        zero: T,
        one: T,
        a: T,
        re: T,
        im: T,
        phase: T,
        coherence: T,
    ) -> bool where R: Fn(T) -> (T, T), A: Fn(T, T) -> T, H: Fn(T, T) -> T {
        ||| numeric::above(a, zero, true) && call_ensures(self.angle, (im, re), phase) && exists|
            h: T,
            q: T,
        |
            {
                &&& #[trigger] call_ensures(self.length, (re, im), h)
                &&& #[trigger] numeric::quotient(h, a, q)
                &&& viewport::lowered(q, one, coherence)
            }
        ||| numeric::above(a, zero, false) && phase == re && coherence == im
    }

    /// `phase` and `coherence` come from the complex sums and the amplitudes.
    pub open spec fn collapsed<T: Div<Output = T> + PartialOrd>(
        self,
        zero: T,
        one: T,
        amplitude: Seq<T>,
        sums: (Seq<T>, Seq<T>),
        phase: Seq<T>,
        coherence: Seq<T>,
    ) -> bool where R: Fn(T) -> (T, T), A: Fn(T, T) -> T, H: Fn(T, T) -> T {
        &&& phase.len() == coherence.len() == amplitude.len()
        &&& forall|i: int|
            0 <= i < amplitude.len() ==> self.collapsed_pixel(
                zero,
                one,
                amplitude[i],
                sums.0[i],
                sums.1[i],
                #[trigger] phase[i],
                coherence[i],
            )
    }

    /// With exact arithmetic, coherence lies between zero and one and phase in the range of
    /// angles; without amplitude and complex sum both are zero.
    pub proof fn collapsed_values_are_in_range<T: Div<Output = T> + PartialOrd>(
        self,
        val: spec_fn(T) -> real,
        low: real,
        high: real,
        zero: T,
        one: T,
        a: T,
        re: T,
        im: T,
        phase: T,
        coherence: T,
    ) where R: Fn(T) -> (T, T), A: Fn(T, T) -> T, H: Fn(T, T) -> T
        requires
            numeric::exact_quotients(val),
            numeric::exact_order(val),
            val(zero) == 0real,
            val(one) == 1real,
            forall|x: T, y: T, r: T| #[trigger]
                call_ensures(self.length, (x, y), r) ==> val(r) >= 0real,
            forall|x: T, y: T, r: T| #[trigger]
                call_ensures(self.angle, (x, y), r) ==> low < val(r) <= high,
            self.collapsed_pixel(zero, one, a, re, im, phase, coherence),
        ensures
            val(a) > 0real ==> 0real <= val(coherence) <= 1real && low < val(phase) <= high,
            val(a) <= 0real && val(re) == 0real && val(im) == 0real ==> val(coherence) == 0real
                && val(phase) == 0real,
    {
        if val(a) > 0real {
            let (h, q) = choose|h: T, q: T|
                {
                    &&& #[trigger] call_ensures(self.length, (re, im), h)
                    &&& #[trigger] numeric::quotient(h, a, q)
                    &&& viewport::lowered(q, one, coherence)
                };
            reals::quotient_sign(val(q), val(a));
        }
    }
}

/// With exact arithmetic, a row that receives no amplitude receives no complex sum either.
pub proof fn no_amplitude_means_no_sum<T: Add<Output = T> + Mul<Output = T>, R: Fn(T) -> (T, T)>(
    val: spec_fn(T) -> real,
    zero: T,
    sin_cos: R,
    phase: Seq<T>,
    places: Seq<Option<Place<T>>>,
    re: Seq<Option<Place<T>>>,
    im: Seq<Option<Place<T>>>,
    at: (int, int, int, int),
    a: T,
    x: T,
    y: T,
)
    requires
        numeric::exact_sums(val),
        numeric::exact_products(val),
        val(zero) == 0real,
        turned(sin_cos, phase, places, re, im),
        forall|i: int|
            0 <= i < places.len() ==> (#[trigger] places[i] matches Some(p) ==> val(p.lower)
                >= 0real && val(p.upper) >= 0real),
        0 <= at.2 < at.0,
        0 <= at.3,
        at.3 * at.0 <= places.len(),
        numeric::sums_to(zero, received(places, at.0, at.1, at.2, at.3), a),
        numeric::sums_to(zero, received(re, at.0, at.1, at.2, at.3), x),
        numeric::sums_to(zero, received(im, at.0, at.1, at.2, at.3), y),
    ensures
        val(a) >= 0real,
        val(a) == 0real ==> val(x) == 0real && val(y) == 0real,
    decreases at.3,
{
    let (width, r, c, k) = at;
    if k > 0 {
        let i = (k - 1) * width + c;
        assert(0 <= i < places.len()) by (nonlinear_arith)
            requires
                i == (k - 1) * width + c,
                0 <= c < width,
                k >= 1,
                k * width <= places.len(),
        ;
        assert((k - 1) * width <= places.len()) by (nonlinear_arith)
            requires
                0 < width,
                k * width <= places.len(),
        ;
        let was = received(places, width, r, c, k - 1);
        let was_re = received(re, width, r, c, k - 1);
        let was_im = received(im, width, r, c, k - 1);
        assert(turned_pixel(sin_cos, phase[i], places[i], re[i], im[i]));
        match places[i] {
            Some(p) => {
                if p.row == r || p.row + 1 == r {
                    let w = if p.row == r {
                        p.lower
                    } else {
                        p.upper
                    };
                    let now = received(places, width, r, c, k);
                    let now_re = received(re, width, r, c, k);
                    let now_im = received(im, width, r, c, k);
                    assert(now.drop_last() =~= was && now.last() == w);
                    assert(now_re.drop_last() =~= was_re);
                    assert(now_im.drop_last() =~= was_im);
                    let q = choose|q: T|
                        numeric::sums_to(zero, now.drop_last(), q) && #[trigger] numeric::sum(
                            q,
                            now.last(),
                            a,
                        );
                    let qx = choose|q: T|
                        numeric::sums_to(zero, now_re.drop_last(), q) && #[trigger] numeric::sum(
                            q,
                            now_re.last(),
                            x,
                        );
                    let qy = choose|q: T|
                        numeric::sums_to(zero, now_im.drop_last(), q) && #[trigger] numeric::sum(
                            q,
                            now_im.last(),
                            y,
                        );
                    no_amplitude_means_no_sum(
                        val,
                        zero,
                        sin_cos,
                        phase,
                        places,
                        re,
                        im,
                        (width, r, c, k - 1),
                        q,
                        qx,
                        qy,
                    );
                    if val(a) == 0real {
                        assert(val(w) == 0real);
                        let (sin, cos) = choose|sin: T, cos: T|
                            {
                                &&& #[trigger] call_ensures(sin_cos, (phase[i],), (sin, cos))
                                &&& re[i] matches Some(q) && q.row == p.row && numeric::product(
                                    p.lower,
                                    cos,
                                    q.lower,
                                ) && numeric::product(p.upper, cos, q.upper)
                                &&& im[i] matches Some(q) && q.row == p.row && numeric::product(
                                    p.lower,
                                    sin,
                                    q.lower,
                                ) && numeric::product(p.upper, sin, q.upper)
                            };
                        assert(0real * val(cos) == 0real && 0real * val(sin) == 0real);
                    }
                } else {
                    no_amplitude_means_no_sum(
                        val,
                        zero,
                        sin_cos,
                        phase,
                        places,
                        re,
                        im,
                        (width, r, c, k - 1),
                        a,
                        x,
                        y,
                    );
                }
            },
            None => {
                no_amplitude_means_no_sum(
                    val,
                    zero,
                    sin_cos,
                    phase,
                    places,
                    re,
                    im,
                    (width, r, c, k - 1),
                    a,
                    x,
                    y,
                );
            },
        }
    }
}

/// `out` holds amplitude, phase and coherence of images of amplitude, phase and deviation:
/// what every pixel receives as amplitude and as a complex sum, the sum collapsed.
pub open spec fn squeezed_with_phase<
    T: Copy + Add<Output = T> + Sub<Output = T> + Mul<Output = T> + Div<Output = T> + PartialOrd,
    N: Fn(usize) -> T,
    L: Fn(T) -> T,
    W: Fn(T) -> usize,
    R: Fn(T) -> (T, T),
    A: Fn(T, T) -> T,
    H: Fn(T, T) -> T,
>(
    grid: Grid<T, N, L, W>,
    polar: Polar<R, A, H>,
    images: (Seq<T>, Seq<T>, Seq<T>),
    out: (Seq<T>, Seq<T>, Seq<T>),
) -> bool {
    exists|
        places: Seq<Option<Place<T>>>,
        re_places: Seq<Option<Place<T>>>,
        im_places: Seq<Option<Place<T>>>,
        re: Seq<T>,
        im: Seq<T>,
    |
        {
            &&& #[trigger] grid.all_placed(images.0, images.2, places)
            &&& #[trigger] turned(polar.sin_cos, images.1, places, re_places, im_places)
            &&& scattered(grid.zero, places, grid.width, grid.num_scales, out.0)
            &&& #[trigger] scattered(grid.zero, re_places, grid.width, grid.num_scales, re)
            &&& #[trigger] scattered(grid.zero, im_places, grid.width, grid.num_scales, im)
            &&& re.len() == im.len() == out.0.len()
            &&& polar.collapsed(grid.zero, grid.one, out.0, (re, im), out.1, out.2)
        }
}

/// Phase-aware synchrosqueezing: moves amplitude as [`synchrosqueeze`] does and carries
/// the complex sum of amplitude and phase along. Gives amplitude, phase and coherence: the
/// angle of the complex sum, and its length as a share of the amplitude.
pub fn synchrosqueeze_with_phase<
    T: Copy + Add<Output = T> + Sub<Output = T> + Mul<Output = T> + Div<Output = T> + PartialOrd,
    N: Fn(usize) -> T,
    L: Fn(T) -> T,
    W: Fn(T) -> usize,
    R: Fn(T) -> (T, T),
    A: Fn(T, T) -> T,
    H: Fn(T, T) -> T,
>(
    amp: &Vec<T>,
    phase: &Vec<T>,
    dev: &Vec<T>,
    grid: &Grid<T, N, L, W>,
    polar: &Polar<R, A, H>,
) -> (out: (Vec<T>, Vec<T>, Vec<T>))
    requires
        grid.well_formed(),
        numeric::adds::<T>(),
        amp@.len() >= grid.num_scales * grid.width,
        dev@.len() >= grid.num_scales * grid.width,
        phase@.len() >= grid.num_scales * grid.width,
        polar.callable::<T>(),
    ensures
        out.0@.len() == amp@.len(),
        squeezed_with_phase(
            *grid,
            *polar,
            (amp@, phase@, dev@),
            (out.0@, out.1@, out.2@),
        ),
{
    let places = grid.place_all(amp, dev);
    let mut re_places: Vec<Option<Place<T>>> = Vec::new();
    let mut im_places: Vec<Option<Place<T>>> = Vec::new();
    let mut i: usize = 0;
    while i < places.len()
        invariant
            grid.well_formed(),
            grid.all_placed(amp@, dev@, places@),
            phase@.len() >= places@.len(),
            polar.callable::<T>(),
            i <= places@.len(),
            re_places@.len() == im_places@.len() == i,
            forall|k: int|
                0 <= k < i ==> turned_pixel(
                    polar.sin_cos,
                    phase@[k],
                    #[trigger] places@[k],
                    re_places@[k],
                    im_places@[k],
                ),
            forall|k: int|
                0 <= k < i ==> (#[trigger] re_places@[k] matches Some(p) ==> p.row
                    < grid.num_scales),
            forall|k: int|
                0 <= k < i ==> (#[trigger] im_places@[k] matches Some(p) ==> p.row
                    < grid.num_scales),
        decreases places@.len() - i,
    {
        match &places[i] {
            Some(p) => {
                let (sin, cos): (T, T) = (polar.sin_cos)(phase[i]);
                let row: usize = p.row;
                proof {
                    let k = i as int;
                    let s = (k / grid.width as int) as usize;
                    assert(grid.placed(s, amp@[k], dev@[k], places@[k]));
                }
                re_places.push(Some(Place { row, lower: p.lower * cos, upper: p.upper * cos }));
                im_places.push(Some(Place { row, lower: p.lower * sin, upper: p.upper * sin }));
            },
            None => {
                re_places.push(None);
                im_places.push(None);
            },
        }
        i = i + 1;
    }
    assert forall|k: int| 0 <= k < places@.len() implies (#[trigger] places@[k] matches Some(p)
        ==> p.row < grid.num_scales) by {
        assert(grid.placed((k / grid.width as int) as usize, amp@[k], dev@[k], places@[k]));
    }
    assert(turned(polar.sin_cos, phase@, places@, re_places@, im_places@));
    let n: usize = amp.len();
    let amplitude = scatter(grid.zero, &places, grid.width, grid.num_scales, n);
    let re = scatter(grid.zero, &re_places, grid.width, grid.num_scales, n);
    let im = scatter(grid.zero, &im_places, grid.width, grid.num_scales, n);
    let mut out_phase: Vec<T> = Vec::new();
    let mut coherence: Vec<T> = Vec::new();
    let mut i: usize = 0;
    while i < n
        invariant
            i <= n == amplitude@.len() == re@.len() == im@.len(),
            out_phase@.len() == coherence@.len() == i,
            polar.callable::<T>(),
            forall|k: int|
                0 <= k < i ==> polar.collapsed_pixel(
                    grid.zero,
                    grid.one,
                    amplitude@[k],
                    re@[k],
                    im@[k],
                    #[trigger] out_phase@[k],
                    coherence@[k],
                ),
        decreases n - i,
    {
        if amplitude[i] > grid.zero {
            let p: T = (polar.angle)(im[i], re[i]);
            let h: T = (polar.length)(re[i], im[i]);
            let q: T = h / amplitude[i];
            let m: T = viewport::lower(q, grid.one);
            proof {
                let (a, x, y) = (amplitude@[i as int], re@[i as int], im@[i as int]);
                assert(call_ensures(polar.length, (x, y), h) && numeric::quotient(h, a, q));
                assert(polar.collapsed_pixel(grid.zero, grid.one, a, x, y, p, m));
            }
            out_phase.push(p);
            coherence.push(m);
        } else {
            out_phase.push(re[i]);
            coherence.push(im[i]);
        }
        i = i + 1;
    }
    assert(polar.collapsed(
        grid.zero,
        grid.one,
        amplitude@,
        (re@, im@),
        out_phase@,
        coherence@,
    ));
    proof {
        let images = (amp@, phase@, dev@);
        assert(grid.all_placed(images.0, images.2, places@));
        assert(turned(polar.sin_cos, images.1, places@, re_places@, im_places@));
        assert(scattered(grid.zero, re_places@, grid.width, grid.num_scales, re@));
        assert(scattered(grid.zero, im_places@, grid.width, grid.num_scales, im@));
        assert(squeezed_with_phase(
            *grid,
            *polar,
            images,
            (amplitude@, out_phase@, coherence@),
        ));
    }
    (amplitude, out_phase, coherence)
}

/// The total of some values, read as real numbers.
pub open spec fn total<T>(val: spec_fn(T) -> real, values: Seq<T>) -> real
    decreases values.len(),
{
    if values.len() == 0 {
        0real
    } else {
        total(val, values.drop_last()) + val(values.last())
    }
}

/// What the first `k` pixels of column `c` give to the rows of the grid.
spec fn mass_given<T>(
    val: spec_fn(T) -> real,
    places: Seq<Option<Place<T>>>,
    width: int,
    num_scales: int,
    c: int,
    k: int,
) -> real
    decreases k,
{
    if k <= 0 {
        0real
    } else {
        mass_given(val, places, width, num_scales, c, k - 1) + match places[(k - 1) * width + c] {
            Some(p) => val(p.lower) + if p.row + 1 < num_scales {
                val(p.upper)
            } else {
                0real
            },
            None => 0real,
        }
    }
}

/// What the first `n` rows of column `c` hold.
pub open spec fn mass_held<T>(
    val: spec_fn(T) -> real,
    out: Seq<T>,
    width: int,
    c: int,
    n: int,
) -> real
    decreases n,
{
    if n <= 0 {
        0real
    } else {
        mass_held(val, out, width, c, n - 1) + val(out[(n - 1) * width + c])
    }
}

/// What the first `n` rows of column `c` receive from the first `k` pixels.
spec fn mass_received<T>(
    val: spec_fn(T) -> real,
    places: Seq<Option<Place<T>>>,
    width: int,
    c: int,
    k: int,
    n: int,
) -> real
    decreases n,
{
    if n <= 0 {
        0real
    } else {
        mass_received(val, places, width, c, k, n - 1) + total(
            val,
            received(places, width, n - 1, c, k),
        )
    }
}

proof fn one_more_pixel<T>(
    val: spec_fn(T) -> real,
    places: Seq<Option<Place<T>>>,
    width: int,
    c: int,
    k: int,
    n: int,
)
    requires
        k >= 1,
        n >= 0,
    ensures
        mass_received(val, places, width, c, k, n) == mass_received(
            val,
            places,
            width,
            c,
            k - 1,
            n,
        ) + match places[(k - 1) * width + c] {
            Some(p) => (if p.row < n {
                val(p.lower)
            } else {
                0real
            }) + (if p.row + 1 < n {
                val(p.upper)
            } else {
                0real
            }),
            None => 0real,
        },
    decreases n,
{
    if n > 0 {
        one_more_pixel(val, places, width, c, k, n - 1);
        let before = received(places, width, n - 1, c, k - 1);
        match places[(k - 1) * width + c] {
            Some(p) => {
                assert(before.push(p.lower).drop_last() =~= before);
                assert(before.push(p.upper).drop_last() =~= before);
            },
            None => {},
        }
    }
}

proof fn received_is_given<T>(
    val: spec_fn(T) -> real,
    places: Seq<Option<Place<T>>>,
    width: int,
    num_scales: int,
    c: int,
    k: int,
)
    requires
        0 <= c < width,
        0 <= k <= num_scales,
        places.len() == num_scales * width,
        forall|i: int|
            0 <= i < places.len() ==> (#[trigger] places[i] matches Some(p) ==> p.row
                < num_scales),
    ensures
        mass_received(val, places, width, c, k, num_scales) == mass_given(
            val,
            places,
            width,
            num_scales,
            c,
            k,
        ),
    decreases k,
{
    if k > 0 {
        received_is_given(val, places, width, num_scales, c, k - 1);
        one_more_pixel(val, places, width, c, k, num_scales);
        pixel_index(k - 1, c, width, num_scales);
    } else {
        nothing_received(val, places, width, c, num_scales);
    }
}

proof fn nothing_received<T>(
    val: spec_fn(T) -> real,
    places: Seq<Option<Place<T>>>,
    width: int,
    c: int,
    n: int,
)
    ensures
        mass_received(val, places, width, c, 0, n) == 0real,
    decreases n,
{
    if n > 0 {
        nothing_received(val, places, width, c, n - 1);
    }
}

proof fn sum_is_total<T: Add<Output = T>>(
    val: spec_fn(T) -> real,
    zero: T,
    values: Seq<T>,
    r: T,
)
    requires
        val(zero) == 0real,
        numeric::exact_sums(val),
        numeric::sums_to(zero, values, r),
    ensures
        val(r) == total(val, values),
    decreases values.len(),
{
    if values.len() > 0 {
        let q = choose|q: T|
            numeric::sums_to(zero, values.drop_last(), q) && #[trigger] numeric::sum(
                q,
                values.last(),
                r,
            );
        sum_is_total(val, zero, values.drop_last(), q);
    }
}

proof fn held_is_received<T: Add<Output = T>>(
    val: spec_fn(T) -> real,
    zero: T,
    places: Seq<Option<Place<T>>>,
    width: usize,
    num_scales: usize,
    out: Seq<T>,
    c: int,
    n: int,
)
    requires
        val(zero) == 0real,
        numeric::exact_sums(val),
        0 <= c < width,
        0 <= n <= num_scales,
        out.len() >= num_scales * width,
        scattered(zero, places, width, num_scales, out),
    ensures
        mass_held(val, out, width as int, c, n) == mass_received(
            val,
            places,
            width as int,
            c,
            num_scales as int,
            n,
        ),
    decreases n,
{
    if n > 0 {
        held_is_received(val, zero, places, width, num_scales, out, c, n - 1);
        pixel_index(n - 1, c, width as int, num_scales as int);
        let i = (n - 1) * width + c;
        sum_is_total(
            val,
            zero,
            received(places, width as int, n - 1, c, num_scales as int),
            out[i],
        );
    }
}

/// The moment of the first `n` rows of column `c`: what they hold, each by its number.
pub open spec fn moment_held<T>(
    val: spec_fn(T) -> real,
    out: Seq<T>,
    width: int,
    c: int,
    n: int,
) -> real
    decreases n,
{
    if n <= 0 {
        0real
    } else {
        moment_held(val, out, width, c, n - 1) + (n - 1) as real * val(out[(n - 1) * width + c])
    }
}

/// The moment of what the first `k` pixels of column `c` give to their rows.
pub open spec fn moment_given<T>(
    val: spec_fn(T) -> real,
    places: Seq<Option<Place<T>>>,
    width: int,
    c: int,
    k: int,
) -> real
    decreases k,
{
    if k <= 0 {
        0real
    } else {
        moment_given(val, places, width, c, k - 1) + match places[(k - 1) * width + c] {
            Some(p) => p.row as int as real * val(p.lower) + (p.row + 1) as real * val(p.upper),
            None => 0real,
        }
    }
}

spec fn moment_received<T>(
    val: spec_fn(T) -> real,
    places: Seq<Option<Place<T>>>,
    width: int,
    c: int,
    k: int,
    n: int,
) -> real
    decreases n,
{
    if n <= 0 {
        0real
    } else {
        moment_received(val, places, width, c, k, n - 1) + (n - 1) as real * total(
            val,
            received(places, width, n - 1, c, k),
        )
    }
}

proof fn no_moment_received<T>(
    val: spec_fn(T) -> real,
    places: Seq<Option<Place<T>>>,
    width: int,
    c: int,
    n: int,
)
    ensures
        moment_received(val, places, width, c, 0, n) == 0real,
    decreases n,
{
    if n > 0 {
        no_moment_received(val, places, width, c, n - 1);
        assert((n - 1) as real * 0real == 0real);
    }
}

proof fn one_more_moment<T>(
    val: spec_fn(T) -> real,
    places: Seq<Option<Place<T>>>,
    width: int,
    c: int,
    k: int,
    n: int,
)
    requires
        k >= 1,
        n >= 0,
    ensures
        moment_received(val, places, width, c, k, n) == moment_received(
            val,
            places,
            width,
            c,
            k - 1,
            n,
        ) + match places[(k - 1) * width + c] {
            Some(p) => (if p.row < n {
                p.row as int as real * val(p.lower)
            } else {
                0real
            }) + (if p.row + 1 < n {
                (p.row + 1) as real * val(p.upper)
            } else {
                0real
            }),
            None => 0real,
        },
    decreases n,
{
    if n > 0 {
        one_more_moment(val, places, width, c, k, n - 1);
        let before = received(places, width, n - 1, c, k - 1);
        let m = (n - 1) as real;
        match places[(k - 1) * width + c] {
            Some(p) => {
                assert(before.push(p.lower).drop_last() =~= before);
                assert(before.push(p.upper).drop_last() =~= before);
                let t = total(val, before);
                reals::distributed(t, val(p.lower), m);
                reals::distributed(t, val(p.upper), m);
            },
            None => {},
        }
    }
}

proof fn moment_is_received<T: Add<Output = T>>(
    val: spec_fn(T) -> real,
    zero: T,
    places: Seq<Option<Place<T>>>,
    width: usize,
    num_scales: usize,
    out: Seq<T>,
    c: int,
    n: int,
)
    requires
        val(zero) == 0real,
        numeric::exact_sums(val),
        0 <= c < width,
        0 <= n <= num_scales,
        out.len() >= num_scales * width,
        scattered(zero, places, width, num_scales, out),
    ensures
        moment_held(val, out, width as int, c, n) == moment_received(
            val,
            places,
            width as int,
            c,
            num_scales as int,
            n,
        ),
    decreases n,
{
    if n > 0 {
        moment_is_received(val, zero, places, width, num_scales, out, c, n - 1);
        pixel_index(n - 1, c, width as int, num_scales as int);
        let i = (n - 1) * width + c;
        sum_is_total(
            val,
            zero,
            received(places, width as int, n - 1, c, num_scales as int),
            out[i],
        );
    }
}

/// What the first `k` pixels of column `c` hold that are not dropped.
pub open spec fn mass_kept<T>(
    val: spec_fn(T) -> real,
    amp: Seq<T>,
    places: Seq<Option<Place<T>>>,
    width: int,
    c: int,
    k: int,
) -> real
    decreases k,
{
    if k <= 0 {
        0real
    } else {
        let i = (k - 1) * width + c;
        mass_kept(val, amp, places, width, c, k - 1) + if places[i] is Some {
            val(amp[i])
        } else {
            0real
        }
    }
}

impl<
    T: Copy + Add<Output = T> + Sub<Output = T> + Mul<Output = T> + PartialOrd,
    N: Fn(usize) -> T,
    L: Fn(T) -> T,
    W: Fn(T) -> usize,
> Grid<T, N, L, W> {
    /// The arithmetic is exact where values are read as real numbers, and the whole part of
    /// a value on the grid is less than one below it.
    pub open spec fn exact(self, val: spec_fn(T) -> real) -> bool {
        &&& numeric::exact_sums(val)
        &&& numeric::exact_differences(val)
        &&& numeric::exact_products(val)
        &&& numeric::exact_order(val)
        &&& numeric::exact_numbers(val, self.number)
        &&& val(self.zero) == 0real
        &&& val(self.one) == 1real
        &&& val(self.top) == (self.num_scales - 1) as real
        &&& forall|t: T, r: usize| #[trigger]
            call_ensures(self.whole, (t,), r) && 0real <= val(t) <= val(self.top) ==> r as int
                as real <= val(t) < r as int as real + 1real
    }

    /// With exact arithmetic, a kept pixel gives no negative part to its rows.
    pub proof fn parts_are_not_negative(
        self,
        val: spec_fn(T) -> real,
        s: usize,
        a: T,
        dev: T,
        p: Place<T>,
    )
        requires
            self.exact(val),
            self.kept(s, a, dev, p),
        ensures
            val(p.lower) >= 0real,
            val(p.upper) >= 0real,
    {
        let (t, f, g) = choose|t: T, f: T, g: T|
            {
                &&& numeric::at_most(a, self.zero, false)
                &&& numeric::at_most(dev, dev, true)
                &&& #[trigger] self.targets(s, dev, t)
                &&& self.on_grid(t, true)
                &&& self.splits(t, p.row, f)
                &&& #[trigger] numeric::difference(self.one, f, g)
                &&& numeric::product(a, g, p.lower)
                &&& numeric::product(a, f, p.upper)
            };
        reals::not_negative(val(a), val(g));
        reals::not_negative(val(a), val(f));
    }

    /// A kept pixel gives its whole amplitude: in exact arithmetic, what it gives to its two
    /// rows adds up to the amplitude, and what it gives to a row behind the last is nothing.
    pub proof fn a_kept_pixel_gives_its_amplitude(
        self,
        val: spec_fn(T) -> real,
        s: usize,
        a: T,
        dev: T,
        p: Place<T>,
    )
        requires
            self.exact(val),
            self.kept(s, a, dev, p),
            p.row < self.num_scales,
        ensures
            val(p.lower) + val(p.upper) == val(a),
            p.row + 1 == self.num_scales ==> val(p.upper) == 0real,
    {
        let (t, f, g) = choose|t: T, f: T, g: T|
            {
                &&& numeric::at_most(a, self.zero, false)
                &&& numeric::at_most(dev, dev, true)
                &&& #[trigger] self.targets(s, dev, t)
                &&& self.on_grid(t, true)
                &&& self.splits(t, p.row, f)
                &&& #[trigger] numeric::difference(self.one, f, g)
                &&& numeric::product(a, g, p.lower)
                &&& numeric::product(a, f, p.upper)
            };
        reals::distributed(val(g), val(f), val(a));
        assert(val(g) + val(f) == 1real);
        assert(val(a) * 1real == val(a) && val(a) * 0real == 0real);
        if p.row + 1 == self.num_scales {
            assert(val(f) == 0real);
        }
    }

    /// What the pixels of a column give is what they hold.
    proof fn kept_is_given(
        self,
        val: spec_fn(T) -> real,
        amp: Seq<T>,
        dev: Seq<T>,
        places: Seq<Option<Place<T>>>,
        c: int,
        k: int,
    )
        requires
            self.exact(val),
            self.all_placed(amp, dev, places),
            0 <= c < self.width,
            0 <= k <= self.num_scales,
        ensures
            mass_given(val, places, self.width as int, self.num_scales as int, c, k) == mass_kept(
                val,
                amp,
                places,
                self.width as int,
                c,
                k,
            ),
        decreases k,
    {
        if k > 0 {
            self.kept_is_given(val, amp, dev, places, c, k - 1);
            let (w, n) = (self.width as int, self.num_scales as int);
            pixel_index(k - 1, c, w, n);
            let i = (k - 1) * w + c;
            let s = (i / w) as usize;
            assert(self.placed(s, amp[i], dev[i], places[i]));
            if let Some(p) = places[i] {
                self.a_kept_pixel_gives_its_amplitude(val, s, amp[i], dev[i], p);
            }
        }
    }

    /// Squeezing preserves mass: in exact arithmetic, what a column holds afterwards is the
    /// amplitude of its pixels that are not dropped.
    pub proof fn squeezing_keeps_the_mass(
        self,
        val: spec_fn(T) -> real,
        amp: Seq<T>,
        dev: Seq<T>,
        places: Seq<Option<Place<T>>>,
        out: Seq<T>,
        c: int,
    )
        requires
            self.exact(val),
            self.all_placed(amp, dev, places),
            scattered(self.zero, places, self.width, self.num_scales, out),
            out.len() >= self.num_scales * self.width,
            0 <= c < self.width,
        ensures
            mass_held(val, out, self.width as int, c, self.num_scales as int) == mass_kept(
                val,
                amp,
                places,
                self.width as int,
                c,
                self.num_scales as int,
            ),
    {
        let (w, n) = (self.width as int, self.num_scales as int);
        assert forall|i: int| 0 <= i < places.len() implies (#[trigger] places[i] matches Some(p)
            ==> p.row < n) by {
            assert(self.placed((i / w) as usize, amp[i], dev[i], places[i]));
        }
        held_is_received(val, self.zero, places, self.width, self.num_scales, out, c, n);
        received_is_given(val, places, w, n, c, n);
        self.kept_is_given(val, amp, dev, places, c, n);
    }

    /// Squeezing puts mass where it belongs: in exact arithmetic, the moment of a column, each
    /// row counting by its number, is afterwards that of the parts that its pixels give to
    /// their two rows, so that the centre of what a pixel gives stays where it is placed.
    pub proof fn squeezing_keeps_the_centre(
        self,
        val: spec_fn(T) -> real,
        amp: Seq<T>,
        dev: Seq<T>,
        places: Seq<Option<Place<T>>>,
        out: Seq<T>,
        c: int,
    )
        requires
            self.exact(val),
            self.all_placed(amp, dev, places),
            scattered(self.zero, places, self.width, self.num_scales, out),
            out.len() >= self.num_scales * self.width,
            0 <= c < self.width,
        ensures
            moment_held(val, out, self.width as int, c, self.num_scales as int) == moment_given(
                val,
                places,
                self.width as int,
                c,
                self.num_scales as int,
            ),
    {
        let (w, n) = (self.width as int, self.num_scales as int);
        moment_is_received(val, self.zero, places, self.width, self.num_scales, out, c, n);
        self.received_moment_is_given(val, amp, dev, places, c, n);
    }

    proof fn received_moment_is_given(
        self,
        val: spec_fn(T) -> real,
        amp: Seq<T>,
        dev: Seq<T>,
        places: Seq<Option<Place<T>>>,
        c: int,
        k: int,
    )
        requires
            self.exact(val),
            self.all_placed(amp, dev, places),
            0 <= c < self.width,
            0 <= k <= self.num_scales,
        ensures
            moment_received(val, places, self.width as int, c, k, self.num_scales as int)
                == moment_given(val, places, self.width as int, c, k),
        decreases k,
    {
        let (w, n) = (self.width as int, self.num_scales as int);
        if k > 0 {
            self.received_moment_is_given(val, amp, dev, places, c, k - 1);
            one_more_moment(val, places, w, c, k, n);
            pixel_index(k - 1, c, w, n);
            let i = (k - 1) * w + c;
            let s = (i / w) as usize;
            assert(self.placed(s, amp[i], dev[i], places[i]));
            if let Some(p) = places[i] {
                self.a_kept_pixel_gives_its_amplitude(val, s, amp[i], dev[i], p);
                assert((p.row + 1) as real * 0real == 0real);
            }
        } else {
            no_moment_received(val, places, w, c, n);
        }
    }

    /// Every operation has one result.
    pub open spec fn determined(self) -> bool {
        &&& forall|a: T, b: T, x: T, y: T| #[trigger]
            numeric::sum(a, b, x) && #[trigger] numeric::sum(a, b, y) ==> x == y
        &&& forall|a: T, b: T, x: T, y: T| #[trigger]
            numeric::difference(a, b, x) && #[trigger] numeric::difference(a, b, y) ==> x == y
        &&& forall|a: T, b: T, x: T, y: T| #[trigger]
            numeric::product(a, b, x) && #[trigger] numeric::product(a, b, y) ==> x == y
        &&& forall|a: T, b: T| !(#[trigger] numeric::at_most(a, b, true) && numeric::at_most(
            a,
            b,
            false,
        ))
        &&& forall|a: T, b: T| !(#[trigger] numeric::at_least(a, b, true) && numeric::at_least(
            a,
            b,
            false,
        ))
        &&& forall|a: T, b: T| !(#[trigger] numeric::above(a, b, true) && numeric::above(
            a,
            b,
            false,
        ))
        &&& forall|n: usize, x: T, y: T| #[trigger]
            call_ensures(self.number, (n,), x) && #[trigger] call_ensures(self.number, (n,), y)
                ==> x == y
        &&& forall|t: T, x: T, y: T| #[trigger]
            call_ensures(self.ln, (t,), x) && #[trigger] call_ensures(self.ln, (t,), y) ==> x == y
        &&& forall|t: T, x: usize, y: usize| #[trigger]
            call_ensures(self.whole, (t,), x) && #[trigger] call_ensures(self.whole, (t,), y)
                ==> x == y
    }

    proof fn targets_agree(self, s: usize, dev: T, x: T, y: T)
        requires
            self.determined(),
            self.targets(s, dev, x),
            self.targets(s, dev, y),
        ensures
            x == y,
    {
        let (k, a, b, l, p) = choose|k: T, a: T, b: T, l: T, p: T|
            {
                &&& #[trigger] call_ensures(self.number, (s,), k)
                &&& #[trigger] numeric::sum(self.one, dev, a)
                &&& #[trigger] viewport::raised(a, self.floor, b)
                &&& #[trigger] call_ensures(self.ln, (b,), l)
                &&& #[trigger] numeric::product(l, self.rows_per_log, p)
                &&& numeric::sum(k, p, x)
            };
        let (k2, a2, b2, l2, p2) = choose|k: T, a: T, b: T, l: T, p: T|
            {
                &&& #[trigger] call_ensures(self.number, (s,), k)
                &&& #[trigger] numeric::sum(self.one, dev, a)
                &&& #[trigger] viewport::raised(a, self.floor, b)
                &&& #[trigger] call_ensures(self.ln, (b,), l)
                &&& #[trigger] numeric::product(l, self.rows_per_log, p)
                &&& numeric::sum(k, p, y)
            };
        assert(k == k2 && a == a2);
        assert(b == b2);
        assert(l == l2);
        assert(p == p2);
    }

    proof fn places_agree(self, s: usize, a: T, dev: T, x: Option<Place<T>>, y: Option<Place<T>>)
        requires
            self.determined(),
            self.placed(s, a, dev, x),
            self.placed(s, a, dev, y),
        ensures
            x == y,
    {
        assert forall|t: T, u: T| #[trigger]
            self.targets(s, dev, t) && #[trigger] self.targets(s, dev, u) implies t == u by {
            self.targets_agree(s, dev, t, u);
        }
        match (x, y) {
            (Some(p), Some(q)) => {
                let (t, f, g) = choose|t: T, f: T, g: T|
                    {
                        &&& numeric::at_most(a, self.zero, false)
                        &&& numeric::at_most(dev, dev, true)
                        &&& #[trigger] self.targets(s, dev, t)
                        &&& self.on_grid(t, true)
                        &&& self.splits(t, p.row, f)
                        &&& #[trigger] numeric::difference(self.one, f, g)
                        &&& numeric::product(a, g, p.lower)
                        &&& numeric::product(a, f, p.upper)
                    };
                let (t2, f2, g2) = choose|t: T, f: T, g: T|
                    {
                        &&& numeric::at_most(a, self.zero, false)
                        &&& numeric::at_most(dev, dev, true)
                        &&& #[trigger] self.targets(s, dev, t)
                        &&& self.on_grid(t, true)
                        &&& self.splits(t, q.row, f)
                        &&& #[trigger] numeric::difference(self.one, f, g)
                        &&& numeric::product(a, g, q.lower)
                        &&& numeric::product(a, f, q.upper)
                    };
                assert(t == t2);
                assert(p.row == q.row);
                assert(f == f2);
                assert(g == g2);
            },
            _ => {},
        }
    }

    /// Squeezing has one result where every operation has.
    proof fn squeezing_is_determined(
        self,
        amp: Seq<T>,
        dev: Seq<T>,
        out: Seq<T>,
        other: Seq<T>,
    )
        requires
            self.determined(),
            self.squeezed(amp, dev, out),
            self.squeezed(amp, dev, other),
            out.len() == other.len(),
        ensures
            out =~= other,
    {
        let places = choose|places: Seq<Option<Place<T>>>| #[trigger]
            self.all_placed(amp, dev, places) && scattered(
                self.zero,
                places,
                self.width,
                self.num_scales,
                out,
            );
        let also = choose|places: Seq<Option<Place<T>>>| #[trigger]
            self.all_placed(amp, dev, places) && scattered(
                self.zero,
                places,
                self.width,
                self.num_scales,
                other,
            );
        assert forall|i: int| 0 <= i < places.len() implies places[i] == also[i] by {
            let s = (i / self.width as int) as usize;
            assert(self.placed(s, amp[i], dev[i], places[i]));
            assert(self.placed(s, amp[i], dev[i], also[i]));
            self.places_agree(s, amp[i], dev[i], places[i], also[i]);
        }
        assert(places =~= also);
        let (w, n) = (self.width as int, self.num_scales as int);
        assert forall|i: int| 0 <= i < out.len() implies out[i] == other[i] by {
            if i < n * w {
                let r = received(places, w, i / w, i % w, n);
                numeric::sums_agree(self.zero, r, out[i], other[i]);
            }
        }
    }
}

/// Carrying the phase along does not change where amplitude goes: both variants give the
/// same amplitude for the same images, where every operation has one result.
pub proof fn amplitude_does_not_depend_on_phase<
    T: Copy + Add<Output = T> + Sub<Output = T> + Mul<Output = T> + Div<Output = T> + PartialOrd,
    N: Fn(usize) -> T,
    L: Fn(T) -> T,
    W: Fn(T) -> usize,
    R: Fn(T) -> (T, T),
    A: Fn(T, T) -> T,
    H: Fn(T, T) -> T,
>(
    grid: Grid<T, N, L, W>,
    polar: Polar<R, A, H>,
    images: (Seq<T>, Seq<T>, Seq<T>),
    plain: Seq<T>,
    out: (Seq<T>, Seq<T>, Seq<T>),
)
    requires
        grid.determined(),
        grid.squeezed(images.0, images.2, plain),
        squeezed_with_phase(grid, polar, images, out),
        plain.len() == out.0.len(),
    ensures
        plain == out.0,
{
    assert(grid.squeezed(images.0, images.2, out.0));
    grid.squeezing_is_determined(images.0, images.2, plain, out.0);
}

/// With exact arithmetic, phase-aware squeezing gives no negative amplitude. Where there is
/// amplitude, coherence lies between zero and one and phase in the range of angles; where
/// there is none, both are zero.
pub proof fn squeezed_values_are_in_range<
    T: Copy + Add<Output = T> + Sub<Output = T> + Mul<Output = T> + Div<Output = T> + PartialOrd,
    N: Fn(usize) -> T,
    L: Fn(T) -> T,
    W: Fn(T) -> usize,
    R: Fn(T) -> (T, T),
    A: Fn(T, T) -> T,
    H: Fn(T, T) -> T,
>(
    grid: Grid<T, N, L, W>,
    polar: Polar<R, A, H>,
    val: spec_fn(T) -> real,
    angles: (real, real),
    images: (Seq<T>, Seq<T>, Seq<T>),
    out: (Seq<T>, Seq<T>, Seq<T>),
    i: int,
)
    requires
        grid.exact(val),
        numeric::exact_quotients(val),
        forall|x: T, y: T, r: T| #[trigger]
            call_ensures(polar.length, (x, y), r) ==> val(r) >= 0real,
        forall|x: T, y: T, r: T| #[trigger]
            call_ensures(polar.angle, (x, y), r) ==> angles.0 < val(r) <= angles.1,
        squeezed_with_phase(grid, polar, images, out),
        0 <= i < out.0.len(),
    ensures
        val(out.0[i]) >= 0real,
        val(out.0[i]) > 0real ==> 0real <= val(out.2[i]) <= 1real && angles.0 < val(out.1[i])
            <= angles.1,
        val(out.0[i]) == 0real ==> val(out.2[i]) == 0real && val(out.1[i]) == 0real,
{
    let (places, re_places, im_places, re, im) = choose|
        places: Seq<Option<Place<T>>>,
        re_places: Seq<Option<Place<T>>>,
        im_places: Seq<Option<Place<T>>>,
        re: Seq<T>,
        im: Seq<T>,
    |
        {
            &&& #[trigger] grid.all_placed(images.0, images.2, places)
            &&& #[trigger] turned(polar.sin_cos, images.1, places, re_places, im_places)
            &&& scattered(grid.zero, places, grid.width, grid.num_scales, out.0)
            &&& #[trigger] scattered(grid.zero, re_places, grid.width, grid.num_scales, re)
            &&& #[trigger] scattered(grid.zero, im_places, grid.width, grid.num_scales, im)
            &&& re.len() == im.len() == out.0.len()
            &&& polar.collapsed(grid.zero, grid.one, out.0, (re, im), out.1, out.2)
        };
    let (a, x, y) = (out.0[i], re[i], im[i]);
    if i < grid.num_scales * grid.width {
        let (width, n) = (grid.width as int, grid.num_scales as int);
        assert forall|k: int| 0 <= k < places.len() implies (#[trigger] places[k] matches Some(p)
            ==> val(p.lower) >= 0real && val(p.upper) >= 0real) by {
            let s = (k / width) as usize;
            assert(grid.placed(s, images.0[k], images.2[k], places[k]));
            if let Some(p) = places[k] {
                grid.parts_are_not_negative(val, s, images.0[k], images.2[k], p);
            }
        }
        if width == 0 {
            lemma_mul_basics_1(n);
            lemma_mul_is_commutative(width, n);
        }
        lemma_mod_bound(i, width);
        no_amplitude_means_no_sum(
            val,
            grid.zero,
            polar.sin_cos,
            images.1,
            places,
            re_places,
            im_places,
            (width, i / width, i % width, n),
            a,
            x,
            y,
        );
    }
    assert(polar.collapsed_pixel(grid.zero, grid.one, a, x, y, out.1[i], out.2[i]));
    polar.collapsed_values_are_in_range(
        val,
        angles.0,
        angles.1,
        grid.zero,
        grid.one,
        a,
        x,
        y,
        out.1[i],
        out.2[i],
    );
}

impl<
    T: Copy + Add<Output = T> + Sub<Output = T> + Mul<Output = T> + Div<Output = T> + PartialOrd,
    N: Fn(usize) -> T,
    L: Fn(T) -> T,
    W: Fn(T) -> usize,
> Grid<T, N, L, W> {
    /// With exact arithmetic, a pixel moves to the row of its instantaneous frequency. Rows
    /// are evenly spaced in the logarithm of frequency, and all of them span `log_ratio`: so
    /// many rows above its own lies row `t` as the logarithm of the frequency ratio
    /// `1 + dev` is of the whole span. Where `t` lies on the grid, the amplitude is split
    /// between the two rows next to it so that its centre lies on `t`; where it does not, or
    /// where there is no amplitude, the pixel is dropped.
    pub proof fn pixels_move_to_their_frequency(
        self,
        val: spec_fn(T) -> real,
        log: spec_fn(real) -> real,
        log_ratio: T,
        shortest: T,
        s: usize,
        a: T,
        dev: T,
        p: Option<Place<T>>,
    ) -> (t: real)
        requires
            self.exact(val),
            numeric::exact_quotients(val),
            forall|v: T, r: T| #[trigger]
                call_ensures(self.ln, (v,), r) && val(v) > 0real ==> val(r) == log(val(v)),
            log_density(self.top, log_ratio, shortest, self.rows_per_log),
            val(log_ratio) >= val(shortest),
            val(shortest) > 0real,
            1real + val(dev) >= val(self.floor),
            val(self.floor) > 0real,
            self.placed(s, a, dev, p),
            val(a) > 0real ==> s < self.num_scales,
        ensures
            val(a) > 0real ==> (t - s as int as real) * val(log_ratio) == log(1real + val(dev)) * (
            self.num_scales - 1) as real,
            p is Some <==> val(a) > 0real && 0real <= t <= (self.num_scales - 1) as real,
            p matches Some(q) ==> {
                let (r, lower, upper) = (q.row as int as real, val(q.lower), val(q.upper));
                &&& r <= t < r + 1real
                &&& lower + upper == val(a)
                &&& r * lower + (r + 1real) * upper == val(a) * t
            },
    {
        let d = choose|d: T| #[trigger]
            viewport::raised(log_ratio, shortest, d) && numeric::quotient(
                self.top,
                d,
                self.rows_per_log,
            );
        let (k, top) = (val(self.rows_per_log), (self.num_scales - 1) as real);
        assert(val(d) == val(log_ratio));
        assert(k * val(log_ratio) == top);
        match p {
            Some(q) => {
                let (u, f, g) = choose|t: T, f: T, g: T|
                    {
                        &&& numeric::at_most(a, self.zero, false)
                        &&& numeric::at_most(dev, dev, true)
                        &&& #[trigger] self.targets(s, dev, t)
                        &&& self.on_grid(t, true)
                        &&& self.splits(t, q.row, f)
                        &&& #[trigger] numeric::difference(self.one, f, g)
                        &&& numeric::product(a, g, q.lower)
                        &&& numeric::product(a, f, q.upper)
                    };
                self.target_is_exact(val, log, s, dev, u);
                let (t, r, va, vf) = (val(u), q.row as int as real, val(a), val(f));
                assert(vf == t - r);
                reals::distributed(val(g), vf, va);
                assert(val(g) + vf == 1real && va * 1real == va);
                let (x, y) = (val(q.lower), val(q.upper));
                reals::distributed(x, y, r);
                reals::distributed(r, 1real, y);
                assert(1real * y == y);
                assert(r * y == y * r);
                reals::distributed(r, vf, va);
                assert(r * va == va * r);
                reals::associated(log(1real + val(dev)), k, val(log_ratio));
                t
            },
            None => {
                if val(a) > 0real {
                    let u = choose|t: T|
                        {
                            &&& numeric::at_most(a, self.zero, false)
                            &&& numeric::at_most(dev, dev, true)
                            &&& #[trigger] self.targets(s, dev, t)
                            &&& self.on_grid(t, false)
                        };
                    self.target_is_exact(val, log, s, dev, u);
                    reals::associated(log(1real + val(dev)), k, val(log_ratio));
                    val(u)
                } else {
                    0real
                }
            },
        }
    }

    proof fn target_is_exact(
        self,
        val: spec_fn(T) -> real,
        log: spec_fn(real) -> real,
        s: usize,
        dev: T,
        t: T,
    )
        requires
            self.exact(val),
            forall|v: T, r: T| #[trigger]
                call_ensures(self.ln, (v,), r) && val(v) > 0real ==> val(r) == log(val(v)),
            1real + val(dev) >= val(self.floor),
            val(self.floor) > 0real,
            self.targets(s, dev, t),
        ensures
            val(t) - s as int as real == log(1real + val(dev)) * val(self.rows_per_log),
    {
        let (k, a, b, l, p) = choose|k: T, a: T, b: T, l: T, p: T|
            {
                &&& #[trigger] call_ensures(self.number, (s,), k)
                &&& #[trigger] numeric::sum(self.one, dev, a)
                &&& #[trigger] viewport::raised(a, self.floor, b)
                &&& #[trigger] call_ensures(self.ln, (b,), l)
                &&& #[trigger] numeric::product(l, self.rows_per_log, p)
                &&& numeric::sum(k, p, t)
            };
        assert(val(b) == 1real + val(dev));
    }
}

/// With exact arithmetic, where all pixels that reach a row have the same phase, the complex
/// sum of the row is its amplitude in that direction.
pub proof fn agreeing_phases_are_kept<T: Add<Output = T> + Mul<Output = T>, R: Fn(T) -> (T, T)>(
    val: spec_fn(T) -> real,
    zero: T,
    sin_cos: R,
    sine: real,
    cosine: real,
    phase: Seq<T>,
    places: Seq<Option<Place<T>>>,
    re: Seq<Option<Place<T>>>,
    im: Seq<Option<Place<T>>>,
    at: (int, int, int, int),
    a: T,
    x: T,
    y: T,
)
    requires
        numeric::exact_sums(val),
        numeric::exact_products(val),
        val(zero) == 0real,
        turned(sin_cos, phase, places, re, im),
        forall|i: int, s: T, c: T| #[trigger]
            call_ensures(sin_cos, (phase[i],), (s, c)) ==> val(s) == sine && val(c) == cosine,
        0 <= at.2 < at.0,
        0 <= at.3,
        at.3 * at.0 <= places.len(),
        numeric::sums_to(zero, received(places, at.0, at.1, at.2, at.3), a),
        numeric::sums_to(zero, received(re, at.0, at.1, at.2, at.3), x),
        numeric::sums_to(zero, received(im, at.0, at.1, at.2, at.3), y),
    ensures
        val(x) == val(a) * cosine,
        val(y) == val(a) * sine,
    decreases at.3,
{
    let (width, r, c, k) = at;
    assert(0real * cosine == 0real && 0real * sine == 0real);
    if k > 0 {
        let i = (k - 1) * width + c;
        assert(0 <= i < places.len()) by (nonlinear_arith)
            requires
                i == (k - 1) * width + c,
                0 <= c < width,
                k >= 1,
                k * width <= places.len(),
        ;
        assert((k - 1) * width <= places.len()) by (nonlinear_arith)
            requires
                0 < width,
                k * width <= places.len(),
        ;
        let was = received(places, width, r, c, k - 1);
        let was_re = received(re, width, r, c, k - 1);
        let was_im = received(im, width, r, c, k - 1);
        let before = (width, r, c, k - 1);
        assert(turned_pixel(sin_cos, phase[i], places[i], re[i], im[i]));
        let hit = match places[i] {
            Some(p) => p.row == r || p.row + 1 == r,
            None => false,
        };
        if hit {
            let p = places[i]->0;
            let w = if p.row == r {
                p.lower
            } else {
                p.upper
            };
            let now = received(places, width, r, c, k);
            let now_re = received(re, width, r, c, k);
            let now_im = received(im, width, r, c, k);
            assert(now.drop_last() =~= was && now.last() == w);
            assert(now_re.drop_last() =~= was_re);
            assert(now_im.drop_last() =~= was_im);
            let q = choose|q: T|
                numeric::sums_to(zero, now.drop_last(), q) && #[trigger] numeric::sum(
                    q,
                    now.last(),
                    a,
                );
            let qx = choose|q: T|
                numeric::sums_to(zero, now_re.drop_last(), q) && #[trigger] numeric::sum(
                    q,
                    now_re.last(),
                    x,
                );
            let qy = choose|q: T|
                numeric::sums_to(zero, now_im.drop_last(), q) && #[trigger] numeric::sum(
                    q,
                    now_im.last(),
                    y,
                );
            agreeing_phases_are_kept(
                val,
                zero,
                sin_cos,
                sine,
                cosine,
                phase,
                places,
                re,
                im,
                before,
                q,
                qx,
                qy,
            );
            let (sn, cs) = choose|sin: T, cos: T|
                {
                    &&& #[trigger] call_ensures(sin_cos, (phase[i],), (sin, cos))
                    &&& re[i] matches Some(q) && q.row == p.row && numeric::product(
                        p.lower,
                        cos,
                        q.lower,
                    ) && numeric::product(p.upper, cos, q.upper)
                    &&& im[i] matches Some(q) && q.row == p.row && numeric::product(
                        p.lower,
                        sin,
                        q.lower,
                    ) && numeric::product(p.upper, sin, q.upper)
                };
            reals::distributed(val(q), val(w), cosine);
            reals::distributed(val(q), val(w), sine);
        } else {
            agreeing_phases_are_kept(
                val,
                zero,
                sin_cos,
                sine,
                cosine,
                phase,
                places,
                re,
                im,
                before,
                a,
                x,
                y,
            );
        }
    }
}

impl<R, A, H> Polar<R, A, H> {
    /// With exact arithmetic, where there is amplitude, phase and coherence are those of the
    /// complex sum: the sum points in the direction of the phase, and its length, which
    /// their squares add up to, is the share of the amplitude that coherence says, or more
    /// than all of it where that is one.
    pub proof fn phase_and_coherence_are_those_of_the_sum<T: Div<Output = T> + PartialOrd>(
        self,
        val: spec_fn(T) -> real,
        sine: spec_fn(real) -> real,
        cosine: spec_fn(real) -> real,
        zero: T,
        one: T,
        amplitude: Seq<T>,
        sums: (Seq<T>, Seq<T>),
        phase: Seq<T>,
        coherence: Seq<T>,
        i: int,
    ) -> (length: real) where R: Fn(T) -> (T, T), A: Fn(T, T) -> T, H: Fn(T, T) -> T
        requires
            numeric::exact_quotients(val),
            numeric::exact_order(val),
            val(zero) == 0real,
            val(one) == 1real,
            forall|x: T, y: T, r: T| #[trigger]
                call_ensures(self.length, (x, y), r) ==> val(r) >= 0real && val(r) * val(r) == val(
                    x,
                ) * val(x) + val(y) * val(y),
            forall|y: T, x: T, r: T, l: real|
                #![trigger call_ensures(self.angle, (y, x), r), is_length(l)]
                call_ensures(self.angle, (y, x), r) && is_length(l) && l * l == val(x) * val(x)
                    + val(y) * val(y) ==> l * cosine(val(r)) == val(x) && l * sine(val(r)) == val(
                    y,
                ),
            self.collapsed(zero, one, amplitude, sums, phase, coherence),
            0 <= i < amplitude.len(),
            val(amplitude[i]) > 0real,
        ensures
            length >= 0real,
            length * length == val(sums.0[i]) * val(sums.0[i]) + val(sums.1[i]) * val(sums.1[i]),
            length * cosine(val(phase[i])) == val(sums.0[i]),
            length * sine(val(phase[i])) == val(sums.1[i]),
            length <= val(amplitude[i]) ==> val(coherence[i]) * val(amplitude[i]) == length,
            length > val(amplitude[i]) ==> val(coherence[i]) == 1real,
    {
        let (a, re, im) = (amplitude[i], sums.0[i], sums.1[i]);
        assert(self.collapsed_pixel(zero, one, a, re, im, phase[i], coherence[i]));
        let (h, q) = choose|h: T, q: T|
            {
                &&& #[trigger] call_ensures(self.length, (re, im), h)
                &&& #[trigger] numeric::quotient(h, a, q)
                &&& viewport::lowered(q, one, coherence[i])
            };
        let (l, va) = (val(h), val(a));
        assert(is_length(l));
        assert(1real * va == va);
        if l <= va {
            reals::quotient_at_most(val(q), va, 1real);
        } else if val(q) < 1real {
            reals::ordered(val(q), 1real, va);
        }
        l
    }
}

/// A length is not negative.
pub open spec fn is_length(l: real) -> bool {
    l >= 0real
}

} // verus!
