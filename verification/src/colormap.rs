//! Colour maps, display modes, brightness scaling and the conversion of transform images
//! to RGBA pixels.

use std::ops::{Add, Div, Mul, Sub};
use vstd::prelude::*;
use vstd::arithmetic::div_mod::*;
use vstd::arithmetic::mul::*;

use crate::numeric;
#[allow(unused_imports)]
use crate::reals;
#[allow(unused_imports)]
use crate::squeeze;
use crate::viewport;

verus! {

/// Colour maps of the scalogram.
#[derive(Clone, Copy, Debug, PartialEq, Eq, Structural)]
pub enum ColorMap {
    Plasma,
    Viridis,
    Magma,
    Inferno,
    Hot,
}

/// What the scalogram image shows.
#[derive(Clone, Copy, Debug, PartialEq, Eq, Structural)]
pub enum DisplayMode {
    /// Amplitude through the colour map.
    Amplitude,
    /// Amplitude, reassigned along the frequency axis.
    Synchro,
    /// Reassigned amplitude and phase.
    SynchroPhase,
    /// Amplitude of several passes of rising sharpness.
    Superlet,
    /// Phase as hue.
    Phase,
    /// Phase as hue, amplitude as brightness.
    Combined,
    /// Deviation of the instantaneous frequency.
    InstFreq,
    /// Phase difference of the first two channels.
    CrossPhase,
}

impl DisplayMode {
    pub open spec fn name_of(self) -> Seq<char> {
        match self {
            DisplayMode::Amplitude => "Amplitude"@,
            DisplayMode::Synchro => "Synchro"@,
            DisplayMode::SynchroPhase => "SynchroPhase"@,
            DisplayMode::Superlet => "Superlet"@,
            DisplayMode::Phase => "Phase"@,
            DisplayMode::Combined => "Phase+Amplitude"@,
            DisplayMode::InstFreq => "InstFreq"@,
            DisplayMode::CrossPhase => "CrossPhase"@,
        }
    }

    pub fn name(self) -> (s: &'static str)
        ensures
            s@ == self.name_of(),
    {
        match self {
            DisplayMode::Amplitude => "Amplitude",
            DisplayMode::Synchro => "Synchro",
            DisplayMode::SynchroPhase => "SynchroPhase",
            DisplayMode::Superlet => "Superlet",
            DisplayMode::Phase => "Phase",
            DisplayMode::Combined => "Phase+Amplitude",
            DisplayMode::InstFreq => "InstFreq",
            DisplayMode::CrossPhase => "CrossPhase",
        }
    }
}

/// A breakpoint of a colour map: position and colour.
#[derive(Clone, Copy, Debug, PartialEq, Eq)]
pub struct Stop<T> {
    pub at: T,
    pub r: T,
    pub g: T,
    pub b: T,
}

/// A breakpoint in thousandths.
pub open spec fn stop(at: u32, r: u32, g: u32, b: u32) -> Stop<u32> {
    Stop { at, r, g, b }
}

fn stop_of(at: u32, r: u32, g: u32, b: u32) -> (s: Stop<u32>)
    ensures
        s == stop(at, r, g, b),
{
    Stop { at, r, g, b }
}

impl ColorMap {
    pub open spec fn name_of(self) -> Seq<char> {
        match self {
            ColorMap::Plasma => "Plasma"@,
            ColorMap::Viridis => "Viridis"@,
            ColorMap::Magma => "Magma"@,
            ColorMap::Inferno => "Inferno"@,
            ColorMap::Hot => "Hot"@,
        }
    }

    pub fn name(self) -> (s: &'static str)
        ensures
            s@ == self.name_of(),
    {
        match self {
            ColorMap::Plasma => "Plasma",
            ColorMap::Viridis => "Viridis",
            ColorMap::Magma => "Magma",
            ColorMap::Inferno => "Inferno",
            ColorMap::Hot => "Hot",
        }
    }

    /// The colour maps on offer.
    pub open spec fn offered() -> Seq<ColorMap> {
        seq![
            ColorMap::Plasma,
            ColorMap::Viridis,
            ColorMap::Magma,
            ColorMap::Inferno,
            ColorMap::Hot,
        ]
    }

    /// Every colour map is on offer once.
    pub proof fn every_map_is_offered(self)
        ensures
            Self::offered().contains(self),
            Self::offered().no_duplicates(),
    {
        let m = Self::offered();
        assert(m[0] == ColorMap::Plasma && m[1] == ColorMap::Viridis && m[2] == ColorMap::Magma);
        assert(m[3] == ColorMap::Inferno && m[4] == ColorMap::Hot);
    }

    /// All colour maps, in the order in which they are offered.
    pub fn all() -> (maps: Vec<ColorMap>)
        ensures
            maps@ == Self::offered(),
    {
        let maps = vec![
            ColorMap::Plasma,
            ColorMap::Viridis,
            ColorMap::Magma,
            ColorMap::Inferno,
            ColorMap::Hot,
        ];
        assert(maps@ =~= Self::offered());
        maps
    }

    /// The breakpoints in thousandths.
    pub open spec fn table(self) -> Seq<Stop<u32>> {
        match self {
            ColorMap::Plasma => seq![
                stop(0, 50, 30, 527),
                stop(250, 432, 3, 681),
                stop(500, 796, 180, 451),
                stop(750, 974, 484, 136),
                stop(1000, 940, 975, 131),
            ],
            ColorMap::Viridis => seq![
                stop(0, 267, 5, 329),
                stop(250, 229, 322, 545),
                stop(500, 127, 566, 550),
                stop(750, 369, 789, 382),
                stop(1000, 993, 906, 144),
            ],
            ColorMap::Magma => seq![
                stop(0, 1, 0, 14),
                stop(250, 316, 71, 484),
                stop(500, 737, 242, 491),
                stop(750, 977, 656, 636),
                stop(1000, 988, 991, 750),
            ],
            ColorMap::Inferno => seq![
                stop(0, 1, 0, 14),
                stop(250, 321, 67, 426),
                stop(500, 776, 214, 277),
                stop(750, 987, 628, 159),
                stop(1000, 988, 998, 645),
            ],
            ColorMap::Hot => seq![
                stop(0, 0, 0, 0),
                stop(333, 1000, 0, 0),
                stop(667, 1000, 1000, 0),
                stop(1000, 1000, 1000, 1000),
            ],
        }
    }

    /// The breakpoints in thousandths.
    pub fn stops(self) -> (t: Vec<Stop<u32>>)
        ensures
            t@ == self.table(),
    {
        let t = match self {
            ColorMap::Plasma => vec![
                stop_of(0, 50, 30, 527),
                stop_of(250, 432, 3, 681),
                stop_of(500, 796, 180, 451),
                stop_of(750, 974, 484, 136),
                stop_of(1000, 940, 975, 131),
            ],
            ColorMap::Viridis => vec![
                stop_of(0, 267, 5, 329),
                stop_of(250, 229, 322, 545),
                stop_of(500, 127, 566, 550),
                stop_of(750, 369, 789, 382),
                stop_of(1000, 993, 906, 144),
            ],
            ColorMap::Magma => vec![
                stop_of(0, 1, 0, 14),
                stop_of(250, 316, 71, 484),
                stop_of(500, 737, 242, 491),
                stop_of(750, 977, 656, 636),
                stop_of(1000, 988, 991, 750),
            ],
            ColorMap::Inferno => vec![
                stop_of(0, 1, 0, 14),
                stop_of(250, 321, 67, 426),
                stop_of(500, 776, 214, 277),
                stop_of(750, 987, 628, 159),
                stop_of(1000, 988, 998, 645),
            ],
            ColorMap::Hot => vec![
                stop_of(0, 0, 0, 0),
                stop_of(333, 1000, 0, 0),
                stop_of(667, 1000, 1000, 0),
                stop_of(1000, 1000, 1000, 1000),
            ],
        };
        assert(t@ =~= self.table());
        t
    }

    /// Every colour map gets lighter from stop to stop, as the eye weighs the colours.
    pub proof fn maps_get_lighter(self, i: int, j: int)
        requires
            0 <= i < j < self.table().len(),
        ensures
            ({
                let (a, b) = (self.table()[i], self.table()[j]);
                299 * a.r + 587 * a.g + 114 * a.b < 299 * b.r + 587 * b.g + 114 * b.b
            }),
    {
    }

    /// Every colour map spans the whole range in ascending order, with colours in range.
    pub proof fn tables_span_the_range(self, i: int, j: int)
        requires
            0 <= i < j < self.table().len(),
        ensures
            self.table()[0].at == 0,
            self.table().last().at == 1000,
            self.table()[i].at < self.table()[j].at,
            self.table()[i].r <= 1000 && self.table()[i].g <= 1000 && self.table()[i].b <= 1000,
            self.table()[j].r <= 1000 && self.table()[j].g <= 1000 && self.table()[j].b <= 1000,
    {
    }
}

/// `v` lies the fraction `frac` of the way from `a` to `b`.
pub open spec fn between<T: Add<Output = T> + Sub<Output = T> + Mul<Output = T>>(
    a: T,
    b: T,
    frac: T,
    v: T,
) -> bool {
    exists|d: T, p: T|
        {
            &&& #[trigger] numeric::difference(b, a, d)
            &&& #[trigger] numeric::product(frac, d, p)
            &&& numeric::sum(a, p, v)
        }
}

/// `rgb` is interpolated between two stops at position `t`.
pub open spec fn interpolated<
    T: Add<Output = T> + Sub<Output = T> + Mul<Output = T> + Div<Output = T>,
>(t: T, from: Stop<T>, to: Stop<T>, rgb: (T, T, T)) -> bool {
    exists|n: T, d: T, frac: T|
        {
            &&& #[trigger] numeric::difference(t, from.at, n)
            &&& #[trigger] numeric::difference(to.at, from.at, d)
            &&& #[trigger] numeric::quotient(n, d, frac)
            &&& between(from.r, to.r, frac, rgb.0)
            &&& between(from.g, to.g, frac, rgb.1)
            &&& between(from.b, to.b, frac, rgb.2)
        }
}

/// `rgb` is the colour at position `t`: that of the first stop up to it, that of the last
/// stop from it on, otherwise interpolated between the first stop not before `t` and the
/// one that precedes it. Without stops it is grey.
pub open spec fn coloured<
    T: Add<Output = T> + Sub<Output = T> + Mul<Output = T> + Div<Output = T> + PartialOrd,
>(t: T, stops: Seq<Stop<T>>, rgb: (T, T, T)) -> bool {
    if stops.len() == 0 {
        rgb == (t, t, t)
    } else {
        let (first, last) = (stops[0], stops.last());
        ||| numeric::at_most(t, first.at, true) && rgb == (first.r, first.g, first.b)
        ||| numeric::at_most(t, first.at, false) && numeric::at_least(t, last.at, true) && rgb == (
            last.r,
            last.g,
            last.b,
        )
        ||| numeric::at_most(t, first.at, false) && numeric::at_least(t, last.at, false)
            && coloured_inside(t, stops, rgb)
    }
}

pub open spec fn coloured_inside<
    T: Add<Output = T> + Sub<Output = T> + Mul<Output = T> + Div<Output = T> + PartialOrd,
>(t: T, stops: Seq<Stop<T>>, rgb: (T, T, T)) -> bool {
    let last = stops.last();
    ||| exists|i: int|
        {
            &&& 1 <= i < stops.len()
            &&& numeric::at_most(t, (#[trigger] stops[i]).at, true)
            &&& forall|k: int|
                1 <= k < i ==> numeric::at_most(t, (#[trigger] stops[k]).at, false)
            &&& interpolated(t, stops[i - 1], stops[i], rgb)
        }
    ||| {
        &&& forall|k: int|
            1 <= k < stops.len() ==> numeric::at_most(t, (#[trigger] stops[k]).at, false)
        &&& rgb == (last.r, last.g, last.b)
    }
}

/// `v` divides the way from `a` to `b` as `t` divides the way from `from` to `to`.
pub open spec fn proportional(t: real, from: real, to: real, a: real, b: real, v: real) -> bool {
    (v - a) * (to - from) == (t - from) * (b - a)
}

proof fn mixes_are_proportional(t: real, from: real, to: real, a: real, b: real, f: real, v: real)
    requires
        f * (to - from) == t - from,
        v == a + f * (b - a),
    ensures
        proportional(t, from, to, a, b, v),
{
    let (d, e) = (to - from, b - a);
    reals::associated(e, f, d);
    assert(e * f == f * e);
    assert(e * (f * d) == (f * d) * e);
}

/// With exact arithmetic, a colour map runs straight from each stop to the next and through
/// all of them: between two stops every colour divides the way between theirs as the position
/// does, and before the first and behind the last stop the colour is theirs.
pub proof fn colours_run_from_stop_to_stop<
    T: Add<Output = T> + Sub<Output = T> + Mul<Output = T> + Div<Output = T> + PartialOrd,
>(val: spec_fn(T) -> real, t: T, stops: Seq<Stop<T>>, rgb: (T, T, T), i: int)
    requires
        numeric::exact_sums(val),
        numeric::exact_differences(val),
        numeric::exact_products(val),
        numeric::exact_quotients(val),
        numeric::exact_order(val),
        forall|j: int, k: int|
            0 <= j < k < stops.len() ==> val((#[trigger] stops[j]).at) < val(
                (#[trigger] stops[k]).at,
            ),
        coloured(t, stops, rgb),
        0 <= i < stops.len() - 1,
    ensures
        val(t) <= val(stops[0].at) ==> rgb == (stops[0].r, stops[0].g, stops[0].b),
        val(t) >= val(stops.last().at) ==> rgb == (
            stops.last().r,
            stops.last().g,
            stops.last().b,
        ),
        val(stops[i].at) <= val(t) <= val(stops[i + 1].at) ==> {
            let (x, a, b) = (val(t), stops[i], stops[i + 1]);
            &&& proportional(x, val(a.at), val(b.at), val(a.r), val(b.r), val(rgb.0))
            &&& proportional(x, val(a.at), val(b.at), val(a.g), val(b.g), val(rgb.1))
            &&& proportional(x, val(a.at), val(b.at), val(a.b), val(b.b), val(rgb.2))
        },
        val(t) == val(stops[i].at) ==> {
            &&& val(rgb.0) == val(stops[i].r)
            &&& val(rgb.1) == val(stops[i].g)
            &&& val(rgb.2) == val(stops[i].b)
        },
{
    let (x, a, b) = (val(t), stops[i], stops[i + 1]);
    let (first, last) = (stops[0], stops.last());
    let at = val(a.at);
    assert(stops[stops.len() - 1] == last);
    if at <= x <= val(b.at) {
        if x <= val(first.at) {
            assert(i == 0) by {
                if i > 0 {
                    assert(val(stops[0].at) < val(stops[i].at));
                }
            }
            still(x, at, val(b.at), val(a.r), val(b.r));
            still(x, at, val(b.at), val(a.g), val(b.g));
            still(x, at, val(b.at), val(a.b), val(b.b));
        } else if x >= val(last.at) {
            assert(i + 1 == stops.len() - 1) by {
                if i + 1 < stops.len() - 1 {
                    assert(val(stops[i + 1].at) < val(stops[stops.len() - 1].at));
                }
            }
            arrived(x, at, val(b.at), val(a.r), val(b.r));
            arrived(x, at, val(b.at), val(a.g), val(b.g));
            arrived(x, at, val(b.at), val(a.b), val(b.b));
        } else {
            let k = choose|k: int|
                {
                    &&& 1 <= k < stops.len()
                    &&& numeric::at_most(t, (#[trigger] stops[k]).at, true)
                    &&& forall|j: int|
                        1 <= j < k ==> numeric::at_most(t, (#[trigger] stops[j]).at, false)
                    &&& interpolated(t, stops[k - 1], stops[k], rgb)
                };
            assert(numeric::at_most(t, stops[stops.len() - 1].at, false) ==> false);
            inside(val, t, stops, rgb, i, k);
        }
    }
    if x == at {
        let d = val(b.at) - at;
        assert(0real * (val(b.r) - val(a.r)) == 0real);
        assert(0real * (val(b.g) - val(a.g)) == 0real);
        assert(0real * (val(b.b) - val(a.b)) == 0real);
        cancelled(val(rgb.0) - val(a.r), d);
        cancelled(val(rgb.1) - val(a.g), d);
        cancelled(val(rgb.2) - val(a.b), d);
    }
}

proof fn still(x: real, from: real, to: real, a: real, b: real)
    requires
        x == from,
    ensures
        proportional(x, from, to, a, b, a),
{
    assert(0real * (to - from) == 0real && 0real * (b - a) == 0real);
}

proof fn arrived(x: real, from: real, to: real, a: real, b: real)
    requires
        x == to,
    ensures
        proportional(x, from, to, a, b, b),
{
    assert((b - a) * (to - from) == (to - from) * (b - a));
}

proof fn cancelled(a: real, d: real)
    requires
        d > 0real,
        a * d == 0real,
    ensures
        a == 0real,
{
    assert(0real * d == 0real);
    if a < 0real {
        reals::ordered(a, 0real, d);
    } else if a > 0real {
        reals::ordered(0real, a, d);
    }
}

proof fn inside<
    T: Add<Output = T> + Sub<Output = T> + Mul<Output = T> + Div<Output = T> + PartialOrd,
>(val: spec_fn(T) -> real, t: T, stops: Seq<Stop<T>>, rgb: (T, T, T), i: int, k: int)
    requires
        numeric::exact_sums(val),
        numeric::exact_differences(val),
        numeric::exact_products(val),
        numeric::exact_quotients(val),
        numeric::exact_order(val),
        forall|j: int, k: int|
            0 <= j < k < stops.len() ==> val((#[trigger] stops[j]).at) < val(
                (#[trigger] stops[k]).at,
            ),
        0 <= i < stops.len() - 1,
        1 <= k < stops.len(),
        numeric::at_most(t, stops[k].at, true),
        forall|j: int| 1 <= j < k ==> numeric::at_most(t, (#[trigger] stops[j]).at, false),
        interpolated(t, stops[k - 1], stops[k], rgb),
        val(stops[0].at) < val(t),
        val(stops[i].at) <= val(t) <= val(stops[i + 1].at),
    ensures
        ({
            let (x, a, b) = (val(t), stops[i], stops[i + 1]);
            &&& proportional(x, val(a.at), val(b.at), val(a.r), val(b.r), val(rgb.0))
            &&& proportional(x, val(a.at), val(b.at), val(a.g), val(b.g), val(rgb.1))
            &&& proportional(x, val(a.at), val(b.at), val(a.b), val(b.b), val(rgb.2))
        }),
{
    let (x, a, b) = (val(t), stops[i], stops[i + 1]);
    let (from, to) = (stops[k - 1], stops[k]);
    let (n, d, frac) = choose|n: T, d: T, frac: T|
        {
            &&& #[trigger] numeric::difference(t, from.at, n)
            &&& #[trigger] numeric::difference(to.at, from.at, d)
            &&& #[trigger] numeric::quotient(n, d, frac)
            &&& between(from.r, to.r, frac, rgb.0)
            &&& between(from.g, to.g, frac, rgb.1)
            &&& between(from.b, to.b, frac, rgb.2)
        };
    let (p, q, f) = (val(from.at), val(to.at), val(frac));
    mixes_are_proportional(x, p, q, val(from.r), val(to.r), f, val(rgb.0));
    mixes_are_proportional(x, p, q, val(from.g), val(to.g), f, val(rgb.1));
    mixes_are_proportional(x, p, q, val(from.b), val(to.b), f, val(rgb.2));
    if k < i + 1 {
        assert(val(stops[k].at) <= val(stops[i].at));
        assert(k == i);
        let w = q - p;
        assert(proportional(x, p, q, val(from.r), val(to.r), val(rgb.0)));
        reached(x, p, q, val(from.r), val(to.r), val(rgb.0));
        reached(x, p, q, val(from.g), val(to.g), val(rgb.1));
        reached(x, p, q, val(from.b), val(to.b), val(rgb.2));
        still(x, val(a.at), val(b.at), val(a.r), val(b.r));
        still(x, val(a.at), val(b.at), val(a.g), val(b.g));
        still(x, val(a.at), val(b.at), val(a.b), val(b.b));
    } else if k > i + 1 {
        assert(numeric::at_most(t, stops[i + 1].at, false));
    }
}

proof fn reached(x: real, from: real, to: real, a: real, b: real, v: real)
    requires
        x == to,
        from < to,
        proportional(x, from, to, a, b, v),
    ensures
        v == b,
{
    let w = to - from;
    reals::distributed(v - a, b - a, w);
    assert((to - from) * (b - a) == (b - a) * w);
    assert((v - a) - (b - a) == v - b);
    assert((v - b) * w == 0real);
    cancelled(v - b, w);
}

fn mix<T: Copy + Add<Output = T> + Sub<Output = T> + Mul<Output = T>>(a: T, b: T, frac: T) -> (v: T)
    requires
        numeric::adds::<T>(),
        numeric::subtracts::<T>(),
        numeric::multiplies::<T>(),
    ensures
        between(a, b, frac, v),
{
    let d: T = b - a;
    let p: T = frac * d;
    assert(numeric::difference(b, a, d) && numeric::product(frac, d, p));
    a + p
}

/// Piecewise linear interpolation over the stops.
pub fn lerp_colormap<
    T: Copy + Add<Output = T> + Sub<Output = T> + Mul<Output = T> + Div<Output = T> + PartialOrd,
>(t: T, stops: &Vec<Stop<T>>) -> (rgb: (T, T, T))
    requires
        numeric::adds::<T>(),
        numeric::subtracts::<T>(),
        numeric::multiplies::<T>(),
        numeric::divides::<T>(),
    ensures
        coloured(t, stops@, rgb),
{
    if stops.len() == 0 {
        return (t, t, t);
    }
    let first: Stop<T> = stops[0];
    if t <= first.at {
        return (first.r, first.g, first.b);
    }
    let last: Stop<T> = stops[stops.len() - 1];
    if t >= last.at {
        return (last.r, last.g, last.b);
    }
    let mut i: usize = 1;
    while i < stops.len()
        invariant
            numeric::adds::<T>(),
            numeric::subtracts::<T>(),
            numeric::multiplies::<T>(),
            numeric::divides::<T>(),
            stops@.len() > 0,
            first == stops@[0],
            last == stops@.last(),
            numeric::at_most(t, first.at, false),
            numeric::at_least(t, last.at, false),
            1 <= i,
            forall|k: int|
                1 <= k < i && k < stops@.len() ==> numeric::at_most(
                    t,
                    (#[trigger] stops@[k]).at,
                    false,
                ),
        decreases stops@.len() - i,
    {
        let to: Stop<T> = stops[i];
        let from: Stop<T> = stops[i - 1];
        if t <= to.at {
            let n: T = t - from.at;
            let d: T = to.at - from.at;
            let frac: T = n / d;
            let rgb = (
                mix(from.r, to.r, frac),
                mix(from.g, to.g, frac),
                mix(from.b, to.b, frac),
            );
            proof {
                assert(numeric::difference(t, from.at, n));
                assert(numeric::difference(to.at, from.at, d));
                assert(numeric::quotient(n, d, frac));
                assert(interpolated(t, from, to, rgb));
                assert(numeric::at_most(t, stops@[i as int].at, true));
                assert(coloured_inside(t, stops@, rgb));
            }
            return rgb;
        }
        i = i + 1;
    }
    (last.r, last.g, last.b)
}

/// `r` is `y`, lowered to `hi` where it is above it.
pub open spec fn capped<T: PartialOrd>(y: T, hi: T, r: T) -> bool {
    ||| numeric::above(y, hi, true) && r == hi
    ||| numeric::above(y, hi, false) && r == y
}

/// `r` is `x`, raised to `lo` where it is below it, then lowered to `hi` where it is above
/// it.
pub open spec fn clamped<T: PartialOrd>(x: T, lo: T, hi: T, r: T) -> bool {
    ||| numeric::below(x, lo, true) && capped(lo, hi, r)
    ||| numeric::below(x, lo, false) && capped(x, hi, r)
}

/// `x` limited to the range from `lo` to `hi`; what is not a number stays so.
pub fn clamp<T: Copy + PartialOrd>(x: T, lo: T, hi: T) -> (r: T)
    ensures
        clamped(x, lo, hi, r),
{
    let y: T = if x < lo {
        lo
    } else {
        x
    };
    if y > hi {
        hi
    } else {
        y
    }
}

/// `x` limited to the range from zero to one.
pub open spec fn unit(x: real) -> real {
    if x < 0real {
        0real
    } else if x > 1real {
        1real
    } else {
        x
    }
}

/// With exact order, what is limited lies in the range and is the value itself wherever that
/// lies in it, else the nearer end.
pub proof fn limits_are_kept<T: PartialOrd>(val: spec_fn(T) -> real, x: T, lo: T, hi: T, r: T)
    requires
        numeric::exact_order(val),
        val(lo) <= val(hi),
        clamped(x, lo, hi, r),
    ensures
        val(lo) <= val(r) <= val(hi),
        val(lo) <= val(x) <= val(hi) ==> r == x,
        val(x) <= val(lo) ==> val(r) == val(lo),
        val(x) >= val(hi) ==> val(r) == val(hi),
{
}

/// The colour `rgb` divides the way between two stops of a table as `x` does.
pub open spec fn on_the_way(x: real, from: Stop<u32>, to: Stop<u32>, rgb: (real, real, real)) -> bool {
    let (p, q) = (from.at as int as real, to.at as int as real);
    &&& proportional(x, p, q, from.r as int as real, to.r as int as real, rgb.0)
    &&& proportional(x, p, q, from.g as int as real, to.g as int as real, rgb.1)
    &&& proportional(x, p, q, from.b as int as real, to.b as int as real, rgb.2)
}

/// The values and functions that shading needs of a number type.
pub struct Palette<T, M, B> {
    pub zero: T,
    pub one: T,
    /// Turns a number of thousandths into a value.
    pub thousandths: M,
    /// Turns a value between zero and one into a byte.
    pub byte: B,
}

impl<
    T: Copy + Add<Output = T> + Sub<Output = T> + Mul<Output = T> + Div<Output = T> + PartialOrd,
    M: Fn(u32) -> T,
    B: Fn(T) -> u8,
> Palette<T, M, B> {
    pub open spec fn callable(self) -> bool {
        &&& numeric::adds::<T>()
        &&& numeric::subtracts::<T>()
        &&& numeric::multiplies::<T>()
        &&& numeric::divides::<T>()
        &&& forall|n: u32| call_requires(self.thousandths, (n,))
        &&& forall|v: T| call_requires(self.byte, (v,))
    }

    /// `b` is the byte of a colour value limited to the unit range.
    pub open spec fn byte_of(self, v: T, b: u8) -> bool {
        exists|w: T| #[trigger]
            clamped(v, self.zero, self.one, w) && call_ensures(self.byte, (w,), b)
    }

    /// `px` holds the bytes of a colour.
    pub open spec fn bytes_of(self, rgb: (T, T, T), px: [u8; 3]) -> bool {
        self.byte_of(rgb.0, px[0]) && self.byte_of(rgb.1, px[1]) && self.byte_of(rgb.2, px[2])
    }

    fn channel(&self, v: T) -> (b: u8)
        requires
            self.callable(),
        ensures
            self.byte_of(v, b),
    {
        let w: T = clamp(v, self.zero, self.one);
        (self.byte)(w)
    }

    /// The bytes of a colour, each limited to the unit range.
    pub fn pixel(&self, rgb: (T, T, T)) -> (px: [u8; 3])
        requires
            self.callable(),
        ensures
            self.bytes_of(rgb, px),
    {
        [self.channel(rgb.0), self.channel(rgb.1), self.channel(rgb.2)]
    }

    /// `v` is a table entry.
    pub open spec fn entry(self, s: Stop<u32>, v: Stop<T>) -> bool {
        &&& call_ensures(self.thousandths, (s.at,), v.at)
        &&& call_ensures(self.thousandths, (s.r,), v.r)
        &&& call_ensures(self.thousandths, (s.g,), v.g)
        &&& call_ensures(self.thousandths, (s.b,), v.b)
    }

    pub open spec fn entries(self, map: ColorMap, stops: Seq<Stop<T>>) -> bool {
        &&& stops.len() == map.table().len()
        &&& forall|i: int| 0 <= i < stops.len() ==> self.entry(map.table()[i], #[trigger] stops[i])
    }

    /// The breakpoints of a colour map as values.
    pub fn stops(&self, map: ColorMap) -> (stops: Vec<Stop<T>>)
        requires
            self.callable(),
        ensures
            self.entries(map, stops@),
    {
        let table = map.stops();
        let mut stops: Vec<Stop<T>> = Vec::new();
        let mut i: usize = 0;
        while i < table.len()
            invariant
                self.callable(),
                table@ == map.table(),
                i <= table@.len(),
                stops@.len() == i,
                forall|k: int|
                    0 <= k < i ==> self.entry(map.table()[k], #[trigger] stops@[k]),
            decreases table@.len() - i,
        {
            let s: Stop<u32> = table[i];
            stops.push(
                Stop {
                    at: (self.thousandths)(s.at),
                    r: (self.thousandths)(s.r),
                    g: (self.thousandths)(s.g),
                    b: (self.thousandths)(s.b),
                },
            );
            i = i + 1;
        }
        stops
    }

    /// With exact arithmetic, the bytes of a pixel are those of its red, green and blue, in
    /// that order, each limited to the unit range. `byte` is the byte of a number.
    pub proof fn bytes_are_in_order(
        self,
        val: spec_fn(T) -> real,
        byte: spec_fn(real) -> u8,
        rgb: (T, T, T),
        px: [u8; 3],
    )
        requires
            numeric::exact_order(val),
            val(self.zero) == 0real,
            val(self.one) == 1real,
            forall|v: T, b: u8| #[trigger]
                call_ensures(self.byte, (v,), b) && 0real <= val(v) <= 1real ==> b == byte(val(v)),
            self.bytes_of(rgb, px),
        ensures
            px[0] == byte(unit(val(rgb.0))),
            px[1] == byte(unit(val(rgb.1))),
            px[2] == byte(unit(val(rgb.2))),
    {
    }

    /// With exact arithmetic, a value between two stops of a colour map has the colour that
    /// divides the way between theirs as the value does, in thousandths of the map's table.
    pub proof fn maps_run_from_stop_to_stop(
        self,
        val: spec_fn(T) -> real,
        byte: spec_fn(real) -> u8,
        map: ColorMap,
        t: T,
        px: [u8; 3],
        i: int,
    )
        requires
            numeric::exact_sums(val),
            numeric::exact_differences(val),
            numeric::exact_products(val),
            numeric::exact_quotients(val),
            numeric::exact_order(val),
            val(self.zero) == 0real,
            val(self.one) == 1real,
            forall|n: u32, v: T| #[trigger]
                call_ensures(self.thousandths, (n,), v) ==> 1000real * val(v) == n as int as real,
            forall|v: T, b: u8| #[trigger]
                call_ensures(self.byte, (v,), b) && 0real <= val(v) <= 1real ==> b == byte(val(v)),
            self.applied(map, t, px),
            0 <= i < map.table().len() - 1,
            map.table()[i].at as int as real <= 1000real * unit(val(t)) <= map.table()[i
                + 1].at as int as real,
        ensures
            exists|r: real, g: real, b: real|
                {
                    &&& #[trigger] on_the_way(
                        1000real * unit(val(t)),
                        map.table()[i],
                        map.table()[i + 1],
                        (r, g, b),
                    )
                    &&& px[0] == thousandths_byte(byte, r)
                    &&& px[1] == thousandths_byte(byte, g)
                    &&& px[2] == thousandths_byte(byte, b)
                },
    {
        let (u, stops, rgb) = choose|u: T, stops: Seq<Stop<T>>, rgb: (T, T, T)|
            {
                &&& #[trigger] clamped(t, self.zero, self.one, u)
                &&& #[trigger] self.entries(map, stops)
                &&& coloured(u, stops, rgb)
                &&& #[trigger] self.bytes_of(rgb, px)
            };
        let table = map.table();
        assert forall|j: int, k: int| 0 <= j < k < stops.len() implies val((#[trigger] stops[j]).at)
            < val((#[trigger] stops[k]).at) by {
            map.tables_span_the_range(j, k);
            assert(self.entry(table[j], stops[j]) && self.entry(table[k], stops[k]));
        }
        assert(self.entry(table[i], stops[i]) && self.entry(table[i + 1], stops[i + 1]));
        assert(val(u) == unit(val(t)));
        colours_run_from_stop_to_stop(val, u, stops, rgb, i);
        self.bytes_are_in_order(val, byte, rgb, px);
        let (x, a, b) = (val(u), stops[i], stops[i + 1]);
        let (r, g, bl) = (1000real * val(rgb.0), 1000real * val(rgb.1), 1000real * val(rgb.2));
        in_thousandths(x, val(a.at), val(b.at), val(a.r), val(b.r), val(rgb.0));
        in_thousandths(x, val(a.at), val(b.at), val(a.g), val(b.g), val(rgb.1));
        in_thousandths(x, val(a.at), val(b.at), val(a.b), val(b.b), val(rgb.2));
        assert(on_the_way(1000real * unit(val(t)), table[i], table[i + 1], (r, g, bl)));
        assert(px[0] == thousandths_byte(byte, r) && px[1] == thousandths_byte(byte, g) && px[2]
            == thousandths_byte(byte, bl)) by {
            whole_of_thousandths(byte, val(rgb.0));
            whole_of_thousandths(byte, val(rgb.1));
            whole_of_thousandths(byte, val(rgb.2));
        }
    }

    /// `px` is the colour of a value between zero and one.
    pub open spec fn applied(self, map: ColorMap, t: T, px: [u8; 3]) -> bool {
        exists|u: T, stops: Seq<Stop<T>>, rgb: (T, T, T)|
            {
                &&& #[trigger] clamped(t, self.zero, self.one, u)
                &&& #[trigger] self.entries(map, stops)
                &&& coloured(u, stops, rgb)
                &&& #[trigger] self.bytes_of(rgb, px)
            }
    }
}

/// The byte of a number of thousandths, limited to a thousand.
pub open spec fn thousandths_byte(byte: spec_fn(real) -> u8, n: real) -> u8 {
    byte(unit(n / 1000real))
}

proof fn whole_of_thousandths(byte: spec_fn(real) -> u8, v: real)
    ensures
        thousandths_byte(byte, 1000real * v) == byte(unit(v)),
{
    assert((1000real * v) / 1000real == v);
}

proof fn in_thousandths(t: real, from: real, to: real, a: real, b: real, v: real)
    requires
        proportional(t, from, to, a, b, v),
    ensures
        proportional(
            1000real * t,
            1000real * from,
            1000real * to,
            1000real * a,
            1000real * b,
            1000real * v,
        ),
{
    scaled(v - a, to - from);
    scaled(t - from, b - a);
}

proof fn scaled(x: real, y: real)
    ensures
        (1000real * x) * (1000real * y) == 1000000real * (x * y),
{
    reals::regrouped(1000real, x, 1000real, y);
    assert((1000real * 1000real) == 1000000real);
}

impl ColorMap {
    /// Maps a value between zero and one to a colour.
    pub fn apply<
        T: Copy + Add<Output = T> + Sub<Output = T> + Mul<Output = T> + Div<Output = T> + PartialOrd,
        M: Fn(u32) -> T,
        B: Fn(T) -> u8,
    >(self, t: T, palette: &Palette<T, M, B>) -> (px: [u8; 3])
        requires
            palette.callable(),
        ensures
            palette.applied(self, t, px),
    {
        let u: T = clamp(t, palette.zero, palette.one);
        let stops = palette.stops(self);
        let rgb = lerp_colormap(u, &stops);
        let px = palette.pixel(rgb);
        assert(palette.entries(self, stops@));
        px
    }
}

/// How amplitude becomes brightness.
pub struct Scaling<T, L> {
    pub zero: T,
    pub one: T,
    /// The reference range.
    pub vmin: T,
    pub vmax: T,
    /// Share of logarithmic scaling.
    pub log_amount: T,
    /// The least length that a range counts for.
    pub floor: T,
    /// Factor of logarithmic compression.
    pub factor: T,
    /// The logarithm.
    pub ln: L,
}

impl<
    T: Copy + Add<Output = T> + Sub<Output = T> + Mul<Output = T> + Div<Output = T> + PartialOrd,
    L: Fn(T) -> T,
> Scaling<T, L> {
    pub open spec fn callable(self) -> bool {
        &&& numeric::adds::<T>()
        &&& numeric::subtracts::<T>()
        &&& numeric::multiplies::<T>()
        &&& numeric::divides::<T>()
        &&& forall|v: T| call_requires(self.ln, (v,))
    }

    /// `t` is where `v` lies between `lo` and `hi`, limited to the unit range.
    pub open spec fn located(self, v: T, lo: T, hi: T, t: T) -> bool {
        exists|d: T, range: T, n: T, q: T|
            {
                &&& #[trigger] numeric::difference(hi, lo, d)
                &&& #[trigger] viewport::raised(d, self.floor, range)
                &&& #[trigger] numeric::difference(v, lo, n)
                &&& #[trigger] numeric::quotient(n, range, q)
                &&& clamped(q, self.zero, self.one, t)
            }
    }

    fn locate(&self, v: T, lo: T, hi: T) -> (t: T)
        requires
            self.callable(),
        ensures
            self.located(v, lo, hi, t),
    {
        let d: T = hi - lo;
        let range: T = viewport::raise(d, self.floor);
        let n: T = v - lo;
        let q: T = n / range;
        assert(numeric::difference(hi, lo, d) && viewport::raised(d, self.floor, range));
        assert(numeric::difference(v, lo, n));
        assert(numeric::quotient(n, range, q));
        clamp(q, self.zero, self.one)
    }

    /// `r` is the logarithmic compression of an amplitude.
    pub open spec fn compresses(self, v: T, r: T) -> bool {
        compressed(self.zero, self.one, self.factor, self.ln, v, r)
    }

    fn compress(&self, v: T) -> (r: T)
        requires
            self.callable(),
        ensures
            self.compresses(v, r),
    {
        log_compress(self.zero, self.one, self.factor, &self.ln, v)
    }

    /// `t` blends the linear and the logarithmic position of `v` in the reference range.
    pub open spec fn bright(self, v: T, t: T) -> bool {
        exists|linear: T, lv: T, llo: T, lhi: T, log: T, amount: T, d: T, p: T|
            {
                &&& #[trigger] self.located(v, self.vmin, self.vmax, linear)
                &&& #[trigger] self.compresses(v, lv)
                &&& #[trigger] self.compresses(self.vmin, llo)
                &&& #[trigger] self.compresses(self.vmax, lhi)
                &&& #[trigger] self.located(lv, llo, lhi, log)
                &&& #[trigger] clamped(self.log_amount, self.zero, self.one, amount)
                &&& #[trigger] numeric::difference(log, linear, d)
                &&& #[trigger] numeric::product(d, amount, p)
                &&& numeric::sum(linear, p, t)
            }
    }

    /// Brightness of an amplitude: from linear to logarithmic by the amount of log scaling.
    pub fn brightness(&self, v: T) -> (t: T)
        requires
            self.callable(),
        ensures
            self.bright(v, t),
    {
        let linear: T = self.locate(v, self.vmin, self.vmax);
        let lv: T = self.compress(v);
        let llo: T = self.compress(self.vmin);
        let lhi: T = self.compress(self.vmax);
        let log: T = self.locate(lv, llo, lhi);
        let amount: T = clamp(self.log_amount, self.zero, self.one);
        let d: T = log - linear;
        let p: T = d * amount;
        assert(numeric::difference(log, linear, d));
        assert(numeric::product(d, amount, p));
        linear + p
    }

    /// The arithmetic is exact where values are read as real numbers, and from one on the
    /// logarithm rises and is not negative.
    pub open spec fn exact(self, val: spec_fn(T) -> real) -> bool {
        &&& numeric::exact_sums(val)
        &&& numeric::exact_differences(val)
        &&& numeric::exact_products(val)
        &&& numeric::exact_quotients(val)
        &&& numeric::exact_order(val)
        &&& val(self.zero) == 0real
        &&& val(self.one) == 1real
        &&& val(self.floor) > 0real
        &&& val(self.factor) > 0real
        &&& forall|a: T, x: T| #[trigger]
            call_ensures(self.ln, (a,), x) && val(a) >= 1real ==> val(x) >= 0real
        &&& forall|a: T, b: T, x: T, y: T|
            #![trigger call_ensures(self.ln, (a,), x), call_ensures(self.ln, (b,), y)]
            call_ensures(self.ln, (a,), x) && call_ensures(self.ln, (b,), y) && 1real <= val(a)
                <= val(b) ==> val(x) <= val(y)
    }

    /// With exact arithmetic, brightness is the linear position where the amount of log
    /// scaling is zero or below, and the logarithmic one where it is one or above.
    pub proof fn amount_blends(self, val: spec_fn(T) -> real, v: T, t: T)
        requires
            self.exact(val),
            self.bright(v, t),
        ensures
            val(self.log_amount) <= 0real ==> exists|linear: T| #[trigger]
                self.located(v, self.vmin, self.vmax, linear) && val(t) == val(linear),
            val(self.log_amount) >= 1real ==> exists|lv: T, llo: T, lhi: T, log: T|
                {
                    &&& #[trigger] self.compresses(v, lv)
                    &&& #[trigger] self.compresses(self.vmin, llo)
                    &&& #[trigger] self.compresses(self.vmax, lhi)
                    &&& #[trigger] self.located(lv, llo, lhi, log)
                    &&& val(t) == val(log)
                },
    {
        let (linear, lv, llo, lhi, log, amount, d, p) = choose|
            linear: T,
            lv: T,
            llo: T,
            lhi: T,
            log: T,
            amount: T,
            d: T,
            p: T,
        |
            {
                &&& #[trigger] self.located(v, self.vmin, self.vmax, linear)
                &&& #[trigger] self.compresses(v, lv)
                &&& #[trigger] self.compresses(self.vmin, llo)
                &&& #[trigger] self.compresses(self.vmax, lhi)
                &&& #[trigger] self.located(lv, llo, lhi, log)
                &&& #[trigger] clamped(self.log_amount, self.zero, self.one, amount)
                &&& #[trigger] numeric::difference(log, linear, d)
                &&& #[trigger] numeric::product(d, amount, p)
                &&& numeric::sum(linear, p, t)
            };
        assert(val(d) * 0real == 0real && val(d) * 1real == val(d));
    }

    /// With exact arithmetic, within the reference range brightness is a weighted mean of two
    /// shares: of the range that the amplitude has passed, and of the logarithmic range that
    /// its logarithm has passed, the latter with the amount of log scaling as its weight. `log`
    /// is the logarithm.
    pub proof fn brightness_is_a_mean_of_shares(
        self,
        val: spec_fn(T) -> real,
        log: spec_fn(real) -> real,
        v: T,
        t: T,
    )
        requires
            self.exact(val),
            forall|a: T, x: T| #[trigger]
                call_ensures(self.ln, (a,), x) && val(a) >= 1real ==> val(x) == log(val(a)),
            self.bright(v, t),
            0real < val(self.vmin) <= val(v) <= val(self.vmax),
            0real <= val(self.log_amount) <= 1real,
            val(self.vmax) - val(self.vmin) >= val(self.floor),
            self.log_of(val, log, self.vmax) - self.log_of(val, log, self.vmin) >= val(self.floor),
            self.log_of(val, log, self.vmin) <= self.log_of(val, log, v) <= self.log_of(
                val,
                log,
                self.vmax,
            ),
        ensures
            exists|linear: real, logarithmic: real|
                {
                    &&& #[trigger] share_of(
                        val(v),
                        val(self.vmin),
                        val(self.vmax),
                        linear,
                    )
                    &&& #[trigger] share_of(
                        self.log_of(val, log, v),
                        self.log_of(val, log, self.vmin),
                        self.log_of(val, log, self.vmax),
                        logarithmic,
                    )
                    &&& val(t) == linear * (1real - val(self.log_amount)) + logarithmic * val(
                        self.log_amount,
                    )
                },
    {
        let (linear, lv, llo, lhi, logarithmic, amount, d, p) = choose|
            linear: T,
            lv: T,
            llo: T,
            lhi: T,
            log: T,
            amount: T,
            d: T,
            p: T,
        |
            {
                &&& #[trigger] self.located(v, self.vmin, self.vmax, linear)
                &&& #[trigger] self.compresses(v, lv)
                &&& #[trigger] self.compresses(self.vmin, llo)
                &&& #[trigger] self.compresses(self.vmax, lhi)
                &&& #[trigger] self.located(lv, llo, lhi, log)
                &&& #[trigger] clamped(self.log_amount, self.zero, self.one, amount)
                &&& #[trigger] numeric::difference(log, linear, d)
                &&& #[trigger] numeric::product(d, amount, p)
                &&& numeric::sum(linear, p, t)
            };
        self.place_is_a_share(val, v, self.vmin, self.vmax, linear);
        self.logarithm_is_taken(val, log, v, lv);
        self.logarithm_is_taken(val, log, self.vmin, llo);
        self.logarithm_is_taken(val, log, self.vmax, lhi);
        self.place_is_a_share(val, lv, llo, lhi, logarithmic);
        blended(val(linear), val(logarithmic), val(amount));
        assert(share_of(val(v), val(self.vmin), val(self.vmax), val(linear)));
        assert(share_of(
            self.log_of(val, log, v),
            self.log_of(val, log, self.vmin),
            self.log_of(val, log, self.vmax),
            val(logarithmic),
        ));
    }

    /// The compressed logarithm of an amplitude.
    pub open spec fn log_of(self, val: spec_fn(T) -> real, log: spec_fn(real) -> real, v: T) -> real {
        log(1real + val(v) * val(self.factor))
    }

    proof fn logarithm_is_taken(
        self,
        val: spec_fn(T) -> real,
        log: spec_fn(real) -> real,
        v: T,
        r: T,
    )
        requires
            self.exact(val),
            forall|a: T, x: T| #[trigger]
                call_ensures(self.ln, (a,), x) && val(a) >= 1real ==> val(x) == log(val(a)),
            self.compresses(v, r),
            val(v) > 0real,
        ensures
            val(r) == self.log_of(val, log, v),
    {
        reals::positive(val(v), val(self.factor));
    }

    proof fn place_is_a_share(self, val: spec_fn(T) -> real, v: T, lo: T, hi: T, t: T)
        requires
            self.exact(val),
            self.located(v, lo, hi, t),
            val(lo) <= val(v) <= val(hi),
            val(hi) - val(lo) >= val(self.floor),
        ensures
            share_of(val(v), val(lo), val(hi), val(t)),
    {
        let (d, range, n, q) = choose|d: T, range: T, n: T, q: T|
            {
                &&& #[trigger] numeric::difference(hi, lo, d)
                &&& #[trigger] viewport::raised(d, self.floor, range)
                &&& #[trigger] numeric::difference(v, lo, n)
                &&& #[trigger] numeric::quotient(n, range, q)
                &&& clamped(q, self.zero, self.one, t)
            };
        let r = val(range);
        assert(1real * r == r);
        reals::quotient_sign(val(q), r);
        reals::quotient_at_most(val(q), r, 1real);
    }

    proof fn compression_rises(self, val: spec_fn(T) -> real, v: T, w: T, a: T, b: T)
        requires
            self.exact(val),
            val(v) <= val(w),
            self.compresses(v, a),
            self.compresses(w, b),
        ensures
            val(a) <= val(b),
    {
        if val(w) > 0real {
            reals::positive(val(w), val(self.factor));
            if val(v) > 0real {
                reals::positive(val(v), val(self.factor));
                reals::weakly_ordered(val(v), val(w), val(self.factor));
            }
        }
    }

    /// With exact arithmetic, brightness lies between zero and one and rises with the
    /// amplitude. It is zero up to the low end of the reference range, and one from its
    /// high end on, unless the range or its logarithm is shorter than the least length
    /// that counts.
    pub proof fn brightness_rises(
        self,
        val: spec_fn(T) -> real,
        v: T,
        w: T,
        llo: T,
        lhi: T,
        s: T,
        t: T,
    )
        requires
            self.exact(val),
            self.bright(v, s),
            self.bright(w, t),
            val(v) <= val(w),
            self.compresses(self.vmin, llo),
            self.compresses(self.vmax, lhi),
        ensures
            0real <= val(s) <= val(t) <= 1real,
            val(v) <= val(self.vmin) ==> val(s) == 0real,
            val(w) >= val(self.vmax) && val(self.vmax) - val(self.vmin) >= val(self.floor) && val(
                lhi,
            ) - val(llo) >= val(self.floor) ==> val(t) == 1real,
    {
        let (n1, c1, o1, h1, g1, m1, d1, p1) = choose|
            linear: T,
            lv: T,
            llo: T,
            lhi: T,
            log: T,
            amount: T,
            d: T,
            p: T,
        |
            {
                &&& #[trigger] self.located(v, self.vmin, self.vmax, linear)
                &&& #[trigger] self.compresses(v, lv)
                &&& #[trigger] self.compresses(self.vmin, llo)
                &&& #[trigger] self.compresses(self.vmax, lhi)
                &&& #[trigger] self.located(lv, llo, lhi, log)
                &&& #[trigger] clamped(self.log_amount, self.zero, self.one, amount)
                &&& #[trigger] numeric::difference(log, linear, d)
                &&& #[trigger] numeric::product(d, amount, p)
                &&& numeric::sum(linear, p, s)
            };
        let (n2, c2, o2, h2, g2, m2, d2, p2) = choose|
            linear: T,
            lv: T,
            llo: T,
            lhi: T,
            log: T,
            amount: T,
            d: T,
            p: T,
        |
            {
                &&& #[trigger] self.located(w, self.vmin, self.vmax, linear)
                &&& #[trigger] self.compresses(w, lv)
                &&& #[trigger] self.compresses(self.vmin, llo)
                &&& #[trigger] self.compresses(self.vmax, lhi)
                &&& #[trigger] self.located(lv, llo, lhi, log)
                &&& #[trigger] clamped(self.log_amount, self.zero, self.one, amount)
                &&& #[trigger] numeric::difference(log, linear, d)
                &&& #[trigger] numeric::product(d, amount, p)
                &&& numeric::sum(linear, p, t)
            };
        let whole = (self.vmin, self.vmax);
        self.places_rise(val, v, w, whole, whole, n1, n2);
        self.compression_rises(val, v, w, c1, c2);
        self.compression_rises(val, self.vmin, self.vmin, o1, o2);
        self.compression_rises(val, self.vmin, self.vmin, o2, o1);
        self.compression_rises(val, self.vmin, self.vmin, o1, llo);
        self.compression_rises(val, self.vmin, self.vmin, llo, o1);
        self.compression_rises(val, self.vmax, self.vmax, h1, h2);
        self.compression_rises(val, self.vmax, self.vmax, h2, h1);
        self.compression_rises(val, self.vmax, self.vmax, h1, lhi);
        self.compression_rises(val, self.vmax, self.vmax, lhi, h1);
        self.places_rise(val, c1, c2, (o1, h1), (o2, h2), g1, g2);
        if val(v) <= val(self.vmin) {
            self.compression_rises(val, v, self.vmin, c1, o1);
        }
        if val(w) >= val(self.vmax) {
            self.compression_rises(val, self.vmax, w, h2, c2);
        }
        let m = val(m1);
        assert(val(m2) == m && 0real <= m <= 1real);
        let k = 1real - m;
        blended(val(n1), val(g1), m);
        blended(val(n2), val(g2), m);
        reals::weakly_ordered(val(n1), val(n2), k);
        reals::weakly_ordered(val(g1), val(g2), m);
        reals::not_negative(val(n1), k);
        reals::not_negative(val(g1), m);
        reals::weakly_ordered(val(n2), 1real, k);
        reals::weakly_ordered(val(g2), 1real, m);
        assert(1real * k == k && 1real * m == m && 0real * k == 0real && 0real * m == 0real);
    }

    proof fn places_rise(
        self,
        val: spec_fn(T) -> real,
        v: T,
        w: T,
        r1: (T, T),
        r2: (T, T),
        a: T,
        b: T,
    )
        requires
            self.exact(val),
            val(v) <= val(w),
            val(r1.0) == val(r2.0),
            val(r1.1) == val(r2.1),
            self.located(v, r1.0, r1.1, a),
            self.located(w, r2.0, r2.1, b),
        ensures
            0real <= val(a) <= val(b) <= 1real,
            val(v) <= val(r1.0) ==> val(a) == 0real,
            val(w) >= val(r2.1) && val(r2.1) - val(r2.0) >= val(self.floor) ==> val(b) == 1real,
    {
        let (d, range, n, q) = choose|d: T, range: T, n: T, q: T|
            {
                &&& #[trigger] numeric::difference(r1.1, r1.0, d)
                &&& #[trigger] viewport::raised(d, self.floor, range)
                &&& #[trigger] numeric::difference(v, r1.0, n)
                &&& #[trigger] numeric::quotient(n, range, q)
                &&& clamped(q, self.zero, self.one, a)
            };
        let (d2, range2, n2, q2) = choose|d: T, range: T, n: T, q: T|
            {
                &&& #[trigger] numeric::difference(r2.1, r2.0, d)
                &&& #[trigger] viewport::raised(d, self.floor, range)
                &&& #[trigger] numeric::difference(w, r2.0, n)
                &&& #[trigger] numeric::quotient(n, range, q)
                &&& clamped(q, self.zero, self.one, b)
            };
        let r = val(range);
        assert(val(range2) == r);
        reals::quotient_at_most(val(q), r, val(q2));
        assert(0real * r == 0real && 1real * r == r);
        if val(v) <= val(r1.0) {
            reals::quotient_at_most(val(q), r, 0real);
        }
        if val(w) >= val(r2.1) && val(r2.1) - val(r2.0) >= val(self.floor) {
            reals::quotient_at_most(1real, r, val(q2));
        }
    }
}

/// `t` is the share of the way from `lo` to `hi` that lies before `v`.
pub open spec fn share_of(v: real, lo: real, hi: real, t: real) -> bool {
    t * (hi - lo) == v - lo
}

proof fn blended(a: real, b: real, m: real)
    ensures
        a + (b - a) * m == a * (1real - m) + b * m,
{
    reals::distributed(b, a, m);
    reals::distributed(1real, m, a);
    assert(a * (1real - m) == (1real - m) * a && m * a == a * m);
}

/// `r` is `ln(v * factor + one)` for `v` above zero, and zero otherwise.
pub open spec fn compressed<T: Add<Output = T> + Mul<Output = T> + PartialOrd, L: Fn(T) -> T>(
    zero: T,
    one: T,
    factor: T,
    ln: L,
    v: T,
    r: T,
) -> bool {
    ||| numeric::above(v, zero, false) && r == zero
    ||| numeric::above(v, zero, true) && exists|p: T, s: T|
        {
            &&& #[trigger] numeric::product(v, factor, p)
            &&& #[trigger] numeric::sum(p, one, s)
            &&& call_ensures(ln, (s,), r)
        }
}

/// Logarithmic compression of an amplitude; zero stays zero.
pub fn log_compress<T: Copy + Add<Output = T> + Mul<Output = T> + PartialOrd, L: Fn(T) -> T>(
    zero: T,
    one: T,
    factor: T,
    ln: &L,
    v: T,
) -> (r: T)
    requires
        numeric::adds::<T>(),
        numeric::multiplies::<T>(),
        forall|x: T| call_requires(ln, (x,)),
    ensures
        compressed(zero, one, factor, *ln, v, r),
{
    if v > zero {
        let p: T = v * factor;
        let s: T = p + one;
        assert(numeric::product(v, factor, p) && numeric::sum(p, one, s));
        ln(s)
    } else {
        zero
    }
}

/// The colour of hue sector `sector` with value `v`, and the lowered values `p`, `q`, `t`.
pub open spec fn sector_colour<T>(sector: int, v: T, p: T, q: T, t: T) -> (T, T, T) {
    if sector == 0 {
        (v, t, p)
    } else if sector == 1 {
        (q, v, p)
    } else if sector == 2 {
        (p, v, t)
    } else if sector == 3 {
        (p, q, v)
    } else if sector == 4 {
        (t, p, v)
    } else {
        (v, p, q)
    }
}

/// `r` is `v` lowered by the share `x`: `v * (one - x)`.
pub open spec fn lowered<T: Sub<Output = T> + Mul<Output = T>>(one: T, v: T, x: T, r: T) -> bool {
    exists|d: T| #[trigger] numeric::difference(one, x, d) && numeric::product(v, d, r)
}

fn lower<T: Copy + Sub<Output = T> + Mul<Output = T>>(one: T, v: T, x: T) -> (r: T)
    requires
        numeric::subtracts::<T>(),
        numeric::multiplies::<T>(),
    ensures
        lowered(one, v, x, r),
{
    let d: T = one - x;
    assert(numeric::difference(one, x, d));
    v * d
}

/// `rgb` is the colour of a hue that lies in `sector`, `f` of the way through it.
pub open spec fn hued<T: Sub<Output = T> + Mul<Output = T>>(
    one: T,
    sector: int,
    f: T,
    s: T,
    v: T,
    rgb: (T, T, T),
) -> bool {
    exists|p: T, sf: T, q: T, g: T, sg: T, t: T|
        {
            &&& #[trigger] lowered(one, v, s, p)
            &&& #[trigger] numeric::product(s, f, sf)
            &&& #[trigger] lowered(one, v, sf, q)
            &&& #[trigger] numeric::difference(one, f, g)
            &&& #[trigger] numeric::product(s, g, sg)
            &&& #[trigger] lowered(one, v, sg, t)
            &&& rgb == sector_colour(sector, v, p, q, t)
        }
}

/// How phase becomes a colour.
pub struct HueWheel<T, F, W, N, P> {
    pub zero: T,
    pub one: T,
    /// Number of sectors of the wheel.
    pub sectors: T,
    /// Half a turn and a full turn of phase.
    pub half_turn: T,
    pub turn: T,
    /// Shapes how coherence becomes saturation.
    pub gamma: T,
    /// The largest whole number that a value reaches.
    pub floor: F,
    /// The same as a number.
    pub whole: W,
    /// A number as a value.
    pub number: N,
    pub power: P,
}

impl<
    T: Copy + Add<Output = T> + Sub<Output = T> + Mul<Output = T> + Div<Output = T> + PartialOrd,
    F: Fn(T) -> T,
    W: Fn(T) -> i32,
    N: Fn(i32) -> T,
    P: Fn(T, T) -> T,
> HueWheel<T, F, W, N, P> {
    pub open spec fn callable(self) -> bool {
        &&& numeric::adds::<T>()
        &&& numeric::subtracts::<T>()
        &&& numeric::multiplies::<T>()
        &&& numeric::divides::<T>()
        &&& forall|v: T| call_requires(self.floor, (v,))
        &&& forall|v: T| call_requires(self.whole, (v,))
        &&& forall|n: i32| call_requires(self.number, (n,))
        &&& forall|a: T, b: T| call_requires(self.power, (a, b))
    }

    /// Hue `h`, which repeats with every whole number, lies in sector `i`, `f` of the way
    /// through it.
    pub open spec fn in_sector(self, h: T, i: i32, f: T) -> bool {
        exists|w: T, g: T, x: T, k: T|
            {
                &&& #[trigger] call_ensures(self.floor, (h,), w)
                &&& #[trigger] numeric::difference(h, w, g)
                &&& #[trigger] numeric::product(g, self.sectors, x)
                &&& call_ensures(self.whole, (x,), i)
                &&& #[trigger] call_ensures(self.number, (i,), k)
                &&& numeric::difference(x, k, f)
            }
    }

    /// `rgb` is the colour of a hue, saturation and value.
    pub open spec fn colour(self, h: T, s: T, v: T, rgb: (T, T, T)) -> bool {
        exists|i: i32, f: T| #[trigger]
            self.in_sector(h, i, f) && hued(self.one, i as int, f, s, v, rgb)
    }

    /// Converts hue, saturation and value to a colour. The hue wraps at whole numbers.
    pub fn hsv_to_rgb(&self, h: T, s: T, v: T) -> (rgb: (T, T, T))
        requires
            self.callable(),
        ensures
            self.colour(h, s, v, rgb),
    {
        let w: T = (self.floor)(h);
        let g: T = h - w;
        let x: T = g * self.sectors;
        let i: i32 = (self.whole)(x);
        let k: T = (self.number)(i);
        let f: T = x - k;
        proof {
            assert(call_ensures(self.floor, (h,), w) && numeric::difference(h, w, g));
            assert(numeric::product(g, self.sectors, x) && call_ensures(self.number, (i,), k));
            assert(self.in_sector(h, i, f));
        }
        hue_colour(self.one, i, f, s, v)
    }

    /// `rgb` is the colour of phase `p` with coherence `c` and value `v`: a full turn of
    /// phase goes once round the wheel, and saturation is a power of coherence.
    pub open spec fn phase_colour(self, p: T, c: T, v: T, rgb: (T, T, T)) -> bool {
        exists|a: T, h: T, d: T, s: T|
            {
                &&& #[trigger] numeric::sum(p, self.half_turn, a)
                &&& #[trigger] numeric::quotient(a, self.turn, h)
                &&& #[trigger] clamped(c, self.zero, self.one, d)
                &&& #[trigger] call_ensures(self.power, (d, self.gamma), s)
                &&& self.colour(h, s, v, rgb)
            }
    }

    /// The arithmetic is exact where values are read as real numbers, and the functions
    /// give results of one number for arguments of one number.
    pub open spec fn exact(self, val: spec_fn(T) -> real) -> bool {
        &&& numeric::exact_sums(val)
        &&& numeric::exact_differences(val)
        &&& numeric::exact_products(val)
        &&& numeric::exact_quotients(val)
        &&& numeric::exact_order(val)
        &&& val(self.zero) == 0real
        &&& val(self.one) == 1real
        &&& val(self.turn) > 0real
        &&& forall|a: T, b: T, x: T, y: T|
            #![trigger call_ensures(self.floor, (a,), x), call_ensures(self.floor, (b,), y)]
            call_ensures(self.floor, (a,), x) && call_ensures(self.floor, (b,), y) && val(a)
                == val(b) ==> val(x) == val(y)
        &&& forall|a: T, b: T, i: i32, j: i32|
            #![trigger call_ensures(self.whole, (a,), i), call_ensures(self.whole, (b,), j)]
            call_ensures(self.whole, (a,), i) && call_ensures(self.whole, (b,), j) && val(a)
                == val(b) ==> i == j
        &&& forall|i: i32, x: T, y: T|
            #![trigger call_ensures(self.number, (i,), x), call_ensures(self.number, (i,), y)]
            call_ensures(self.number, (i,), x) && call_ensures(self.number, (i,), y) ==> val(x)
                == val(y)
        &&& forall|a: T, b: T, g: T, x: T, y: T|
            #![trigger call_ensures(self.power, (a, g), x), call_ensures(self.power, (b, g), y)]
            call_ensures(self.power, (a, g), x) && call_ensures(self.power, (b, g), y) && val(a)
                == val(b) ==> val(x) == val(y)
    }

    proof fn sectors_agree(
        self,
        val: spec_fn(T) -> real,
        a: T,
        b: T,
        at: (i32, T),
        other: (i32, T),
    )
        requires
            self.exact(val),
            val(a) == val(b),
            self.in_sector(a, at.0, at.1),
            self.in_sector(b, other.0, other.1),
        ensures
            at.0 == other.0,
            val(at.1) == val(other.1),
    {
    }

    /// With exact arithmetic, a phase without value is black.
    proof fn no_value_means_no_colour(
        self,
        val: spec_fn(T) -> real,
        p: T,
        c: T,
        v: T,
        rgb: (T, T, T),
    )
        requires
            self.exact(val),
            val(v) == 0real,
            self.phase_colour(p, c, v, rgb),
        ensures
            val(rgb.0) == 0real && val(rgb.1) == 0real && val(rgb.2) == 0real,
    {
        let (a, h, d, s) = choose|a: T, h: T, d: T, s: T|
            {
                &&& #[trigger] numeric::sum(p, self.half_turn, a)
                &&& #[trigger] numeric::quotient(a, self.turn, h)
                &&& #[trigger] clamped(c, self.zero, self.one, d)
                &&& #[trigger] call_ensures(self.power, (d, self.gamma), s)
                &&& self.colour(h, s, v, rgb)
            };
        let (i, f) = choose|i: i32, f: T| #[trigger]
            self.in_sector(h, i, f) && hued(self.one, i as int, f, s, v, rgb);
        no_value_is_black(val, self.one, i as int, f, s, v, rgb);
    }

    /// With exact arithmetic, one phase with one coherence has colours of the same numbers
    /// where the values are of the same number.
    proof fn colours_agree(
        self,
        val: spec_fn(T) -> real,
        p: T,
        c: T,
        v: T,
        w: T,
        rgb: (T, T, T),
        other: (T, T, T),
    )
        requires
            self.exact(val),
            val(v) == val(w),
            self.phase_colour(p, c, v, rgb),
            self.phase_colour(p, c, w, other),
        ensures
            val(rgb.0) == val(other.0) && val(rgb.1) == val(other.1) && val(rgb.2) == val(other.2),
    {
        let (a1, h1, d1, s1) = choose|a: T, h: T, d: T, s: T|
            {
                &&& #[trigger] numeric::sum(p, self.half_turn, a)
                &&& #[trigger] numeric::quotient(a, self.turn, h)
                &&& #[trigger] clamped(c, self.zero, self.one, d)
                &&& #[trigger] call_ensures(self.power, (d, self.gamma), s)
                &&& self.colour(h, s, v, rgb)
            };
        let (a2, h2, d2, s2) = choose|a: T, h: T, d: T, s: T|
            {
                &&& #[trigger] numeric::sum(p, self.half_turn, a)
                &&& #[trigger] numeric::quotient(a, self.turn, h)
                &&& #[trigger] clamped(c, self.zero, self.one, d)
                &&& #[trigger] call_ensures(self.power, (d, self.gamma), s)
                &&& self.colour(h, s, w, other)
            };
        reals::quotient_at_most(val(h1), val(self.turn), val(h2));
        reals::quotient_at_most(val(h2), val(self.turn), val(h1));
        assert(val(d1) == val(d2));
        assert(val(s1) == val(s2));
        let (i1, f1) = choose|i: i32, f: T| #[trigger]
            self.in_sector(h1, i, f) && hued(self.one, i as int, f, s1, v, rgb);
        let (i2, f2) = choose|i: i32, f: T| #[trigger]
            self.in_sector(h2, i, f) && hued(self.one, i as int, f, s2, w, other);
        self.sectors_agree(val, h1, h2, (i1, f1), (i2, f2));
        equal_hues_have_equal_colours(
            val,
            self.one,
            i1 as int,
            (f1, s1, v),
            (f2, s2, w),
            rgb,
            other,
        );
    }

    /// The functions on hues are those on real numbers: `fl` is the largest whole number that
    /// a number reaches.
    pub open spec fn wheels(self, val: spec_fn(T) -> real, fl: spec_fn(real) -> int) -> bool {
        &&& val(self.sectors) == 6real
        &&& forall|x: real| (#[trigger] fl(x)) as real <= x < fl(x) as real + 1real
        &&& forall|a: T, w: T| #[trigger]
            call_ensures(self.floor, (a,), w) ==> val(w) == fl(val(a)) as real
        &&& forall|a: T, i: i32| #[trigger]
            call_ensures(self.whole, (a,), i) && 0real <= val(a) < 6real ==> i as int as real
                <= val(a) < i as int as real + 1real
        &&& forall|i: i32, w: T| #[trigger]
            call_ensures(self.number, (i,), w) ==> val(w) == i as int as real
    }

    /// With exact arithmetic, a colour lies on the wheel where its hue says: each of red, green
    /// and blue has the full value over a third of the wheel, with red, green and blue at the
    /// start, the first third and the second third, loses the saturated part of it over the
    /// opposite third, and passes from one to the other evenly in between.
    pub proof fn hues_lie_on_the_wheel(
        self,
        val: spec_fn(T) -> real,
        fl: spec_fn(real) -> int,
        h: T,
        s: T,
        v: T,
        rgb: (T, T, T),
    )
        requires
            self.exact(val),
            self.wheels(val, fl),
            self.colour(h, s, v, rgb),
        ensures
            on_wheel(val, fl, val(h), val(s), val(v), rgb),
    {
        let (i, f) = choose|i: i32, f: T| #[trigger]
            self.in_sector(h, i, f) && hued(self.one, i as int, f, s, v, rgb);
        let (w, g, x, k) = choose|w: T, g: T, x: T, k: T|
            {
                &&& #[trigger] call_ensures(self.floor, (h,), w)
                &&& #[trigger] numeric::difference(h, w, g)
                &&& #[trigger] numeric::product(g, self.sectors, x)
                &&& call_ensures(self.whole, (x,), i)
                &&& #[trigger] call_ensures(self.number, (i,), k)
                &&& numeric::difference(x, k, f)
            };
        assert(val(x) == 6real * (val(h) - fl(val(h)) as real));
        assert(0 <= i <= 5);
        sectors_make_a_wheel(val, self.one, i as int, f, s, v, rgb);
    }

    /// With exact arithmetic, a full turn of phase goes once round the wheel, from half a turn
    /// below zero on; coherence, limited to the unit range, gives the saturation by `power`.
    pub proof fn phase_goes_round_the_wheel(
        self,
        val: spec_fn(T) -> real,
        fl: spec_fn(real) -> int,
        power: spec_fn(real) -> real,
        p: T,
        c: T,
        v: T,
        rgb: (T, T, T),
    )
        requires
            self.exact(val),
            self.wheels(val, fl),
            forall|d: T, s: T| #[trigger]
                call_ensures(self.power, (d, self.gamma), s) && 0real <= val(d) <= 1real ==> val(s)
                    == power(val(d)),
            self.phase_colour(p, c, v, rgb),
        ensures
            exists|h: real| #[trigger]
                on_wheel(val, fl, h, power(unit(val(c))), val(v), rgb) && h * val(self.turn) == val(
                    p,
                ) + val(self.half_turn),
    {
        let (a, h, d, s) = choose|a: T, h: T, d: T, s: T|
            {
                &&& #[trigger] numeric::sum(p, self.half_turn, a)
                &&& #[trigger] numeric::quotient(a, self.turn, h)
                &&& #[trigger] clamped(c, self.zero, self.one, d)
                &&& #[trigger] call_ensures(self.power, (d, self.gamma), s)
                &&& self.colour(h, s, v, rgb)
            };
        assert(val(d) == unit(val(c)));
        self.hues_lie_on_the_wheel(val, fl, h, s, v, rgb);
        assert(on_wheel(val, fl, val(h), power(unit(val(c))), val(v), rgb));
    }

    fn shade(&self, p: T, c: T, v: T) -> (rgb: (T, T, T))
        requires
            self.callable(),
        ensures
            self.phase_colour(p, c, v, rgb),
    {
        let a: T = p + self.half_turn;
        let h: T = a / self.turn;
        let d: T = clamp(c, self.zero, self.one);
        let s: T = (self.power)(d, self.gamma);
        assert(numeric::sum(p, self.half_turn, a) && numeric::quotient(a, self.turn, h));
        assert(clamped(c, self.zero, self.one, d));
        assert(call_ensures(self.power, (d, self.gamma), s));
        self.hsv_to_rgb(h, s, v)
    }
}

/// The part of its saturation that a colour loses `k` sixths of the wheel behind the point
/// from which on it fades: all of it after one sixth, none any more after four.
pub open spec fn faded(k: real) -> real {
    if k < 1real {
        k
    } else if k <= 3real {
        1real
    } else if k < 4real {
        4real - k
    } else {
        0real
    }
}

/// What a colour loses at `x` sixths of the wheel that starts to fade `ahead` sixths before
/// the end of the wheel.
pub open spec fn faded_at(x: real, ahead: real) -> real {
    faded(
        if x + ahead >= 6real {
            x + ahead - 6real
        } else {
            x + ahead
        },
    )
}

/// `rgb` is the colour at hue `h`, which repeats with every whole number, of saturation `s`
/// and value `v`.
pub open spec fn on_wheel<T>(
    val: spec_fn(T) -> real,
    fl: spec_fn(real) -> int,
    h: real,
    s: real,
    v: real,
    rgb: (T, T, T),
) -> bool {
    let x = 6real * (h - fl(h) as real);
    &&& val(rgb.0) == v * (1real - s * faded_at(x, 5real))
    &&& val(rgb.1) == v * (1real - s * faded_at(x, 3real))
    &&& val(rgb.2) == v * (1real - s * faded_at(x, 1real))
}

proof fn sectors_make_a_wheel<T: Sub<Output = T> + Mul<Output = T>>(
    val: spec_fn(T) -> real,
    one: T,
    sector: int,
    f: T,
    s: T,
    v: T,
    rgb: (T, T, T),
)
    requires
        numeric::exact_differences(val),
        numeric::exact_products(val),
        val(one) == 1real,
        0 <= sector <= 5,
        0real <= val(f) < 1real,
        hued(one, sector, f, s, v, rgb),
    ensures
        ({
            let x = sector as real + val(f);
            let (a, b) = (val(v), val(s));
            &&& val(rgb.0) == a * (1real - b * faded_at(x, 5real))
            &&& val(rgb.1) == a * (1real - b * faded_at(x, 3real))
            &&& val(rgb.2) == a * (1real - b * faded_at(x, 1real))
        }),
{
    let (a, b) = (val(v), val(s));
    assert(b * 1real == b && b * 0real == 0real && a * (1real - 0real) == a);
}

fn hue_colour<T: Copy + Sub<Output = T> + Mul<Output = T>>(one: T, i: i32, f: T, s: T, v: T) -> (rgb:
    (T, T, T))
    requires
        numeric::subtracts::<T>(),
        numeric::multiplies::<T>(),
    ensures
        hued(one, i as int, f, s, v, rgb),
{
    let p: T = lower(one, v, s);
    let sf: T = s * f;
    let q: T = lower(one, v, sf);
    let g: T = one - f;
    let sg: T = s * g;
    let t: T = lower(one, v, sg);
    proof {
        assert(numeric::product(s, f, sf));
        assert(numeric::difference(one, f, g));
        assert(numeric::product(s, g, sg));
        assert(lowered(one, v, s, p) && lowered(one, v, sf, q) && lowered(one, v, sg, t));
    }
    match i {
        0 => (v, t, p),
        1 => (q, v, p),
        2 => (p, v, t),
        3 => (p, q, v),
        4 => (t, p, v),
        _ => (v, p, q),
    }
}

/// With exact arithmetic, a hue without value is black, whatever hue and saturation are.
proof fn no_value_is_black<T: Sub<Output = T> + Mul<Output = T>>(
    val: spec_fn(T) -> real,
    one: T,
    sector: int,
    f: T,
    s: T,
    v: T,
    rgb: (T, T, T),
)
    requires
        numeric::exact_differences(val),
        numeric::exact_products(val),
        val(v) == 0real,
        hued(one, sector, f, s, v, rgb),
    ensures
        val(rgb.0) == 0real && val(rgb.1) == 0real && val(rgb.2) == 0real,
{
    assert forall|x: T, r: T| #[trigger] lowered(one, v, x, r) implies val(r) == 0real by {
        let d = choose|d: T| #[trigger]
            numeric::difference(one, x, d) && numeric::product(v, d, r);
        assert(0real * val(d) == 0real);
    }
}

/// With exact arithmetic, hues of one sector have colours of the same numbers where they
/// have fractions, saturations and values of the same numbers.
proof fn equal_hues_have_equal_colours<T: Sub<Output = T> + Mul<Output = T>>(
    val: spec_fn(T) -> real,
    one: T,
    sector: int,
    a: (T, T, T),
    b: (T, T, T),
    rgb: (T, T, T),
    other: (T, T, T),
)
    requires
        numeric::exact_differences(val),
        numeric::exact_products(val),
        val(a.0) == val(b.0) && val(a.1) == val(b.1) && val(a.2) == val(b.2),
        hued(one, sector, a.0, a.1, a.2, rgb),
        hued(one, sector, b.0, b.1, b.2, other),
    ensures
        val(rgb.0) == val(other.0) && val(rgb.1) == val(other.1) && val(rgb.2) == val(other.2),
{
}

/// The sample that pixel `j` shows: images have the highest frequency on top.
pub open spec fn flipped(j: int, width: int, num_scales: int) -> int {
    (num_scales - 1 - j / width) * width + j % width
}

/// Flipping is its own inverse and stays within the image, so every sample is shown once.
pub proof fn every_sample_is_shown_once(j: int, width: int, num_scales: int)
    requires
        0 <= width,
        0 <= num_scales,
        0 <= j < num_scales * width,
    ensures
        0 <= flipped(j, width, num_scales) < num_scales * width,
        flipped(flipped(j, width, num_scales), width, num_scales) == j,
{
    if width == 0 {
        lemma_mul_basics_1(num_scales);
        lemma_mul_is_commutative(width, num_scales);
    }
    lemma_fundamental_div_mod(j, width);
    lemma_mod_bound(j, width);
    let r = j / width;
    let c = j % width;
    lemma_div_pos_is_pos(j, width);
    if r >= num_scales {
        lemma_mul_inequality(num_scales, r, width);
        lemma_mul_is_commutative(width, r);
    }
    squeeze::pixel_index(num_scales - 1 - r, c, width, num_scales);
    lemma_mul_is_commutative(width, r);
}

/// `rgba` shows an image of opaque pixels with the given colours, the highest frequency on
/// top.
pub open spec fn shows(colours: Seq<[u8; 3]>, width: int, num_scales: int, rgba: Seq<u8>) -> bool {
    &&& rgba.len() == num_scales * width * 4
    &&& forall|j: int|
        0 <= j < num_scales * width ==> #[trigger] rgba.subrange(4 * j, 4 * j + 4) == opaque(
            colours[flipped(j, width, num_scales)],
        )
}

/// Pixel (`x`, `y`) of a picture, counted from its top left corner, has the colour of column
/// `x` in the row that is `y` below the highest, and is opaque.
pub proof fn pixels_are_where_they_belong(
    colours: Seq<[u8; 3]>,
    width: int,
    num_scales: int,
    rgba: Seq<u8>,
    x: int,
    y: int,
)
    requires
        shows(colours, width, num_scales, rgba),
        0 <= x < width,
        0 <= y < num_scales,
    ensures
        ({
            let b = 4 * (y * width + x);
            let px = colours[(num_scales - 1 - y) * width + x];
            &&& 0 <= b && b + 3 < rgba.len()
            &&& rgba[b] == px[0] && rgba[b + 1] == px[1] && rgba[b + 2] == px[2]
            &&& rgba[b + 3] == 255
        }),
{
    let j = y * width + x;
    squeeze::pixel_index(y, x, width, num_scales);
    lemma_mul_nonnegative(y, width);
    let px = rgba.subrange(4 * j, 4 * j + 4);
    assert(flipped(j, width, num_scales) == (num_scales - 1 - y) * width + x) by {
        lemma_fundamental_div_mod_converse(j, width, y, x);
    }
    assert(px == opaque(colours[flipped(j, width, num_scales)]));
    assert(px[0] == rgba[4 * j] && px[1] == rgba[4 * j + 1] && px[2] == rgba[4 * j + 2] && px[3]
        == rgba[4 * j + 3]);
}

/// The bytes of an opaque pixel.
pub open spec fn opaque(rgb: [u8; 3]) -> Seq<u8> {
    seq![rgb[0], rgb[1], rgb[2], 255u8]
}

/// Lays out the colours of an image, `[scale * width + col]` with the lowest frequency
/// first, as RGBA pixels.
pub fn colours_to_rgba(colours: &Vec<[u8; 3]>, width: usize, num_scales: usize) -> (rgba: Vec<u8>)
    requires
        num_scales * width <= colours@.len(),
    ensures
        shows(colours@, width as int, num_scales as int, rgba@),
{
    let len: usize = colours.len();
    let mut rgba: Vec<u8> = Vec::new();
    let ghost total = num_scales * width;
    let ghost mut done: int = 0;
    let mut row: usize = 0;
    while row < num_scales
        invariant
            row <= num_scales,
            total == num_scales * width <= len == colours@.len(),
            done == row * width,
            rgba@.len() == 4 * done,
            forall|j: int|
                0 <= j < done ==> #[trigger] rgba@.subrange(4 * j, 4 * j + 4) == opaque(
                    colours@[flipped(j, width as int, num_scales as int)],
                ),
        decreases num_scales - row,
    {
        let sc_row: usize = num_scales - 1 - row;
        let mut col: usize = 0;
        while col < width
            invariant
                row < num_scales,
                sc_row == num_scales - 1 - row,
                col <= width,
                total == num_scales * width <= len == colours@.len(),
                done == row * width + col,
                rgba@.len() == 4 * done,
                forall|j: int|
                    0 <= j < done ==> #[trigger] rgba@.subrange(4 * j, 4 * j + 4) == opaque(
                        colours@[flipped(j, width as int, num_scales as int)],
                    ),
            decreases width - col,
        {
            proof {
                squeeze::pixel_index(row as int, col as int, width as int, num_scales as int);
                squeeze::pixel_index(sc_row as int, col as int, width as int, num_scales as int);
                lemma_mul_nonnegative(sc_row as int, width as int);
            }
            let rgb: [u8; 3] = colours[sc_row * width + col];
            let ghost before = rgba@;
            rgba.push(rgb[0]);
            rgba.push(rgb[1]);
            rgba.push(rgb[2]);
            rgba.push(255);
            proof {
                let j = done;
                assert(flipped(j, width as int, num_scales as int) == sc_row * width + col);
                assert(rgba@.subrange(4 * j, 4 * j + 4) =~= opaque(rgb));
                assert forall|k: int| 0 <= k < done implies #[trigger] rgba@.subrange(
                    4 * k,
                    4 * k + 4,
                ) == opaque(colours@[flipped(k, width as int, num_scales as int)]) by {
                    assert(rgba@.subrange(4 * k, 4 * k + 4) =~= before.subrange(
                        4 * k,
                        4 * k + 4,
                    ));
                }
                done = done + 1;
            }
            col = col + 1;
        }
        assert((row + 1) * width == row * width + width) by (nonlinear_arith);
        row = row + 1;
    }
    rgba
}

/// The functions that shade amplitude.
pub struct AmplitudeShade<'a, T, L, M, B> {
    pub map: ColorMap,
    pub scaling: &'a Scaling<T, L>,
    pub palette: &'a Palette<T, M, B>,
}

impl<
    'a,
    T: Copy + Add<Output = T> + Sub<Output = T> + Mul<Output = T> + Div<Output = T> + PartialOrd,
    L: Fn(T) -> T,
    M: Fn(u32) -> T,
    B: Fn(T) -> u8,
> AmplitudeShade<'a, T, L, M, B> {
    /// `px` is the colour map at the brightness of an amplitude.
    pub open spec fn shaded(self, v: T, px: [u8; 3]) -> bool {
        exists|t: T| #[trigger]
            self.scaling.bright(v, t) && self.palette.applied(self.map, t, px)
    }

    /// `colours` are those of the first `n` amplitudes.
    pub open spec fn all_shaded(self, image: Seq<T>, n: int, colours: Seq<[u8; 3]>) -> bool {
        &&& colours.len() == n
        &&& forall|i: int| 0 <= i < n ==> self.shaded(image[i], #[trigger] colours[i])
    }

    /// `rgba` is the picture of an image of amplitudes.
    pub open spec fn pictured(self, image: Seq<T>, width: int, num_scales: int, rgba: Seq<u8>) -> bool {
        exists|colours: Seq<[u8; 3]>| #[trigger]
            self.all_shaded(image, num_scales * width, colours) && shows(
                colours,
                width,
                num_scales,
                rgba,
            )
    }

    /// Pixel (`x`, `y`) of a picture shows, by the colour map, the brightness of the amplitude
    /// in column `x` of the row that is `y` below the highest.
    pub proof fn pictures_show_the_amplitude(
        self,
        image: Seq<T>,
        width: int,
        num_scales: int,
        rgba: Seq<u8>,
        x: int,
        y: int,
    )
        requires
            self.pictured(image, width, num_scales, rgba),
            0 <= x < width,
            0 <= y < num_scales,
        ensures
            exists|t: T, px: [u8; 3]|
                {
                    let b = 4 * (y * width + x);
                    &&& #[trigger] self.scaling.bright(image[(num_scales - 1 - y) * width + x], t)
                    &&& #[trigger] self.palette.applied(self.map, t, px)
                    &&& rgba[b] == px[0] && rgba[b + 1] == px[1] && rgba[b + 2] == px[2]
                    &&& rgba[b + 3] == 255
                },
    {
        let colours = choose|colours: Seq<[u8; 3]>| #[trigger]
            self.all_shaded(image, num_scales * width, colours) && shows(
                colours,
                width,
                num_scales,
                rgba,
            );
        let i = (num_scales - 1 - y) * width + x;
        squeeze::pixel_index(num_scales - 1 - y, x, width, num_scales);
        lemma_mul_nonnegative(num_scales - 1 - y, width);
        pixels_are_where_they_belong(colours, width, num_scales, rgba, x, y);
        assert(self.shaded(image[i], colours[i]));
        let t = choose|t: T| #[trigger]
            self.scaling.bright(image[i], t) && self.palette.applied(self.map, t, colours[i]);
        assert(self.scaling.bright(image[i], t) && self.palette.applied(self.map, t, colours[i]));
    }
}

/// Converts a scalogram, `[scale * width + col]` with the lowest frequency first, to an
/// RGBA image: every pixel has the colour of its brightness.
pub fn scalogram_to_rgba<
    T: Copy + Add<Output = T> + Sub<Output = T> + Mul<Output = T> + Div<Output = T> + PartialOrd,
    L: Fn(T) -> T,
    M: Fn(u32) -> T,
    B: Fn(T) -> u8,
>(
    scalogram: &Vec<T>,
    width: usize,
    num_scales: usize,
    shade: &AmplitudeShade<T, L, M, B>,
) -> (rgba: Vec<u8>)
    requires
        scalogram@.len() >= num_scales * width,
        shade.scaling.callable(),
        shade.palette.callable(),
    ensures
        shade.pictured(scalogram@, width as int, num_scales as int, rgba@),
{
    proof {
        assert(scalogram.len() <= usize::MAX);
        lemma_mul_nonnegative(num_scales as int, width as int);
    }
    let n: usize = num_scales * width;
    let mut colours: Vec<[u8; 3]> = Vec::new();
    let mut i: usize = 0;
    while i < n
        invariant
            i <= n <= scalogram@.len(),
            shade.scaling.callable(),
            shade.palette.callable(),
            shade.all_shaded(scalogram@, i as int, colours@),
        decreases n - i,
    {
        let t: T = shade.scaling.brightness(scalogram[i]);
        let px: [u8; 3] = shade.map.apply(t, shade.palette);
        assert(shade.shaded(scalogram@[i as int], px));
        colours.push(px);
        i = i + 1;
    }
    assert(shade.all_shaded(scalogram@, num_scales * width, colours@));
    colours_to_rgba(&colours, width, num_scales)
}

/// The functions that shade phase.
pub struct PhaseShade<'a, T, F, W, N, P, M, B> {
    pub wheel: &'a HueWheel<T, F, W, N, P>,
    pub palette: &'a Palette<T, M, B>,
}

impl<
    'a,
    T: Copy + Add<Output = T> + Sub<Output = T> + Mul<Output = T> + Div<Output = T> + PartialOrd,
    F: Fn(T) -> T,
    W: Fn(T) -> i32,
    N: Fn(i32) -> T,
    P: Fn(T, T) -> T,
    M: Fn(u32) -> T,
    B: Fn(T) -> u8,
> PhaseShade<'a, T, F, W, N, P, M, B> {
    pub open spec fn callable(self) -> bool {
        self.wheel.callable() && self.palette.callable()
    }

    /// `px` is the colour of a phase with some coherence and value.
    pub open spec fn shaded(self, p: T, c: T, v: T, px: [u8; 3]) -> bool {
        exists|rgb: (T, T, T)| #[trigger]
            self.wheel.phase_colour(p, c, v, rgb) && self.palette.bytes_of(rgb, px)
    }

    fn shade(&self, p: T, c: T, v: T) -> (px: [u8; 3])
        requires
            self.callable(),
        ensures
            self.shaded(p, c, v, px),
    {
        let rgb = self.wheel.shade(p, c, v);
        self.palette.pixel(rgb)
    }

    /// `colours` are those of the first `n` phases at full value.
    pub open spec fn all_shaded(
        self,
        phase: Seq<T>,
        coherence: Seq<T>,
        n: int,
        colours: Seq<[u8; 3]>,
    ) -> bool {
        &&& colours.len() == n
        &&& forall|i: int|
            0 <= i < n ==> self.shaded(
                phase[i],
                coherence[i],
                self.wheel.one,
                #[trigger] colours[i],
            )
    }

    /// `px` is the colour of a phase with the brightness of an amplitude as its value.
    pub open spec fn combined<L: Fn(T) -> T>(
        self,
        scaling: Scaling<T, L>,
        a: T,
        p: T,
        c: T,
        px: [u8; 3],
    ) -> bool {
        exists|t: T| #[trigger] scaling.bright(a, t) && self.shaded(p, c, t, px)
    }

    /// `colours` are those of the first `n` amplitudes and phases.
    pub open spec fn all_combined<L: Fn(T) -> T>(
        self,
        scaling: Scaling<T, L>,
        images: (Seq<T>, Seq<T>, Seq<T>),
        n: int,
        colours: Seq<[u8; 3]>,
    ) -> bool {
        &&& colours.len() == n
        &&& forall|i: int|
            0 <= i < n ==> self.combined(
                scaling,
                images.0[i],
                images.1[i],
                images.2[i],
                #[trigger] colours[i],
            )
    }

    /// `rgba` is the picture of an image of phases.
    pub open spec fn phase_pictured(
        self,
        phase: Seq<T>,
        coherence: Seq<T>,
        width: int,
        num_scales: int,
        rgba: Seq<u8>,
    ) -> bool {
        exists|colours: Seq<[u8; 3]>| #[trigger]
            self.all_shaded(phase, coherence, num_scales * width, colours) && shows(
                colours,
                width,
                num_scales,
                rgba,
            )
    }

    /// `rgba` is the picture of images of amplitudes, phases and coherences.
    pub open spec fn pictured<L: Fn(T) -> T>(
        self,
        scaling: Scaling<T, L>,
        images: (Seq<T>, Seq<T>, Seq<T>),
        width: int,
        num_scales: int,
        rgba: Seq<u8>,
    ) -> bool {
        exists|colours: Seq<[u8; 3]>| #[trigger]
            self.all_combined(scaling, images, num_scales * width, colours) && shows(
                colours,
                width,
                num_scales,
                rgba,
            )
    }

    /// Pixel (`x`, `y`) of a picture of phases has the colour of the phase in column `x` of the
    /// row that is `y` below the highest, with the coherence there and full value.
    pub proof fn pictures_show_the_phase(
        self,
        phase: Seq<T>,
        coherence: Seq<T>,
        width: int,
        num_scales: int,
        rgba: Seq<u8>,
        x: int,
        y: int,
    )
        requires
            self.phase_pictured(phase, coherence, width, num_scales, rgba),
            0 <= x < width,
            0 <= y < num_scales,
        ensures
            exists|rgb: (T, T, T), px: [u8; 3]|
                {
                    let b = 4 * (y * width + x);
                    &&& #[trigger] self.wheel.phase_colour(
                        phase[(num_scales - 1 - y) * width + x],
                        coherence[(num_scales - 1 - y) * width + x],
                        self.wheel.one,
                        rgb,
                    )
                    &&& #[trigger] self.palette.bytes_of(rgb, px)
                    &&& rgba[b] == px[0] && rgba[b + 1] == px[1] && rgba[b + 2] == px[2]
                    &&& rgba[b + 3] == 255
                },
    {
        let colours = choose|colours: Seq<[u8; 3]>| #[trigger]
            self.all_shaded(phase, coherence, num_scales * width, colours) && shows(
                colours,
                width,
                num_scales,
                rgba,
            );
        let i = (num_scales - 1 - y) * width + x;
        squeeze::pixel_index(num_scales - 1 - y, x, width, num_scales);
        lemma_mul_nonnegative(num_scales - 1 - y, width);
        pixels_are_where_they_belong(colours, width, num_scales, rgba, x, y);
        assert(self.shaded(phase[i], coherence[i], self.wheel.one, colours[i]));
    }

    /// Pixel (`x`, `y`) of a picture of amplitude and phase has the colour of the phase in
    /// column `x` of the row that is `y` below the highest, with the coherence there and the
    /// brightness of the amplitude there as its value.
    pub proof fn pictures_show_amplitude_and_phase<L: Fn(T) -> T>(
        self,
        scaling: Scaling<T, L>,
        images: (Seq<T>, Seq<T>, Seq<T>),
        width: int,
        num_scales: int,
        rgba: Seq<u8>,
        x: int,
        y: int,
    )
        requires
            self.pictured(scaling, images, width, num_scales, rgba),
            0 <= x < width,
            0 <= y < num_scales,
        ensures
            exists|t: T, rgb: (T, T, T), px: [u8; 3]|
                {
                    let b = 4 * (y * width + x);
                    &&& scaling.bright(images.0[(num_scales - 1 - y) * width + x], t)
                    &&& #[trigger] self.wheel.phase_colour(
                        images.1[(num_scales - 1 - y) * width + x],
                        images.2[(num_scales - 1 - y) * width + x],
                        t,
                        rgb,
                    )
                    &&& #[trigger] self.palette.bytes_of(rgb, px)
                    &&& rgba[b] == px[0] && rgba[b + 1] == px[1] && rgba[b + 2] == px[2]
                    &&& rgba[b + 3] == 255
                },
    {
        let colours = choose|colours: Seq<[u8; 3]>| #[trigger]
            self.all_combined(scaling, images, num_scales * width, colours) && shows(
                colours,
                width,
                num_scales,
                rgba,
            );
        let i = (num_scales - 1 - y) * width + x;
        squeeze::pixel_index(num_scales - 1 - y, x, width, num_scales);
        lemma_mul_nonnegative(num_scales - 1 - y, width);
        pixels_are_where_they_belong(colours, width, num_scales, rgba, x, y);
        assert(self.combined(scaling, images.0[i], images.1[i], images.2[i], colours[i]));
        let t = choose|t: T| #[trigger]
            scaling.bright(images.0[i], t) && self.shaded(
                images.1[i],
                images.2[i],
                t,
                colours[i],
            );
        assert(self.shaded(images.1[i], images.2[i], t, colours[i]));
    }

    /// The arithmetic is exact where values are read as real numbers, and a byte depends on
    /// the number alone and is zero for zero.
    pub open spec fn exact(self, val: spec_fn(T) -> real) -> bool {
        &&& self.wheel.exact(val)
        &&& val(self.palette.zero) == 0real
        &&& val(self.palette.one) == 1real
        &&& forall|a: T, x: u8| #[trigger]
            call_ensures(self.palette.byte, (a,), x) && val(a) == 0real ==> x == 0
        &&& forall|a: T, b: T, x: u8, y: u8|
            #![trigger
                call_ensures(self.palette.byte, (a,), x),
                call_ensures(self.palette.byte, (b,), y)]
            call_ensures(self.palette.byte, (a,), x) && call_ensures(self.palette.byte, (b,), y)
                && val(a) == val(b) ==> x == y
    }

    /// With exact arithmetic, a picture of amplitude and phase is black wherever the
    /// amplitude is at or below the low end of the reference range.
    pub proof fn quiet_pixels_are_black<L: Fn(T) -> T>(
        self,
        val: spec_fn(T) -> real,
        scaling: Scaling<T, L>,
        images: (Seq<T>, Seq<T>, Seq<T>),
        n: int,
        colours: Seq<[u8; 3]>,
        i: int,
    )
        requires
            self.exact(val),
            scaling.exact(val),
            self.all_combined(scaling, images, n, colours),
            0 <= i < n,
            val(images.0[i]) <= val(scaling.vmin),
        ensures
            colours[i]@ == seq![0u8, 0u8, 0u8],
    {
        let px = colours[i];
        let (a, p, c) = (images.0[i], images.1[i], images.2[i]);
        assert(self.combined(scaling, a, p, c, px));
        let t = choose|t: T| #[trigger] scaling.bright(a, t) && self.shaded(p, c, t, px);
        let (llo, lhi) = choose|llo: T, lhi: T| #[trigger]
            scaling.compresses(scaling.vmin, llo) && #[trigger] scaling.compresses(
                scaling.vmax,
                lhi,
            );
        scaling.brightness_rises(val, a, a, llo, lhi, t, t);
        let rgb = choose|rgb: (T, T, T)| #[trigger]
            self.wheel.phase_colour(p, c, t, rgb) && self.palette.bytes_of(rgb, px);
        self.wheel.no_value_means_no_colour(val, p, c, t, rgb);
        assert(px[0] == 0 && px[1] == 0 && px[2] == 0);
        assert(px@ =~= seq![0u8, 0u8, 0u8]);
    }

    /// With exact arithmetic, a picture of amplitude and phase is that of the phase alone
    /// wherever the amplitude is at or above the high end of the reference range, unless
    /// the range or its logarithm is shorter than the least length that counts.
    pub proof fn loud_pixels_show_the_phase<L: Fn(T) -> T>(
        self,
        val: spec_fn(T) -> real,
        scaling: Scaling<T, L>,
        images: (Seq<T>, Seq<T>, Seq<T>),
        n: int,
        colours: Seq<[u8; 3]>,
        phases: Seq<[u8; 3]>,
        llo: T,
        lhi: T,
        i: int,
    )
        requires
            self.exact(val),
            scaling.exact(val),
            self.all_combined(scaling, images, n, colours),
            self.all_shaded(images.1, images.2, n, phases),
            0 <= i < n,
            val(images.0[i]) >= val(scaling.vmax),
            scaling.compresses(scaling.vmin, llo),
            scaling.compresses(scaling.vmax, lhi),
            val(scaling.vmax) - val(scaling.vmin) >= val(scaling.floor),
            val(lhi) - val(llo) >= val(scaling.floor),
        ensures
            colours[i]@ == phases[i]@,
    {
        let (px, other) = (colours[i], phases[i]);
        let (a, p, c) = (images.0[i], images.1[i], images.2[i]);
        assert(self.combined(scaling, a, p, c, px));
        let t = choose|t: T| #[trigger] scaling.bright(a, t) && self.shaded(p, c, t, px);
        scaling.brightness_rises(val, a, a, llo, lhi, t, t);
        let one = self.wheel.one;
        let x = choose|rgb: (T, T, T)| #[trigger]
            self.wheel.phase_colour(p, c, t, rgb) && self.palette.bytes_of(rgb, px);
        let y = choose|rgb: (T, T, T)| #[trigger]
            self.wheel.phase_colour(p, c, one, rgb) && self.palette.bytes_of(rgb, other);
        self.wheel.colours_agree(val, p, c, t, one, x, y);
        self.bytes_agree(val, x.0, y.0, px[0], other[0]);
        self.bytes_agree(val, x.1, y.1, px[1], other[1]);
        self.bytes_agree(val, x.2, y.2, px[2], other[2]);
        assert(px@ =~= other@);
    }

    /// With exact arithmetic, where every amplitude is at or above the high end of the
    /// reference range, the picture of amplitude and phase is that of the phase alone.
    pub proof fn a_loud_picture_shows_the_phase<L: Fn(T) -> T>(
        self,
        val: spec_fn(T) -> real,
        scaling: Scaling<T, L>,
        images: (Seq<T>, Seq<T>, Seq<T>),
        size: (int, int),
        colours: (Seq<[u8; 3]>, Seq<[u8; 3]>),
        logs: (T, T),
        combined: Seq<u8>,
        phase: Seq<u8>,
    )
        requires
            self.exact(val),
            scaling.exact(val),
            0 <= size.0 && 0 <= size.1,
            self.all_combined(scaling, images, size.1 * size.0, colours.0),
            self.all_shaded(images.1, images.2, size.1 * size.0, colours.1),
            shows(colours.0, size.0, size.1, combined),
            shows(colours.1, size.0, size.1, phase),
            forall|i: int|
                0 <= i < size.1 * size.0 ==> val(#[trigger] images.0[i]) >= val(scaling.vmax),
            scaling.compresses(scaling.vmin, logs.0),
            scaling.compresses(scaling.vmax, logs.1),
            val(scaling.vmax) - val(scaling.vmin) >= val(scaling.floor),
            val(logs.1) - val(logs.0) >= val(scaling.floor),
        ensures
            combined == phase,
    {
        let (w, ns) = size;
        let n = ns * w;
        assert forall|b: int| 0 <= b < combined.len() implies combined[b] == phase[b] by {
            let j = b / 4;
            assert(0 <= j < n);
            every_sample_is_shown_once(j, w, ns);
            let i = flipped(j, w, ns);
            assert(val(images.0[i]) >= val(scaling.vmax));
            self.loud_pixels_show_the_phase(
                val,
                scaling,
                images,
                n,
                colours.0,
                colours.1,
                logs.0,
                logs.1,
                i,
            );
            assert(opaque(colours.0[i]) =~= opaque(colours.1[i]));
            assert(combined.subrange(4 * j, 4 * j + 4) == phase.subrange(4 * j, 4 * j + 4));
            assert(combined.subrange(4 * j, 4 * j + 4)[b - 4 * j] == combined[b]);
            assert(phase.subrange(4 * j, 4 * j + 4)[b - 4 * j] == phase[b]);
        }
        assert(combined =~= phase);
    }

    proof fn bytes_agree(self, val: spec_fn(T) -> real, v: T, w: T, x: u8, y: u8)
        requires
            self.exact(val),
            val(v) == val(w),
            self.palette.byte_of(v, x),
            self.palette.byte_of(w, y),
        ensures
            x == y,
    {
        let (zero, one) = (self.palette.zero, self.palette.one);
        let a = choose|a: T| #[trigger]
            clamped(v, zero, one, a) && call_ensures(self.palette.byte, (a,), x);
        let b = choose|a: T| #[trigger]
            clamped(w, zero, one, a) && call_ensures(self.palette.byte, (a,), y);
        assert(val(a) == val(b));
    }
}

/// Converts phase and coherence to an RGBA image, laid out as in [`scalogram_to_rgba`]:
/// phase is the hue, and where it is not coherent it fades to white.
pub fn phase_to_rgba<
    T: Copy + Add<Output = T> + Sub<Output = T> + Mul<Output = T> + Div<Output = T> + PartialOrd,
    F: Fn(T) -> T,
    W: Fn(T) -> i32,
    N: Fn(i32) -> T,
    P: Fn(T, T) -> T,
    M: Fn(u32) -> T,
    B: Fn(T) -> u8,
>(
    phase: &Vec<T>,
    coherence: &Vec<T>,
    width: usize,
    num_scales: usize,
    shade: &PhaseShade<T, F, W, N, P, M, B>,
) -> (rgba: Vec<u8>)
    requires
        phase@.len() >= num_scales * width,
        coherence@.len() >= num_scales * width,
        shade.callable(),
    ensures
        shade.phase_pictured(phase@, coherence@, width as int, num_scales as int, rgba@),
{
    proof {
        assert(phase.len() <= usize::MAX);
        lemma_mul_nonnegative(num_scales as int, width as int);
    }
    let n: usize = num_scales * width;
    let mut colours: Vec<[u8; 3]> = Vec::new();
    let mut i: usize = 0;
    while i < n
        invariant
            i <= n <= phase@.len(),
            n <= coherence@.len(),
            shade.callable(),
            shade.all_shaded(phase@, coherence@, i as int, colours@),
        decreases n - i,
    {
        colours.push(shade.shade(phase[i], coherence[i], shade.wheel.one));
        i = i + 1;
    }
    assert(shade.all_shaded(phase@, coherence@, num_scales * width, colours@));
    colours_to_rgba(&colours, width, num_scales)
}

/// Converts amplitude, phase and coherence to an RGBA image, laid out as in
/// [`scalogram_to_rgba`]: phase is the hue, amplitude the brightness.
pub fn combined_to_rgba<
    T: Copy + Add<Output = T> + Sub<Output = T> + Mul<Output = T> + Div<Output = T> + PartialOrd,
    L: Fn(T) -> T,
    F: Fn(T) -> T,
    W: Fn(T) -> i32,
    N: Fn(i32) -> T,
    P: Fn(T, T) -> T,
    M: Fn(u32) -> T,
    B: Fn(T) -> u8,
>(
    images: (&Vec<T>, &Vec<T>, &Vec<T>),
    width: usize,
    num_scales: usize,
    scaling: &Scaling<T, L>,
    shade: &PhaseShade<T, F, W, N, P, M, B>,
) -> (rgba: Vec<u8>)
    requires
        images.0@.len() >= num_scales * width,
        images.1@.len() >= num_scales * width,
        images.2@.len() >= num_scales * width,
        scaling.callable(),
        shade.callable(),
    ensures
        shade.pictured(
            *scaling,
            (images.0@, images.1@, images.2@),
            width as int,
            num_scales as int,
            rgba@,
        ),
{
    let (amplitude, phase, coherence) = images;
    let ghost all = (images.0@, images.1@, images.2@);
    proof {
        assert(phase.len() <= usize::MAX);
        lemma_mul_nonnegative(num_scales as int, width as int);
    }
    let n: usize = num_scales * width;
    let mut colours: Vec<[u8; 3]> = Vec::new();
    let mut i: usize = 0;
    while i < n
        invariant
            all == (amplitude@, phase@, coherence@),
            i <= n <= phase@.len(),
            n <= coherence@.len(),
            n <= amplitude@.len(),
            scaling.callable(),
            shade.callable(),
            shade.all_combined(*scaling, all, i as int, colours@),
        decreases n - i,
    {
        let t: T = scaling.brightness(amplitude[i]);
        let px: [u8; 3] = shade.shade(phase[i], coherence[i], t);
        let k: usize = i;
        assert(shade.combined(
            *scaling,
            amplitude@[k as int],
            phase@[k as int],
            coherence@[k as int],
            px,
        ));
        colours.push(px);
        i = i + 1;
    }
    assert(shade.all_combined(*scaling, all, num_scales * width, colours@));
    colours_to_rgba(&colours, width, num_scales)
}

} // verus!
