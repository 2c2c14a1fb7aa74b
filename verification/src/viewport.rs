//! The visible time window: panning, zooming, resizing, and what the mouse means for it.

use std::ops::{Add, Div, Mul, Sub};
use vstd::prelude::*;

use crate::colormap;
use crate::numeric;
#[allow(unused_imports)]
use crate::reals;

verus! {

/// Visible window in samples.
#[derive(Clone, Copy, Debug)]
pub struct Viewport<V> {
    pub t_start: V,
    pub t_end: V,
}

/// `r` is the larger of `x` and `lo`. Where one of them is not a number, it is the other.
pub open spec fn raised<V: PartialOrd>(x: V, lo: V, r: V) -> bool {
    ||| numeric::above(x, lo, true) && r == x
    ||| numeric::above(x, lo, false) && numeric::at_most(lo, lo, true) && r == lo
    ||| numeric::above(x, lo, false) && numeric::at_most(lo, lo, false) && r == x
}

/// `r` is the smaller of `x` and `hi`. Where one of them is not a number, it is the other.
pub open spec fn lowered<V: PartialOrd>(x: V, hi: V, r: V) -> bool {
    ||| numeric::below(x, hi, true) && r == x
    ||| numeric::below(x, hi, false) && numeric::at_most(hi, hi, true) && r == hi
    ||| numeric::below(x, hi, false) && numeric::at_most(hi, hi, false) && r == x
}

/// The larger of `x` and `lo`. What is not a number is not at most itself.
pub fn raise<V: Copy + PartialOrd>(x: V, lo: V) -> (r: V)
    ensures
        raised(x, lo, r),
{
    if x > lo {
        x
    } else if lo <= lo {
        lo
    } else {
        x
    }
}

/// The smaller of `x` and `hi`.
pub fn lower<V: Copy + PartialOrd>(x: V, hi: V) -> (r: V)
    ensures
        lowered(x, hi, r),
{
    if x < hi {
        x
    } else if hi <= hi {
        hi
    } else {
        x
    }
}

/// Frequency range in hertz that the view is reset to.
pub const RESET_LOW: u32 = 20;

pub const RESET_HIGH: u32 = 20000;

/// `r` shows all of a recording over the usual frequency range.
pub open spec fn shows_all<V, F, N: Fn(u32) -> F>(
    zero: V,
    total: V,
    number: N,
    r: (Viewport<V>, (F, F)),
) -> bool {
    &&& r.0 == (Viewport { t_start: zero, t_end: total })
    &&& call_ensures(number, (RESET_LOW,), r.1.0)
    &&& call_ensures(number, (RESET_HIGH,), r.1.1)
}

/// A reset brings every point of the recording and every audible frequency into view.
pub proof fn a_reset_hides_nothing<V, F, N: Fn(u32) -> F>(
    val: spec_fn(V) -> real,
    freq: spec_fn(F) -> real,
    zero: V,
    total: V,
    number: N,
    r: (Viewport<V>, (F, F)),
    t: real,
    f: real,
)
    requires
        forall|n: u32, v: F| #[trigger] call_ensures(number, (n,), v) ==> freq(v) == n as int as real,
        shows_all(zero, total, number, r),
    ensures
        val(zero) <= t <= val(total) <==> val(r.0.t_start) <= t <= val(r.0.t_end),
        20real <= f <= 20000real <==> freq(r.1.0) <= f <= freq(r.1.1),
{
}

/// The view that a reset gives: the whole recording over the usual frequency range.
/// `number` gives a number as a frequency.
pub fn reset_view<V, F, N: Fn(u32) -> F>(zero: V, total: V, number: N) -> (r: (
    Viewport<V>,
    (F, F),
))
    requires
        forall|n: u32| call_requires(number, (n,)),
    ensures
        shows_all(zero, total, number, r),
{
    (Viewport { t_start: zero, t_end: total }, (number(RESET_LOW), number(RESET_HIGH)))
}

impl<V: Copy + Add<Output = V> + Sub<Output = V> + PartialOrd> Viewport<V> {
    /// `w` starts at `start`, kept from going below `zero`, and is `len` long; where it would
    /// end behind `total`, it ends there and starts `len` earlier, again not below `zero`.
    pub open spec fn placed(zero: V, total: V, start: V, len: V, w: Viewport<V>) -> bool {
        exists|ts: V, te: V|
            {
                &&& #[trigger] raised(start, zero, ts)
                &&& #[trigger] numeric::sum(ts, len, te)
                &&& {
                    ||| numeric::above(te, total, false) && w.t_start == ts && w.t_end == te
                    ||| numeric::above(te, total, true) && w.t_end == total && exists|b: V|
                        #[trigger]
                        numeric::difference(total, len, b) && raised(b, zero, w.t_start)
                }
            }
    }

    fn place(zero: V, total: V, start: V, len: V) -> (w: Viewport<V>)
        requires
            numeric::adds::<V>(),
            numeric::subtracts::<V>(),
        ensures
            Self::placed(zero, total, start, len, w),
    {
        let ts: V = raise(start, zero);
        let te: V = ts + len;
        assert(numeric::sum(ts, len, te));
        if te > total {
            let b: V = total - len;
            assert(numeric::difference(total, len, b));
            Viewport { t_start: raise(b, zero), t_end: total }
        } else {
            Viewport { t_start: ts, t_end: te }
        }
    }

    /// `w` is this window moved by `dt`.
    pub open spec fn panned(self, zero: V, total: V, dt: V, w: Viewport<V>) -> bool {
        exists|len: V, start: V|
            {
                &&& #[trigger] numeric::difference(self.t_end, self.t_start, len)
                &&& #[trigger] numeric::sum(self.t_start, dt, start)
                &&& Self::placed(zero, total, start, len, w)
            }
    }

    /// Moves the window by `dt`, within the recording.
    pub fn pan(self, zero: V, total: V, dt: V) -> (w: Viewport<V>)
        requires
            numeric::adds::<V>(),
            numeric::subtracts::<V>(),
        ensures
            self.panned(zero, total, dt, w),
    {
        let len: V = self.t_end - self.t_start;
        let start: V = self.t_start + dt;
        assert(numeric::difference(self.t_end, self.t_start, len));
        assert(numeric::sum(self.t_start, dt, start));
        Self::place(zero, total, start, len)
    }

    /// `w` is this window with its middle at `centre`; `two` is two.
    pub open spec fn centred(self, zero: V, total: V, two: V, centre: V, w: Viewport<V>) -> bool where
        V: Div<Output = V>,
     {
        exists|len: V, half: V, start: V|
            {
                &&& #[trigger] numeric::difference(self.t_end, self.t_start, len)
                &&& #[trigger] numeric::quotient(len, two, half)
                &&& #[trigger] numeric::difference(centre, half, start)
                &&& Self::placed(zero, total, start, len, w)
            }
    }

    /// Moves the middle of the window to `centre`, within the recording.
    pub fn centre_on(self, zero: V, total: V, two: V, centre: V) -> (w: Viewport<V>) where
        V: Div<Output = V>,

        requires
            numeric::adds::<V>(),
            numeric::subtracts::<V>(),
            numeric::divides::<V>(),
        ensures
            self.centred(zero, total, two, centre, w),
    {
        let len: V = self.t_end - self.t_start;
        let half: V = len / two;
        let start: V = centre - half;
        assert(numeric::difference(self.t_end, self.t_start, len));
        assert(numeric::quotient(len, two, half));
        assert(numeric::difference(centre, half, start));
        Self::place(zero, total, start, len)
    }

    /// `w` is this window with its left edge moved by `dt`, not below `zero` and not closer
    /// than `min_len` to the right edge.
    pub open spec fn left_resized(self, zero: V, min_len: V, dt: V, w: Viewport<V>) -> bool {
        exists|s: V, ts: V, limit: V|
            {
                &&& #[trigger] numeric::sum(self.t_start, dt, s)
                &&& #[trigger] raised(s, zero, ts)
                &&& #[trigger] numeric::difference(self.t_end, min_len, limit)
                &&& w.t_end == self.t_end
                &&& {
                    ||| numeric::above(ts, limit, true) && w.t_start == limit
                    ||| numeric::above(ts, limit, false) && w.t_start == ts
                }
            }
    }

    pub fn resize_left(self, zero: V, min_len: V, dt: V) -> (w: Viewport<V>)
        requires
            numeric::adds::<V>(),
            numeric::subtracts::<V>(),
        ensures
            self.left_resized(zero, min_len, dt, w),
    {
        let s: V = self.t_start + dt;
        let ts: V = raise(s, zero);
        let limit: V = self.t_end - min_len;
        assert(numeric::sum(self.t_start, dt, s));
        assert(numeric::difference(self.t_end, min_len, limit));
        if ts > limit {
            Viewport { t_start: limit, t_end: self.t_end }
        } else {
            Viewport { t_start: ts, t_end: self.t_end }
        }
    }

    /// `w` is this window with its right edge moved by `dt`, not behind `total` and not
    /// closer than `min_len` to the left edge.
    pub open spec fn right_resized(self, total: V, min_len: V, dt: V, w: Viewport<V>) -> bool {
        exists|s: V, te: V, limit: V|
            {
                &&& #[trigger] numeric::sum(self.t_end, dt, s)
                &&& #[trigger] lowered(s, total, te)
                &&& #[trigger] numeric::sum(self.t_start, min_len, limit)
                &&& w.t_start == self.t_start
                &&& {
                    ||| numeric::below(te, limit, true) && w.t_end == limit
                    ||| numeric::below(te, limit, false) && w.t_end == te
                }
            }
    }

    pub fn resize_right(self, total: V, min_len: V, dt: V) -> (w: Viewport<V>)
        requires
            numeric::adds::<V>(),
        ensures
            self.right_resized(total, min_len, dt, w),
    {
        let s: V = self.t_end + dt;
        let te: V = lower(s, total);
        let limit: V = self.t_start + min_len;
        assert(numeric::sum(self.t_end, dt, s));
        assert(numeric::sum(self.t_start, min_len, limit));
        if te < limit {
            Viewport { t_start: self.t_start, t_end: limit }
        } else {
            Viewport { t_start: self.t_start, t_end: te }
        }
    }

    /// `t` is the point at fraction `rx` of the window.
    pub open spec fn at_fraction(self, rx: V, t: V) -> bool where V: Mul<Output = V> {
        exists|len: V, p: V|
            {
                &&& #[trigger] numeric::difference(self.t_end, self.t_start, len)
                &&& #[trigger] numeric::product(rx, len, p)
                &&& numeric::sum(self.t_start, p, t)
            }
    }

    /// The point at fraction `rx` of the window.
    pub fn point_at(self, rx: V) -> (t: V) where V: Mul<Output = V>
        requires
            numeric::adds::<V>(),
            numeric::subtracts::<V>(),
            numeric::multiplies::<V>(),
        ensures
            self.at_fraction(rx, t),
    {
        let len: V = self.t_end - self.t_start;
        let p: V = rx * len;
        assert(numeric::difference(self.t_end, self.t_start, len));
        assert(numeric::product(rx, len, p));
        self.t_start + p
    }

    /// `w` is this window zoomed by `zoom` around the point `cur`: each edge's distance to it
    /// is scaled, the edges stay within the recording, and the window keeps `min_len`.
    pub open spec fn zoomed(
        self,
        zero: V,
        total: V,
        min_len: V,
        cur: V,
        zoom: V,
        w: Viewport<V>,
    ) -> bool where V: Mul<Output = V> {
        exists|a: V, b: V, c: V, ts: V, d: V, e: V, f: V, te: V, len: V|
            {
                &&& #[trigger] numeric::difference(cur, self.t_start, a)
                &&& #[trigger] numeric::product(a, zoom, b)
                &&& #[trigger] numeric::difference(cur, b, c)
                &&& #[trigger] raised(c, zero, ts)
                &&& #[trigger] numeric::difference(self.t_end, cur, d)
                &&& #[trigger] numeric::product(d, zoom, e)
                &&& #[trigger] numeric::sum(cur, e, f)
                &&& #[trigger] lowered(f, total, te)
                &&& #[trigger] numeric::difference(te, ts, len)
                &&& w.t_start == ts
                &&& {
                    ||| numeric::below(len, min_len, true) && numeric::sum(ts, min_len, w.t_end)
                    ||| numeric::below(len, min_len, false) && w.t_end == te
                }
            }
    }

    /// Zooms the window around the point `cur`.
    pub fn zoom(self, zero: V, total: V, min_len: V, cur: V, zoom: V) -> (w: Viewport<V>) where
        V: Mul<Output = V>,

        requires
            numeric::adds::<V>(),
            numeric::subtracts::<V>(),
            numeric::multiplies::<V>(),
        ensures
            self.zoomed(zero, total, min_len, cur, zoom, w),
    {
        let a: V = cur - self.t_start;
        let b: V = a * zoom;
        let c: V = cur - b;
        let ts: V = raise(c, zero);
        let d: V = self.t_end - cur;
        let e: V = d * zoom;
        let f: V = cur + e;
        let te: V = lower(f, total);
        let len: V = te - ts;
        proof {
            assert(numeric::difference(cur, self.t_start, a));
            assert(numeric::product(a, zoom, b));
            assert(numeric::difference(cur, b, c));
            assert(numeric::difference(self.t_end, cur, d));
            assert(numeric::product(d, zoom, e));
            assert(numeric::sum(cur, e, f));
            assert(numeric::difference(te, ts, len));
        }
        if len < min_len {
            Viewport { t_start: ts, t_end: ts + min_len }
        } else {
            Viewport { t_start: ts, t_end: te }
        }
    }
}

/// Sums, differences and comparisons are exact where values are read as real numbers.
pub open spec fn exact<V: Add<Output = V> + Sub<Output = V> + PartialOrd>(
    val: spec_fn(V) -> real,
) -> bool {
    &&& numeric::exact_sums(val)
    &&& numeric::exact_differences(val)
    &&& numeric::exact_order(val)
}

impl<V: Copy + Add<Output = V> + Sub<Output = V> + PartialOrd> Viewport<V> {
    /// Length of the window, read as a real number.
    pub open spec fn length(self, val: spec_fn(V) -> real) -> real {
        val(self.t_end) - val(self.t_start)
    }

    /// In exact arithmetic a placed window lies within the recording, and keeps its length
    /// unless the recording is shorter.
    proof fn placed_within(
        val: spec_fn(V) -> real,
        zero: V,
        total: V,
        start: V,
        len: V,
        w: Viewport<V>,
    )
        requires
            exact(val),
            val(zero) == 0real,
            0real <= val(total),
            0real <= val(len),
            Self::placed(zero, total, start, len, w),
        ensures
            0real <= val(w.t_start),
            val(w.t_end) <= val(total),
            val(len) <= val(total) ==> w.length(val) == val(len),
            0real <= val(start) && val(start) + val(len) <= val(total) ==> val(w.t_start) == val(
                start,
            ),
            val(start) <= 0real ==> val(w.t_start) == 0real,
            val(start) + val(len) >= val(total) ==> val(w.t_end) == val(total) || val(start)
                <= 0real,
    {
    }

    /// Panning moves the window by `dt` as far as the recording reaches: it stays within the
    /// recording, keeps its length, and stops at the end that it was moved towards.
    pub proof fn panning_keeps_the_length(
        self,
        val: spec_fn(V) -> real,
        zero: V,
        total: V,
        dt: V,
        w: Viewport<V>,
    )
        requires
            exact(val),
            val(zero) == 0real,
            0real <= self.length(val) <= val(total),
            self.panned(zero, total, dt, w),
        ensures
            0real <= val(w.t_start),
            val(w.t_end) <= val(total),
            w.length(val) == self.length(val),
            0real <= val(self.t_start) + val(dt) && val(self.t_end) + val(dt) <= val(total)
                ==> val(w.t_start) == val(self.t_start) + val(dt),
            val(self.t_start) + val(dt) <= 0real ==> val(w.t_start) == 0real,
            val(self.t_end) + val(dt) >= val(total) ==> val(w.t_end) == val(total) || val(
                w.t_start,
            ) == 0real,
    {
        let (len, start) = choose|len: V, start: V|
            {
                &&& #[trigger] numeric::difference(self.t_end, self.t_start, len)
                &&& #[trigger] numeric::sum(self.t_start, dt, start)
                &&& Self::placed(zero, total, start, len, w)
            };
        Self::placed_within(val, zero, total, start, len, w);
    }

    /// Moving the middle of the window keeps it within the recording and keeps its length. The
    /// middle comes to `centre` unless that is too close to an end of the recording, where the
    /// window then starts or ends.
    pub proof fn centring_keeps_the_length(
        self,
        val: spec_fn(V) -> real,
        zero: V,
        total: V,
        two: V,
        centre: V,
        w: Viewport<V>,
    ) where V: Div<Output = V>
        requires
            exact(val),
            val(zero) == 0real,
            0real <= self.length(val) <= val(total),
            self.centred(zero, total, two, centre, w),
        ensures
            0real <= val(w.t_start),
            val(w.t_end) <= val(total),
            w.length(val) == self.length(val),
            numeric::exact_quotients(val) && val(two) == 2real ==> {
                let (c, l) = (2real * val(centre), self.length(val));
                &&& l <= c <= 2real * val(total) - l ==> val(w.t_start) + val(w.t_end) == c
                &&& c <= l ==> val(w.t_start) == 0real
                &&& c >= 2real * val(total) - l ==> val(w.t_end) == val(total)
            },
    {
        let (len, half, start) = choose|len: V, half: V, start: V|
            {
                &&& #[trigger] numeric::difference(self.t_end, self.t_start, len)
                &&& #[trigger] numeric::quotient(len, two, half)
                &&& #[trigger] numeric::difference(centre, half, start)
                &&& Self::placed(zero, total, start, len, w)
            };
        Self::placed_within(val, zero, total, start, len, w);
    }

    /// Dragging an edge moves that edge alone and keeps the shortest window.
    pub proof fn resizing_keeps_the_shortest_window(
        self,
        val: spec_fn(V) -> real,
        zero: V,
        total: V,
        min_len: V,
        dt: V,
        left: Viewport<V>,
        right: Viewport<V>,
    )
        requires
            exact(val),
            val(zero) == 0real,
            self.left_resized(zero, min_len, dt, left),
            self.right_resized(total, min_len, dt, right),
        ensures
            left.t_end == self.t_end,
            left.length(val) >= val(min_len),
            val(self.t_end) >= val(min_len) ==> val(left.t_start) >= 0real,
            right.t_start == self.t_start,
            right.length(val) >= val(min_len),
            val(self.t_start) + val(min_len) <= val(total) ==> val(right.t_end) <= val(total),
            0real <= val(self.t_start) + val(dt) <= val(self.t_end) - val(min_len) ==> val(
                left.t_start,
            ) == val(self.t_start) + val(dt),
            val(self.t_start) + val(dt) <= 0real && val(self.t_end) >= val(min_len) ==> val(
                left.t_start,
            ) == 0real,
            val(self.t_start) + val(min_len) <= val(self.t_end) + val(dt) <= val(total) ==> val(
                right.t_end,
            ) == val(self.t_end) + val(dt),
            val(self.t_end) + val(dt) >= val(total) >= val(self.t_start) + val(min_len) ==> val(
                right.t_end,
            ) == val(total),
    {
    }

    /// Zooming keeps the window within the recording, but for the shortest window, which is
    /// kept in any case. Where neither the recording nor the shortest window holds an edge
    /// back, the distances of both edges to the point that is zoomed around are scaled.
    pub proof fn zooming_keeps_the_shortest_window(
        self,
        val: spec_fn(V) -> real,
        zero: V,
        total: V,
        min_len: V,
        cur: V,
        zoom: V,
        w: Viewport<V>,
    ) where V: Mul<Output = V>
        requires
            exact(val),
            numeric::exact_products(val),
            val(zero) == 0real,
            self.zoomed(zero, total, min_len, cur, zoom, w),
        ensures
            0real <= val(w.t_start),
            w.length(val) >= val(min_len),
            val(w.t_end) <= val(total) || w.length(val) == val(min_len),
            val(w.t_start) > 0real && val(w.t_end) < val(total) && w.length(val) > val(min_len) ==> {
                &&& val(cur) - val(w.t_start) == (val(cur) - val(self.t_start)) * val(zoom)
                &&& val(w.t_end) - val(cur) == (val(self.t_end) - val(cur)) * val(zoom)
            },
            ({
                let start = val(cur) - (val(cur) - val(self.t_start)) * val(zoom);
                let end = val(cur) + (val(self.t_end) - val(cur)) * val(zoom);
                &&& start >= 0real ==> val(w.t_start) == start
                &&& start <= 0real ==> val(w.t_start) == 0real
                &&& val(w.t_start) + val(min_len) <= end <= val(total) ==> val(w.t_end) == end
                &&& val(w.t_start) + val(min_len) <= val(total) <= end ==> val(w.t_end) == val(
                    total,
                )
            }),
    {
    }

    /// The point at a fraction of the window divides the window in that proportion: it is the
    /// start at zero and the end at one.
    pub proof fn fractions_divide_the_window(self, val: spec_fn(V) -> real, rx: V, t: V) where
        V: Mul<Output = V>,

        requires
            exact(val),
            numeric::exact_products(val),
            self.at_fraction(rx, t),
        ensures
            val(t) - val(self.t_start) == val(rx) * self.length(val),
            val(rx) == 0real ==> val(t) == val(self.t_start),
            val(rx) == 1real ==> val(t) == val(self.t_end),
    {
        let l = self.length(val);
        assert(0real * l == 0real && 1real * l == l);
    }
}

/// Modifier keys that matter to the wheel.
#[derive(Clone, Copy, Debug, PartialEq, Eq, Structural)]
pub struct Modifiers {
    pub alt: bool,
    pub shift: bool,
    pub ctrl: bool,
    pub command: bool,
}

/// What turning the wheel does, apart from zooming frequency.
#[derive(Clone, Copy, Debug, PartialEq, Eq)]
pub enum Wheel<F> {
    Nothing,
    /// Move the frequency range by this many points.
    PanFreq(F),
    /// Move the time window by this many points.
    PanTime(F),
    /// Zoom the time window, in where true.
    ZoomTime(bool),
}

/// `r` is the distance that pans time: the horizontal one, with Alt also the vertical one.
pub open spec fn pan_points<F: Add<Output = F>>(zero: F, alt: bool, x: F, y: F, r: F) -> bool {
    numeric::sum(
        if alt {
            y
        } else {
            zero
        },
        x,
        r,
    )
}

/// What the wheel means: with Shift it pans frequency by whichever axis moved further;
/// otherwise a pan distance pans time; otherwise a vertical turn zooms time, unless Ctrl
/// or the command key is held. A move counts only beyond `dead`.
pub open spec fn wheel_means<F: Add<Output = F> + PartialOrd, A: Fn(F) -> F>(
    zero: F,
    dead: F,
    size: A,
    x: F,
    y: F,
    keys: Modifiers,
    w: Wheel<F>,
) -> bool {
    exists|ax: F, ay: F, pan: F, ap: F|
        {
            &&& #[trigger] call_ensures(size, (x,), ax)
            &&& #[trigger] call_ensures(size, (y,), ay)
            &&& #[trigger] pan_points(zero, keys.alt, x, y, pan)
            &&& #[trigger] call_ensures(size, (pan,), ap)
            &&& if keys.shift {
                ||| numeric::at_least(ay, ax, true) && wheel_pans_freq(dead, y, ay, w)
                ||| numeric::at_least(ay, ax, false) && wheel_pans_freq(dead, x, ax, w)
            } else {
                ||| numeric::above(ap, dead, true) && w == Wheel::PanTime(pan)
                ||| numeric::above(ap, dead, false) && {
                    ||| numeric::above(ay, dead, true) && if keys.ctrl || keys.command {
                        w == Wheel::<F>::Nothing
                    } else {
                        w matches Wheel::ZoomTime(zoom_in) && numeric::above(y, zero, zoom_in)
                    }
                    ||| numeric::above(ay, dead, false) && w == Wheel::<F>::Nothing
                }
            }
        }
}

pub open spec fn wheel_pans_freq<F: PartialOrd>(dead: F, d: F, size: F, w: Wheel<F>) -> bool {
    ||| numeric::above(size, dead, true) && w == Wheel::PanFreq(d)
    ||| numeric::above(size, dead, false) && w == Wheel::<F>::Nothing
}

/// `size` gives how far a value is from zero.
pub open spec fn measures<F, A: Fn(F) -> F>(val: spec_fn(F) -> real, size: A) -> bool {
    forall|v: F, a: F| #[trigger]
        call_ensures(size, (v,), a) ==> val(a) == if val(v) >= 0real {
            val(v)
        } else {
            -val(v)
        }
}

/// Every turn of the wheel does one thing, and the keys and distances decide which. With Shift
/// only frequency moves, by the longer distance; without it, time moves by the horizontal
/// distance, to which Alt adds the vertical one; only where that is within `dead` a vertical
/// turn zooms, inwards where it is upwards, and not with Ctrl or the command key.
pub proof fn the_wheel_does_one_thing<F: Add<Output = F> + PartialOrd, A: Fn(F) -> F>(
    val: spec_fn(F) -> real,
    zero: F,
    dead: F,
    size: A,
    x: F,
    y: F,
    keys: Modifiers,
    w: Wheel<F>,
)
    requires
        numeric::exact_sums(val),
        numeric::exact_order(val),
        measures(val, size),
        val(zero) == 0real,
        val(dead) >= 0real,
        wheel_means(zero, dead, size, x, y, keys, w),
    ensures
        ({
            let (h, v, lim) = (val(x), val(y), val(dead));
            let pan = h + if keys.alt {
                v
            } else {
                0real
            };
            let quiet = -lim <= pan <= lim;
            match w {
                Wheel::PanFreq(d) => {
                    &&& keys.shift
                    &&& val(d) == h || val(d) == v
                    &&& val(d) > lim || val(d) < -lim
                    &&& h * h <= val(d) * val(d) && v * v <= val(d) * val(d)
                },
                Wheel::PanTime(d) => !keys.shift && val(d) == pan && !quiet,
                Wheel::ZoomTime(inwards) => {
                    &&& !keys.shift && !keys.ctrl && !keys.command && quiet
                    &&& if inwards {
                        v > lim
                    } else {
                        v < -lim
                    }
                },
                Wheel::Nothing => {
                    &&& keys.shift ==> -lim <= h <= lim && -lim <= v <= lim
                    &&& !keys.shift ==> quiet && (-lim <= v <= lim || keys.ctrl || keys.command)
                },
            }
        }),
{
    let (h, v) = (val(x), val(y));
    let a = if h >= 0real {
        h
    } else {
        -h
    };
    let b = if v >= 0real {
        v
    } else {
        -v
    };
    reals::negated(h, h);
    reals::negated(h, -h);
    reals::negated(v, v);
    reals::negated(v, -v);
    if a < b {
        reals::squares_ordered(a, b);
    } else if b < a {
        reals::squares_ordered(b, a);
    }
}

/// Decides what a turn of the wheel by (`x`, `y`) does.
pub fn wheel<F: Copy + Add<Output = F> + PartialOrd, A: Fn(F) -> F>(
    zero: F,
    dead: F,
    size: A,
    x: F,
    y: F,
    keys: Modifiers,
) -> (w: Wheel<F>)
    requires
        numeric::adds::<F>(),
        forall|v: F| call_requires(size, (v,)),
    ensures
        wheel_means(zero, dead, size, x, y, keys, w),
{
    let ax: F = size(x);
    let ay: F = size(y);
    let first: F = if keys.alt {
        y
    } else {
        zero
    };
    let pan: F = first + x;
    let ap: F = size(pan);
    assert(pan_points(zero, keys.alt, x, y, pan));
    if keys.shift {
        let vertical: bool = ay >= ax;
        let (d, a): (F, F) = if vertical {
            (y, ay)
        } else {
            (x, ax)
        };
        assert(numeric::at_least(ay, ax, vertical));
        if a > dead {
            Wheel::PanFreq(d)
        } else {
            Wheel::Nothing
        }
    } else if ap > dead {
        Wheel::PanTime(pan)
    } else if ay > dead {
        if keys.ctrl || keys.command {
            Wheel::Nothing
        } else {
            Wheel::ZoomTime(y > zero)
        }
    } else {
        Wheel::Nothing
    }
}

/// What the user is dragging on the time scrollbar.
#[derive(Clone, Copy, Debug, PartialEq, Eq, Structural)]
pub enum ScrollbarDrag {
    Nothing,
    /// Move the window.
    Pan,
    /// Move the left edge.
    ResizeLeft,
    /// Move the right edge.
    ResizeRight,
}

/// Where the pointer is on the time scrollbar.
#[derive(Clone, Copy, Debug, PartialEq, Eq, Structural)]
pub enum Hit {
    LeftEdge,
    RightEdge,
    /// On the thumb, away from its edges.
    Body,
    /// On the track beside the thumb.
    Track,
}

/// The pointer at `x` is within `edge` of `at`, or found not to be.
pub open spec fn near<F: Sub<Output = F> + PartialOrd, A: Fn(F) -> F>(
    size: A,
    x: F,
    at: F,
    edge: F,
    found: bool,
) -> bool {
    exists|d: F, a: F|
        {
            &&& #[trigger] numeric::difference(x, at, d)
            &&& #[trigger] call_ensures(size, (d,), a)
            &&& numeric::at_most(a, edge, found)
        }
}

/// Where the pointer at `x` hits a thumb from `lo` to `hi`: edges come first, the left one
/// before the right one.
pub open spec fn hits<F: Sub<Output = F> + PartialOrd, A: Fn(F) -> F>(
    size: A,
    x: F,
    lo: F,
    hi: F,
    edge: F,
    h: Hit,
) -> bool {
    ||| near(size, x, lo, edge, true) && h == Hit::LeftEdge
    ||| near(size, x, lo, edge, false) && near(size, x, hi, edge, true) && h == Hit::RightEdge
    ||| {
        &&& near(size, x, lo, edge, false)
        &&& near(size, x, hi, edge, false)
        &&& {
            ||| numeric::at_least(x, lo, true) && numeric::at_most(x, hi, true) && h == Hit::Body
            ||| (numeric::at_least(x, lo, false) || numeric::at_most(x, hi, false)) && h
                == Hit::Track
        }
    }
}

fn is_near<F: Copy + Sub<Output = F> + PartialOrd, A: Fn(F) -> F>(
    size: &A,
    x: F,
    at: F,
    edge: F,
) -> (found: bool)
    requires
        numeric::subtracts::<F>(),
        forall|v: F| call_requires(*size, (v,)),
    ensures
        near(*size, x, at, edge, found),
{
    let d: F = x - at;
    let a: F = size(d);
    assert(numeric::difference(x, at, d));
    a <= edge
}

/// Decides where the pointer hits the scrollbar.
pub fn hit<F: Copy + Sub<Output = F> + PartialOrd, A: Fn(F) -> F>(
    size: A,
    x: F,
    lo: F,
    hi: F,
    edge: F,
) -> (h: Hit)
    requires
        numeric::subtracts::<F>(),
        forall|v: F| call_requires(size, (v,)),
    ensures
        hits(size, x, lo, hi, edge, h),
{
    if is_near(&size, x, lo, edge) {
        Hit::LeftEdge
    } else if is_near(&size, x, hi, edge) {
        Hit::RightEdge
    } else if x >= lo && x <= hi {
        Hit::Body
    } else {
        Hit::Track
    }
}

/// The pointer hits an edge of the thumb exactly where it is within `edge` of it, the left one
/// before the right one; else the thumb where it is on it, and the track anywhere else.
pub proof fn the_scrollbar_is_divided<F: Sub<Output = F> + PartialOrd, A: Fn(F) -> F>(
    val: spec_fn(F) -> real,
    size: A,
    x: F,
    lo: F,
    hi: F,
    edge: F,
    h: Hit,
)
    requires
        numeric::exact_differences(val),
        numeric::exact_order(val),
        measures(val, size),
        hits(size, x, lo, hi, edge, h),
    ensures
        ({
            let (p, a, b, e) = (val(x), val(lo), val(hi), val(edge));
            let (left, right) = (a - e <= p <= a + e, b - e <= p <= b + e);
            &&& h == Hit::LeftEdge <==> left
            &&& h == Hit::RightEdge <==> !left && right
            &&& h == Hit::Body <==> !left && !right && a <= p <= b
            &&& h == Hit::Track <==> !left && !right && !(a <= p <= b)
        }),
{
}

/// Shape of the pointer.
#[derive(Clone, Copy, Debug, PartialEq, Eq, Structural)]
pub enum Cursor {
    Default,
    Grab,
    Grabbing,
    ResizeHorizontal,
}

impl ScrollbarDrag {
    /// What a press at `h` starts to drag.
    pub open spec fn grabbed(h: Hit) -> ScrollbarDrag {
        match h {
            Hit::LeftEdge => ScrollbarDrag::ResizeLeft,
            Hit::RightEdge => ScrollbarDrag::ResizeRight,
            Hit::Body | Hit::Track => ScrollbarDrag::Pan,
        }
    }

    /// The pointer over `hover` while this is dragged.
    pub open spec fn pointer(self, hover: Option<Hit>) -> Cursor {
        match self {
            ScrollbarDrag::Pan => Cursor::Grabbing,
            ScrollbarDrag::ResizeLeft | ScrollbarDrag::ResizeRight => Cursor::ResizeHorizontal,
            ScrollbarDrag::Nothing => match hover {
                Some(Hit::LeftEdge) | Some(Hit::RightEdge) => Cursor::ResizeHorizontal,
                Some(Hit::Body) => Cursor::Grab,
                Some(Hit::Track) | None => Cursor::Default,
            },
        }
    }

    /// The pointer tells what a press will do, and keeps its shape through a drag wherever it
    /// goes: it offers to resize exactly where a press resizes, and to grab exactly on the
    /// thumb; a press that does not resize closes the hand.
    pub proof fn the_pointer_tells_what_a_press_does(h: Hit, elsewhere: Option<Hit>)
        ensures
            Self::grabbed(h) != ScrollbarDrag::Nothing,
            Self::grabbed(h) == ScrollbarDrag::ResizeLeft <==> h == Hit::LeftEdge,
            Self::grabbed(h) == ScrollbarDrag::ResizeRight <==> h == Hit::RightEdge,
            ScrollbarDrag::Nothing.pointer(Some(h)) == Cursor::ResizeHorizontal <==> h
                == Hit::LeftEdge || h == Hit::RightEdge,
            ScrollbarDrag::Nothing.pointer(Some(h)) == Cursor::Grab <==> h == Hit::Body,
            ScrollbarDrag::Nothing.pointer(Some(h)) != Cursor::Grabbing,
            ScrollbarDrag::Nothing.pointer(None) == Cursor::Default,
            Self::grabbed(h).pointer(elsewhere) == if Self::grabbed(h) == ScrollbarDrag::Pan {
                Cursor::Grabbing
            } else {
                ScrollbarDrag::Nothing.pointer(Some(h))
            },
    {
    }

    /// What a press at a place of the scrollbar starts to drag.
    pub fn pressed(h: Hit) -> (d: ScrollbarDrag)
        ensures
            d == Self::grabbed(h),
    {
        match h {
            Hit::LeftEdge => ScrollbarDrag::ResizeLeft,
            Hit::RightEdge => ScrollbarDrag::ResizeRight,
            Hit::Body | Hit::Track => ScrollbarDrag::Pan,
        }
    }

    /// The pointer that shows what is dragged, or what a press would drag.
    pub fn cursor(self, hover: Option<Hit>) -> (c: Cursor)
        ensures
            c == self.pointer(hover),
    {
        match self {
            ScrollbarDrag::Pan => Cursor::Grabbing,
            ScrollbarDrag::ResizeLeft | ScrollbarDrag::ResizeRight => Cursor::ResizeHorizontal,
            ScrollbarDrag::Nothing => match hover {
                Some(Hit::LeftEdge) | Some(Hit::RightEdge) => Cursor::ResizeHorizontal,
                Some(Hit::Body) => Cursor::Grab,
                Some(Hit::Track) | None => Cursor::Default,
            },
        }
    }
}

/// `r` is the frequency range (`f_min`, `f_max`) held below `nyquist` and above `floor`,
/// with its low end at most the share `share` of its high end.
pub open spec fn range_limited<F: Mul<Output = F> + PartialOrd>(
    f_min: F,
    f_max: F,
    nyquist: F,
    floor: F,
    share: F,
    r: (F, F),
) -> bool {
    exists|top: F, limit: F|
        {
            &&& #[trigger] lowered(f_max, nyquist, top)
            &&& raised(top, floor, r.1)
            &&& #[trigger] numeric::product(r.1, share, limit)
            &&& lowered(f_min, limit, r.0)
        }
}

/// Keeps a frequency range safely below what the sample rate can carry, so that the rows
/// match the labelled axis.
pub fn limit_range<F: Copy + Mul<Output = F> + PartialOrd>(
    f_min: F,
    f_max: F,
    nyquist: F,
    floor: F,
    share: F,
) -> (r: (F, F))
    requires
        numeric::multiplies::<F>(),
    ensures
        range_limited(f_min, f_max, nyquist, floor, share, r),
{
    let top: F = lower(f_max, nyquist);
    let high: F = raise(top, floor);
    let limit: F = high * share;
    let r: (F, F) = (lower(f_min, limit), high);
    assert(numeric::product(r.1, share, limit));
    assert(range_limited(f_min, f_max, nyquist, floor, share, r));
    r
}

/// A limited range lies within its bounds and differs from what was asked for only as far as
/// it must: the high end is the nearest value between `floor` and `nyquist`, the low end is
/// kept unless it is above its share of the high end.
pub proof fn limits_hold_the_range<F: Mul<Output = F> + PartialOrd>(
    val: spec_fn(F) -> real,
    f_min: F,
    f_max: F,
    nyquist: F,
    floor: F,
    share: F,
    r: (F, F),
)
    requires
        numeric::exact_products(val),
        numeric::exact_order(val),
        0real < val(floor) <= val(nyquist),
        0real < val(share) < 1real,
        range_limited(f_min, f_max, nyquist, floor, share, r),
    ensures
        val(floor) <= val(r.1) <= val(nyquist),
        val(floor) <= val(f_max) <= val(nyquist) ==> val(r.1) == val(f_max),
        val(f_max) <= val(floor) ==> val(r.1) == val(floor),
        val(f_max) >= val(nyquist) ==> val(r.1) == val(nyquist),
        val(r.0) <= val(r.1) * val(share),
        val(r.0) < val(r.1),
        val(f_min) <= val(r.1) * val(share) ==> val(r.0) == val(f_min),
        val(f_min) >= val(r.1) * val(share) ==> val(r.0) == val(r.1) * val(share),
{
    reals::ordered(val(share), 1real, val(r.1));
    assert(val(share) * val(r.1) == val(r.1) * val(share));
    assert(1real * val(r.1) == val(r.1));
}

/// The limits of the frequency range and what it is computed with. `L` takes logarithms,
/// `E` undoes them into the type of the parameters.
pub struct FrequencyRange<V, F, L, E> {
    pub ln: L,
    pub exp: E,
    /// Lowest and highest low end.
    pub low: (F, F),
    /// Lowest and highest high end.
    pub high: (F, F),
    pub half: F,
    /// Logarithm of the lowest and of the highest frequency.
    pub log_limits: (V, V),
    /// Share of the range that one point of panning moves.
    pub per_point: V,
}

impl<
    V: Copy + Add<Output = V> + Sub<Output = V> + Mul<Output = V> + PartialOrd,
    F: Copy + Mul<Output = F> + PartialOrd,
    L: Fn(V) -> V,
    E: Fn(V) -> F,
> FrequencyRange<V, F, L, E> {
    pub open spec fn callable(self) -> bool {
        &&& numeric::adds::<V>()
        &&& numeric::subtracts::<V>()
        &&& numeric::multiplies::<V>()
        &&& numeric::multiplies::<F>()
        &&& forall|v: V| call_requires(self.ln, (v,))
        &&& forall|v: V| call_requires(self.exp, (v,))
    }

    /// (`new_lo`, `new_hi`) is the logarithmic range (`lo`, `hi`) zoomed by `zoom` around the
    /// point at `ry` of its height, counted from the top.
    pub open spec fn zoomed_logs(ry: V, zoom: V, lo: V, hi: V, new_lo: V, new_hi: V) -> bool {
        exists|span: V, down: V, cur: V, a: V, b: V, c: V, d: V|
            {
                &&& #[trigger] numeric::difference(hi, lo, span)
                &&& #[trigger] numeric::product(ry, span, down)
                &&& #[trigger] numeric::difference(hi, down, cur)
                &&& #[trigger] numeric::difference(cur, lo, a)
                &&& #[trigger] numeric::product(a, zoom, b)
                &&& numeric::difference(cur, b, new_lo)
                &&& #[trigger] numeric::difference(hi, cur, c)
                &&& #[trigger] numeric::product(c, zoom, d)
                &&& numeric::sum(cur, d, new_hi)
            }
    }

    /// `r` is the range with these logarithms, its ends within their limits; where the low
    /// end is not below the high end, it is half of it.
    pub open spec fn limited(self, new_lo: V, new_hi: V, r: (F, F)) -> bool {
        exists|x: F, lo: F, y: F|
            {
                &&& #[trigger] call_ensures(self.exp, (new_lo,), x)
                &&& #[trigger] colormap::clamped(x, self.low.0, self.low.1, lo)
                &&& #[trigger] call_ensures(self.exp, (new_hi,), y)
                &&& colormap::clamped(y, self.high.0, self.high.1, r.1)
                &&& {
                    ||| numeric::at_least(lo, r.1, true) && numeric::product(r.1, self.half, r.0)
                    ||| numeric::at_least(lo, r.1, false) && r.0 == lo
                }
            }
    }

    /// `r` is the range (`f_min`, `f_max`) zoomed by `zoom` around the point at `ry` of its
    /// height, within the limits.
    pub open spec fn zoomed_to(self, ry: V, zoom: V, f_min: V, f_max: V, r: (F, F)) -> bool {
        exists|lo: V, hi: V, new_lo: V, new_hi: V|
            {
                &&& #[trigger] call_ensures(self.ln, (f_min,), lo)
                &&& #[trigger] call_ensures(self.ln, (f_max,), hi)
                &&& #[trigger] Self::zoomed_logs(ry, zoom, lo, hi, new_lo, new_hi)
                &&& self.limited(new_lo, new_hi, r)
            }
    }

    /// Zooms the frequency range around a point of its height.
    pub fn zoom_freq(&self, ry: V, zoom: V, f_min: V, f_max: V) -> (r: (F, F))
        requires
            self.callable(),
        ensures
            self.zoomed_to(ry, zoom, f_min, f_max, r),
    {
        let lo: V = (self.ln)(f_min);
        let hi: V = (self.ln)(f_max);
        let span: V = hi - lo;
        let down: V = ry * span;
        let cur: V = hi - down;
        let a: V = cur - lo;
        let b: V = a * zoom;
        let new_lo: V = cur - b;
        let c: V = hi - cur;
        let d: V = c * zoom;
        let new_hi: V = cur + d;
        proof {
            assert(numeric::difference(hi, lo, span));
            assert(numeric::product(ry, span, down));
            assert(numeric::difference(hi, down, cur));
            assert(numeric::difference(cur, lo, a));
            assert(numeric::product(a, zoom, b));
            assert(numeric::difference(hi, cur, c));
            assert(numeric::product(c, zoom, d));
            assert(Self::zoomed_logs(ry, zoom, lo, hi, new_lo, new_hi));
        }
        let x: F = (self.exp)(new_lo);
        let low: F = colormap::clamp(x, self.low.0, self.low.1);
        let y: F = (self.exp)(new_hi);
        let high: F = colormap::clamp(y, self.high.0, self.high.1);
        let r: (F, F) = if low >= high {
            (high * self.half, high)
        } else {
            (low, high)
        };
        assert(self.limited(new_lo, new_hi, r));
        r
    }

    /// `d` is how far `points` of panning move the logarithmic range (`lo`, `hi`), held back
    /// at the limits.
    pub open spec fn shift(self, points: V, lo: V, hi: V, d: V) -> bool {
        exists|p: V, span: V, want: V, up: V, at_top: V, down: V|
            {
                &&& #[trigger] numeric::product(points, self.per_point, p)
                &&& #[trigger] numeric::difference(hi, lo, span)
                &&& #[trigger] numeric::product(p, span, want)
                &&& #[trigger] numeric::difference(self.log_limits.1, hi, up)
                &&& #[trigger] lowered(want, up, at_top)
                &&& #[trigger] numeric::difference(self.log_limits.0, lo, down)
                &&& raised(at_top, down, d)
            }
    }

    /// (`new_lo`, `new_hi`) is the logarithmic range (`lo`, `hi`), both ends moved alike.
    pub open spec fn panned_logs(self, points: V, lo: V, hi: V, new_lo: V, new_hi: V) -> bool {
        exists|d: V|
            {
                &&& #[trigger] self.shift(points, lo, hi, d)
                &&& numeric::sum(lo, d, new_lo)
                &&& numeric::sum(hi, d, new_hi)
            }
    }

    /// `r` is the range (`f_min`, `f_max`) moved by `points` of panning.
    pub open spec fn panned_to(self, points: V, f_min: V, f_max: V, r: (F, F)) -> bool {
        exists|lo: V, hi: V, new_lo: V, new_hi: V|
            {
                &&& #[trigger] call_ensures(self.ln, (f_min,), lo)
                &&& #[trigger] call_ensures(self.ln, (f_max,), hi)
                &&& #[trigger] self.panned_logs(points, lo, hi, new_lo, new_hi)
                &&& call_ensures(self.exp, (new_lo,), r.0)
                &&& call_ensures(self.exp, (new_hi,), r.1)
            }
    }

    /// Pans the frequency range; it keeps its span and stops at the limits.
    pub fn pan_freq(&self, points: V, f_min: V, f_max: V) -> (r: (F, F))
        requires
            self.callable(),
        ensures
            self.panned_to(points, f_min, f_max, r),
    {
        let lo: V = (self.ln)(f_min);
        let hi: V = (self.ln)(f_max);
        let p: V = points * self.per_point;
        let span: V = hi - lo;
        let want: V = p * span;
        let up: V = self.log_limits.1 - hi;
        let at_top: V = lower(want, up);
        let down: V = self.log_limits.0 - lo;
        let d: V = raise(at_top, down);
        let new_lo: V = lo + d;
        let new_hi: V = hi + d;
        proof {
            assert(numeric::product(points, self.per_point, p));
            assert(numeric::difference(hi, lo, span));
            assert(numeric::product(p, span, want));
            assert(numeric::difference(self.log_limits.1, hi, up));
            assert(numeric::difference(self.log_limits.0, lo, down));
            assert(self.shift(points, lo, hi, d));
            assert(self.panned_logs(points, lo, hi, new_lo, new_hi));
        }
        ((self.exp)(new_lo), (self.exp)(new_hi))
    }

    /// In exact arithmetic panning keeps the span, and a range within the limits stays
    /// within them. Panning up lowers neither end, and panning down raises neither.
    pub proof fn panning_keeps_the_span(
        self,
        val: spec_fn(V) -> real,
        points: V,
        lo: V,
        hi: V,
        new_lo: V,
        new_hi: V,
    )
        requires
            exact(val),
            numeric::exact_products(val),
            self.panned_logs(points, lo, hi, new_lo, new_hi),
            val(self.per_point) >= 0real,
            val(self.log_limits.0) <= val(lo) <= val(hi) <= val(self.log_limits.1),
        ensures
            val(new_hi) - val(new_lo) == val(hi) - val(lo),
            val(self.log_limits.0) <= val(new_lo),
            val(new_hi) <= val(self.log_limits.1),
            val(points) >= 0real ==> val(new_lo) >= val(lo) && val(new_hi) >= val(hi),
            val(points) <= 0real ==> val(new_lo) <= val(lo) && val(new_hi) <= val(hi),
            ({
                let d = (val(points) * val(self.per_point)) * (val(hi) - val(lo));
                &&& val(self.log_limits.0) <= val(lo) + d && val(hi) + d <= val(self.log_limits.1)
                    ==> val(new_lo) == val(lo) + d
                &&& val(lo) + d <= val(self.log_limits.0) ==> val(new_lo) == val(self.log_limits.0)
                &&& val(hi) + d >= val(self.log_limits.1) ==> val(new_hi) == val(self.log_limits.1)
            }),
    {
        let d = choose|d: V|
            {
                &&& #[trigger] self.shift(points, lo, hi, d)
                &&& numeric::sum(lo, d, new_lo)
                &&& numeric::sum(hi, d, new_hi)
            };
        let (p, span, want, up, at_top, down) = choose|
            p: V,
            span: V,
            want: V,
            up: V,
            at_top: V,
            down: V,
        |
            {
                &&& #[trigger] numeric::product(points, self.per_point, p)
                &&& #[trigger] numeric::difference(hi, lo, span)
                &&& #[trigger] numeric::product(p, span, want)
                &&& #[trigger] numeric::difference(self.log_limits.1, hi, up)
                &&& #[trigger] lowered(want, up, at_top)
                &&& #[trigger] numeric::difference(self.log_limits.0, lo, down)
                &&& raised(at_top, down, d)
            };
        let (n, k, s) = (val(points), val(self.per_point), val(span));
        assert(0real * k == 0real && 0real * s == 0real);
        if n >= 0real {
            reals::not_negative(n, k);
            reals::not_negative(n * k, s);
        }
        if n <= 0real {
            reals::weakly_ordered(n, 0real, k);
            reals::weakly_ordered(n * k, 0real, s);
        }
    }

    /// In exact arithmetic, zooming scales the logarithmic span by `zoom`, and the frequency
    /// at `ry` of the height stays where it is.
    pub proof fn zooming_keeps_the_frequency_under_the_cursor(
        val: spec_fn(V) -> real,
        ry: V,
        zoom: V,
        lo: V,
        hi: V,
        new_lo: V,
        new_hi: V,
    )
        requires
            exact(val),
            numeric::exact_products(val),
            Self::zoomed_logs(ry, zoom, lo, hi, new_lo, new_hi),
        ensures
            val(new_hi) - val(new_lo) == (val(hi) - val(lo)) * val(zoom),
            val(new_hi) - val(ry) * (val(new_hi) - val(new_lo)) == val(hi) - val(ry) * (val(hi)
                - val(lo)),
    {
        let (span, down, cur, a, b, c, d) = choose|span: V, down: V, cur: V, a: V, b: V, c: V, d: V|
            {
                &&& #[trigger] numeric::difference(hi, lo, span)
                &&& #[trigger] numeric::product(ry, span, down)
                &&& #[trigger] numeric::difference(hi, down, cur)
                &&& #[trigger] numeric::difference(cur, lo, a)
                &&& #[trigger] numeric::product(a, zoom, b)
                &&& numeric::difference(cur, b, new_lo)
                &&& #[trigger] numeric::difference(hi, cur, c)
                &&& #[trigger] numeric::product(c, zoom, d)
                &&& numeric::sum(cur, d, new_hi)
            };
        let (s, r, z) = (val(span), val(ry), val(zoom));
        reals::distributed(val(c), val(a), z);
        assert(val(c) + val(a) == s);
        reals::associated(r, s, z);
    }

    /// Functions on values read as real numbers: `ln` takes the logarithm `log`, which `exp`
    /// undoes.
    pub open spec fn logarithmic(
        self,
        val: spec_fn(V) -> real,
        freq: spec_fn(F) -> real,
        log: spec_fn(real) -> real,
    ) -> bool {
        &&& forall|v: V, l: V| #[trigger]
            call_ensures(self.ln, (v,), l) && val(v) > 0real ==> val(l) == log(val(v))
        &&& forall|l: V, f: F| #[trigger]
            call_ensures(self.exp, (l,), f) ==> freq(f) > 0real && log(freq(f)) == val(l)
    }

    /// Panning keeps the ratio of the highest to the lowest frequency, up to the limits, and
    /// `1 / per_point` points move the range by the whole of its height.
    pub proof fn panning_keeps_the_ratio(
        self,
        val: spec_fn(V) -> real,
        freq: spec_fn(F) -> real,
        log: spec_fn(real) -> real,
        points: V,
        f_min: V,
        f_max: V,
        r: (F, F),
    )
        requires
            exact(val),
            numeric::exact_products(val),
            self.logarithmic(val, freq, log),
            self.panned_to(points, f_min, f_max, r),
            val(self.per_point) >= 0real,
            val(f_min) > 0real,
            val(f_max) > 0real,
            val(self.log_limits.0) <= log(val(f_min)) <= log(val(f_max)) <= val(self.log_limits.1),
        ensures
            ({
                let (lo, hi) = (log(val(f_min)), log(val(f_max)));
                let (low, high) = (log(freq(r.0)), log(freq(r.1)));
                let d = (val(points) * val(self.per_point)) * (hi - lo);
                &&& high - low == hi - lo
                &&& val(self.log_limits.0) <= low && high <= val(self.log_limits.1)
                &&& val(self.log_limits.0) <= lo + d && hi + d <= val(self.log_limits.1) ==> low == lo
                    + d
            }),
    {
        let (lo, hi, new_lo, new_hi) = choose|lo: V, hi: V, new_lo: V, new_hi: V|
            {
                &&& #[trigger] call_ensures(self.ln, (f_min,), lo)
                &&& #[trigger] call_ensures(self.ln, (f_max,), hi)
                &&& #[trigger] self.panned_logs(points, lo, hi, new_lo, new_hi)
                &&& call_ensures(self.exp, (new_lo,), r.0)
                &&& call_ensures(self.exp, (new_hi,), r.1)
            };
        self.panning_keeps_the_span(val, points, lo, hi, new_lo, new_hi);
    }

    /// A zoomed range lies within its limits, its low end below its high end. An end that the
    /// limits do not hold back has its distance to the frequency at `ry` of the height scaled
    /// by `zoom`, in logarithms.
    pub proof fn zooming_scales_the_ratio(
        self,
        val: spec_fn(V) -> real,
        freq: spec_fn(F) -> real,
        log: spec_fn(real) -> real,
        ry: V,
        zoom: V,
        f_min: V,
        f_max: V,
        r: (F, F),
    )
        requires
            exact(val),
            numeric::exact_products(val),
            numeric::exact_products(freq),
            numeric::exact_order(freq),
            self.logarithmic(val, freq, log),
            self.zoomed_to(ry, zoom, f_min, f_max, r),
            val(f_min) > 0real,
            val(f_max) > 0real,
            0real < freq(self.low.0) <= freq(self.low.1),
            0real < freq(self.high.0) <= freq(self.high.1),
            freq(self.half) * 2real == 1real,
        ensures
            freq(self.high.0) <= freq(r.1) <= freq(self.high.1),
            freq(r.0) < freq(r.1),
            freq(self.low.0) <= freq(r.0) <= freq(self.low.1) || 2real * freq(r.0) == freq(r.1),
            ({
                let (lo, hi) = (log(val(f_min)), log(val(f_max)));
                let at = hi - val(ry) * (hi - lo);
                &&& freq(self.high.0) < freq(r.1) < freq(self.high.1) ==> log(freq(r.1)) - at == (hi
                    - at) * val(zoom)
                &&& freq(self.low.0) < freq(r.0) < freq(self.low.1) && 2real * freq(r.0) != freq(r.1)
                    ==> at - log(freq(r.0)) == (at - lo) * val(zoom)
            }),
    {
        let (lo, hi, new_lo, new_hi) = choose|lo: V, hi: V, new_lo: V, new_hi: V|
            {
                &&& #[trigger] call_ensures(self.ln, (f_min,), lo)
                &&& #[trigger] call_ensures(self.ln, (f_max,), hi)
                &&& #[trigger] Self::zoomed_logs(ry, zoom, lo, hi, new_lo, new_hi)
                &&& self.limited(new_lo, new_hi, r)
            };
        let h = freq(r.1);
        assert(h * (freq(self.half) * 2real) == h * 1real);
        reals::associated(h, freq(self.half), 2real);
        assert(h * 1real == h);
    }
}

} // verus!
