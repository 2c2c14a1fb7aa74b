//! Where things are drawn: the sliding image, the scrollbar's thumb, the ridge, and what
//! lies under the pointer.

use std::ops::{Add, Div, Mul, Sub};
use vstd::prelude::*;

use crate::colormap;
use crate::numeric;
#[allow(unused_imports)]
use crate::reals;
#[allow(unused_imports)]
use crate::viewport;
use crate::viewport::Viewport;

verus! {

/// A piece of an image: where it is drawn, from `x0` to `x1`, and which part of it, from
/// `u0` to `u1`.
#[derive(Clone, Copy, Debug)]
pub struct Strip<F> {
    pub x0: F,
    pub x1: F,
    pub u0: F,
    pub u1: F,
}

/// The panel that an image is drawn on.
#[derive(Clone, Copy, Debug)]
pub struct Panel<F> {
    pub left: F,
    pub right: F,
    pub width: F,
    pub zero: F,
    pub one: F,
}

impl<F: Copy + Add<Output = F> + Sub<Output = F> + Div<Output = F> + PartialOrd> Panel<F> {
    pub open spec fn callable(self) -> bool {
        &&& numeric::adds::<F>()
        &&& numeric::subtracts::<F>()
        &&& numeric::divides::<F>()
    }

    /// The image moved right by `off`: its left edge moves, and its right end is cut off.
    pub open spec fn slid_right(self, off: F, s: Strip<F>) -> bool {
        exists|rest: F|
            {
                &&& numeric::sum(self.left, off, s.x0)
                &&& s.x1 == self.right
                &&& s.u0 == self.zero
                &&& #[trigger] numeric::difference(self.width, off, rest)
                &&& numeric::quotient(rest, self.width, s.u1)
            }
    }

    /// The image moved left: its right edge moves, and its left end is cut off.
    pub open spec fn slid_left(self, off: F, s: Strip<F>) -> bool {
        exists|cut: F|
            {
                &&& s.x0 == self.left
                &&& numeric::sum(self.right, off, s.x1)
                &&& #[trigger] numeric::difference(self.zero, off, cut)
                &&& numeric::quotient(cut, self.width, s.u0)
                &&& s.u1 == self.one
            }
    }

    /// `s` is what is drawn of an image moved by `off`: nothing where it left the panel.
    pub open spec fn slid<A: Fn(F) -> F>(self, size: A, off: F, s: Option<Strip<F>>) -> bool {
        exists|a: F| #[trigger]
            call_ensures(size, (off,), a) && {
                ||| numeric::below(a, self.width, false) && s is None
                ||| numeric::below(a, self.width, true) && (s matches Some(p) && {
                    ||| numeric::at_least(off, self.zero, true) && self.slid_right(off, p)
                    ||| numeric::at_least(off, self.zero, false) && self.slid_left(off, p)
                })
            }
    }

    /// The part of an image that stays on the panel when it is moved by `off`.
    pub fn slide<A: Fn(F) -> F>(&self, size: A, off: F) -> (s: Option<Strip<F>>)
        requires
            self.callable(),
            forall|x: F| call_requires(size, (x,)),
        ensures
            self.slid(size, off, s),
    {
        let a: F = size(off);
        if a < self.width {
            if off >= self.zero {
                let rest: F = self.width - off;
                assert(numeric::difference(self.width, off, rest));
                Some(
                    Strip {
                        x0: self.left + off,
                        x1: self.right,
                        u0: self.zero,
                        u1: rest / self.width,
                    },
                )
            } else {
                let cut: F = self.zero - off;
                assert(numeric::difference(self.zero, off, cut));
                Some(
                    Strip {
                        x0: self.left,
                        x1: self.right + off,
                        u0: cut / self.width,
                        u1: self.one,
                    },
                )
            }
        } else {
            None
        }
    }
}

/// `frac` is the share of `total` that `t` is, limited to the unit range.
pub open spec fn share<V: Div<Output = V> + PartialOrd>(
    zero: V,
    one: V,
    t: V,
    total: V,
    frac: V,
) -> bool {
    exists|q: V| #[trigger] numeric::quotient(t, total, q) && colormap::clamped(q, zero, one, frac)
}

/// `r` holds the shares of `total` at which a window starts and ends.
pub open spec fn shares_of<V: Div<Output = V> + PartialOrd>(
    zero: V,
    one: V,
    window: Viewport<V>,
    total: V,
    r: (V, V),
) -> bool {
    share(zero, one, window.t_start, total, r.0) && share(zero, one, window.t_end, total, r.1)
}

/// The shares of the recording at which the visible window starts and ends.
pub fn window_shares<V: Copy + Div<Output = V> + PartialOrd>(
    zero: V,
    one: V,
    window: Viewport<V>,
    total: V,
) -> (r: (V, V))
    requires
        numeric::divides::<V>(),
    ensures
        shares_of(zero, one, window, total, r),
{
    let a: V = window.t_start / total;
    let b: V = window.t_end / total;
    assert(numeric::quotient(window.t_start, total, a));
    assert(numeric::quotient(window.t_end, total, b));
    (colormap::clamp(a, zero, one), colormap::clamp(b, zero, one))
}

/// The thumb of a track that starts at `left` and is `width` long, for a window from share
/// `a` to share `b`: its left end, and its right end at least `min_width` further.
pub open spec fn thumb_of<F: Add<Output = F> + Mul<Output = F> + PartialOrd>(
    left: F,
    width: F,
    a: F,
    b: F,
    min_width: F,
    thumb: (F, F),
) -> bool {
    exists|p: F, q: F, x1: F, limit: F|
        {
            &&& #[trigger] numeric::product(a, width, p)
            &&& numeric::sum(left, p, thumb.0)
            &&& #[trigger] numeric::product(b, width, q)
            &&& #[trigger] numeric::sum(left, q, x1)
            &&& #[trigger] numeric::sum(thumb.0, min_width, limit)
            &&& viewport::raised(x1, limit, thumb.1)
        }
}

/// The ends of the scrollbar's thumb.
pub fn thumb<F: Copy + Add<Output = F> + Mul<Output = F> + PartialOrd>(
    left: F,
    width: F,
    a: F,
    b: F,
    min_width: F,
) -> (t: (F, F))
    requires
        numeric::adds::<F>(),
        numeric::multiplies::<F>(),
    ensures
        thumb_of(left, width, a, b, min_width, t),
{
    let p: F = a * width;
    let x0: F = left + p;
    let q: F = b * width;
    let x1: F = left + q;
    let limit: F = x0 + min_width;
    let t: (F, F) = (x0, viewport::raise(x1, limit));
    proof {
        assert(numeric::product(a, width, p));
        assert(numeric::product(b, width, q));
        assert(numeric::sum(left, q, x1));
        assert(numeric::sum(t.0, min_width, limit));
        assert(thumb_of(left, width, a, b, min_width, t));
    }
    t
}

/// `f` is the frequency at `ry` of the height of a logarithmic axis, counted from the top.
pub open spec fn frequency_under<
    V: Sub<Output = V> + Mul<Output = V>,
    L: Fn(V) -> V,
    E: Fn(V) -> V,
>(ln: L, exp: E, f_min: V, f_max: V, ry: V, f: V) -> bool {
    exists|lo: V, hi: V, span: V, down: V, l: V|
        {
            &&& #[trigger] call_ensures(ln, (f_min,), lo)
            &&& #[trigger] call_ensures(ln, (f_max,), hi)
            &&& #[trigger] numeric::difference(hi, lo, span)
            &&& #[trigger] numeric::product(ry, span, down)
            &&& #[trigger] numeric::difference(hi, down, l)
            &&& call_ensures(exp, (l,), f)
        }
}

/// The frequency under the pointer.
pub fn frequency_at<V: Copy + Sub<Output = V> + Mul<Output = V>, L: Fn(V) -> V, E: Fn(V) -> V>(
    ln: L,
    exp: E,
    f_min: V,
    f_max: V,
    ry: V,
) -> (f: V)
    requires
        numeric::subtracts::<V>(),
        numeric::multiplies::<V>(),
        forall|x: V| call_requires(ln, (x,)),
        forall|x: V| call_requires(exp, (x,)),
    ensures
        frequency_under(ln, exp, f_min, f_max, ry, f),
{
    let lo: V = ln(f_min);
    let hi: V = ln(f_max);
    let span: V = hi - lo;
    let down: V = ry * span;
    let l: V = hi - down;
    proof {
        assert(numeric::difference(hi, lo, span));
        assert(numeric::product(ry, span, down));
        assert(numeric::difference(hi, down, l));
    }
    exp(l)
}

/// The points of a line that lie between `left` and `right`, in order, each with the place
/// that `place` gives a column and its row.
pub open spec fn visible_points<F: PartialOrd, P: Fn(usize, usize) -> (F, F)>(
    place: P,
    rows: Seq<usize>,
    left: F,
    right: F,
    k: int,
    points: Seq<(F, F)>,
) -> bool
    decreases k,
{
    if k <= 0 {
        points == Seq::<(F, F)>::empty()
    } else {
        exists|p: (F, F)| #[trigger]
            call_ensures(place, ((k - 1) as usize, rows[k - 1]), p) && {
                ||| {
                    &&& numeric::at_least(p.0, left, true) && numeric::at_most(p.0, right, true)
                    &&& points.len() > 0 && points.last() == p
                    &&& visible_points(place, rows, left, right, k - 1, points.drop_last())
                }
                ||| {
                    &&& numeric::at_least(p.0, left, false) || numeric::at_most(p.0, right, false)
                    &&& visible_points(place, rows, left, right, k - 1, points)
                }
            }
    }
}

/// The line of a ridge, as far as it is on the panel.
pub fn ridge_points<F: Copy + PartialOrd, P: Fn(usize, usize) -> (F, F)>(
    rows: &Vec<usize>,
    left: F,
    right: F,
    place: P,
) -> (points: Vec<(F, F)>)
    requires
        forall|c: usize, r: usize| call_requires(place, (c, r)),
    ensures
        visible_points(place, rows@, left, right, rows@.len() as int, points@),
{
    let mut points: Vec<(F, F)> = Vec::new();
    let mut c: usize = 0;
    while c < rows.len()
        invariant
            c <= rows@.len(),
            forall|c: usize, r: usize| call_requires(place, (c, r)),
            visible_points(place, rows@, left, right, c as int, points@),
        decreases rows@.len() - c,
    {
        let p: (F, F) = place(c, rows[c]);
        let ghost before = points@;
        if p.0 >= left && p.0 <= right {
            points.push(p);
            assert(points@.drop_last() =~= before);
        }
        c = c + 1;
        proof {
            let k = c as int;
            assert(call_ensures(place, ((k - 1) as usize, rows@[k - 1]), p));
        }
    }
    points
}

impl<F: Copy + Add<Output = F> + Sub<Output = F> + Div<Output = F> + PartialOrd> Panel<F> {
    /// With exact arithmetic, a moved image is drawn where it moved to, and nothing else:
    /// the point `u` of its width lies at `left + off + u * width`. What is drawn lies on
    /// the panel and reaches to the end that the image did not leave; nothing is drawn if and
    /// only if all of it left.
    pub proof fn slid_images_keep_their_place<A: Fn(F) -> F>(
        self,
        val: spec_fn(F) -> real,
        size: A,
        off: F,
        s: Option<Strip<F>>,
    )
        requires
            numeric::exact_sums(val),
            numeric::exact_differences(val),
            numeric::exact_quotients(val),
            numeric::exact_order(val),
            forall|v: F, a: F| #[trigger]
                call_ensures(size, (v,), a) ==> val(a) >= 0real && (val(a) == val(v) || val(a)
                    == -val(v)),
            val(self.zero) == 0real,
            val(self.one) == 1real,
            val(self.width) > 0real,
            val(self.width) == val(self.right) - val(self.left),
            self.slid(size, off, s),
        ensures
            s is Some <==> -val(self.width) < val(off) < val(self.width),
            s matches Some(p) ==> {
                let (l, w, o) = (val(self.left), val(self.width), val(off));
                &&& val(p.x0) == l + o + val(p.u0) * w
                &&& val(p.x1) == l + o + val(p.u1) * w
                &&& l <= val(p.x0) < val(p.x1) <= val(self.right)
                &&& 0real <= val(p.u0) < val(p.u1) <= 1real
                &&& o >= 0real ==> val(p.x1) == val(self.right) && val(p.u0) == 0real
                &&& o <= 0real ==> val(p.x0) == l && val(p.u1) == 1real
            },
    {
        let w = val(self.width);
        assert(1real * w == w && 0real * w == 0real);
        if let Some(p) = s {
            if val(off) >= 0real {
                reals::quotient_at_most(val(p.u1), w, 1real);
                reals::quotient_sign(val(p.u1), w);
                if val(off) == 0real {
                    reals::quotient_at_most(1real, w, val(p.u1));
                }
            } else {
                reals::quotient_sign(val(p.u0), w);
                if val(p.u0) >= 1real {
                    reals::weakly_ordered(1real, val(p.u0), w);
                }
            }
        }
    }
}

/// With exact arithmetic, the thumb of the scrollbar lies on its track as the visible window
/// lies in the recording: so much of the track is left of it as of the recording is before
/// the window, and it ends where the window does, or as far from its start as it must.
pub proof fn the_thumb_shows_the_window<
    F: Add<Output = F> + Mul<Output = F> + PartialOrd,
    V: Div<Output = V> + PartialOrd,
>(
    val: spec_fn(V) -> real,
    pos: spec_fn(F) -> real,
    zero: V,
    one: V,
    window: Viewport<V>,
    total: V,
    shares: (V, V),
    left: F,
    width: F,
    a: F,
    b: F,
    min_width: F,
    thumb: (F, F),
)
    requires
        numeric::exact_quotients(val),
        numeric::exact_order(val),
        numeric::exact_sums(pos),
        numeric::exact_products(pos),
        numeric::exact_order(pos),
        val(zero) == 0real,
        val(one) == 1real,
        val(total) > 0real,
        0real <= val(window.t_start) <= val(window.t_end) <= val(total),
        shares_of(zero, one, window, total, shares),
        pos(a) == val(shares.0),
        pos(b) == val(shares.1),
        thumb_of(left, width, a, b, min_width, thumb),
    ensures
        (pos(thumb.0) - pos(left)) * val(total) == val(window.t_start) * pos(width),
        pos(thumb.1) >= pos(thumb.0) + pos(min_width),
        pos(thumb.1) == pos(thumb.0) + pos(min_width) || (pos(thumb.1) - pos(left)) * val(total)
            == val(window.t_end) * pos(width),
        (pos(thumb.1) - pos(left)) * val(total) >= val(window.t_end) * pos(width),
{
    let (t, w) = (val(total), pos(width));
    let (x, y) = (val(shares.0), val(shares.1));
    assert(1real * t == t);
    share_is_exact(val, zero, one, window.t_start, total, shares.0);
    share_is_exact(val, zero, one, window.t_end, total, shares.1);
    let (p, q, x1, limit) = choose|p: F, q: F, x1: F, limit: F|
        {
            &&& #[trigger] numeric::product(a, width, p)
            &&& numeric::sum(left, p, thumb.0)
            &&& #[trigger] numeric::product(b, width, q)
            &&& #[trigger] numeric::sum(left, q, x1)
            &&& #[trigger] numeric::sum(thumb.0, min_width, limit)
            &&& viewport::raised(x1, limit, thumb.1)
        };
    proportioned(w, x, t, val(window.t_start));
    proportioned(w, y, t, val(window.t_end));
    reals::weakly_ordered(pos(x1) - pos(left), pos(thumb.1) - pos(left), t);
}

proof fn proportioned(w: real, x: real, t: real, s: real)
    requires
        x * t == s,
    ensures
        (x * w) * t == s * w,
{
    reals::associated(w, x, t);
    assert(w * x == x * w);
    assert(w * s == s * w);
}

proof fn share_is_exact<V: Div<Output = V> + PartialOrd>(
    val: spec_fn(V) -> real,
    zero: V,
    one: V,
    t: V,
    total: V,
    frac: V,
)
    requires
        numeric::exact_quotients(val),
        numeric::exact_order(val),
        val(zero) == 0real,
        val(one) == 1real,
        val(total) > 0real,
        0real <= val(t) <= val(total),
        share(zero, one, t, total, frac),
    ensures
        val(frac) * val(total) == val(t),
        0real <= val(frac) <= 1real,
{
    let q = choose|q: V| #[trigger]
        numeric::quotient(t, total, q) && colormap::clamped(q, zero, one, frac);
    let w = val(total);
    assert(1real * w == w);
    reals::quotient_sign(val(q), w);
    reals::quotient_at_most(val(q), w, 1real);
}

/// With exact arithmetic, the frequency under the pointer divides the logarithmic axis as
/// the pointer divides the height: it is the highest at the top and the lowest at the
/// bottom, and lies so far below the top in its logarithm as the pointer does.
pub proof fn the_axis_is_logarithmic<
    V: Sub<Output = V> + Mul<Output = V>,
    L: Fn(V) -> V,
    E: Fn(V) -> V,
>(
    val: spec_fn(V) -> real,
    log: spec_fn(real) -> real,
    ln: L,
    exp: E,
    f_min: V,
    f_max: V,
    ry: V,
    f: V,
)
    requires
        numeric::exact_differences(val),
        numeric::exact_products(val),
        forall|v: V, r: V| #[trigger]
            call_ensures(ln, (v,), r) && val(v) > 0real ==> val(r) == log(val(v)),
        forall|v: V, r: V| #[trigger]
            call_ensures(exp, (v,), r) ==> val(r) > 0real && log(val(r)) == val(v),
        val(f_min) > 0real,
        val(f_max) > 0real,
        frequency_under(ln, exp, f_min, f_max, ry, f),
    ensures
        val(f) > 0real,
        log(val(f_max)) - log(val(f)) == val(ry) * (log(val(f_max)) - log(val(f_min))),
        val(ry) == 0real ==> log(val(f)) == log(val(f_max)),
        val(ry) == 1real ==> log(val(f)) == log(val(f_min)),
{
    let s = log(val(f_max)) - log(val(f_min));
    assert(0real * s == 0real && 1real * s == s);
}

/// With exact order, the line of a ridge has the places of all its columns that lie on the
/// panel, in order, and no others. `at` is where `place` puts a column and a row.
pub proof fn lines_show_what_is_on_the_panel<F: PartialOrd, P: Fn(usize, usize) -> (F, F)>(
    val: spec_fn(F) -> real,
    place: P,
    at: spec_fn(usize, usize) -> (F, F),
    rows: Seq<usize>,
    left: F,
    right: F,
    k: int,
    points: Seq<(F, F)>,
)
    requires
        numeric::exact_order(val),
        forall|c: usize, r: usize, p: (F, F)| #[trigger]
            call_ensures(place, (c, r), p) ==> p == at(c, r),
        0 <= k <= rows.len(),
        visible_points(place, rows, left, right, k, points),
    ensures
        points == Seq::new(k as nat, |c: int| at(c as usize, rows[c])).filter(
            |p: (F, F)| val(left) <= val(p.0) <= val(right),
        ),
    decreases k,
{
    let all = Seq::new(k as nat, |c: int| at(c as usize, rows[c]));
    let on = |p: (F, F)| val(left) <= val(p.0) <= val(right);
    reveal(Seq::filter);
    if k > 0 {
        let fewer = Seq::new((k - 1) as nat, |c: int| at(c as usize, rows[c]));
        assert(all.drop_last() =~= fewer);
        let p = choose|p: (F, F)| #[trigger]
            call_ensures(place, ((k - 1) as usize, rows[k - 1]), p) && {
                ||| {
                    &&& numeric::at_least(p.0, left, true) && numeric::at_most(p.0, right, true)
                    &&& points.len() > 0 && points.last() == p
                    &&& visible_points(place, rows, left, right, k - 1, points.drop_last())
                }
                ||| {
                    &&& numeric::at_least(p.0, left, false) || numeric::at_most(p.0, right, false)
                    &&& visible_points(place, rows, left, right, k - 1, points)
                }
            };
        assert(all.last() == p);
        if on(p) {
            lines_show_what_is_on_the_panel(
                val,
                place,
                at,
                rows,
                left,
                right,
                k - 1,
                points.drop_last(),
            );
            assert(points =~= points.drop_last().push(p));
        } else {
            lines_show_what_is_on_the_panel(val, place, at, rows, left, right, k - 1, points);
        }
    }
}

} // verus!
