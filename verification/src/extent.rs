//! The extent of image data, by which brightness is normalised.

use vstd::prelude::*;

use crate::numeric;

verus! {

/// `r` is the smallest of `start` and the values, taken in order: a value replaces what was
/// found before it only where it is smaller.
pub open spec fn smallest<T: PartialOrd>(start: T, values: Seq<T>, r: T) -> bool
    decreases values.len(),
{
    if values.len() == 0 {
        r == start
    } else {
        exists|q: T|
            smallest(start, values.drop_last(), q) && #[trigger] smaller(values.last(), q, r)
    }
}

pub open spec fn smaller<T: PartialOrd>(v: T, q: T, r: T) -> bool {
    ||| numeric::below(v, q, true) && r == v
    ||| numeric::below(v, q, false) && r == q
}

/// `r` is the largest of `start` and the values, taken in order.
pub open spec fn largest<T: PartialOrd>(start: T, values: Seq<T>, r: T) -> bool
    decreases values.len(),
{
    if values.len() == 0 {
        r == start
    } else {
        exists|q: T|
            largest(start, values.drop_last(), q) && #[trigger] larger(values.last(), q, r)
    }
}

pub open spec fn larger<T: PartialOrd>(v: T, q: T, r: T) -> bool {
    ||| numeric::above(v, q, true) && r == v
    ||| numeric::above(v, q, false) && r == q
}

/// All values of several images, image by image.
pub open spec fn all_values<T>(images: Seq<Vec<T>>) -> Seq<T>
    decreases images.len(),
{
    if images.len() == 0 {
        seq![]
    } else {
        all_values(images.drop_last()) + images.last()@
    }
}

/// Where values are ordered like real numbers, the extent encloses every value.
pub proof fn extent_encloses<T: PartialOrd>(
    val: spec_fn(T) -> real,
    lo_start: T,
    hi_start: T,
    values: Seq<T>,
    lo: T,
    hi: T,
    i: int,
)
    requires
        numeric::exact_order(val),
        smallest(lo_start, values, lo),
        largest(hi_start, values, hi),
        0 <= i < values.len(),
    ensures
        val(lo) <= val(values[i]) <= val(hi),
    decreases values.len(),
{
    let front = values.drop_last();
    let p = choose|q: T| smallest(lo_start, front, q) && #[trigger] smaller(values.last(), q, lo);
    let q = choose|q: T| largest(hi_start, front, q) && #[trigger] larger(values.last(), q, hi);
    if i < values.len() - 1 {
        extent_encloses(val, lo_start, hi_start, front, p, q, i);
    }
}

proof fn ends_are_values<T: PartialOrd>(lo_start: T, hi_start: T, values: Seq<T>, lo: T, hi: T)
    requires
        smallest(lo_start, values, lo),
        largest(hi_start, values, hi),
    ensures
        lo == lo_start || exists|i: int| 0 <= i < values.len() && #[trigger] values[i] == lo,
        hi == hi_start || exists|i: int| 0 <= i < values.len() && #[trigger] values[i] == hi,
    decreases values.len(),
{
    if values.len() > 0 {
        let front = values.drop_last();
        let p = choose|q: T|
            smallest(lo_start, front, q) && #[trigger] smaller(values.last(), q, lo);
        let q = choose|q: T| largest(hi_start, front, q) && #[trigger] larger(values.last(), q, hi);
        ends_are_values(lo_start, hi_start, front, p, q);
        assert(values[values.len() - 1] == values.last());
        if lo != values.last() && lo != lo_start {
            let i = choose|i: int| 0 <= i < front.len() && #[trigger] front[i] == lo;
            assert(values[i] == lo);
        }
        if hi != values.last() && hi != hi_start {
            let i = choose|i: int| 0 <= i < front.len() && #[trigger] front[i] == hi;
            assert(values[i] == hi);
        }
    }
}

proof fn value_is_seen<T>(images: Seq<Vec<T>>, k: int, i: int) -> (j: int)
    requires
        0 <= k < images.len(),
        0 <= i < images[k]@.len(),
    ensures
        0 <= j < all_values(images).len(),
        all_values(images)[j] == images[k]@[i],
    decreases images.len(),
{
    let before = all_values(images.drop_last());
    if k == images.len() - 1 {
        before.len() as int + i
    } else {
        value_is_seen(images.drop_last(), k, i)
    }
}

proof fn value_was_there<T>(images: Seq<Vec<T>>, j: int)
    requires
        0 <= j < all_values(images).len(),
    ensures
        exists|a: int, i: int|
            0 <= a < images.len() && 0 <= i < images[a]@.len() && #[trigger] images[a]@[i]
                == all_values(images)[j],
    decreases images.len(),
{
    let front = images.drop_last();
    let before = all_values(front);
    if j >= before.len() {
        assert(images[images.len() - 1]@[j - before.len()] == all_values(images)[j]);
    } else {
        value_was_there(front, j);
        let (a, i) = choose|a: int, i: int|
            0 <= a < front.len() && 0 <= i < front[a]@.len() && #[trigger] front[a]@[i] == before[j];
        assert(images[a]@[i] == before[j]);
    }
}

proof fn nothing_is_seen<T>(images: Seq<Vec<T>>)
    requires
        forall|a: int| 0 <= a < images.len() ==> (#[trigger] images[a])@.len() == 0,
    ensures
        all_values(images).len() == 0,
    decreases images.len(),
{
    if images.len() > 0 {
        assert(images[images.len() - 1]@.len() == 0);
        nothing_is_seen(images.drop_last());
    }
}

/// Where a search starts, and what stands for an end that was not found.
pub struct Limits<T, Q> {
    pub infinity: T,
    pub neg_infinity: T,
    pub zero: T,
    pub one: T,
    pub is_finite: Q,
}

impl<T: Copy + PartialOrd, Q: Fn(T) -> bool> Limits<T, Q> {
    /// `r` is `v` where that is finite, else `other`.
    pub open spec fn finite_or(self, v: T, other: T, r: T) -> bool {
        ||| call_ensures(self.is_finite, (v,), true) && r == v
        ||| call_ensures(self.is_finite, (v,), false) && r == other
    }

    /// `r` is the extent of the images: smallest and largest value, zero and one where there
    /// is no finite one.
    pub open spec fn extent_of(self, images: Seq<Vec<T>>, r: (T, T)) -> bool {
        exists|lo: T, hi: T|
            {
                &&& #[trigger] smallest(self.infinity, all_values(images), lo)
                &&& #[trigger] largest(self.neg_infinity, all_values(images), hi)
                &&& self.finite_or(lo, self.zero, r.0)
                &&& self.finite_or(hi, self.one, r.1)
            }
    }

    /// Smallest and largest amplitude over all images.
    pub fn compute_norm(&self, images: &Vec<Vec<T>>) -> (r: (T, T))
        requires
            forall|v: T| call_requires(self.is_finite, (v,)),
        ensures
            self.extent_of(images@, r),
    {
        let mut lo: T = self.infinity;
        let mut hi: T = self.neg_infinity;
        let ghost mut seen: Seq<T> = seq![];
        let mut k: usize = 0;
        assert(images@.take(0) =~= seq![]);
        while k < images.len()
            invariant
                k <= images@.len(),
                seen == all_values(images@.take(k as int)),
                smallest(self.infinity, seen, lo),
                largest(self.neg_infinity, seen, hi),
            decreases images@.len() - k,
        {
            let ghost before = seen;
            let mut i: usize = 0;
            assert(before + images@[k as int]@.take(0) =~= before);
            while i < images[k].len()
                invariant
                    k < images@.len(),
                    i <= images@[k as int]@.len(),
                    seen == before + images@[k as int]@.take(i as int),
                    smallest(self.infinity, seen, lo),
                    largest(self.neg_infinity, seen, hi),
                decreases images@[k as int]@.len() - i,
            {
                let v: T = images[k][i];
                let ghost (p, q) = (lo, hi);
                if v < lo {
                    lo = v;
                }
                if v > hi {
                    hi = v;
                }
                i = i + 1;
                proof {
                    assert(images@[k as int]@.take(i as int) =~= images@[k as int]@.take(
                        i - 1,
                    ).push(v));
                    let next = seen.push(v);
                    assert(next.drop_last() =~= seen);
                    assert(smaller(next.last(), p, lo));
                    assert(larger(next.last(), q, hi));
                    assert(next =~= before + images@[k as int]@.take(i as int));
                    seen = next;
                }
            }
            k = k + 1;
            proof {
                assert(images@.take(k as int).drop_last() =~= images@.take(k - 1));
                assert(images@[k - 1]@.take(i as int) =~= images@[k - 1]@);
            }
        }
        assert(images@.take(k as int) =~= images@);
        let vmin: T = if (self.is_finite)(lo) {
            lo
        } else {
            self.zero
        };
        let vmax: T = if (self.is_finite)(hi) {
            hi
        } else {
            self.one
        };
        (vmin, vmax)
    }

    /// Where values are ordered like real numbers and lie between the infinities, the extent
    /// of images with any value at all is their smallest and their largest value: no value of
    /// any image lies outside, and both ends are values of images. Without values it is from
    /// zero to one.
    pub proof fn the_extent_is_that_of_all_images(
        self,
        val: spec_fn(T) -> real,
        images: Seq<Vec<T>>,
        r: (T, T),
        k: int,
        i: int,
    )
        requires
            numeric::exact_order(val),
            forall|v: T, b: bool| #[trigger]
                call_ensures(self.is_finite, (v,), b) ==> (b <==> val(self.neg_infinity) < val(v)
                    < val(self.infinity)),
            forall|a: int, j: int|
                0 <= a < images.len() && 0 <= j < images[a]@.len() ==> val(self.neg_infinity) < val(
                    #[trigger] images[a]@[j],
                ) < val(self.infinity),
            self.extent_of(images, r),
        ensures
            0 <= k < images.len() && 0 <= i < images[k]@.len() ==> {
                &&& val(r.0) <= val(images[k]@[i]) <= val(r.1)
                &&& exists|a: int, j: int|
                    0 <= a < images.len() && 0 <= j < images[a]@.len() && #[trigger] images[a]@[j]
                        == r.0
                &&& exists|a: int, j: int|
                    0 <= a < images.len() && 0 <= j < images[a]@.len() && #[trigger] images[a]@[j]
                        == r.1
            },
            (forall|a: int| 0 <= a < images.len() ==> (#[trigger] images[a])@.len() == 0) ==> r == (
                self.zero,
                self.one,
            ),
    {
        let (lo, hi) = choose|lo: T, hi: T|
            {
                &&& #[trigger] smallest(self.infinity, all_values(images), lo)
                &&& #[trigger] largest(self.neg_infinity, all_values(images), hi)
                &&& self.finite_or(lo, self.zero, r.0)
                &&& self.finite_or(hi, self.one, r.1)
            };
        let all = all_values(images);
        if 0 <= k < images.len() && 0 <= i < images[k]@.len() {
            let j = value_is_seen(images, k, i);
            extent_encloses(val, self.infinity, self.neg_infinity, all, lo, hi, j);
            ends_are_values(self.infinity, self.neg_infinity, all, lo, hi);
            if lo != self.infinity {
                let a = choose|a: int| 0 <= a < all.len() && #[trigger] all[a] == lo;
                value_was_there(images, a);
            }
            if hi != self.neg_infinity {
                let a = choose|a: int| 0 <= a < all.len() && #[trigger] all[a] == hi;
                value_was_there(images, a);
            }
        }
        if forall|a: int| 0 <= a < images.len() ==> (#[trigger] images[a])@.len() == 0 {
            nothing_is_seen(images);
        }
    }
}

} // verus!
