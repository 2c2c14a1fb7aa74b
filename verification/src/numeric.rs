//! Arithmetic over any number type with the standard operators. Contracts relate every
//! result to the operator calls that produced it, in order, so that they hold of floating
//! point as of integers.

use std::ops::{Add, Div, Mul, Sub};
use vstd::prelude::*;

verus! {

/// Operands that the four operators and the comparison take without restriction.
pub open spec fn adds<T: Add<Output = T>>() -> bool {
    forall|a: T, b: T| #[trigger] call_requires(<T as Add>::add, (a, b))
}

pub open spec fn subtracts<T: Sub<Output = T>>() -> bool {
    forall|a: T, b: T| #[trigger] call_requires(<T as Sub>::sub, (a, b))
}

pub open spec fn multiplies<T: Mul<Output = T>>() -> bool {
    forall|a: T, b: T| #[trigger] call_requires(<T as Mul>::mul, (a, b))
}

pub open spec fn divides<T: Div<Output = T>>() -> bool {
    forall|a: T, b: T| #[trigger] call_requires(<T as Div>::div, (a, b))
}

/// `r` is a possible `a + b`.
pub open spec fn sum<T: Add<Output = T>>(a: T, b: T, r: T) -> bool {
    call_ensures(<T as Add>::add, (a, b), r)
}

/// `r` is a possible `a - b`.
pub open spec fn difference<T: Sub<Output = T>>(a: T, b: T, r: T) -> bool {
    call_ensures(<T as Sub>::sub, (a, b), r)
}

/// `r` is a possible `a * b`.
pub open spec fn product<T: Mul<Output = T>>(a: T, b: T, r: T) -> bool {
    call_ensures(<T as Mul>::mul, (a, b), r)
}

/// `r` is a possible `a / b`.
pub open spec fn quotient<T: Div<Output = T>>(a: T, b: T, r: T) -> bool {
    call_ensures(<T as Div>::div, (a, b), r)
}

/// `r` is what is left after adding the values to `zero`, one after the other.
pub open spec fn sums_to<T: Add<Output = T>>(zero: T, values: Seq<T>, r: T) -> bool
    decreases values.len(),
{
    if values.len() == 0 {
        r == zero
    } else {
        exists|q: T|
            sums_to(zero, values.drop_last(), q) && #[trigger] sum(q, values.last(), r)
    }
}

/// `r` is a possible answer to `a <= b`.
pub open spec fn at_most<T: PartialOrd>(a: T, b: T, r: bool) -> bool {
    call_ensures(<T as PartialOrd>::le, (&a, &b), r)
}

/// `r` is a possible answer to `a >= b`.
pub open spec fn at_least<T: PartialOrd>(a: T, b: T, r: bool) -> bool {
    call_ensures(<T as PartialOrd>::ge, (&a, &b), r)
}

/// `r` is a possible answer to `a < b`.
pub open spec fn below<T: PartialOrd>(a: T, b: T, r: bool) -> bool {
    call_ensures(<T as PartialOrd>::lt, (&a, &b), r)
}

/// `r` is a possible answer to `a > b`.
pub open spec fn above<T: PartialOrd>(a: T, b: T, r: bool) -> bool {
    call_ensures(<T as PartialOrd>::gt, (&a, &b), r)
}

/// Sums are exact where values are read as real numbers.
pub open spec fn exact_sums<T: Add<Output = T>>(val: spec_fn(T) -> real) -> bool {
    forall|a: T, b: T, r: T| #[trigger] sum(a, b, r) ==> val(r) == val(a) + val(b)
}

/// Differences are exact where values are read as real numbers.
pub open spec fn exact_differences<T: Sub<Output = T>>(val: spec_fn(T) -> real) -> bool {
    forall|a: T, b: T, r: T| #[trigger] difference(a, b, r) ==> val(r) == val(a) - val(b)
}

/// Products are exact where values are read as real numbers.
pub open spec fn exact_products<T: Mul<Output = T>>(val: spec_fn(T) -> real) -> bool {
    forall|a: T, b: T, r: T| #[trigger] product(a, b, r) ==> val(r) == val(a) * val(b)
}

/// Quotients are exact where values are read as real numbers, unless they divide by zero.
pub open spec fn exact_quotients<T: Div<Output = T>>(val: spec_fn(T) -> real) -> bool {
    forall|a: T, b: T, r: T| #[trigger]
        quotient(a, b, r) && val(b) != 0real ==> val(r) * val(b) == val(a)
}

/// Comparisons tell the order of the real numbers that values are read as.
pub open spec fn exact_order<T: PartialOrd>(val: spec_fn(T) -> real) -> bool {
    &&& forall|a: T, b: T, r: bool| #[trigger] at_most(a, b, r) ==> r == (val(a) <= val(b))
    &&& forall|a: T, b: T, r: bool| #[trigger] at_least(a, b, r) ==> r == (val(a) >= val(b))
    &&& forall|a: T, b: T, r: bool| #[trigger] below(a, b, r) ==> r == (val(a) < val(b))
    &&& forall|a: T, b: T, r: bool| #[trigger] above(a, b, r) ==> r == (val(a) > val(b))
}

/// `number` gives the value that is read as the number itself.
pub open spec fn exact_numbers<T, N: Fn(usize) -> T>(val: spec_fn(T) -> real, number: N) -> bool {
    forall|n: usize, r: T| #[trigger] call_ensures(number, (n,), r) ==> val(r) == n as int as real
}

/// A sum with one more value at its end.
pub proof fn one_more<T: Add<Output = T>>(zero: T, values: Seq<T>, last: T, q: T, r: T)
    requires
        sums_to(zero, values, q),
        sum(q, last, r),
    ensures
        sums_to(zero, values.push(last), r),
{
    assert(values.push(last).drop_last() =~= values);
    assert(sum(q, values.push(last).last(), r));
}

/// Where addition has one result, so has a sum.
pub proof fn sums_agree<T: Add<Output = T>>(zero: T, values: Seq<T>, x: T, y: T)
    requires
        sums_to(zero, values, x),
        sums_to(zero, values, y),
        forall|a: T, b: T, x: T, y: T| #[trigger]
            sum(a, b, x) && #[trigger] sum(a, b, y) ==> x == y,
    ensures
        x == y,
    decreases values.len(),
{
    if values.len() > 0 {
        let p = choose|q: T|
            sums_to(zero, values.drop_last(), q) && #[trigger] sum(q, values.last(), x);
        let r = choose|q: T|
            sums_to(zero, values.drop_last(), q) && #[trigger] sum(q, values.last(), y);
        sums_agree(zero, values.drop_last(), p, r);
    }
}

/// Where sums are exact, zeros add up to zero.
pub proof fn sum_of_zeros<T: Add<Output = T>>(
    val: spec_fn(T) -> real,
    zero: T,
    values: Seq<T>,
    r: T,
)
    requires
        exact_sums(val),
        val(zero) == 0real,
        forall|i: int| 0 <= i < values.len() ==> val(#[trigger] values[i]) == 0real,
        sums_to(zero, values, r),
    ensures
        val(r) == 0real,
    decreases values.len(),
{
    if values.len() > 0 {
        let q = choose|q: T|
            sums_to(zero, values.drop_last(), q) && #[trigger] sum(q, values.last(), r);
        assert forall|i: int| 0 <= i < values.drop_last().len() implies val(
            #[trigger] values.drop_last()[i],
        ) == 0real by {
            assert(values.drop_last()[i] == values[i]);
        }
        sum_of_zeros(val, zero, values.drop_last(), q);
    }
}

/// Adds the values from `lo` to below `hi` to `zero`, in order.
pub fn sum_range<T: Copy + Add<Output = T>>(zero: T, values: &Vec<T>, lo: usize, hi: usize) -> (r:
    T)
    requires
        lo <= hi <= values@.len(),
        adds::<T>(),
    ensures
        sums_to(zero, values@.subrange(lo as int, hi as int), r),
{
    let mut r: T = zero;
    let mut i: usize = lo;
    while i < hi
        invariant
            lo <= i <= hi <= values@.len(),
            adds::<T>(),
            sums_to(zero, values@.subrange(lo as int, i as int), r),
        decreases hi - i,
    {
        let ghost q = r;
        r = r + values[i];
        i = i + 1;
        assert(values@.subrange(lo as int, i as int).drop_last() =~= values@.subrange(
            lo as int,
            i - 1,
        ));
        assert(sum(q, values@.subrange(lo as int, i as int).last(), r));
    }
    r
}

/// The same values in a vector of their own.
pub fn copied<T: Copy>(v: &Vec<T>) -> (r: Vec<T>)
    ensures
        r@ == v@,
{
    let mut r: Vec<T> = Vec::new();
    let mut i: usize = 0;
    while i < v.len()
        invariant
            i <= v@.len(),
            r@ == v@.take(i as int),
        decreases v@.len() - i,
    {
        r.push(v[i]);
        i = i + 1;
        assert(v@.take(i as int) =~= r@);
    }
    assert(v@.take(i as int) =~= v@);
    r
}

} // verus!
