//! What a transform yields: images per channel and the cross spectrum, how several
//! channels are grouped into transforms, and the superlet combination of passes.

use std::ops::Mul;
use vstd::prelude::*;

#[allow(unused_imports)]
use crate::engine;
use crate::numeric;
#[allow(unused_imports)]
use crate::reals;

verus! {

/// Images of one channel, each laid out `[scale * width + col]`: amplitude, phase,
/// coherence, deviation of the instantaneous frequency.
pub type CwtOutput<T> = (Vec<T>, Vec<T>, Vec<T>, Vec<T>);

/// Cross spectrum of the first two channels, `[scale * width + col]`.
#[derive(Debug)]
pub struct CrossOutput<T> {
    /// Phase difference of the channels per pixel.
    pub phase: Vec<T>,
    /// Phase locking within the pixel.
    pub coherence: Vec<T>,
    /// Geometric mean of the amplitudes.
    pub amplitude: Vec<T>,
}

/// Everything that one transform yields.
pub type Transform<T> = (Vec<CwtOutput<T>>, Option<CrossOutput<T>>);

/// `t` holds the downloaded images in their places.
pub open spec fn assembled<T>(images: Seq<Seq<T>>, channels: int, t: Transform<T>) -> bool {
    &&& t.0@.len() == channels
    &&& forall|c: int|
        0 <= c < channels ==> {
            &&& (#[trigger] t.0@[c]).0@ == images[4 * c]
            &&& t.0@[c].1@ == images[4 * c + 1]
            &&& t.0@[c].2@ == images[4 * c + 2]
            &&& t.0@[c].3@ == images[4 * c + 3]
        }
    &&& t.1 is Some <==> channels == 2
    &&& t.1 matches Some(x) ==> {
        &&& x.phase@ == images[8]
        &&& x.coherence@ == images[9]
        &&& x.amplitude@ == images[10]
    }
}

/// The contents of each of several vectors.
pub open spec fn contents<T>(v: Seq<Vec<T>>) -> Seq<Seq<T>> {
    Seq::new(v.len(), |i: int| v[i]@)
}

/// `n` times the same value.
pub open spec fn repeated<T>(value: T, n: int) -> Seq<T> {
    Seq::new(n as nat, |i: int| value)
}

/// Sorts the downloaded images by channel: four for each, then the cross spectrum.
pub fn assemble<T: Copy>(images: &Vec<Vec<T>>, channels: usize) -> (t: Transform<T>)
    requires
        channels <= 2,
        images@.len() == engine::image_count(channels as int),
    ensures
        assembled(contents(images@), channels as int, t),
{
    let mut outs: Vec<CwtOutput<T>> = Vec::new();
    let mut c: usize = 0;
    while c < channels
        invariant
            c <= channels <= 2,
            images@.len() == engine::image_count(channels as int),
            outs@.len() == c,
            forall|k: int|
                0 <= k < c ==> {
                    &&& (#[trigger] outs@[k]).0@ == images@[4 * k]@
                    &&& outs@[k].1@ == images@[4 * k + 1]@
                    &&& outs@[k].2@ == images@[4 * k + 2]@
                    &&& outs@[k].3@ == images@[4 * k + 3]@
                },
        decreases channels - c,
    {
        let o: usize = 4 * c;
        outs.push(
            (
                numeric::copied(&images[o]),
                numeric::copied(&images[o + 1]),
                numeric::copied(&images[o + 2]),
                numeric::copied(&images[o + 3]),
            ),
        );
        c = c + 1;
    }
    let cross = if channels == 2 {
        Some(
            CrossOutput {
                phase: numeric::copied(&images[8]),
                coherence: numeric::copied(&images[9]),
                amplitude: numeric::copied(&images[10]),
            },
        )
    } else {
        None
    };
    (outs, cross)
}

/// `t` holds images of zeros.
pub open spec fn blanked<T>(zero: T, pixels: int, channels: int, t: Transform<T>) -> bool {
    assembled(repeated(repeated(zero, pixels), engine::image_count(channels)), channels, t)
}

/// A blank transform has all the images that a transform has, each of them full of zeros: four
/// per channel, and for two channels those of the cross spectrum.
pub proof fn blank_images_are_complete<T>(
    zero: T,
    pixels: int,
    channels: int,
    t: Transform<T>,
    c: int,
    i: int,
)
    requires
        0 <= channels <= 2,
        blanked(zero, pixels, channels, t),
        0 <= c < channels,
        0 <= i < pixels,
    ensures
        t.0@.len() == channels,
        t.0@[c].0@.len() == pixels && t.0@[c].0@[i] == zero,
        t.0@[c].1@.len() == pixels && t.0@[c].1@[i] == zero,
        t.0@[c].2@.len() == pixels && t.0@[c].2@[i] == zero,
        t.0@[c].3@.len() == pixels && t.0@[c].3@[i] == zero,
        t.1 is Some <==> channels == 2,
        t.1 matches Some(x) ==> {
            &&& x.phase@.len() == pixels && x.phase@[i] == zero
            &&& x.coherence@.len() == pixels && x.coherence@[i] == zero
            &&& x.amplitude@.len() == pixels && x.amplitude@[i] == zero
        },
{
}

/// The images of a transform with nothing to show: all zeros, of the full size.
pub fn blank<T: Copy>(zero: T, pixels: usize, channels: usize) -> (t: Transform<T>)
    requires
        channels <= 2,
    ensures
        blanked(zero, pixels as int, channels as int, t),
{
    let count: usize = if channels == 2 {
        11
    } else {
        4 * channels
    };
    let mut zeros: Vec<T> = Vec::new();
    let mut i: usize = 0;
    while i < pixels
        invariant
            i <= pixels,
            zeros@ == repeated(zero, i as int),
        decreases pixels - i,
    {
        zeros.push(zero);
        i = i + 1;
        assert(zeros@ =~= repeated(zero, i as int));
    }
    let mut images: Vec<Vec<T>> = Vec::new();
    let mut i: usize = 0;
    while i < count
        invariant
            i <= count,
            zeros@ == repeated(zero, pixels as int),
            images@.len() == i,
            forall|k: int| 0 <= k < i ==> (#[trigger] images@[k])@ == zeros@,
        decreases count - i,
    {
        images.push(numeric::copied(&zeros));
        i = i + 1;
    }
    assert(contents(images@) =~= repeated(
        repeated(zero, pixels as int),
        engine::image_count(channels as int),
    ));
    assemble(&images, channels)
}

/// Samples that all signals have; 0 without signals.
pub fn common_len(lengths: &Vec<usize>) -> (n: usize)
    ensures
        lengths@.len() == 0 ==> n == 0,
        lengths@.len() > 0 ==> lengths@.contains(n),
        forall|i: int| 0 <= i < lengths@.len() ==> n <= #[trigger] lengths@[i],
{
    if lengths.len() == 0 {
        return 0;
    }
    let mut n: usize = lengths[0];
    let mut i: usize = 1;
    while i < lengths.len()
        invariant
            1 <= i <= lengths@.len(),
            lengths@.contains(n),
            forall|k: int| 0 <= k < i ==> n <= #[trigger] lengths@[k],
        decreases lengths@.len() - i,
    {
        if lengths[i] < n {
            n = lengths[i];
        }
        i = i + 1;
    }
    n
}

/// Consecutive channels that are transformed together.
#[derive(Clone, Copy, Debug, PartialEq, Eq, Structural)]
pub struct Group {
    pub first: usize,
    pub count: usize,
}

/// How `n` channels are transformed: the first two jointly, so that their cross spectrum
/// comes along, every further one by itself.
pub open spec fn groups_of(n: int) -> Seq<Group> {
    if n <= 0 {
        seq![]
    } else if n == 1 {
        seq![Group { first: 0, count: 1 }]
    } else {
        Seq::new(
            (n - 1) as nat,
            |i: int|
                if i == 0 {
                    Group { first: 0, count: 2 }
                } else {
                    Group { first: (i + 1) as usize, count: 1 }
                },
        )
    }
}

pub fn channel_groups(n: usize) -> (groups: Vec<Group>)
    ensures
        groups@ == groups_of(n as int),
{
    let mut groups: Vec<Group> = Vec::new();
    if n == 1 {
        groups.push(Group { first: 0, count: 1 });
    } else if n >= 2 {
        groups.push(Group { first: 0, count: 2 });
        let mut c: usize = 2;
        while c < n
            invariant
                2 <= c <= n,
                groups@ == groups_of(c as int),
            decreases n - c,
        {
            groups.push(Group { first: c, count: 1 });
            c = c + 1;
            assert(groups@ =~= groups_of(c as int));
        }
    }
    assert(groups@ =~= groups_of(n as int));
    groups
}

/// Every channel belongs to exactly one group, groups hold one or two channels, and they
/// come in channel order.
pub proof fn groups_cover_the_channels(n: int, c: int) -> (g: int)
    requires
        0 <= c < n <= usize::MAX,
    ensures
        0 <= g < groups_of(n).len(),
        groups_of(n)[g].first <= c < groups_of(n)[g].first + groups_of(n)[g].count,
        groups_of(n)[g].count == (if n >= 2 && c < 2 {
            2int
        } else {
            1int
        }),
        groups_of(n)[0].first == 0,
        forall|i: int|
            0 <= i < groups_of(n).len() && (#[trigger] groups_of(n)[i]).first <= c
                < groups_of(n)[i].first + groups_of(n)[i].count ==> i == g,
        forall|i: int, j: int|
            0 <= i && j == i + 1 && j < groups_of(n).len() ==> (
            #[trigger] groups_of(n)[j]).first == (#[trigger] groups_of(n)[i]).first + groups_of(
                n,
            )[i].count,
{
    if n == 1 || c <= 1 {
        0
    } else {
        c - 1
    }
}

/// The channel images of several transforms, one transform after the other.
pub open spec fn all_outputs<T>(parts: Seq<Transform<T>>) -> Seq<CwtOutput<T>>
    decreases parts.len(),
{
    if parts.len() == 0 {
        seq![]
    } else {
        all_outputs(parts.drop_last()) + parts.last().0@
    }
}

/// `t` joins the groups' transforms.
pub open spec fn gathered<T>(parts: Seq<Transform<T>>, t: Transform<T>) -> bool {
    &&& t.0@ == all_outputs(parts)
    &&& t.1 == (if parts.len() == 0 {
        None
    } else {
        parts[0].1
    })
}

/// Joins the groups' transforms: all channels in order, and the cross spectrum of the
/// first group.
pub fn gather<T>(parts: Vec<Transform<T>>) -> (t: Transform<T>)
    ensures
        gathered(parts@, t),
{
    let mut parts = parts;
    let ghost all = parts@;
    let mut outs: Vec<CwtOutput<T>> = Vec::new();
    let mut cross: Option<CrossOutput<T>> = None;
    assert(outs@ + all_outputs(all) =~= all_outputs(all));
    while parts.len() > 0
        invariant
            parts@.len() <= all.len(),
            parts@ == all.take(parts@.len() as int),
            all_outputs(parts@) + outs@ == all_outputs(all),
            parts@.len() < all.len() ==> cross == all[parts@.len() as int].1,
            parts@.len() == all.len() ==> cross is None,
        decreases parts@.len(),
    {
        let ghost before = parts@;
        match parts.pop() {
            Some(part) => {
                let (mut single, c) = part;
                proof {
                    assert(before.drop_last() =~= parts@);
                    assert(parts@ =~= all.take(parts@.len() as int));
                    assert(all_outputs(before) == all_outputs(parts@) + single@);
                    assert(all_outputs(parts@) + (single@ + outs@) =~= all_outputs(before) + outs@);
                }
                single.append(&mut outs);
                outs = single;
                cross = c;
            },
            None => {},
        }
    }
    assert(all_outputs(parts@) + outs@ =~= outs@);
    (outs, cross)
}

proof fn outputs_add_up<T>(n: int, parts: Seq<Transform<T>>, k: int)
    requires
        0 <= k <= parts.len() == groups_of(n).len(),
        0 <= n <= usize::MAX,
        forall|i: int| 0 <= i < k ==> (#[trigger] parts[i]).0@.len() == groups_of(n)[i].count,
    ensures
        all_outputs(parts.take(k)).len() == (if k == 0 {
            0
        } else {
            groups_of(n)[k - 1].first + groups_of(n)[k - 1].count
        }),
    decreases k,
{
    if k > 0 {
        outputs_add_up(n, parts, k - 1);
        assert(parts.take(k).drop_last() =~= parts.take(k - 1));
    }
}

proof fn outputs_in_place<T>(n: int, parts: Seq<Transform<T>>, k: int, g: int, c: int)
    requires
        0 <= g < k <= parts.len() == groups_of(n).len(),
        0 <= n <= usize::MAX,
        forall|i: int| 0 <= i < k ==> (#[trigger] parts[i]).0@.len() == groups_of(n)[i].count,
        0 <= c < groups_of(n)[g].count,
    ensures
        groups_of(n)[g].first + c < all_outputs(parts.take(k)).len(),
        all_outputs(parts.take(k))[groups_of(n)[g].first + c] == parts[g].0@[c],
    decreases k,
{
    outputs_add_up(n, parts, k);
    outputs_add_up(n, parts, k - 1);
    assert(parts.take(k).drop_last() =~= parts.take(k - 1));
    if g < k - 1 {
        outputs_in_place(n, parts, k - 1, g, c);
    }
}

/// Where every group yields its channels, all `n` channels come out, each in its own place:
/// channel `c` is what its group gave for it. With two or more channels there is a cross
/// spectrum, that of the first two.
pub proof fn every_channel_comes_out<T>(n: int, parts: Seq<Transform<T>>, t: Transform<T>)
    requires
        0 <= n <= usize::MAX,
        parts.len() == groups_of(n).len(),
        forall|i: int|
            0 <= i < parts.len() ==> {
                &&& (#[trigger] parts[i]).0@.len() == groups_of(n)[i].count
                &&& parts[i].1 is Some <==> groups_of(n)[i].count == 2
            },
        gathered(parts, t),
    ensures
        t.0@.len() == n,
        t.1 is Some <==> n >= 2,
        n >= 1 ==> t.0@[0] == parts[0].0@[0] && t.1 == parts[0].1,
        n >= 2 ==> t.0@[1] == parts[0].0@[1],
        forall|c: int| 2 <= c < n ==> #[trigger] t.0@[c] == parts[c - 1].0@[0],
{
    outputs_add_up(n, parts, parts.len() as int);
    assert(parts.take(parts.len() as int) =~= parts);
    assert forall|c: int| 0 <= c < n implies #[trigger] t.0@[c] == (if c < 2 {
        parts[0].0@[c]
    } else {
        parts[c - 1].0@[0]
    }) by {
        let g = groups_cover_the_channels(n, c);
        outputs_in_place(n, parts, parts.len() as int, g, c - groups_of(n)[g].first);
    }
}

/// Quantity `q` of channel `c`: amplitude, phase, coherence, frequency deviation.
pub open spec fn quantity<T>(t: Transform<T>, c: int, q: int) -> Seq<T> {
    if q == 0 {
        t.0@[c].0@
    } else if q == 1 {
        t.0@[c].1@
    } else if q == 2 {
        t.0@[c].2@
    } else {
        t.0@[c].3@
    }
}

/// Every downloaded image ends up as the quantity that it is of: image `4 * c + q` as
/// quantity `q` of channel `c`, the three behind those of two channels as phase, coherence
/// and amplitude of the cross spectrum.
pub proof fn images_end_up_in_their_places<T>(images: Seq<Seq<T>>, channels: int, t: Transform<T>)
    requires
        1 <= channels <= 2,
        assembled(images, channels, t),
    ensures
        t.0@.len() == channels,
        forall|i: int|
            0 <= i < 4 * channels ==> quantity(t, i / 4, i % 4) == #[trigger] images[i],
        channels == 1 ==> t.1 is None,
        channels == 2 ==> (t.1 matches Some(x) && x.phase@ == images[8] && x.coherence@ == images[9]
            && x.amplitude@ == images[10]),
{
    assert forall|i: int| 0 <= i < 4 * channels implies quantity(t, i / 4, i % 4)
        == #[trigger] images[i] by {
        let c = i / 4;
        assert(t.0@[c].0@ == images[4 * c]);
    }
}

/// The sharpness factors of the passes that follow the plain one.
pub open spec fn orders_of(order: u32) -> Seq<u32> {
    if order <= 1 {
        seq![]
    } else {
        Seq::new((order - 1) as nat, |i: int| (i + 2) as u32)
    }
}

/// Together with the plain pass there are as many passes as the order says, one for every
/// sharpness from one to the order; an order of none counts as one.
pub proof fn every_order_has_its_pass(order: u32, k: u32)
    ensures
        order >= 1 ==> orders_of(order).len() + 1 == order,
        order == 0 ==> orders_of(order).len() == 0,
        orders_of(order).contains(k) <==> 2 <= k <= order,
        orders_of(order).no_duplicates(),
{
    if 2 <= k <= order {
        assert(orders_of(order)[k - 2] == k);
    }
}

/// The sharpness factors of the passes that follow the plain one.
pub fn superlet_orders(order: u32) -> (ks: Vec<u32>)
    ensures
        ks@ == orders_of(order),
{
    let mut ks: Vec<u32> = Vec::new();
    let mut k: u32 = 1;
    while k < order
        invariant
            1 <= k,
            order > 1 ==> k <= order && ks@ == Seq::new((k - 1) as nat, |i: int| (i + 2) as u32),
            order <= 1 ==> ks@.len() == 0,
        decreases order - k,
    {
        k = k + 1;
        ks.push(k);
        assert(ks@ =~= Seq::new((k - 1) as nat, |i: int| (i + 2) as u32));
    }
    assert(ks@ =~= orders_of(order));
    ks
}

/// `p` is the product of a pixel's amplitudes over the plain pass (`first`) and the first
/// `k` further passes, multiplied in that order. A pass without that pixel is left out.
pub open spec fn amplitude_product<T, P: Mul<Output = P>, W: Fn(T) -> P>(
    widen: W,
    first: T,
    passes: Seq<Vec<Vec<T>>>,
    c: int,
    i: int,
    k: int,
    p: P,
) -> bool
    decreases k,
{
    if k <= 0 {
        call_ensures(widen, (first,), p)
    } else if c < passes[k - 1]@.len() && i < passes[k - 1]@[c]@.len() {
        exists|q: P, w: P|
            {
                &&& amplitude_product(widen, first, passes, c, i, k - 1, q)
                &&& call_ensures(widen, (passes[k - 1]@[c]@[i],), w)
                &&& #[trigger] call_ensures(<P as Mul>::mul, (q, w), p)
            }
    } else {
        amplitude_product(widen, first, passes, c, i, k - 1, p)
    }
}

/// `v` is a superlet amplitude: the root of the product over all passes.
pub open spec fn superlet_pixel<T, P: Mul<Output = P>, W: Fn(T) -> P, R: Fn(P, u32) -> T>(
    widen: W,
    root: R,
    first: T,
    passes: Seq<Vec<Vec<T>>>,
    c: int,
    i: int,
    v: T,
) -> bool {
    exists|p: P|
        {
            &&& #[trigger] amplitude_product(widen, first, passes, c, i, passes.len() as int, p)
            &&& call_ensures(root, (p, (passes.len() + 1) as u32), v)
        }
}

fn multiply_pixel<T: Copy, P: Mul<Output = P> + Copy, W: Fn(T) -> P>(
    first: T,
    passes: &Vec<Vec<Vec<T>>>,
    c: usize,
    i: usize,
    widen: &W,
) -> (p: P)
    requires
        forall|v: T| call_requires(*widen, (v,)),
        forall|a: P, b: P| call_requires(<P as Mul>::mul, (a, b)),
    ensures
        amplitude_product(*widen, first, passes@, c as int, i as int, passes@.len() as int, p),
{
    let mut p: P = widen(first);
    let mut k: usize = 0;
    while k < passes.len()
        invariant
            k <= passes@.len(),
            forall|v: T| call_requires(*widen, (v,)),
            forall|a: P, b: P| call_requires(<P as Mul>::mul, (a, b)),
            amplitude_product(*widen, first, passes@, c as int, i as int, k as int, p),
        decreases passes@.len() - k,
    {
        if c < passes[k].len() && i < passes[k][c].len() {
            let w: P = widen(passes[k][c][i]);
            p = p * w;
        }
        k = k + 1;
    }
    p
}

/// `t` is the plain transform with superlet amplitudes.
pub open spec fn superlet_of<T, P: Mul<Output = P>, W: Fn(T) -> P, R: Fn(P, u32) -> T>(
    plain: Transform<T>,
    passes: Seq<Vec<Vec<T>>>,
    widen: W,
    root: R,
    t: Transform<T>,
) -> bool {
    &&& passes.len() == 0 ==> t == plain
    &&& t.1 == plain.1
    &&& t.0@.len() == plain.0@.len()
    &&& forall|c: int|
        0 <= c < t.0@.len() ==> {
            &&& (#[trigger] t.0@[c]).0@.len() == plain.0@[c].0@.len()
            &&& t.0@[c].1 == plain.0@[c].1
            &&& t.0@[c].2 == plain.0@[c].2
            &&& t.0@[c].3 == plain.0@[c].3
        }
    &&& passes.len() > 0 ==> forall|c: int, i: int|
        0 <= c < t.0@.len() && 0 <= i < t.0@[c].0@.len() ==> superlet_pixel(
            widen,
            root,
            plain.0@[c].0@[i],
            passes,
            c,
            i,
            #[trigger] t.0@[c].0@[i],
        )
}

/// `x` multiplied `n` times.
pub open spec fn to_the(x: real, n: nat) -> real
    decreases n,
{
    if n == 0 {
        1real
    } else {
        to_the(x, (n - 1) as nat) * x
    }
}

/// The product of some values, read as real numbers.
pub open spec fn product_of<T>(val: spec_fn(T) -> real, values: Seq<T>) -> real
    decreases values.len(),
{
    if values.len() == 0 {
        1real
    } else {
        product_of(val, values.drop_last()) * val(values.last())
    }
}

/// With exact arithmetic, the superlet amplitude of a pixel is the geometric mean of what
/// that pixel of that channel has in the plain pass and in every further pass: multiplied
/// by itself once per pass, it is their product. Everything else is that of the plain pass.
pub proof fn superlets_are_geometric_means<
    T,
    P: Mul<Output = P>,
    W: Fn(T) -> P,
    R: Fn(P, u32) -> T,
>(
    val: spec_fn(T) -> real,
    wide: spec_fn(P) -> real,
    plain: Transform<T>,
    passes: Seq<Vec<Vec<T>>>,
    widen: W,
    root: R,
    t: Transform<T>,
    c: int,
    i: int,
)
    requires
        superlet_of(plain, passes, widen, root, t),
        passes.len() < u32::MAX,
        numeric::exact_products(wide),
        forall|v: T, p: P| #[trigger] call_ensures(widen, (v,), p) ==> wide(p) == val(v),
        forall|p: P, n: u32, v: T| #[trigger]
            call_ensures(root, (p, n), v) && wide(p) >= 0real ==> val(v) >= 0real && to_the(
                val(v),
                n as nat,
            ) == wide(p),
        0 <= c < plain.0@.len(),
        0 <= i < plain.0@[c].0@.len(),
        val(plain.0@[c].0@[i]) >= 0real,
        forall|k: int|
            0 <= k < passes.len() ==> c < (#[trigger] passes[k])@.len() && i < passes[k]@[c]@.len()
                && val(passes[k]@[c]@[i]) >= 0real,
    ensures
        ({
            let further = Seq::new(passes.len(), |k: int| passes[k]@[c]@[i]);
            let v = val(t.0@[c].0@[i]);
            &&& v >= 0real
            &&& to_the(v, passes.len() + 1) == product_of(val, seq![plain.0@[c].0@[i]] + further)
        }),
        t.0@.len() == plain.0@.len(),
        t.0@[c].0@.len() == plain.0@[c].0@.len(),
        t.0@[c].1 == plain.0@[c].1 && t.0@[c].2 == plain.0@[c].2 && t.0@[c].3 == plain.0@[c].3,
        t.1 == plain.1,
{
    let first = plain.0@[c].0@[i];
    let further = Seq::new(passes.len(), |k: int| passes[k]@[c]@[i]);
    let (n, v) = (passes.len(), t.0@[c].0@[i]);
    assert(t.0@[c].0@.len() == plain.0@[c].0@.len());
    if n == 0 {
        assert(seq![first] + further =~= seq![first]);
        assert(seq![first].drop_last() =~= seq![]);
        reveal_with_fuel(to_the, 2);
        reveal_with_fuel(product_of, 2);
    } else {
        assert(superlet_pixel(widen, root, first, passes, c, i, v));
        let p = choose|p: P|
            {
                &&& #[trigger] amplitude_product(widen, first, passes, c, i, n as int, p)
                &&& call_ensures(root, (p, (n + 1) as u32), v)
            };
        product_is_exact(val, wide, widen, first, passes, c, i, n as int, p);
        assert(further.take(n as int) =~= further);
    }
}

proof fn product_is_exact<T, P: Mul<Output = P>, W: Fn(T) -> P>(
    val: spec_fn(T) -> real,
    wide: spec_fn(P) -> real,
    widen: W,
    first: T,
    passes: Seq<Vec<Vec<T>>>,
    c: int,
    i: int,
    k: int,
    p: P,
)
    requires
        0 <= k <= passes.len(),
        numeric::exact_products(wide),
        forall|v: T, p: P| #[trigger] call_ensures(widen, (v,), p) ==> wide(p) == val(v),
        0 <= c,
        0 <= i,
        val(first) >= 0real,
        forall|k: int|
            0 <= k < passes.len() ==> c < (#[trigger] passes[k])@.len() && i < passes[k]@[c]@.len()
                && val(passes[k]@[c]@[i]) >= 0real,
        amplitude_product(widen, first, passes, c, i, k, p),
    ensures
        wide(p) >= 0real,
        wide(p) == product_of(
            val,
            seq![first] + Seq::new(passes.len(), |k: int| passes[k]@[c]@[i]).take(k),
        ),
    decreases k,
{
    let further = Seq::new(passes.len(), |k: int| passes[k]@[c]@[i]);
    let all = seq![first] + further.take(k);
    if k == 0 {
        assert(all =~= seq![first]);
        assert(all.drop_last() =~= seq![]);
        reveal_with_fuel(product_of, 2);
    } else {
        assert(c < passes[k - 1]@.len() && i < passes[k - 1]@[c]@.len());
        let (q, w) = choose|q: P, w: P|
            {
                &&& amplitude_product(widen, first, passes, c, i, k - 1, q)
                &&& call_ensures(widen, (passes[k - 1]@[c]@[i],), w)
                &&& #[trigger] call_ensures(<P as Mul>::mul, (q, w), p)
            };
        product_is_exact(val, wide, widen, first, passes, c, i, k - 1, q);
        assert(all.drop_last() =~= seq![first] + further.take(k - 1));
        assert(numeric::product(q, w, p));
        reals::not_negative(wide(q), wide(w));
    }
}

/// Multiplicative superlets: the amplitude becomes the geometric mean over all passes, by
/// way of `root`, which gets the product and the number of passes. Phase, coherence,
/// frequency deviation and cross spectrum are those of the plain pass. Without further
/// passes the plain result stands.
pub fn superlet<T: Copy, P: Mul<Output = P> + Copy, W: Fn(T) -> P, R: Fn(P, u32) -> T>(
    plain: Transform<T>,
    passes: &Vec<Vec<Vec<T>>>,
    widen: W,
    root: R,
) -> (t: Transform<T>)
    requires
        passes@.len() < u32::MAX,
        forall|v: T| call_requires(widen, (v,)),
        forall|p: P, n: u32| call_requires(root, (p, n)),
        forall|a: P, b: P| call_requires(<P as Mul>::mul, (a, b)),
    ensures
        superlet_of(plain, passes@, widen, root, t),
{
    if passes.len() == 0 {
        return plain;
    }
    let order: u32 = passes.len() as u32 + 1;
    let (mut outs, cross) = plain;
    let ghost base = outs@;
    let mut c: usize = 0;
    while c < outs.len()
        invariant
            c <= outs@.len() == base.len(),
            passes@.len() > 0,
            order == (passes@.len() + 1) as u32,
            forall|v: T| call_requires(widen, (v,)),
            forall|p: P, n: u32| call_requires(root, (p, n)),
            forall|a: P, b: P| call_requires(<P as Mul>::mul, (a, b)),
            forall|k: int| c <= k < outs@.len() ==> #[trigger] outs@[k] == base[k],
            forall|k: int|
                0 <= k < c ==> {
                    &&& (#[trigger] outs@[k]).0@.len() == base[k].0@.len()
                    &&& outs@[k].1 == base[k].1
                    &&& outs@[k].2 == base[k].2
                    &&& outs@[k].3 == base[k].3
                },
            forall|k: int, i: int|
                0 <= k < c && 0 <= i < outs@[k].0@.len() ==> superlet_pixel(
                    widen,
                    root,
                    base[k].0@[i],
                    passes@,
                    k,
                    i,
                    #[trigger] outs@[k].0@[i],
                ),
        decreases outs@.len() - c,
    {
        let mut amplitude: Vec<T> = Vec::new();
        let mut i: usize = 0;
        while i < outs[c].0.len()
            invariant
                c < outs@.len() == base.len(),
                outs@[c as int] == base[c as int],
                i <= outs@[c as int].0@.len(),
                amplitude@.len() == i,
                order == (passes@.len() + 1) as u32,
                forall|v: T| call_requires(widen, (v,)),
                forall|p: P, n: u32| call_requires(root, (p, n)),
                forall|a: P, b: P| call_requires(<P as Mul>::mul, (a, b)),
                forall|j: int|
                    0 <= j < i ==> superlet_pixel(
                        widen,
                        root,
                        base[c as int].0@[j],
                        passes@,
                        c as int,
                        j,
                        #[trigger] amplitude@[j],
                    ),
            decreases outs@[c as int].0@.len() - i,
        {
            let p: P = multiply_pixel(outs[c].0[i], passes, c, i, &widen);
            let v: T = root(p, order);
            amplitude.push(v);
            i = i + 1;
        }
        let slot = &mut outs[c];
        slot.0 = amplitude;
        c = c + 1;
    }
    (outs, cross)
}

} // verus!
