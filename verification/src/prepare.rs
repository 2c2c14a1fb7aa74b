//! What a transform needs before the device starts: the request for a plan, the decimated
//! segments of the signals, and the scales of the rows.

use std::ops::{Add, Div, Mul};
use vstd::prelude::*;

use crate::decimation;
use crate::numeric;
use crate::outputs::{self, Group};
#[allow(unused_imports)]
use crate::plan;
use crate::plan::{CwtPlan, WindowRequest};
#[allow(unused_imports)]
use crate::pow2;
#[allow(unused_imports)]
use crate::reals;
use crate::viewport;
use crate::wavelet::{Band, CwtParams, FrequencyAxis, Reach};

verus! {

/// The image that is asked for.
#[derive(Clone, Copy, Debug)]
pub struct Visible {
    /// First visible sample.
    pub t_start: usize,
    /// One past the last visible sample.
    pub t_end: usize,
    /// Image columns.
    pub width: usize,
    /// Decimate with the half-band cascade rather than with a block average.
    pub antialias: bool,
    /// Largest buffer that the device lets a kernel see, in bytes.
    pub max_binding: u64,
}

/// What a transform is run on.
#[derive(Debug)]
pub struct Prepared<T, V> {
    pub plan: CwtPlan,
    /// The decimated segment of every signal.
    pub tapes: Vec<Vec<T>>,
    /// Scale and peak of every row.
    pub table: Vec<(V, V)>,
}

/// What preparing is computed with: samples of type `T`, frequencies of type `V`.
pub struct Preparation<'a, T, C, V, N, P, R, W> {
    pub zero: T,
    pub taps: &'a Vec<T>,
    /// A number as a sample.
    pub count: C,
    pub band: Band<V>,
    pub reach: Reach<V, P, R, W>,
    /// A number as a frequency.
    pub number: N,
}

/// The group lies within the channels.
pub open spec fn holds_group<T>(channels: Seq<Vec<T>>, group: Group) -> bool {
    group.first + group.count <= channels.len()
}

/// `total` is the number of samples that all channels of a group have, zero without any.
pub open spec fn common<T>(channels: Seq<Vec<T>>, group: Group, total: usize) -> bool {
    &&& group.count == 0 ==> total == 0
    &&& group.count > 0 ==> exists|k: int|
        0 <= k < group.count && total == (#[trigger] channels[group.first + k])@.len()
    &&& forall|k: int|
        0 <= k < group.count ==> total <= (#[trigger] channels[group.first + k])@.len()
}

fn common_samples<T>(channels: &Vec<Vec<T>>, group: Group) -> (total: usize)
    requires
        holds_group(channels@, group),
    ensures
        common(channels@, group, total),
{
    let mut lengths: Vec<usize> = Vec::new();
    let mut k: usize = 0;
    while k < group.count
        invariant
            holds_group(channels@, group),
            k <= group.count,
            lengths@.len() == k,
            forall|i: int|
                0 <= i < k ==> #[trigger] lengths@[i] == channels@[group.first + i]@.len(),
        decreases group.count - k,
    {
        assert(group.first + k < channels.len());
        lengths.push(channels[group.first + k].len());
        k = k + 1;
    }
    let total: usize = outputs::common_len(&lengths);
    proof {
        if group.count > 0 {
            let i = choose|i: int| 0 <= i < lengths@.len() && lengths@[i] == total;
            assert(total == channels@[group.first + i]@.len());
        }
        assert forall|i: int| 0 <= i < group.count implies total <= (
        #[trigger] channels@[group.first + i])@.len() by {
            assert(total <= lengths@[i]);
        }
    }
    total
}

fn segment<T: Copy>(v: &Vec<T>, lo: usize, hi: usize) -> (r: Vec<T>)
    requires
        lo <= hi <= v@.len(),
    ensures
        r@ == v@.subrange(lo as int, hi as int),
{
    let mut r: Vec<T> = Vec::new();
    let mut i: usize = lo;
    while i < hi
        invariant
            lo <= i <= hi <= v@.len(),
            r@ == v@.subrange(lo as int, i as int),
        decreases hi - i,
    {
        r.push(v[i]);
        i = i + 1;
        assert(v@.subrange(lo as int, i as int) =~= v@.subrange(lo as int, i - 1).push(
            v@[i - 1],
        ));
    }
    r
}

impl<
    'a,
    T: Copy + Add<Output = T> + Mul<Output = T> + Div<Output = T>,
    C: Fn(usize) -> T,
    V: Copy + Mul<Output = V> + Div<Output = V> + PartialOrd,
    N: Fn(usize) -> V,
    P: Fn(V, V) -> V,
    R: Fn(V) -> V,
    W: Fn(V) -> usize,
> Preparation<'a, T, C, V, N, P, R, W> {
    pub open spec fn callable(self) -> bool {
        &&& self.reach.callable()
        &&& numeric::adds::<T>()
        &&& numeric::multiplies::<T>()
        &&& numeric::divides::<T>()
        &&& forall|n: usize| call_requires(self.count, (n,))
        &&& forall|n: usize| call_requires(self.number, (n,))
    }

    /// `req` asks for the plan of an image: the samples that all signals have, the visible
    /// window, the largest decimation that keeps the highest frequency, and the reach of
    /// the wavelets at the lowest frequency.
    pub open spec fn requested(
        self,
        channels: Seq<Vec<T>>,
        group: Group,
        visible: Visible,
        params: CwtParams<V>,
        rate: V,
        req: WindowRequest,
    ) -> bool {
        &&& common(channels, group, req.total)
        &&& req.t_start == visible.t_start
        &&& req.t_end == visible.t_end
        &&& req.width == visible.width
        &&& req.num_scales == params.num_scales
        &&& req.max_d >= 1
        &&& self.band.decimates(rate, params.f_max, self.reach.whole, req.max_d)
        &&& exists|f_min: V| #[trigger]
            viewport::raised(params.f_min, self.band.lowest, f_min) && self.reach.reaches(
                params,
                rate,
                f_min,
                req.support,
            )
        &&& req.antialias == visible.antialias
        &&& req.max_binding == visible.max_binding
    }

    /// The request for the plan of an image.
    pub fn request(
        &self,
        channels: &Vec<Vec<T>>,
        group: Group,
        visible: Visible,
        params: &CwtParams<V>,
        rate: V,
    ) -> (req: WindowRequest)
        requires
            self.callable(),
            holds_group(channels@, group),
        ensures
            self.requested(channels@, group, visible, *params, rate, req),
    {
        let total: usize = common_samples(channels, group);
        let max_d: usize = self.band.largest_decimation(rate, params.f_max, &self.reach.whole);
        let f_min: V = viewport::raise(params.f_min, self.band.lowest);
        assert(viewport::raised(params.f_min, self.band.lowest, f_min));
        let support: usize = self.reach.support(params, rate, f_min);
        WindowRequest {
            total,
            t_start: visible.t_start,
            t_end: visible.t_end,
            width: visible.width,
            num_scales: params.num_scales,
            max_d,
            support,
            antialias: visible.antialias,
            max_binding: visible.max_binding,
        }
    }

    /// `tape` is the segment `seg` decimated by `d`; without decimation it is the segment.
    pub open spec fn tape(self, seg: Seq<T>, d: int, antialias: bool, tape: Seq<T>) -> bool {
        if d == 1 {
            tape == seg
        } else {
            &&& tape.len() == plan::decimated_len(seg.len() as int, d, antialias)
            &&& antialias ==> decimation::cascaded(
                self.zero,
                seg,
                self.taps@,
                pow2::floor_log2_of(d as nat),
                tape,
            )
            &&& !antialias ==> forall|i: int|
                0 <= i < tape.len() ==> decimation::block_mean(
                    self.zero,
                    seg,
                    d,
                    self.count,
                    i,
                    #[trigger] tape[i],
                )
        }
    }

    /// The frequency axis of a tape at `rate`, from one end of a range to the other.
    pub open spec fn axis(self, range: (V, V), rate: V) -> FrequencyAxis<V, N, P> {
        FrequencyAxis {
            f_min: range.0,
            f_max: range.1,
            rate,
            one: self.reach.one,
            mu: self.reach.mu,
            turn: self.reach.turn,
            number: self.number,
            power: self.reach.power,
        }
    }

    /// `table` holds scale and peak of every row of a tape that is decimated by `d`: the
    /// rows cover the range that the decimated rate can carry.
    pub open spec fn tabled(
        self,
        params: CwtParams<V>,
        rate: V,
        d: usize,
        table: Seq<(V, V)>,
    ) -> bool {
        &&& table.len() == params.num_scales
        &&& exists|k: V, r: V, range: (V, V)|
            {
                &&& #[trigger] call_ensures(self.number, (d,), k)
                &&& #[trigger] numeric::quotient(rate, k, r)
                &&& #[trigger] self.band.covered(params.f_min, params.f_max, r, range)
                &&& forall|i: int|
                    0 <= i < table.len() ==> self.axis(range, r).row(
                        params,
                        i,
                        (#[trigger] table[i]).0,
                        table[i].1,
                    )
            }
    }

    /// `p` holds the plan of a request, the tapes of the group's channels, and the table.
    pub open spec fn prepared(
        self,
        request: WindowRequest,
        channels: Seq<Vec<T>>,
        group: Group,
        params: CwtParams<V>,
        rate: V,
        p: Prepared<T, V>,
    ) -> bool {
        &&& request.planned(p.plan)
        &&& p.tapes@.len() == group.count
        &&& forall|k: int|
            0 <= k < group.count ==> (#[trigger] p.tapes@[k])@.len() == p.plan.tape_len
                && self.tape(
                channels[group.first + k]@.subrange(
                    p.plan.seg_start as int,
                    p.plan.seg_end as int,
                ),
                p.plan.d as int,
                request.antialias,
                p.tapes@[k]@,
            )
        &&& self.tabled(params, rate, p.plan.d, p.table@)
    }

    fn tape_of(&self, seg: Vec<T>, d: usize, antialias: bool) -> (tape: Vec<T>)
        requires
            self.callable(),
            pow2::is_pow2(d as nat),
            antialias && d > 1 ==> decimation::taps_fit(self.taps@.len() as int),
        ensures
            tape@.len() == plan::decimated_len(seg@.len() as int, d as int, antialias),
            self.tape(seg@, d as int, antialias, tape@),
    {
        if d == 1 {
            seg
        } else {
            decimation::downsample(self.zero, &seg, d, antialias, self.taps, &self.count)
        }
    }

    fn table(&self, params: &CwtParams<V>, rate: V, d: usize) -> (table: Vec<(V, V)>)
        requires
            self.callable(),
        ensures
            self.tabled(*params, rate, d, table@),
    {
        let k: V = (self.number)(d);
        let r: V = rate / k;
        let range: (V, V) = self.band.range(params.f_min, params.f_max, r);
        assert(call_ensures(self.number, (d,), k) && numeric::quotient(rate, k, r));
        assert(self.band.covered(params.f_min, params.f_max, r, range));
        let axis = FrequencyAxis {
            f_min: range.0,
            f_max: range.1,
            rate: r,
            one: self.reach.one,
            mu: self.reach.mu,
            turn: self.reach.turn,
            number: &self.number,
            power: &self.reach.power,
        };
        let table: Vec<(V, V)> = axis.table(params);
        assert forall|i: int| 0 <= i < table@.len() implies self.axis(range, r).row(
            *params,
            i,
            (#[trigger] table@[i]).0,
            table@[i].1,
        ) by {
            let (scale, eta) = table@[i];
            let whole = self.axis(range, r);
            assert(axis.row(*params, i, scale, eta));
            let (frac, f) = choose|frac: V, f: V|
                {
                    &&& #[trigger] axis.fraction_of(i, params.num_scales as int, frac)
                    &&& #[trigger] axis.frequency_at(frac, f)
                    &&& params.peaks_at(frac, axis.one, axis.mu, axis.power, eta)
                    &&& axis.scale_for(eta, f, scale)
                };
            assert(whole.fraction_of(i, params.num_scales as int, frac)) by {
                let n = params.num_scales as int;
                let last = FrequencyAxis::<V, &N, &P>::steps(n);
                assert(last == FrequencyAxis::<V, N, P>::steps(n));
                let (a, b) = choose|a: V, b: V|
                    {
                        &&& #[trigger] call_ensures(axis.number, (i as usize,), a)
                        &&& #[trigger] call_ensures(axis.number, (last,), b)
                        &&& numeric::quotient(a, b, frac)
                    };
                assert(call_ensures(whole.number, (i as usize,), a));
                assert(call_ensures(
                    whole.number,
                    (FrequencyAxis::<V, N, P>::steps(n),),
                    b,
                ));
            }
            assert(whole.frequency_at(frac, f));
            assert(params.peaks_at(frac, whole.one, whole.mu, whole.power, eta));
            assert(whole.scale_for(eta, f, scale));
        }
        table
    }

    /// Prepares the transform of a group of channels, or nothing where the image stays
    /// blank.
    pub fn prepare(
        &self,
        request: WindowRequest,
        channels: &Vec<Vec<T>>,
        group: Group,
        params: &CwtParams<V>,
        rate: V,
    ) -> (p: Option<Prepared<T, V>>)
        requires
            self.callable(),
            holds_group(channels@, group),
            common(channels@, group, request.total),
            request.plannable(),
            !request.blank() && request.antialias && request.decimation() > 1
                ==> decimation::taps_fit(self.taps@.len() as int),
        ensures
            p is None <==> request.blank(),
            p matches Some(q) ==> self.prepared(
                request,
                channels@,
                group,
                *params,
                rate,
                q,
            ),
    {
        let plan: CwtPlan = match CwtPlan::new(request) {
            Some(plan) => plan,
            None => {
                return None;
            },
        };
        proof {
            request.ranges();
        }
        let mut tapes: Vec<Vec<T>> = Vec::new();
        let mut k: usize = 0;
        while k < group.count
            invariant
                self.callable(),
                holds_group(channels@, group),
                common(channels@, group, request.total),
                request.planned(plan),
                !request.blank(),
                plan.seg_start <= plan.seg_end <= request.total,
                pow2::is_pow2(plan.d as nat),
                request.antialias && plan.d > 1 ==> decimation::taps_fit(
                    self.taps@.len() as int,
                ),
                k <= group.count,
                tapes@.len() == k,
                forall|i: int|
                    0 <= i < k ==> (#[trigger] tapes@[i])@.len() == plan.tape_len && self.tape(
                        channels@[group.first + i]@.subrange(
                            plan.seg_start as int,
                            plan.seg_end as int,
                        ),
                        plan.d as int,
                        request.antialias,
                        tapes@[i]@,
                    ),
            decreases group.count - k,
        {
            assert(group.first + k < channels.len());
            let c: usize = group.first + k;
            assert(request.total <= channels@[group.first + k]@.len());
            let seg: Vec<T> = segment(&channels[c], plan.seg_start, plan.seg_end);
            tapes.push(self.tape_of(seg, plan.d, request.antialias));
            k = k + 1;
        }
        let table: Vec<(V, V)> = self.table(params, rate, plan.d);
        Some(Prepared { plan, tapes, table })
    }

    /// A request is for what is visible: its window, width and switches, over as many samples
    /// as the shortest channel of the group has, and for as many rows as are asked for.
    pub proof fn requests_are_for_what_is_visible(
        self,
        channels: Seq<Vec<T>>,
        group: Group,
        visible: Visible,
        params: CwtParams<V>,
        rate: V,
        req: WindowRequest,
        k: int,
    )
        requires
            holds_group(channels, group),
            self.requested(channels, group, visible, params, rate, req),
            0 <= k < group.count,
        ensures
            (req.t_start, req.t_end, req.width) == (visible.t_start, visible.t_end, visible.width),
            (req.antialias, req.max_binding) == (visible.antialias, visible.max_binding),
            req.num_scales == params.num_scales,
            req.total <= channels[group.first + k]@.len(),
            exists|j: int|
                group.first <= j < group.first + group.count && req.total == (
                #[trigger] channels[j])@.len(),
    {
        let j = choose|k: int|
            0 <= k < group.count && req.total == (#[trigger] channels[group.first + k])@.len();
        assert(req.total == channels[group.first + j]@.len());
    }

    /// Tape `k` is made of the segment of channel `first + k`: of its samples themselves
    /// without decimation, of the means of blocks of `d` of them where no filter is asked for,
    /// and else, with exact arithmetic, of every other value of the convolution of what the
    /// stages before have left with the filter.
    pub proof fn tapes_hold_their_channel(
        self,
        val: spec_fn(T) -> real,
        request: WindowRequest,
        channels: Seq<Vec<T>>,
        group: Group,
        params: CwtParams<V>,
        rate: V,
        p: Prepared<T, V>,
        k: int,
        i: int,
        hi: int,
    )
        requires
            numeric::exact_sums(val),
            numeric::exact_products(val),
            numeric::exact_quotients(val),
            numeric::exact_numbers(val, self.count),
            val(self.zero) == 0real,
            decimation::half_band(val, self.taps@),
            holds_group(channels, group),
            common(channels, group, request.total),
            request.plannable(),
            !request.blank(),
            self.prepared(request, channels, group, params, rate, p),
            0 <= k < group.count,
            0 <= i < p.tapes@[k]@.len(),
        ensures
            p.tapes@.len() == group.count,
            ({
                let (x, y) = (channels[group.first + k]@, p.tapes@[k]@);
                let (s, e, d) = (p.plan.seg_start as int, p.plan.seg_end as int, p.plan.d as int);
                &&& d == 1 ==> y.len() == e - s && y[i] == x[s + i]
                &&& d > 1 && !request.antialias && s + i * d < e && (hi == s + i * d + d || hi == e)
                    && hi <= s + i * d + d && hi <= e ==> val(y[i]) * (hi - (s + i * d)) as real
                    == decimation::block_total(val, x, s + i * d, hi)
                &&& d > 1 && request.antialias ==> exists|mid: Seq<T>|
                    {
                        &&& #[trigger] decimation::cascaded(
                            self.zero,
                            x.subrange(s, e),
                            self.taps@,
                            (pow2::floor_log2_of(d as nat) - 1) as nat,
                            mid,
                        )
                        &&& val(y[i]) == decimation::convolved(
                            val,
                            mid,
                            self.taps@,
                            2 * i,
                            self.taps@.len() as int / 2,
                        )
                    }
            }),
    {
        request.ranges();
        let (x, y) = (channels[group.first + k]@, p.tapes@[k]@);
        let (s, e, d) = (p.plan.seg_start as int, p.plan.seg_end as int, p.plan.d as int);
        let seg = x.subrange(s, e);
        assert(request.total <= channels[group.first + k]@.len());
        assert(self.tape(seg, d, request.antialias, y));
        if d > 1 && !request.antialias && s + i * d < e && (hi == s + i * d + d || hi == e) && hi
            <= s + i * d + d && hi <= e {
            assert(i * d >= 0) by (nonlinear_arith)
                requires
                    i >= 0,
                    d > 1,
            ;
            decimation::blocks_are_averaged(val, self.zero, seg, d, self.count, i, y[i], hi - s);
            decimation::totals_move_along(val, x, s, e, i * d, hi - s);
        }
        if d > 1 && request.antialias {
            let n = pow2::floor_log2_of(d as nat);
            let mid = choose|mid: Seq<T>|
                decimation::cascaded(self.zero, seg, self.taps@, (n - 1) as nat, mid)
                    && #[trigger] decimation::halved(self.zero, mid, self.taps@, y);
            decimation::halving_is_a_convolution(val, self.zero, mid, self.taps@, y, i);
        }
    }

    /// With exact arithmetic, the rows of the table stand at even steps of a logarithmic axis
    /// from `low` on, each with the scale at which the wavelet peaks at its frequency on a tape
    /// of the rate divided by `d`; `low` is the lowest frequency asked for or the lowest of the
    /// band, whichever is higher.
    pub proof fn tables_fit_the_tape(
        self,
        val: spec_fn(V) -> real,
        pow: spec_fn(real, real) -> real,
        params: CwtParams<V>,
        rate: V,
        d: usize,
        table: Seq<(V, V)>,
        i: int,
        at: real,
    )
        requires
            numeric::exact_products(val),
            numeric::exact_quotients(val),
            numeric::exact_order(val),
            numeric::exact_numbers(val, self.number),
            CwtParams::<V>::exact_powers(val, pow, self.reach.power),
            val(self.reach.one) == 1real,
            val(self.reach.turn) > 0real,
            val(self.band.two) == 2real,
            val(self.band.ratio) > 1real,
            val(self.band.lowest) > 0real,
            forall|x: real, e: real| x > 0real ==> #[trigger] pow(x, e) > 0real,
            val(params.omega0_low) > 0real,
            val(params.omega0_high) > 0real,
            val(params.morse_beta) > 0real,
            val(params.morse_gamma) > 0real,
            d >= 1,
            self.tabled(params, rate, d, table),
            0 <= i < params.num_scales,
            params.num_scales == 1 ==> at == 0real,
            params.num_scales > 1 ==> at * (params.num_scales - 1) as real == i as real,
        ensures
            table.len() == params.num_scales,
            exists|r: V, range: (V, V)|
                {
                    let (scale, eta) = table[i];
                    &&& val(r) * (d as int as real) == val(rate)
                    &&& #[trigger] self.band.covered(params.f_min, params.f_max, r, range)
                    &&& val(range.0) > 0real
                    &&& val(range.0) == val(params.f_min) || val(range.0) == val(self.band.lowest)
                    &&& val(range.0) >= val(params.f_min) && val(range.0) >= val(self.band.lowest)
                    &&& forall|ratio: real|
                        ratio * val(range.0) == val(range.1) ==> val(scale) * (val(self.reach.turn)
                            * (val(range.0) * #[trigger] pow(ratio, at))) == val(eta) * val(r)
                },
    {
        let (k, r, range) = choose|k: V, r: V, range: (V, V)|
            {
                &&& #[trigger] call_ensures(self.number, (d,), k)
                &&& #[trigger] numeric::quotient(rate, k, r)
                &&& #[trigger] self.band.covered(params.f_min, params.f_max, r, range)
                &&& forall|i: int|
                    0 <= i < table.len() ==> self.axis(range, r).row(
                        params,
                        i,
                        (#[trigger] table[i]).0,
                        table[i].1,
                    )
            };
        self.band.range_is_carried(val, params.f_min, params.f_max, r, range);
        reals::positive(val(range.0), val(self.band.ratio));
        let (scale, eta) = table[i];
        let axis = self.axis(range, r);
        assert(axis.row(params, i, scale, eta));
        assert forall|ratio: real| ratio * val(range.0) == val(range.1) implies val(scale) * (val(
            self.reach.turn,
        ) * (val(range.0) * #[trigger] pow(ratio, at))) == val(eta) * val(r) by {
            axis.rows_peak_at_their_frequencies(
                val,
                pow,
                params,
                i,
                scale,
                eta,
                ratio,
                at,
            );
        }
    }
}

} // verus!
