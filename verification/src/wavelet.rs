//! Wavelet families and their parameters. All families are analytic, so phase, coherence
//! and instantaneous frequency stay meaningful.

use std::ops::{Div, Mul};
use vstd::prelude::*;

use crate::numeric;
#[allow(unused_imports)]
use crate::reals;
use crate::viewport;

verus! {

/// Analysing wavelet family.
#[derive(Clone, Copy, Debug, PartialEq, Eq, Structural)]
pub enum WaveletKind {
    /// Gaussian in frequency, balanced in time and frequency.
    Morlet,
    /// Two parameters tune symmetry and the trade-off between time and frequency.
    Morse,
    /// Compact in frequency: very sharp lines, poorer time localisation.
    Bump,
    /// Well localised in time, for transients and onsets.
    Paul,
}

/// Centre of the bump wavelet, dimensionless.
pub const BUMP_MU: u32 = 5;

impl WaveletKind {
    pub open spec fn name_of(self) -> Seq<char> {
        match self {
            WaveletKind::Morlet => "Morlet"@,
            WaveletKind::Morse => "Generalized Morse"@,
            WaveletKind::Bump => "Bump"@,
            WaveletKind::Paul => "Paul"@,
        }
    }

    pub fn name(self) -> (s: &'static str)
        ensures
            s@ == self.name_of(),
    {
        match self {
            WaveletKind::Morlet => "Morlet",
            WaveletKind::Morse => "Generalized Morse",
            WaveletKind::Bump => "Bump",
            WaveletKind::Paul => "Paul",
        }
    }

    pub open spec fn code_of(self) -> i32 {
        match self {
            WaveletKind::Morlet => 0,
            WaveletKind::Morse => 1,
            WaveletKind::Bump => 2,
            WaveletKind::Paul => 3,
        }
    }

    /// Code by which the wavelet kernel knows the family.
    pub fn code(self) -> (c: i32)
        ensures
            c == self.code_of(),
            0 <= c < 4,
    {
        match self {
            WaveletKind::Morlet => 0,
            WaveletKind::Morse => 1,
            WaveletKind::Bump => 2,
            WaveletKind::Paul => 3,
        }
    }

    /// The families on offer.
    pub open spec fn offered() -> Seq<WaveletKind> {
        seq![WaveletKind::Morlet, WaveletKind::Morse, WaveletKind::Bump, WaveletKind::Paul]
    }

    /// Every family is on offer, in the place that its code says.
    pub proof fn every_family_is_offered(self)
        ensures
            Self::offered().len() == 4,
            0 <= self.code_of() < 4,
            Self::offered()[self.code_of() as int] == self,
    {
    }

    /// All families, in the order in which they are offered.
    pub fn all() -> (kinds: Vec<WaveletKind>)
        ensures
            kinds@ == Self::offered(),
    {
        let kinds = vec![
            WaveletKind::Morlet,
            WaveletKind::Morse,
            WaveletKind::Bump,
            WaveletKind::Paul,
        ];
        assert(kinds@ =~= Self::offered());
        kinds
    }
}

/// Codes tell the families apart.
pub proof fn codes_are_distinct(a: WaveletKind, b: WaveletKind)
    requires
        a.code_of() == b.code_of(),
    ensures
        a == b,
{
}

/// Parameters of a transform.
#[derive(Clone, Copy, Debug, PartialEq)]
pub struct CwtParams<F> {
    /// Number of frequency bins (scales).
    pub num_scales: usize,
    /// Lowest visible frequency in Hz.
    pub f_min: F,
    /// Highest visible frequency in Hz.
    pub f_max: F,
    /// Wavelet family.
    pub kind: WaveletKind,
    /// Morlet central frequency at `f_min`.
    pub omega0_low: F,
    /// Morlet central frequency at `f_max`; log-interpolated in between.
    pub omega0_high: F,
    /// Morse sharpness: larger is sharper in frequency.
    pub morse_beta: F,
    /// Morse symmetry.
    pub morse_gamma: F,
    /// Bump half-bandwidth: smaller is sharper in frequency.
    pub bump_sigma: F,
    /// Paul order: larger is sharper in frequency.
    pub paul_order: F,
}

impl<F: Copy> CwtParams<F> {
    /// `p` holds the standard values, given in thousandths.
    pub open spec fn is_default<M: Fn(u32) -> F>(thousandths: M, p: CwtParams<F>) -> bool {
        &&& p.num_scales == 128
        &&& call_ensures(thousandths, (20_000u32,), p.f_min)
        &&& call_ensures(thousandths, (20_000_000u32,), p.f_max)
        &&& p.kind == WaveletKind::Morlet
        &&& call_ensures(thousandths, (6_000u32,), p.omega0_low)
        &&& call_ensures(thousandths, (6_000u32,), p.omega0_high)
        &&& call_ensures(thousandths, (20_000u32,), p.morse_beta)
        &&& call_ensures(thousandths, (3_000u32,), p.morse_gamma)
        &&& call_ensures(thousandths, (600u32,), p.bump_sigma)
        &&& call_ensures(thousandths, (4_000u32,), p.paul_order)
    }

    /// The standard view is of 128 rows from 20 Hz to 20 kHz with a Morlet wavelet of six
    /// cycles along the whole axis; the other families start from sharpness 20 and symmetry 3,
    /// from a half-bandwidth of 0.6, and from order 4.
    pub proof fn the_standard_view_is_audible<M: Fn(u32) -> F>(
        val: spec_fn(F) -> real,
        thousandths: M,
        p: CwtParams<F>,
    )
        requires
            forall|n: u32, v: F| #[trigger]
                call_ensures(thousandths, (n,), v) ==> 1000real * val(v) == n as int as real,
            Self::is_default(thousandths, p),
        ensures
            p.num_scales == 128 && p.kind == WaveletKind::Morlet,
            val(p.f_min) == 20real && val(p.f_max) == 20000real,
            val(p.omega0_low) == 6real && val(p.omega0_high) == 6real,
            val(p.morse_beta) == 20real && val(p.morse_gamma) == 3real,
            10real * val(p.bump_sigma) == 6real && val(p.paul_order) == 4real,
    {
    }

    /// The standard parameters. `thousandths` turns a number of thousandths into a value.
    pub fn default_with<M: Fn(u32) -> F>(thousandths: M) -> (p: CwtParams<F>)
        requires
            forall|n: u32| call_requires(thousandths, (n,)),
        ensures
            Self::is_default(thousandths, p),
    {
        CwtParams {
            num_scales: 128,
            f_min: thousandths(20_000),
            f_max: thousandths(20_000_000),
            kind: WaveletKind::Morlet,
            omega0_low: thousandths(6_000),
            omega0_high: thousandths(6_000),
            morse_beta: thousandths(20_000),
            morse_gamma: thousandths(3_000),
            bump_sigma: thousandths(600),
            paul_order: thousandths(4_000),
        }
    }

    /// `p` are these parameters in another number type.
    pub open spec fn converted<G, W: Fn(F) -> G>(self, widen: W, p: CwtParams<G>) -> bool {
        &&& p.num_scales == self.num_scales
        &&& p.kind == self.kind
        &&& call_ensures(widen, (self.f_min,), p.f_min)
        &&& call_ensures(widen, (self.f_max,), p.f_max)
        &&& call_ensures(widen, (self.omega0_low,), p.omega0_low)
        &&& call_ensures(widen, (self.omega0_high,), p.omega0_high)
        &&& call_ensures(widen, (self.morse_beta,), p.morse_beta)
        &&& call_ensures(widen, (self.morse_gamma,), p.morse_gamma)
        &&& call_ensures(widen, (self.bump_sigma,), p.bump_sigma)
        &&& call_ensures(widen, (self.paul_order,), p.paul_order)
    }

    /// Conversion that keeps numbers keeps every parameter.
    pub proof fn conversion_keeps_every_parameter<G, W: Fn(F) -> G>(
        self,
        val: spec_fn(F) -> real,
        wide: spec_fn(G) -> real,
        widen: W,
        p: CwtParams<G>,
    )
        requires
            forall|x: F, y: G| #[trigger] call_ensures(widen, (x,), y) ==> wide(y) == val(x),
            self.converted(widen, p),
        ensures
            (p.num_scales, p.kind) == (self.num_scales, self.kind),
            wide(p.f_min) == val(self.f_min) && wide(p.f_max) == val(self.f_max),
            wide(p.omega0_low) == val(self.omega0_low) && wide(p.omega0_high) == val(
                self.omega0_high,
            ),
            wide(p.morse_beta) == val(self.morse_beta) && wide(p.morse_gamma) == val(
                self.morse_gamma,
            ),
            wide(p.bump_sigma) == val(self.bump_sigma) && wide(p.paul_order) == val(
                self.paul_order,
            ),
    {
    }

    /// These parameters in another number type.
    pub fn convert<G, W: Fn(F) -> G>(&self, widen: W) -> (p: CwtParams<G>)
        requires
            forall|x: F| call_requires(widen, (x,)),
        ensures
            self.converted(widen, p),
    {
        CwtParams {
            num_scales: self.num_scales,
            f_min: widen(self.f_min),
            f_max: widen(self.f_max),
            kind: self.kind,
            omega0_low: widen(self.omega0_low),
            omega0_high: widen(self.omega0_high),
            morse_beta: widen(self.morse_beta),
            morse_gamma: widen(self.morse_gamma),
            bump_sigma: widen(self.bump_sigma),
            paul_order: widen(self.paul_order),
        }
    }

    /// The shape parameters that a kernel is given, by family.
    pub open spec fn shape(self, zero: F) -> (F, F) {
        match self.kind {
            WaveletKind::Morlet => (zero, zero),
            WaveletKind::Morse => (self.morse_beta, self.morse_gamma),
            WaveletKind::Bump => (self.bump_sigma, zero),
            WaveletKind::Paul => (self.paul_order, zero),
        }
    }

    /// Shape parameters of the wavelet kernel: none for Morlet, both of Morse, one of the
    /// others.
    pub fn kernel_params(&self, zero: F) -> (p: (F, F))
        ensures
            p == self.shape(zero),
    {
        match self.kind {
            WaveletKind::Morlet => (zero, zero),
            WaveletKind::Morse => (self.morse_beta, self.morse_gamma),
            WaveletKind::Bump => (self.bump_sigma, zero),
            WaveletKind::Paul => (self.paul_order, zero),
        }
    }
}

impl<F: Copy + Mul<Output = F> + Div<Output = F>> CwtParams<F> {
    /// `p` are these parameters with the family's sharpness scaled by `k`, and nothing else
    /// changed.
    pub open spec fn sharpened(self, k: F, p: CwtParams<F>) -> bool {
        match self.kind {
            WaveletKind::Morlet => {
                &&& numeric::product(self.omega0_low, k, p.omega0_low)
                &&& numeric::product(self.omega0_high, k, p.omega0_high)
                &&& p == (CwtParams {
                    omega0_low: p.omega0_low,
                    omega0_high: p.omega0_high,
                    ..self
                })
            },
            WaveletKind::Morse => {
                &&& numeric::product(self.morse_beta, k, p.morse_beta)
                &&& p == (CwtParams { morse_beta: p.morse_beta, ..self })
            },
            WaveletKind::Bump => {
                &&& numeric::quotient(self.bump_sigma, k, p.bump_sigma)
                &&& p == (CwtParams { bump_sigma: p.bump_sigma, ..self })
            },
            WaveletKind::Paul => {
                &&& numeric::product(self.paul_order, k, p.paul_order)
                &&& p == (CwtParams { paul_order: p.paul_order, ..self })
            },
        }
    }

    /// Parameters of superlet pass `k`: the family's sharpness scaled by `k`. A bump is
    /// sharper the narrower it is, so its bandwidth is divided.
    pub fn superlet_pass(&self, k: F) -> (p: CwtParams<F>)
        requires
            numeric::multiplies::<F>(),
            numeric::divides::<F>(),
        ensures
            self.sharpened(k, p),
    {
        let mut p: CwtParams<F> = *self;
        match self.kind {
            WaveletKind::Morlet => {
                p.omega0_low = self.omega0_low * k;
                p.omega0_high = self.omega0_high * k;
            },
            WaveletKind::Morse => {
                p.morse_beta = self.morse_beta * k;
            },
            WaveletKind::Bump => {
                p.bump_sigma = self.bump_sigma / k;
            },
            WaveletKind::Paul => {
                p.paul_order = self.paul_order * k;
            },
        }
        p
    }

    /// With exact arithmetic, pass `k` is `k` times as sharp as the plain one: the central
    /// frequencies of Morlet, the sharpness of Morse and the order of Paul are `k` times as
    /// large, the bandwidth of Bump is `k` times as small. What shapes the other families,
    /// or the family otherwise, stays.
    pub proof fn passes_sharpen_their_family(
        self,
        val: spec_fn(F) -> real,
        k: F,
        p: CwtParams<F>,
    )
        requires
            self.sharpened(k, p),
            numeric::exact_products(val),
            numeric::exact_quotients(val),
            val(k) > 0real,
        ensures
            self.kind == WaveletKind::Morlet ==> val(p.omega0_low) == val(self.omega0_low) * val(k)
                && val(p.omega0_high) == val(self.omega0_high) * val(k),
            self.kind == WaveletKind::Morse ==> val(p.morse_beta) == val(self.morse_beta) * val(k),
            self.kind == WaveletKind::Bump ==> val(p.bump_sigma) * val(k) == val(self.bump_sigma),
            self.kind == WaveletKind::Paul ==> val(p.paul_order) == val(self.paul_order) * val(k),
            self.kind != WaveletKind::Morlet ==> p.omega0_low == self.omega0_low && p.omega0_high
                == self.omega0_high,
            self.kind != WaveletKind::Morse ==> p.morse_beta == self.morse_beta,
            self.kind != WaveletKind::Bump ==> p.bump_sigma == self.bump_sigma,
            self.kind != WaveletKind::Paul ==> p.paul_order == self.paul_order,
            p.morse_gamma == self.morse_gamma,
            p.kind == self.kind && p.num_scales == self.num_scales,
            p.f_min == self.f_min && p.f_max == self.f_max,
    {
    }

    /// With exact arithmetic, the shape that a kernel is given is that of the wavelet whose
    /// peak and support are computed: the Morse peak to the power of its second parameter is
    /// their ratio, the Paul peak is its first, and a Bump reaches the farther the smaller
    /// its first is.
    pub proof fn kernels_get_the_shape_of_the_peak<P: Fn(F, F) -> F, R: Fn(F) -> F>(
        self,
        val: spec_fn(F) -> real,
        pow: spec_fn(real, real) -> real,
        zero: F,
        one: F,
        mu: F,
        factor: F,
        power: P,
        root: R,
        at: F,
        eta: F,
        cycles: F,
    )
        requires
            numeric::exact_products(val),
            numeric::exact_quotients(val),
            Self::exact_powers(val, pow, power),
            val(one) == 1real,
            self.kind == WaveletKind::Morse ==> val(self.morse_beta) > 0real && val(
                self.morse_gamma,
            ) > 0real,
            self.kind == WaveletKind::Bump ==> val(self.bump_sigma) > 0real,
            self.peaks_at(at, one, mu, power, eta),
            self.supported(zero, factor, mu, root, cycles),
            forall|v: F, r: F| #[trigger]
                call_ensures(root, (v,), r) && val(v) >= 0real ==> val(r) >= 0real && val(r) * val(
                    r,
                ) == val(v),
        ensures
            ({
                let (p1, p2) = self.shape(zero);
                &&& self.kind == WaveletKind::Morlet ==> p1 == zero && p2 == zero && cycles == zero
                &&& self.kind == WaveletKind::Morse ==> val(p1) > 0real && val(p2) > 0real
                &&& self.kind == WaveletKind::Morse ==> forall|x: real, e: real|
                    x * val(p2) == val(p1) && e * val(p2) == 1real ==> val(eta) == #[trigger] pow(
                        x,
                        e,
                    )
                &&& self.kind == WaveletKind::Morse ==> {
                    &&& val(cycles) * val(cycles) == (val(factor) * val(factor)) * (val(p1) * val(
                        p2,
                    ))
                    &&& val(factor) >= 0real ==> val(cycles) >= 0real
                }
                &&& self.kind == WaveletKind::Bump ==> p2 == zero && eta == mu && val(cycles) * val(
                    p1,
                ) == val(factor) * val(mu)
                &&& self.kind == WaveletKind::Paul ==> p2 == zero && eta == p1 && val(cycles)
                    == val(factor) * val(p1)
            }),
    {
        if self.kind == WaveletKind::Morse {
            self.other_peaks_are_constant(val, pow, one, mu, power, at, at, eta, eta);
            let (p, r) = choose|p: F, r: F|
                {
                    &&& #[trigger] numeric::product(self.morse_beta, self.morse_gamma, p)
                    &&& #[trigger] call_ensures(root, (p,), r)
                    &&& numeric::product(factor, r, cycles)
                };
            reals::positive(val(self.morse_beta), val(self.morse_gamma));
            let (x, f) = (val(r), val(factor));
            assert(x * x == val(self.morse_beta) * val(self.morse_gamma));
            reals::regrouped(f, x, f, x);
            if f >= 0real {
                reals::not_negative(f, x);
            }
        }
    }

    /// A superlet pass keeps the frequency range, the number of scales and the family.
    pub proof fn passes_share_the_grid(self, k: F, p: CwtParams<F>)
        requires
            self.sharpened(k, p),
        ensures
            p.num_scales == self.num_scales,
            p.f_min == self.f_min,
            p.f_max == self.f_max,
            p.kind == self.kind,
    {
    }

    /// `eta` is the family's peak frequency at fraction `frac` of the log-frequency axis:
    /// log-interpolated between the two central frequencies for Morlet, a single value for
    /// the others.
    pub open spec fn peaks_at<P: Fn(F, F) -> F>(
        self,
        frac: F,
        one: F,
        mu: F,
        power: P,
        eta: F,
    ) -> bool {
        match self.kind {
            WaveletKind::Morlet => exists|q: F, r: F|
                {
                    &&& #[trigger] numeric::quotient(self.omega0_high, self.omega0_low, q)
                    &&& #[trigger] call_ensures(power, (q, frac), r)
                    &&& numeric::product(self.omega0_low, r, eta)
                },
            WaveletKind::Morse => exists|q: F, e: F|
                {
                    &&& #[trigger] numeric::quotient(self.morse_beta, self.morse_gamma, q)
                    &&& #[trigger] numeric::quotient(one, self.morse_gamma, e)
                    &&& call_ensures(power, (q, e), eta)
                },
            WaveletKind::Bump => eta == mu,
            WaveletKind::Paul => eta == self.paul_order,
        }
    }

    /// Dimensionless peak frequency of the wavelet at fraction `frac` of the log-frequency
    /// axis; `mu` is [`BUMP_MU`].
    pub fn peak_eta<P: Fn(F, F) -> F>(&self, frac: F, one: F, mu: F, power: P) -> (eta: F)
        requires
            numeric::multiplies::<F>(),
            numeric::divides::<F>(),
            forall|a: F, b: F| call_requires(power, (a, b)),
        ensures
            self.peaks_at(frac, one, mu, power, eta),
    {
        match self.kind {
            WaveletKind::Morlet => {
                let q: F = self.omega0_high / self.omega0_low;
                let r: F = power(q, frac);
                assert(numeric::quotient(self.omega0_high, self.omega0_low, q));
                self.omega0_low * r
            },
            WaveletKind::Morse => {
                let q: F = self.morse_beta / self.morse_gamma;
                let e: F = one / self.morse_gamma;
                assert(numeric::quotient(self.morse_beta, self.morse_gamma, q));
                assert(numeric::quotient(one, self.morse_gamma, e));
                power(q, e)
            },
            WaveletKind::Bump => mu,
            WaveletKind::Paul => self.paul_order,
        }
    }

    /// `power` computes `pow` where values are read as real numbers, and powers of positive
    /// numbers follow the laws of exponents.
    pub open spec fn exact_powers<P: Fn(F, F) -> F>(
        val: spec_fn(F) -> real,
        pow: spec_fn(real, real) -> real,
        power: P,
    ) -> bool {
        &&& forall|x: F, e: F, r: F| #[trigger]
            call_ensures(power, (x, e), r) && val(x) > 0real ==> val(r) == pow(val(x), val(e))
        &&& forall|x: real| x > 0real ==> #[trigger] pow(x, 0real) == 1real
        &&& forall|x: real| x > 0real ==> #[trigger] pow(x, 1real) == x
        &&& forall|x: real, a: real, b: real|
            x > 0real ==> #[trigger] pow(x, a + b) == pow(x, a) * pow(x, b)
    }

    /// With exact arithmetic, the Morlet peak runs from one central frequency to the other
    /// along the axis, evenly in its logarithm: peaks at points with the same sum have the
    /// same product, so that the square of the peak halfway between two points is the
    /// product of the peaks there.
    pub proof fn morlet_peaks_are_log_interpolated<P: Fn(F, F) -> F>(
        self,
        val: spec_fn(F) -> real,
        pow: spec_fn(real, real) -> real,
        one: F,
        mu: F,
        power: P,
        at: (F, F),
        also: (F, F),
        etas: (F, F),
        others: (F, F),
    )
        requires
            self.kind == WaveletKind::Morlet,
            numeric::exact_products(val),
            numeric::exact_quotients(val),
            Self::exact_powers(val, pow, power),
            val(self.omega0_low) > 0real,
            val(self.omega0_high) > 0real,
            self.peaks_at(at.0, one, mu, power, etas.0),
            self.peaks_at(at.1, one, mu, power, etas.1),
            self.peaks_at(also.0, one, mu, power, others.0),
            self.peaks_at(also.1, one, mu, power, others.1),
            val(at.0) + val(at.1) == val(also.0) + val(also.1),
        ensures
            val(at.0) == 0real ==> val(etas.0) == val(self.omega0_low),
            val(at.0) == 1real ==> val(etas.0) == val(self.omega0_high),
            val(etas.0) * val(etas.1) == val(others.0) * val(others.1),
    {
        let l = val(self.omega0_low);
        let (x, u) = self.morlet_peak(val, pow, one, mu, power, at.0, etas.0);
        let (x1, w) = self.morlet_peak(val, pow, one, mu, power, at.1, etas.1);
        let (x2, y) = self.morlet_peak(val, pow, one, mu, power, also.0, others.0);
        let (x3, z) = self.morlet_peak(val, pow, one, mu, power, also.1, others.1);
        reals::quotient_at_most(x, l, x1);
        reals::quotient_at_most(x1, l, x);
        reals::quotient_at_most(x, l, x2);
        reals::quotient_at_most(x2, l, x);
        reals::quotient_at_most(x, l, x3);
        reals::quotient_at_most(x3, l, x);
        let (a, b, c, d) = (val(at.0), val(at.1), val(also.0), val(also.1));
        assert(pow(x, a + b) == u * w);
        assert(pow(x, c + d) == y * z);
        reals::regrouped(l, u, l, w);
        reals::regrouped(l, y, l, z);
        assert(l * 1real == l && l * x == x * l);
    }

    /// The ratio of the central frequencies, its power at `at`, and the Morlet peak there.
    proof fn morlet_peak<P: Fn(F, F) -> F>(
        self,
        val: spec_fn(F) -> real,
        pow: spec_fn(real, real) -> real,
        one: F,
        mu: F,
        power: P,
        at: F,
        eta: F,
    ) -> (r: (real, real))
        requires
            self.kind == WaveletKind::Morlet,
            numeric::exact_products(val),
            numeric::exact_quotients(val),
            Self::exact_powers(val, pow, power),
            val(self.omega0_low) > 0real,
            val(self.omega0_high) > 0real,
            self.peaks_at(at, one, mu, power, eta),
        ensures
            r.0 > 0real,
            r.0 * val(self.omega0_low) == val(self.omega0_high),
            r.1 == pow(r.0, val(at)),
            val(eta) == val(self.omega0_low) * r.1,
    {
        let (q, r) = choose|q: F, r: F|
            {
                &&& #[trigger] numeric::quotient(self.omega0_high, self.omega0_low, q)
                &&& #[trigger] call_ensures(power, (q, at), r)
                &&& numeric::product(self.omega0_low, r, eta)
            };
        let l = val(self.omega0_low);
        reals::quotient_sign(val(q), l);
        assert(0real * l == 0real);
        (val(q), val(r))
    }

    /// With exact arithmetic, the peaks of the other families are the same along the whole
    /// axis: a power of the ratio of its parameters for Morse, the centre for Bump, the
    /// order for Paul.
    pub proof fn other_peaks_are_constant<P: Fn(F, F) -> F>(
        self,
        val: spec_fn(F) -> real,
        pow: spec_fn(real, real) -> real,
        one: F,
        mu: F,
        power: P,
        at: F,
        also: F,
        eta: F,
        other: F,
    )
        requires
            self.kind != WaveletKind::Morlet,
            numeric::exact_quotients(val),
            Self::exact_powers(val, pow, power),
            val(one) == 1real,
            self.kind == WaveletKind::Morse ==> val(self.morse_beta) > 0real && val(
                self.morse_gamma,
            ) > 0real,
            self.peaks_at(at, one, mu, power, eta),
            self.peaks_at(also, one, mu, power, other),
        ensures
            val(eta) == val(other),
            self.kind == WaveletKind::Bump ==> eta == mu,
            self.kind == WaveletKind::Paul ==> eta == self.paul_order,
            self.kind == WaveletKind::Morse ==> forall|x: real, e: real|
                #![trigger pow(x, e)]
                x * val(self.morse_gamma) == val(self.morse_beta) && e * val(self.morse_gamma)
                    == 1real ==> val(eta) == pow(x, e),
    {
        if self.kind == WaveletKind::Morse {
            let g = val(self.morse_gamma);
            let (q, e) = choose|q: F, e: F|
                {
                    &&& #[trigger] numeric::quotient(self.morse_beta, self.morse_gamma, q)
                    &&& #[trigger] numeric::quotient(one, self.morse_gamma, e)
                    &&& call_ensures(power, (q, e), eta)
                };
            let (p, d) = choose|q: F, e: F|
                {
                    &&& #[trigger] numeric::quotient(self.morse_beta, self.morse_gamma, q)
                    &&& #[trigger] numeric::quotient(one, self.morse_gamma, e)
                    &&& call_ensures(power, (q, e), other)
                };
            reals::quotient_sign(val(q), g);
            assert(0real * g == 0real);
            assert(val(q) * g == val(p) * g && val(e) * g == val(d) * g);
            assert forall|x: real, y: real|
                #![trigger pow(x, y)]
                x * g == val(self.morse_beta) && y * g == 1real implies val(eta) == pow(x, y) by {
                reals::quotient_at_most(x, g, val(q));
                reals::quotient_at_most(val(q), g, x);
                reals::quotient_at_most(y, g, val(e));
                reals::quotient_at_most(val(e), g, y);
            }
            reals::quotient_at_most(val(p), g, val(q));
            reals::quotient_at_most(val(q), g, val(p));
            reals::quotient_at_most(val(d), g, val(e));
            reals::quotient_at_most(val(e), g, val(d));
        }
    }

    /// `c` is the family's one-sided support in cycles, a multiple of `factor`.
    pub open spec fn supported<R: Fn(F) -> F>(
        self,
        zero: F,
        factor: F,
        mu: F,
        root: R,
        c: F,
    ) -> bool {
        match self.kind {
            WaveletKind::Morlet => c == zero,
            WaveletKind::Morse => exists|p: F, r: F|
                {
                    &&& #[trigger] numeric::product(self.morse_beta, self.morse_gamma, p)
                    &&& #[trigger] call_ensures(root, (p,), r)
                    &&& numeric::product(factor, r, c)
                },
            WaveletKind::Bump => exists|p: F|
                {
                    &&& #[trigger] numeric::product(factor, mu, p)
                    &&& numeric::quotient(p, self.bump_sigma, c)
                },
            WaveletKind::Paul => numeric::product(factor, self.paul_order, c),
        }
    }

    /// With exact arithmetic, the support in cycles follows the family's sharpness: for Morse
    /// its square is `factor` squared times sharpness and symmetry, for Bump it is the ratio of
    /// centre and half-bandwidth and for Paul the order, each `factor` times; Morlet has none
    /// of its own. The sharper a family, the longer it reaches.
    pub proof fn supports_follow_the_sharpness<R: Fn(F) -> F>(
        self,
        val: spec_fn(F) -> real,
        zero: F,
        factor: F,
        mu: F,
        root: R,
        c: F,
    )
        requires
            numeric::exact_products(val),
            numeric::exact_quotients(val),
            val(zero) == 0real,
            val(factor) >= 0real,
            val(self.bump_sigma) > 0real,
            forall|a: F, r: F| #[trigger]
                call_ensures(root, (a,), r) && val(a) >= 0real ==> val(r) >= 0real && val(r) * val(r)
                    == val(a),
            val(self.morse_beta) >= 0real,
            val(self.morse_gamma) >= 0real,
            self.supported(zero, factor, mu, root, c),
        ensures
            self.kind == WaveletKind::Morlet ==> val(c) == 0real,
            self.kind == WaveletKind::Morse ==> val(c) >= 0real && val(c) * val(c) == (val(factor)
                * val(factor)) * (val(self.morse_beta) * val(self.morse_gamma)),
            self.kind == WaveletKind::Bump ==> val(c) * val(self.bump_sigma) == val(factor) * val(
                mu,
            ),
            self.kind == WaveletKind::Paul ==> val(c) == val(factor) * val(self.paul_order),
    {
        if self.kind == WaveletKind::Morse {
            let (p, r) = choose|p: F, r: F|
                {
                    &&& #[trigger] numeric::product(self.morse_beta, self.morse_gamma, p)
                    &&& #[trigger] call_ensures(root, (p,), r)
                    &&& numeric::product(factor, r, c)
                };
            reals::not_negative(val(self.morse_beta), val(self.morse_gamma));
            reals::not_negative(val(factor), val(r));
            reals::regrouped(val(factor), val(r), val(factor), val(r));
        }
    }

    /// One-sided time support in oscillation cycles, by which edges are padded. Morlet has
    /// none of its own: its support follows from the scale. `mu` is [`BUMP_MU`].
    pub fn support_cycles<R: Fn(F) -> F>(&self, zero: F, factor: F, mu: F, root: R) -> (c: F)
        requires
            numeric::multiplies::<F>(),
            numeric::divides::<F>(),
            forall|a: F| call_requires(root, (a,)),
        ensures
            self.supported(zero, factor, mu, root, c),
    {
        match self.kind {
            WaveletKind::Morlet => zero,
            WaveletKind::Morse => {
                let p: F = self.morse_beta * self.morse_gamma;
                let r: F = root(p);
                assert(numeric::product(self.morse_beta, self.morse_gamma, p));
                factor * r
            },
            WaveletKind::Bump => {
                let p: F = factor * mu;
                assert(numeric::product(factor, mu, p));
                p / self.bump_sigma
            },
            WaveletKind::Paul => factor * self.paul_order,
        }
    }
}

impl<F: Copy + Mul<Output = F> + PartialOrd> CwtParams<F> {
    /// `p` has the low end limited to `share` of the high end, and is the same otherwise.
    pub open spec fn low_end_limited(self, share: F, p: CwtParams<F>) -> bool {
        exists|top: F| #[trigger]
            numeric::product(self.f_max, share, top) && viewport::lowered(
                self.f_min,
                top,
                p.f_min,
            ) && p == (CwtParams { f_min: p.f_min, ..self })
    }

    /// `p` has the high end raised to `share` of the low end, and is the same otherwise.
    pub open spec fn high_end_raised(self, share: F, p: CwtParams<F>) -> bool {
        exists|bottom: F| #[trigger]
            numeric::product(self.f_min, share, bottom) && viewport::raised(
                self.f_max,
                bottom,
                p.f_max,
            ) && p == (CwtParams { f_max: p.f_max, ..self })
    }

    /// `p` has its low end set to `f_min`, kept below the high end.
    pub open spec fn low_end_set(self, f_min: F, share: F, p: CwtParams<F>) -> bool {
        (CwtParams { f_min, ..self }).low_end_limited(share, p)
    }

    /// `p` has its high end set to `f_max`, kept above the low end.
    pub open spec fn high_end_set(self, f_max: F, share: F, p: CwtParams<F>) -> bool {
        (CwtParams { f_max, ..self }).high_end_raised(share, p)
    }

    /// Sets the low end of the frequency range, kept below the high end.
    pub fn with_low_end(self, f_min: F, share: F) -> (p: CwtParams<F>)
        requires
            numeric::multiplies::<F>(),
        ensures
            self.low_end_set(f_min, share, p),
    {
        let top: F = self.f_max * share;
        assert(numeric::product(self.f_max, share, top));
        CwtParams { f_min: viewport::lower(f_min, top), ..self }
    }

    /// Sets the high end of the frequency range, kept above the low end.
    pub fn with_high_end(self, f_max: F, share: F) -> (p: CwtParams<F>)
        requires
            numeric::multiplies::<F>(),
        ensures
            self.high_end_set(f_max, share, p),
    {
        let bottom: F = self.f_min * share;
        assert(numeric::product(self.f_min, share, bottom));
        CwtParams { f_max: viewport::raise(f_max, bottom), ..self }
    }
}

/// What bounds the range of frequencies that a transform covers.
#[derive(Clone, Copy, Debug)]
pub struct Band<V> {
    pub one: V,
    pub two: V,
    /// The lowest frequency.
    pub lowest: V,
    /// Share of half the sample rate that the highest frequency reaches.
    pub share: V,
    /// The least ratio of the highest to the lowest frequency.
    pub ratio: V,
    /// Samples per period that decimation leaves of the highest frequency.
    pub samples: V,
}

impl<V: Copy + Mul<Output = V> + Div<Output = V> + PartialOrd> Band<V> {
    /// `r` holds the ends of the covered range: the asked range, raised to the lowest
    /// frequency, limited by the sample rate, and not empty.
    pub open spec fn covered(self, f_min: V, f_max: V, rate: V, r: (V, V)) -> bool {
        exists|half: V, top: V, hi: V, least: V|
            {
                &&& viewport::raised(f_min, self.lowest, r.0)
                &&& #[trigger] numeric::quotient(rate, self.two, half)
                &&& #[trigger] numeric::product(half, self.share, top)
                &&& #[trigger] viewport::lowered(f_max, top, hi)
                &&& #[trigger] numeric::product(r.0, self.ratio, least)
                &&& viewport::raised(hi, least, r.1)
            }
    }

    /// The ends of the range that a transform covers at a sample rate.
    pub fn range(&self, f_min: V, f_max: V, rate: V) -> (r: (V, V))
        requires
            numeric::multiplies::<V>(),
            numeric::divides::<V>(),
        ensures
            self.covered(f_min, f_max, rate, r),
    {
        let lo: V = viewport::raise(f_min, self.lowest);
        let half: V = rate / self.two;
        let top: V = half * self.share;
        let hi: V = viewport::lower(f_max, top);
        let least: V = lo * self.ratio;
        assert(numeric::quotient(rate, self.two, half) && numeric::product(half, self.share, top));
        assert(viewport::lowered(f_max, top, hi) && numeric::product(lo, self.ratio, least));
        let top_end: V = viewport::raise(hi, least);
        let r: (V, V) = (lo, top_end);
        proof {
            assert(viewport::raised(f_min, self.lowest, r.0));
            assert(viewport::raised(hi, least, r.1));
            assert(numeric::product(r.0, self.ratio, least));
            assert(self.covered(f_min, f_max, rate, r));
        }
        r
    }

    /// `d` is the whole number of times that the sample rate holds the samples that the
    /// highest frequency needs, one at least.
    pub open spec fn decimates<W: Fn(V) -> usize>(
        self,
        rate: V,
        f_max: V,
        whole: W,
        d: usize,
    ) -> bool {
        exists|need: V, q: V, n: V|
            {
                &&& #[trigger] numeric::product(self.samples, f_max, need)
                &&& #[trigger] numeric::quotient(rate, need, q)
                &&& #[trigger] viewport::raised(q, self.one, n)
                &&& exists|k: usize| #[trigger]
                    call_ensures(whole, (n,), k) && d == (if k >= 1 {
                        k
                    } else {
                        1
                    })
            }
    }

    /// The largest decimation factor that keeps the highest frequency in the passband.
    /// `whole` gives the whole part of a value.
    pub fn largest_decimation<W: Fn(V) -> usize>(&self, rate: V, f_max: V, whole: W) -> (d: usize)
        requires
            numeric::multiplies::<V>(),
            numeric::divides::<V>(),
            forall|v: V| call_requires(whole, (v,)),
        ensures
            d >= 1,
            self.decimates(rate, f_max, whole, d),
    {
        let need: V = self.samples * f_max;
        let q: V = rate / need;
        let n: V = viewport::raise(q, self.one);
        let k: usize = whole(n);
        assert(numeric::product(self.samples, f_max, need) && numeric::quotient(rate, need, q));
        assert(viewport::raised(q, self.one, n) && call_ensures(whole, (n,), k));
        if k >= 1 {
            k
        } else {
            1
        }
    }

    /// With exact arithmetic, the covered range starts at the asked low end or, above it, at
    /// the lowest frequency; it ends at the asked high end or, below it, at the share of half
    /// the sample rate, unless that would leave less than the least ratio, which it then is.
    pub proof fn range_is_carried(
        self,
        val: spec_fn(V) -> real,
        f_min: V,
        f_max: V,
        rate: V,
        r: (V, V),
    )
        requires
            numeric::exact_products(val),
            numeric::exact_quotients(val),
            numeric::exact_order(val),
            val(self.two) == 2real,
            self.covered(f_min, f_max, rate, r),
        ensures
            val(r.0) >= val(f_min) && val(r.0) >= val(self.lowest),
            val(r.0) == val(f_min) || val(r.0) == val(self.lowest),
            val(r.1) >= val(r.0) * val(self.ratio),
            val(r.1) > val(r.0) * val(self.ratio) ==> {
                &&& val(r.1) <= val(f_max)
                &&& 2real * val(r.1) <= val(rate) * val(self.share)
                &&& val(r.1) == val(f_max) || 2real * val(r.1) == val(rate) * val(self.share)
            },
    {
        let (half, top, hi, least) = choose|half: V, top: V, hi: V, least: V|
            {
                &&& viewport::raised(f_min, self.lowest, r.0)
                &&& #[trigger] numeric::quotient(rate, self.two, half)
                &&& #[trigger] numeric::product(half, self.share, top)
                &&& #[trigger] viewport::lowered(f_max, top, hi)
                &&& #[trigger] numeric::product(r.0, self.ratio, least)
                &&& viewport::raised(hi, least, r.1)
            };
        reals::associated(2real, val(half), val(self.share));
        assert(val(half) * 2real == 2real * val(half));
    }

    /// With exact arithmetic, decimation leaves the highest frequency its samples per period,
    /// and one more would not; without room for that there is none.
    pub proof fn decimation_leaves_the_samples<W: Fn(V) -> usize>(
        self,
        val: spec_fn(V) -> real,
        rate: V,
        f_max: V,
        whole: W,
        d: usize,
    )
        requires
            numeric::exact_products(val),
            numeric::exact_quotients(val),
            numeric::exact_order(val),
            val(self.one) == 1real,
            val(self.samples) > 0real,
            val(f_max) > 0real,
            forall|v: V, k: usize| #[trigger]
                call_ensures(whole, (v,), k) && 1real <= val(v) <= usize::MAX as int as real
                    ==> k as int as real <= val(v) < k as int as real + 1real,
            val(rate) <= usize::MAX as int as real * (val(self.samples) * val(f_max)),
            self.decimates(rate, f_max, whole, d),
        ensures
            d >= 1,
            d == 1 || d as int as real * (val(self.samples) * val(f_max)) <= val(rate),
            (d as int as real + 1real) * (val(self.samples) * val(f_max)) > val(rate),
    {
        let (need, q, n) = choose|need: V, q: V, n: V|
            {
                &&& #[trigger] numeric::product(self.samples, f_max, need)
                &&& #[trigger] numeric::quotient(rate, need, q)
                &&& #[trigger] viewport::raised(q, self.one, n)
                &&& exists|k: usize| #[trigger]
                    call_ensures(whole, (n,), k) && d == (if k >= 1 {
                        k
                    } else {
                        1
                    })
            };
        let m = val(need);
        reals::positive(val(self.samples), val(f_max));
        reals::quotient_at_most(val(q), m, usize::MAX as int as real);
        let k = choose|k: usize| #[trigger]
            call_ensures(whole, (n,), k) && d == (if k >= 1 {
                k
            } else {
                1
            });
        assert(k >= 1);
        reals::ordered(val(n), d as int as real + 1real, m);
        reals::weakly_ordered(val(q), val(n), m);
        if d > 1 {
            assert(val(n) == val(q));
            reals::weakly_ordered(d as int as real, val(q), m);
        }
    }

    /// With exact arithmetic, the covered range is the asked one: where the asked range stays
    /// clear of half the sample rate as a limited range does, and decimation leaves the highest
    /// frequency its samples, rows are the labelled frequencies. `full` is the rate before
    /// decimation.
    pub proof fn rows_match_the_axis(
        self,
        val: spec_fn(V) -> real,
        f_min: V,
        f_max: V,
        full: real,
        rate: V,
        r: (V, V),
    )
        requires
            numeric::exact_products(val),
            numeric::exact_quotients(val),
            numeric::exact_order(val),
            val(self.two) == 2real,
            100real * val(self.share) == 99real,
            100real * val(self.ratio) == 101real,
            val(self.lowest) > 0real,
            self.covered(f_min, f_max, rate, r),
            val(f_min) >= val(self.lowest),
            100real * val(f_min) <= 99real * val(f_max),
            100real * val(f_max) <= 49real * full,
            val(rate) == full || 5real * val(f_max) <= 2real * val(rate),
        ensures
            val(r.0) == val(f_min),
            val(r.1) == val(f_max),
    {
        let (half, top, hi, least) = choose|half: V, top: V, hi: V, least: V|
            {
                &&& viewport::raised(f_min, self.lowest, r.0)
                &&& #[trigger] numeric::quotient(rate, self.two, half)
                &&& #[trigger] numeric::product(half, self.share, top)
                &&& #[trigger] viewport::lowered(f_max, top, hi)
                &&& #[trigger] numeric::product(r.0, self.ratio, least)
                &&& viewport::raised(hi, least, r.1)
            };
        let (h, s, l, q) = (val(half), val(self.share), val(r.0), val(self.ratio));
        assert(s == 99real / 100real && q == 101real / 100real);
        assert(h * (99real / 100real) == 99real * h / 100real);
        assert(l * (101real / 100real) == 101real * l / 100real);
    }
}

/// The frequency axis of a transform: its ends, the sample rate of the tape, and what the
/// scales are computed with.
pub struct FrequencyAxis<V, N, P> {
    pub f_min: V,
    pub f_max: V,
    pub rate: V,
    pub one: V,
    /// Centre of the bump wavelet.
    pub mu: V,
    /// A full turn.
    pub turn: V,
    /// A number as a value.
    pub number: N,
    pub power: P,
}

impl<V: Copy + Mul<Output = V> + Div<Output = V>, N: Fn(usize) -> V, P: Fn(V, V) -> V> FrequencyAxis<
    V,
    N,
    P,
> {
    pub open spec fn callable(self) -> bool {
        &&& numeric::multiplies::<V>()
        &&& numeric::divides::<V>()
        &&& forall|n: usize| call_requires(self.number, (n,))
        &&& forall|a: V, b: V| call_requires(self.power, (a, b))
    }

    /// Steps from the first row to the last, one at least.
    pub open spec fn steps(num_scales: int) -> usize {
        if num_scales > 1 {
            (num_scales - 1) as usize
        } else {
            1
        }
    }

    /// `frac` is how far row `i` of `num_scales` lies along the axis; a single row lies at
    /// its start.
    pub open spec fn fraction_of(self, i: int, num_scales: int, frac: V) -> bool {
        exists|a: V, b: V|
            {
                &&& #[trigger] call_ensures(self.number, (i as usize,), a)
                &&& #[trigger] call_ensures(self.number, (Self::steps(num_scales),), b)
                &&& numeric::quotient(a, b, frac)
            }
    }

    /// `f` is the frequency at `frac` of the logarithmic axis.
    pub open spec fn frequency_at(self, frac: V, f: V) -> bool {
        exists|q: V, r: V|
            {
                &&& #[trigger] numeric::quotient(self.f_max, self.f_min, q)
                &&& #[trigger] call_ensures(self.power, (q, frac), r)
                &&& numeric::product(self.f_min, r, f)
            }
    }

    /// `scale` puts the wavelet's peak `eta` on frequency `f`: `eta * rate / (turn * f)`.
    pub open spec fn scale_for(self, eta: V, f: V, scale: V) -> bool {
        exists|a: V, b: V|
            {
                &&& #[trigger] numeric::product(eta, self.rate, a)
                &&& #[trigger] numeric::product(self.turn, f, b)
                &&& numeric::quotient(a, b, scale)
            }
    }

    /// Row `i` has this scale and this peak.
    pub open spec fn row(self, params: CwtParams<V>, i: int, scale: V, eta: V) -> bool {
        exists|frac: V, f: V|
            {
                &&& #[trigger] self.fraction_of(i, params.num_scales as int, frac)
                &&& #[trigger] self.frequency_at(frac, f)
                &&& params.peaks_at(frac, self.one, self.mu, self.power, eta)
                &&& self.scale_for(eta, f, scale)
            }
    }

    fn row_values(&self, params: &CwtParams<V>, i: usize) -> (r: (V, V))
        requires
            self.callable(),
        ensures
            self.row(*params, i as int, r.0, r.1),
    {
        let last: usize = if params.num_scales > 1 {
            params.num_scales - 1
        } else {
            1
        };
        let a: V = (self.number)(i);
        let b: V = (self.number)(last);
        let frac: V = a / b;
        let q: V = self.f_max / self.f_min;
        let r: V = (self.power)(q, frac);
        let f: V = self.f_min * r;
        let eta: V = params.peak_eta(frac, self.one, self.mu, &self.power);
        let n: V = eta * self.rate;
        let d: V = self.turn * f;
        let scale: V = n / d;
        proof {
            assert(numeric::quotient(self.f_max, self.f_min, q));
            assert(numeric::product(eta, self.rate, n));
            assert(numeric::product(self.turn, f, d));
            assert(last == Self::steps(params.num_scales as int));
            assert(call_ensures(self.number, (Self::steps(params.num_scales as int),), b));
            assert(call_ensures(self.number, ((i as int) as usize,), a));
            assert(self.fraction_of(i as int, params.num_scales as int, frac));
            assert(self.frequency_at(frac, f));
            assert(self.scale_for(eta, f, scale));
        }
        (scale, eta)
    }

    /// Scale and peak of every row, log-spaced over the axis.
    pub fn table(&self, params: &CwtParams<V>) -> (t: Vec<(V, V)>)
        requires
            self.callable(),
        ensures
            t@.len() == params.num_scales,
            forall|i: int|
                0 <= i < t@.len() ==> self.row(
                    *params,
                    i,
                    (#[trigger] t@[i]).0,
                    t@[i].1,
                ),
    {
        let mut t: Vec<(V, V)> = Vec::new();
        let mut i: usize = 0;
        while i < params.num_scales
            invariant
                self.callable(),
                i <= params.num_scales,
                t@.len() == i,
                forall|k: int|
                    0 <= k < i ==> self.row(*params, k, (#[trigger] t@[k]).0, t@[k].1),
            decreases params.num_scales - i,
        {
            t.push(self.row_values(params, i));
            i = i + 1;
        }
        t
    }
}

impl<V: Copy + Mul<Output = V> + Div<Output = V>, N: Fn(usize) -> V, P: Fn(V, V) -> V> FrequencyAxis<
    V,
    N,
    P,
> {
    /// With exact arithmetic, every row's wavelet peaks at the frequency that the row is
    /// labelled with, whatever the family: `scale * turn * f == eta * rate`, where `f` lies
    /// on the logarithmic axis, `at` of the way from its low end to its high end. The peak
    /// is that of the family.
    pub proof fn rows_peak_at_their_frequencies(
        self,
        val: spec_fn(V) -> real,
        pow: spec_fn(real, real) -> real,
        params: CwtParams<V>,
        i: int,
        scale: V,
        eta: V,
        ratio: real,
        at: real,
    )
        requires
            numeric::exact_products(val),
            numeric::exact_quotients(val),
            numeric::exact_numbers(val, self.number),
            CwtParams::<V>::exact_powers(val, pow, self.power),
            val(self.one) == 1real,
            val(self.f_min) > 0real,
            val(self.f_max) > 0real,
            val(self.turn) > 0real,
            forall|x: real, e: real| x > 0real ==> #[trigger] pow(x, e) > 0real,
            val(params.omega0_low) > 0real,
            val(params.omega0_high) > 0real,
            val(params.morse_beta) > 0real,
            val(params.morse_gamma) > 0real,
            0 <= i < params.num_scales,
            self.row(params, i, scale, eta),
            ratio * val(self.f_min) == val(self.f_max),
            params.num_scales == 1 ==> at == 0real,
            params.num_scales > 1 ==> at * (params.num_scales - 1) as real == i as real,
        ensures
            val(scale) * (val(self.turn) * (val(self.f_min) * pow(ratio, at))) == val(eta) * val(
                self.rate,
            ),
            params.kind == WaveletKind::Morlet ==> forall|x: real|
                x * val(params.omega0_low) == val(params.omega0_high) ==> val(eta) == val(
                    params.omega0_low,
                ) * #[trigger] pow(x, at),
            params.kind == WaveletKind::Morse ==> forall|x: real, e: real|
                x * val(params.morse_gamma) == val(params.morse_beta) && e * val(
                    params.morse_gamma,
                ) == 1real ==> val(eta) == #[trigger] pow(x, e),
            params.kind == WaveletKind::Bump ==> eta == self.mu,
            params.kind == WaveletKind::Paul ==> eta == params.paul_order,
    {
        let n = params.num_scales as int;
        let (frac, f) = choose|frac: V, f: V|
            {
                &&& #[trigger] self.fraction_of(i, n, frac)
                &&& #[trigger] self.frequency_at(frac, f)
                &&& params.peaks_at(frac, self.one, self.mu, self.power, eta)
                &&& self.scale_for(eta, f, scale)
            };
        let (a, b) = choose|a: V, b: V|
            {
                &&& #[trigger] call_ensures(self.number, (i as usize,), a)
                &&& #[trigger] call_ensures(self.number, (Self::steps(n),), b)
                &&& numeric::quotient(a, b, frac)
            };
        let (q, r) = choose|q: V, r: V|
            {
                &&& #[trigger] numeric::quotient(self.f_max, self.f_min, q)
                &&& #[trigger] call_ensures(self.power, (q, frac), r)
                &&& numeric::product(self.f_min, r, f)
            };
        let (x, y) = choose|x: V, y: V|
            {
                &&& #[trigger] numeric::product(eta, self.rate, x)
                &&& #[trigger] numeric::product(self.turn, f, y)
                &&& numeric::quotient(x, y, scale)
            };
        let (l, t, fr) = (val(self.f_min), val(self.turn), val(frac));
        assert(val(a) == i as real);
        assert(val(b) > 0real);
        reals::quotient_at_most(fr, val(b), at);
        reals::quotient_at_most(at, val(b), fr);
        reals::quotient_at_most(val(q), l, ratio);
        reals::quotient_at_most(ratio, l, val(q));
        reals::quotient_sign(ratio, l);
        assert(0real * l == 0real);
        assert(val(r) == pow(ratio, at));
        reals::positive(l, val(r));
        reals::positive(t, val(f));
        if params.kind == WaveletKind::Morlet {
            let (z, u) = params.morlet_peak(val, pow, self.one, self.mu, self.power, frac, eta);
            let low = val(params.omega0_low);
            assert forall|x: real| x * low == val(params.omega0_high) implies val(eta) == low
                * #[trigger] pow(x, at) by {
                reals::quotient_at_most(x, low, z);
                reals::quotient_at_most(z, low, x);
            }
        } else {
            params.other_peaks_are_constant(
                val,
                pow,
                self.one,
                self.mu,
                self.power,
                frac,
                frac,
                eta,
                eta,
            );
        }
    }
}

impl<F: Copy + Mul<Output = F> + PartialOrd> CwtParams<F> {
    /// With exact arithmetic, a low end that is set is the one asked for, or where that is
    /// too close to the high end, the highest that is not; a high end likewise. The other
    /// end stays, and so does everything else.
    pub proof fn ends_keep_their_distance(
        self,
        val: spec_fn(F) -> real,
        f: F,
        share: F,
        low: CwtParams<F>,
        high: CwtParams<F>,
    )
        requires
            numeric::exact_products(val),
            numeric::exact_order(val),
            self.low_end_set(f, share, low),
            self.high_end_set(f, share, high),
        ensures
            val(low.f_min) <= val(self.f_max) * val(share),
            val(low.f_min) <= val(f),
            val(low.f_min) == val(f) || val(low.f_min) == val(self.f_max) * val(share),
            low == (CwtParams { f_min: low.f_min, ..self }),
            val(high.f_max) >= val(self.f_min) * val(share),
            val(high.f_max) >= val(f),
            val(high.f_max) == val(f) || val(high.f_max) == val(self.f_min) * val(share),
            high == (CwtParams { f_max: high.f_max, ..self }),
    {
    }
}

/// What the padding of a transform is computed with.
pub struct Reach<V, P, R, W> {
    pub zero: V,
    pub one: V,
    /// Centre of the bump wavelet.
    pub mu: V,
    /// A full turn.
    pub turn: V,
    /// Scales that a wavelet reaches.
    pub scales: V,
    /// Factor of the support in cycles.
    pub cycles: V,
    pub power: P,
    pub root: R,
    /// The whole part of a value.
    pub whole: W,
}

impl<
    V: Copy + Mul<Output = V> + Div<Output = V> + PartialOrd,
    P: Fn(V, V) -> V,
    R: Fn(V) -> V,
    W: Fn(V) -> usize,
> Reach<V, P, R, W> {
    pub open spec fn callable(self) -> bool {
        &&& numeric::multiplies::<V>()
        &&& numeric::divides::<V>()
        &&& forall|a: V, b: V| call_requires(self.power, (a, b))
        &&& forall|a: V| call_requires(self.root, (a,))
        &&& forall|a: V| call_requires(self.whole, (a,))
    }

    /// `s` is the reach of the largest scale: `scales * (eta * rate / (turn * f_min))`.
    pub open spec fn scale_reach(self, eta: V, rate: V, f_min: V, s: V) -> bool {
        exists|a: V, b: V, c: V|
            {
                &&& #[trigger] numeric::product(eta, rate, a)
                &&& #[trigger] numeric::product(self.turn, f_min, b)
                &&& #[trigger] numeric::quotient(a, b, c)
                &&& numeric::product(self.scales, c, s)
            }
    }

    /// `s` is the reach of `cycles` cycles: `cycles * rate / f_min`.
    pub open spec fn cycle_reach(self, cycles: V, rate: V, f_min: V, s: V) -> bool {
        exists|a: V| #[trigger] numeric::product(cycles, rate, a) && numeric::quotient(a, f_min, s)
    }

    /// `n` is the one-sided reach in samples at the lowest frequency: the larger of the two.
    pub open spec fn reaches(self, params: CwtParams<V>, rate: V, f_min: V, n: usize) -> bool {
        exists|eta: V, by_scale: V, cycles: V, by_cycle: V, far: V|
            {
                &&& #[trigger] params.peaks_at(self.zero, self.one, self.mu, self.power, eta)
                &&& #[trigger] self.scale_reach(eta, rate, f_min, by_scale)
                &&& #[trigger] params.supported(self.zero, self.cycles, self.mu, self.root, cycles)
                &&& #[trigger] self.cycle_reach(cycles, rate, f_min, by_cycle)
                &&& #[trigger] viewport::raised(by_scale, by_cycle, far)
                &&& call_ensures(self.whole, (far,), n)
            }
    }

    /// One-sided wavelet support at the lowest frequency, in samples.
    pub fn support(&self, params: &CwtParams<V>, rate: V, f_min: V) -> (n: usize)
        requires
            self.callable(),
        ensures
            self.reaches(*params, rate, f_min, n),
    {
        let eta: V = params.peak_eta(self.zero, self.one, self.mu, &self.power);
        let a: V = eta * rate;
        let b: V = self.turn * f_min;
        let c: V = a / b;
        let by_scale: V = self.scales * c;
        let cycles: V = params.support_cycles(self.zero, self.cycles, self.mu, &self.root);
        let d: V = cycles * rate;
        let by_cycle: V = d / f_min;
        let far: V = viewport::raise(by_scale, by_cycle);
        proof {
            assert(numeric::product(eta, rate, a));
            assert(numeric::product(self.turn, f_min, b));
            assert(numeric::quotient(a, b, c));
            assert(self.scale_reach(eta, rate, f_min, by_scale));
            assert(numeric::product(cycles, rate, d));
            assert(self.cycle_reach(cycles, rate, f_min, by_cycle));
            assert(params.peaks_at(self.zero, self.one, self.mu, self.power, eta));
            assert(params.supported(self.zero, self.cycles, self.mu, self.root, cycles));
            assert(viewport::raised(by_scale, by_cycle, far));
        }
        let n: usize = (self.whole)(far);
        assert(self.reaches(*params, rate, f_min, n));
        n
    }
}

impl<
    V: Copy + Mul<Output = V> + Div<Output = V> + PartialOrd,
    P: Fn(V, V) -> V,
    R: Fn(V) -> V,
    W: Fn(V) -> usize,
> Reach<V, P, R, W> {
    /// With exact arithmetic, the padding covers the wavelet of the lowest frequency: so many
    /// times its scale `eta * rate / (turn * f_min)`, and so many periods as its family
    /// reaches. It is no longer than one of these.
    pub proof fn padding_covers_the_widest_wavelet(
        self,
        val: spec_fn(V) -> real,
        params: CwtParams<V>,
        rate: V,
        f_min: V,
        n: usize,
    ) -> (r: (V, V))
        requires
            numeric::exact_products(val),
            numeric::exact_quotients(val),
            numeric::exact_order(val),
            val(self.turn) > 0real,
            val(f_min) > 0real,
            forall|v: V, k: usize| #[trigger]
                call_ensures(self.whole, (v,), k) && 0real <= val(v) <= usize::MAX as int as real
                    ==> k as int as real <= val(v) < k as int as real + 1real,
            self.reaches(params, rate, f_min, n),
        ensures
            params.peaks_at(self.zero, self.one, self.mu, self.power, r.0),
            params.supported(self.zero, self.cycles, self.mu, self.root, r.1),
            ({
                let by_scale = val(self.scales) * (val(r.0) * val(rate));
                let by_cycle = val(r.1) * val(rate);
                let (a, b) = (val(self.turn) * val(f_min), val(f_min));
                let (m, most) = (n as int as real, usize::MAX as int as real);
                0real <= by_scale <= most * a && 0real <= by_cycle <= most * b ==> {
                    &&& (m + 1real) * a > by_scale && (m + 1real) * b > by_cycle
                    &&& m * a <= by_scale || m * b <= by_cycle
                }
            }),
    {
        let (eta, by_scale, cycles, by_cycle, far) = choose|
            eta: V,
            by_scale: V,
            cycles: V,
            by_cycle: V,
            far: V,
        |
            {
                &&& #[trigger] params.peaks_at(self.zero, self.one, self.mu, self.power, eta)
                &&& #[trigger] self.scale_reach(eta, rate, f_min, by_scale)
                &&& #[trigger] params.supported(self.zero, self.cycles, self.mu, self.root, cycles)
                &&& #[trigger] self.cycle_reach(cycles, rate, f_min, by_cycle)
                &&& #[trigger] viewport::raised(by_scale, by_cycle, far)
                &&& call_ensures(self.whole, (far,), n)
            };
        let (a, b, c) = choose|a: V, b: V, c: V|
            {
                &&& #[trigger] numeric::product(eta, rate, a)
                &&& #[trigger] numeric::product(self.turn, f_min, b)
                &&& #[trigger] numeric::quotient(a, b, c)
                &&& numeric::product(self.scales, c, by_scale)
            };
        let d = choose|d: V| #[trigger]
            numeric::product(cycles, rate, d) && numeric::quotient(d, f_min, by_cycle);
        let (t, f, k) = (val(b), val(f_min), val(self.scales));
        reals::positive(val(self.turn), f);
        reals::associated(k, val(c), t);
        assert(val(by_scale) * t == k * val(a));
        assert(val(by_cycle) * f == val(d));
        let m = n as int as real;
        let most = usize::MAX as int as real;
        if 0real <= k * val(a) <= most * t && 0real <= val(d) <= most * f {
            reals::quotient_at_most(val(by_scale), t, most);
            reals::quotient_at_most(val(by_cycle), f, most);
            reals::quotient_sign(val(by_scale), t);
            reals::quotient_sign(val(by_cycle), f);
            assert(val(far) >= 0real);
            reals::ordered(val(by_scale), m + 1real, t);
            reals::ordered(val(by_cycle), m + 1real, f);
            if val(far) == val(by_scale) {
                reals::weakly_ordered(m, val(by_scale), t);
            } else {
                reals::weakly_ordered(m, val(by_cycle), f);
            }
        }
        (eta, cycles)
    }
}

} // verus!
