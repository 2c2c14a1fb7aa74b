//! Runs the operations of a plan on the CPU, kernel by kernel.

use wavescope::decimation::{downsample, halfband_taps, Window};
use wavescope::engine::{Buf, BufferSet, GpuOp, RunSetup};
use wavescope::gpu::{fft_stages, ExtractParams, FftBuf, WavParams};
use wavescope::outputs::{
    assemble, blank, channel_groups, gather, superlet, superlet_orders, Group, Transform,
};
use wavescope::prepare::{Preparation, Prepared, Visible};
use wavescope::wavelet::{Band, CwtParams, Reach, WaveletKind, BUMP_MU};

const PI: f64 = std::f64::consts::PI;

type C = (f32, f32);

fn window() -> Window<
    f64,
    impl Fn(i64) -> f64,
    impl Fn(f64) -> f64,
    impl Fn(f64) -> f64,
> {
    Window {
        zero: 0.0,
        half: 0.5,
        half_turn: PI,
        turn: 2.0 * PI,
        two_turns: 4.0 * PI,
        terms: (0.42, 0.5, 0.08),
        number: |n: i64| n as f64,
        sin: |x: f64| x.sin(),
        cos: |x: f64| x.cos(),
    }
}

fn taps() -> Vec<f32> {
    halfband_taps(&window(), |v: f64| v as f32)
}

fn defaults() -> CwtParams<f32> {
    CwtParams::default_with(|m: u32| m as f32 / 1000.0)
}

fn cmul(a: C, b: C) -> C {
    (a.0 * b.0 - a.1 * b.1, a.0 * b.1 + a.1 * b.0)
}

fn fft_pass(src: &[C], dst: &mut [C], n: usize, batch: usize, ns: usize, dir: f64) {
    let half = n / 2;
    let tw: Vec<C> = (0..ns)
        .map(|k| {
            let a = dir * PI * k as f64 / ns as f64;
            (a.cos() as f32, a.sin() as f32)
        })
        .collect();
    for b in 0..batch {
        let s = &src[b * n..(b + 1) * n];
        let d = &mut dst[b * n..(b + 1) * n];
        for j in 0..half {
            let k = j & (ns - 1);
            let base = (j - k) << 1;
            let a = s[j];
            let t = cmul(s[j + half], tw[k]);
            d[base + k] = (a.0 + t.0, a.1 + t.1);
            d[base + k + ns] = (a.0 - t.0, a.1 - t.1);
        }
    }
}

fn fft(input: &[C], n: usize, batch: usize, inverse: bool) -> Vec<C> {
    let len = n * batch;
    let mut output = vec![(0.0, 0.0); len];
    let mut scratch = vec![(0.0, 0.0); len];
    let dir = if inverse { 1.0 } else { -1.0 };
    for stage in fft_stages(n as u32) {
        let Some(ns) = stage.ns else {
            assert_eq!((stage.src, stage.dst), (FftBuf::Input, FftBuf::Output));
            output.copy_from_slice(input);
            continue;
        };
        let ns = ns as usize;
        match (stage.src, stage.dst) {
            (FftBuf::Input, FftBuf::Output) => fft_pass(input, &mut output, n, batch, ns, dir),
            (FftBuf::Input, FftBuf::Scratch) => fft_pass(input, &mut scratch, n, batch, ns, dir),
            (FftBuf::Scratch, FftBuf::Output) => {
                fft_pass(&scratch, &mut output, n, batch, ns, dir)
            }
            (FftBuf::Output, FftBuf::Scratch) => {
                fft_pass(&output, &mut scratch, n, batch, ns, dir)
            }
            other => panic!("a pass cannot go {other:?}"),
        }
    }
    output
}

struct Device {
    real: Vec<Vec<f32>>,
    complex: Vec<C>,
    spectrum: Vec<Vec<C>>,
    bank: Vec<C>,
    product: Vec<C>,
    rows: Vec<Vec<C>>,
    out: Vec<Vec<f32>>,
    scales: Vec<f32>,
    eta: Vec<f32>,
    bounds: Vec<u32>,
}

fn span(p: &ExtractParams, bounds: &[u32], col: usize) -> Option<(usize, usize)> {
    let start = bounds[col] as i64 - p.chunk_lo as i64;
    let mut end = bounds[col + 1] as i64 - p.chunk_lo as i64;
    end = end.min(p.valid_end as i64).min(p.n as i64);
    if start >= p.n as i64 {
        return None;
    }
    if end <= start {
        end = start + 1;
    }
    Some((start as usize, end as usize))
}

impl Device {
    fn wavelet(&mut self, p: &WavParams<f32>) {
        let n = p.n as usize;
        for s in 0..p.num_scales as usize {
            let row = s + p.scale_offset as usize;
            let scale = self.scales[row];
            for k in 0..n {
                let kf = if k <= n / 2 { k as f32 } else { k as f32 - n as f32 };
                let w = scale * 2.0 * PI as f32 * kf / n as f32;
                let diff = w - self.eta[row];
                let val = if w > 0.0 && p.kind == 0 && diff.abs() < 16.0 {
                    (PI as f32).powf(-0.25)
                        * (2.0 * PI as f32).sqrt()
                        * scale.sqrt()
                        * (-0.5 * diff * diff).exp()
                } else {
                    0.0
                };
                self.bank[s * n + k] = (val, 0.0);
            }
        }
    }

    fn extract(&mut self, ch: usize, first: usize, p: &ExtractParams) {
        let (n, width) = (p.n as usize, p.width as usize);
        for s in 0..p.rows as usize {
            let row = s + p.scale_offset as usize;
            let line = &self.rows[ch][s * n..(s + 1) * n];
            for col in p.col_start as usize..(p.col_start + p.col_count) as usize {
                let Some((a, b)) = span(p, &self.bounds, col) else { continue };
                let (mut sum, mut re, mut im) = (0.0f32, 0.0f32, 0.0f32);
                let mut acc = (0.0f32, 0.0f32);
                for t in a..b {
                    let c = line[t];
                    sum += c.0.hypot(c.1);
                    re += c.0;
                    im += c.1;
                    if t + 1 < p.chunk_len as usize {
                        let d = cmul(line[t + 1], (c.0, -c.1));
                        let w = if p.unit_weight == 1 { d.0.hypot(d.1).max(1e-30) } else { 1.0 };
                        acc = (acc.0 + d.0 / w, acc.1 + d.1 / w);
                    }
                }
                let i = row * width + col;
                self.out[first][i] = sum / (n as f32 * (b - a) as f32);
                self.out[first + 1][i] = im.atan2(re);
                self.out[first + 2][i] = if sum > 0.0 { re.hypot(im) / sum } else { 0.0 };
                let dphi = acc.1.atan2(acc.0);
                let eta = self.eta[row];
                self.out[first + 3][i] =
                    if eta > 0.0 { dphi * self.scales[row] / eta - 1.0 } else { 0.0 };
            }
        }
    }

    fn cross(&mut self, first: usize, p: &ExtractParams) {
        let (n, width) = (p.n as usize, p.width as usize);
        for s in 0..p.rows as usize {
            let row = s + p.scale_offset as usize;
            for col in p.col_start as usize..(p.col_start + p.col_count) as usize {
                let Some((a, b)) = span(p, &self.bounds, col) else { continue };
                let (mut acc, mut mass, mut amp) = ((0.0f32, 0.0f32), 0.0f32, 0.0f32);
                for t in a..b {
                    let (u, v) = (self.rows[0][s * n + t], self.rows[1][s * n + t]);
                    let c = cmul(u, (v.0, -v.1));
                    acc = (acc.0 + c.0, acc.1 + c.1);
                    let m = u.0.hypot(u.1) * v.0.hypot(v.1);
                    mass += m;
                    amp += m.sqrt();
                }
                let i = row * width + col;
                self.out[first][i] = acc.1.atan2(acc.0);
                self.out[first + 1][i] = if mass > 0.0 { acc.0.hypot(acc.1) / mass } else { 0.0 };
                self.out[first + 2][i] = amp / (n as f32 * (b - a) as f32);
            }
        }
    }

    fn run(&mut self, ops: &[GpuOp<f32>], tapes: &[Vec<f32>]) -> usize {
        let mut submits = 0;
        for op in ops {
            match op {
                GpuOp::Upload { channel, lo, copy } => {
                    let real = &mut self.real[*channel];
                    real.iter_mut().for_each(|v| *v = 0.0);
                    real[..*copy].copy_from_slice(&tapes[*channel][*lo..*lo + *copy]);
                }
                GpuOp::RealToComplex { src: Buf::Real(c), dst: Buf::Complex, .. } => {
                    self.complex = self.real[*c].iter().map(|v| (*v, 0.0)).collect();
                }
                GpuOp::Fft { src: Buf::Complex, dst: Buf::Spectrum(c), n, .. } => {
                    self.spectrum[*c] = fft(&self.complex, *n as usize, 1, false);
                }
                GpuOp::Wavelet { bank: Buf::Bank, params } => self.wavelet(params),
                GpuOp::Multiply {
                    spectrum: Buf::Spectrum(c),
                    bank: Buf::Bank,
                    product: Buf::Product,
                    params,
                } => {
                    let n = params.n as usize;
                    for i in 0..n * params.num_scales as usize {
                        self.product[i] = cmul(self.spectrum[*c][i % n], self.bank[i]);
                    }
                }
                GpuOp::Fft { src: Buf::Product, dst: Buf::Rows(c), n, batch, inverse, .. } => {
                    let len = (*n * *batch) as usize;
                    let rows =
                        fft(&self.product[..len], *n as usize, *batch as usize, *inverse);
                    self.rows[*c][..len].copy_from_slice(&rows);
                    self.bank.iter_mut().for_each(|v| *v = (f32::NAN, f32::NAN));
                }
                GpuOp::Extract { rows: Buf::Rows(c), first, params } => {
                    self.extract(*c, *first, params)
                }
                GpuOp::CrossExtract { a: Buf::Rows(0), b: Buf::Rows(1), first, params } => {
                    self.cross(*first, params)
                }
                GpuOp::Submit => submits += 1,
                other => panic!("unexpected operation {other:?}"),
            }
        }
        submits
    }
}

fn preparation(
    taps: &Vec<f32>,
) -> Preparation<
    '_,
    f32,
    impl Fn(usize) -> f32,
    f64,
    impl Fn(usize) -> f64,
    impl Fn(f64, f64) -> f64,
    impl Fn(f64) -> f64,
    impl Fn(f64) -> usize,
> {
    Preparation {
        zero: 0.0,
        taps,
        count: |n: usize| n as f32,
        band: Band { one: 1.0, two: 2.0, lowest: 0.1, share: 0.99, ratio: 1.01, samples: 2.5 },
        reach: Reach {
            zero: 0.0,
            one: 1.0,
            mu: BUMP_MU as f64,
            turn: 2.0 * PI,
            scales: 5.0,
            cycles: 1.5,
            power: |a: f64, b: f64| a.powf(b),
            root: |a: f64| a.sqrt(),
            whole: |a: f64| a as usize,
        },
        number: |n: usize| n as f64,
    }
}

fn visible(window: (usize, usize), width: usize, antialias: bool) -> Visible {
    Visible {
        t_start: window.0,
        t_end: window.1,
        width,
        antialias,
        max_binding: 128 << 20,
    }
}

fn run(
    sigs: &[Vec<f32>],
    sr: u32,
    window: (usize, usize),
    width: usize,
    params: &CwtParams<f32>,
    antialias: bool,
    unweighted: bool,
) -> Transform<f32> {
    let taps = taps();
    let preparation = preparation(&taps);
    let channels = sigs.to_vec();
    let group = Group { first: 0, count: sigs.len() };
    let wide: CwtParams<f64> = params.convert(|x: f32| x as f64);
    let rate = sr as f64;
    let asked = visible(window, width, antialias);
    let req = preparation.request(&channels, group, asked, &wide, rate);
    assert!(req.can_plan());
    let Some(prepared) = preparation.prepare(req, &channels, group, &wide, rate) else {
        return blank(0.0, params.num_scales * width, sigs.len());
    };
    let Prepared { plan, tapes, table } = prepared;
    for t in &tapes {
        assert_eq!(t.len(), plan.tape_len);
    }

    let set = BufferSet::of(&plan, sigs.len());
    let big = set.bytes(Buf::Bank) as usize / 8;
    let mut dev = Device {
        real: vec![vec![0.0; plan.n_fft]; sigs.len()],
        complex: Vec::new(),
        spectrum: vec![Vec::new(); sigs.len()],
        bank: vec![(0.0, 0.0); big],
        product: vec![(0.0, 0.0); big],
        rows: vec![vec![(0.0, 0.0); big]; sigs.len()],
        out: vec![vec![f32::NAN; set.bytes(Buf::Out(0)) as usize / 4]; set.images()],
        scales: table.iter().map(|t| t.0 as f32).collect(),
        eta: table.iter().map(|t| t.1 as f32).collect(),
        bounds: plan.bounds.clone(),
    };
    let (p1, p2) = params.kernel_params(0.0);
    let ops = plan.operations(RunSetup {
        channels: sigs.len(),
        kind: params.kind.code() as u32,
        p1,
        p2,
        unweighted,
    });
    let submits = dev.run(&ops, &tapes);
    assert_eq!(submits, plan.chunks.len());
    assemble(&dev.out, sigs.len())
}

#[allow(clippy::too_many_arguments)]
fn compute_all(
    channels: &[Vec<f32>],
    sr: u32,
    t_start: usize,
    t_end: usize,
    width: usize,
    params: &CwtParams<f32>,
    antialias: bool,
    unweighted: bool,
) -> Transform<f32> {
    let mut parts = Vec::new();
    for g in channel_groups(channels.len()) {
        let sigs = &channels[g.first..g.first + g.count];
        parts.push(run(sigs, sr, (t_start, t_end), width, params, antialias, unweighted));
    }
    gather(parts)
}

fn tone(f_rel: f64, n: usize) -> Vec<f32> {
    (0..n).map(|i| (2.0 * PI * f_rel * i as f64).sin() as f32).collect()
}

fn peak_row(scalo: &[f32], ns: usize, width: usize) -> usize {
    let (mut best, mut best_v) = (0usize, f32::MIN);
    for s in 0..ns {
        let sum: f32 = (0..width).map(|c| scalo[s * width + c]).sum();
        if sum > best_v {
            best_v = sum;
            best = s;
        }
    }
    best
}

fn row_freq(params: &CwtParams<f32>, ns: usize, row: usize) -> f64 {
    let frac = row as f64 / (ns - 1) as f64;
    params.f_min as f64 * (params.f_max as f64 / params.f_min as f64).powf(frac)
}

#[test]
fn scalogram_peaks_at_tone_frequency() {
    let sr = 44_100u32;
    let f0 = 2_000.0f64;
    let n = 16_384usize;
    let signal = tone(f0 / sr as f64, n);
    let params = CwtParams {
        num_scales: 96,
        f_min: 500.0,
        f_max: 8_000.0,
        kind: WaveletKind::Morlet,
        omega0_low: 6.0,
        omega0_high: 6.0,
        ..defaults()
    };
    let width = 16usize;
    let (outs, cross) = compute_all(&[signal], sr, 0, n, width, &params, false, false);
    assert!(cross.is_none());
    let scalo = &outs[0].0;
    assert!(scalo.iter().all(|v| v.is_finite()), "every pixel is written");
    let ns = params.num_scales;
    let best = peak_row(scalo, ns, width);
    let f_peak = row_freq(&params, ns, best);
    let rel = (f_peak - f0).abs() / f0;
    assert!(rel < 0.12, "peak row freq {f_peak:.1} Hz vs {f0} Hz (rel {rel:.3})");
}

#[test]
fn superlet_sharpens_tone_peak() {
    let sr = 44_100u32;
    let f0 = 2_000.0f64;
    let n = 16_384usize;
    let signal = tone(f0 / sr as f64, n);
    let params = CwtParams {
        num_scales: 96,
        f_min: 500.0,
        f_max: 8_000.0,
        kind: WaveletKind::Morlet,
        omega0_low: 6.0,
        omega0_high: 6.0,
        ..defaults()
    };
    let width = 16usize;
    let ns = params.num_scales;
    let rows_above_half = |scalo: &[f32]| {
        let prof: Vec<f32> =
            (0..ns).map(|s| (0..width).map(|c| scalo[s * width + c]).sum()).collect();
        let max = prof.iter().cloned().fold(f32::MIN, f32::max);
        prof.iter().filter(|&&v| v > max * 0.5).count()
    };

    let signals = [signal];
    let (base, _) = compute_all(&signals, sr, 0, n, width, &params, false, false);
    let plain = compute_all(&signals, sr, 0, n, width, &params, false, false);
    let mut passes = Vec::new();
    for k in superlet_orders(3) {
        let pk = params.superlet_pass(k as f32);
        let (outs, _) = compute_all(&signals, sr, 0, n, width, &pk, false, false);
        passes.push(outs.into_iter().map(|o| o.0).collect::<Vec<_>>());
    }
    let (sl, _) = superlet(plain, &passes, |v: f32| v as f64, |p: f64, order: u32| {
        p.powf(1.0 / order as f64) as f32
    });

    let best = peak_row(&sl[0].0, ns, width);
    let f_peak = row_freq(&params, ns, best);
    let rel = (f_peak - f0).abs() / f0;
    assert!(rel < 0.12, "peak row freq {f_peak:.1} Hz vs {f0} Hz (rel {rel:.3})");

    let w_base = rows_above_half(&base[0].0);
    let w_sl = rows_above_half(&sl[0].0);
    assert!(w_sl < w_base, "superlet width {w_sl} rows vs base {w_base}");
}

#[test]
fn instfreq_matches_tone_offset() {
    let sr = 44_100u32;
    let f0 = 1_234.0f64;
    let n = 32_768usize;
    let signal = tone(f0 / sr as f64, n);
    let params = CwtParams {
        num_scales: 64,
        f_min: 500.0,
        f_max: 2_000.0,
        kind: WaveletKind::Morlet,
        ..defaults()
    };
    let width = 8usize;
    for unweighted in [false, true] {
        let (outs, _) = compute_all(
            std::slice::from_ref(&signal),
            sr,
            0,
            n,
            width,
            &params,
            true,
            unweighted,
        );
        let (scalo, _ph, _co, dev) = &outs[0];
        let ns = params.num_scales;
        let best = peak_row(scalo, ns, width);
        let f_row = row_freq(&params, ns, best);
        let expected = f0 / f_row - 1.0;
        let measured = dev[best * width + width / 2] as f64;
        assert!(
            (measured - expected).abs() < 0.005,
            "unweighted={unweighted}: inst dev {measured:.4} vs expected {expected:.4} \
             (row {best}, f_row {f_row:.1} Hz)"
        );
    }
}

#[test]
fn cross_phase_of_identical_channels_is_zero() {
    let sr = 44_100u32;
    let f0 = 2_000.0f64;
    let n = 16_384usize;
    let signal = tone(f0 / sr as f64, n);
    let params = CwtParams {
        num_scales: 64,
        f_min: 500.0,
        f_max: 8_000.0,
        kind: WaveletKind::Morlet,
        ..defaults()
    };
    let width = 16usize;
    let (outs, cross) =
        compute_all(&[signal.clone(), signal], sr, 0, n, width, &params, false, false);
    let cross = cross.expect("stereo input must yield a cross spectrum");
    let ns = params.num_scales;
    let best = peak_row(&outs[0].0, ns, width);

    let idx = best * width + width / 2;
    assert!(cross.phase[idx].abs() < 1e-3, "cross phase {} ≠ 0", cross.phase[idx]);
    assert!(cross.coherence[idx] > 0.99, "cross coherence {}", cross.coherence[idx]);
}

#[test]
fn long_input_not_truncated() {
    let sr = 44_100u32;
    let f0 = 2_000.0f64;
    let n = 3_000_000usize;
    let signal = tone(f0 / sr as f64, n);
    let params = CwtParams {
        num_scales: 64,
        f_min: 500.0,
        f_max: 8_000.0,
        kind: WaveletKind::Morlet,
        ..defaults()
    };
    let width = 32usize;
    let (outs, _) = compute_all(&[signal], sr, 0, n, width, &params, true, false);
    let scalo = &outs[0].0;
    let ns = params.num_scales;
    for col in 0..width {
        let e: f32 = (0..ns).map(|s| scalo[s * width + col]).sum();
        assert!(e > 1e-6, "column {col} is empty (truncated view?)");
    }
    let best = peak_row(scalo, ns, width);
    let f_peak = row_freq(&params, ns, best);
    let rel = (f_peak - f0).abs() / f0;
    assert!(rel < 0.12, "peak row freq {f_peak:.1} Hz vs {f0} Hz (rel {rel:.3})");
}

fn naive_dft(x: &[(f64, f64)], inverse: bool) -> Vec<(f64, f64)> {
    let n = x.len();
    let sign = if inverse { 1.0 } else { -1.0 };
    (0..n)
        .map(|k| {
            let (mut re, mut im) = (0.0, 0.0);
            for (j, &(xr, xi)) in x.iter().enumerate() {
                let ang = sign * 2.0 * PI * (k * j) as f64 / n as f64;
                let (s, c) = ang.sin_cos();
                re += xr * c - xi * s;
                im += xr * s + xi * c;
            }
            (re, im)
        })
        .collect()
}

#[test]
fn fft_matches_dft() {
    let n = 16usize;
    let mut input = Vec::new();
    let mut x = Vec::new();
    for i in 0..n {
        let re = ((i * 7 + 3) % 13) as f64 - 6.0;
        let im = ((i * 5 + 1) % 11) as f64 - 5.0;
        input.push((re as f32, im as f32));
        x.push((re, im));
    }
    let out = fft(&input, n, 1, false);
    let expect = naive_dft(&x, false);
    for k in 0..n {
        let (gr, gi) = (out[k].0 as f64, out[k].1 as f64);
        let (er, ei) = expect[k];
        assert!(
            (gr - er).abs() < 1e-3 && (gi - ei).abs() < 1e-3,
            "k={k}: gpu=({gr:.4},{gi:.4}) dft=({er:.4},{ei:.4})"
        );
    }
}

#[test]
fn fft_roundtrip_is_identity_times_n() {
    let n = 64usize;
    let input: Vec<C> = (0..n).map(|i| ((i as f32 * 0.1).sin(), 0.0)).collect();
    let fwd = fft(&input, n, 1, false);
    let inv = fft(&fwd, n, 1, true);
    for i in 0..n {
        let r = inv[i].0 / n as f32;
        let im = inv[i].1 / n as f32;
        assert!((r - input[i].0).abs() < 1e-3, "i={i}: {r} vs {}", input[i].0);
        assert!(im.abs() < 1e-3, "i={i}: imag {im}");
    }
}

#[test]
fn fft_batched_independent_rows() {
    let n = 8usize;
    let batch = 3usize;
    let mut input = Vec::new();
    let mut rows = Vec::new();
    for b in 0..batch {
        let mut row = Vec::new();
        for i in 0..n {
            let re = ((i * 3 + b * 2) % 7) as f64 - 3.0;
            input.push((re as f32, 0.0));
            row.push((re, 0.0));
        }
        rows.push(row);
    }
    let out = fft(&input, n, batch, false);
    for (b, row) in rows.iter().enumerate() {
        let expect = naive_dft(row, false);
        for (k, &(er, ei)) in expect.iter().enumerate() {
            let idx = b * n + k;
            let (gr, gi) = (out[idx].0 as f64, out[idx].1 as f64);
            assert!(
                (gr - er).abs() < 1e-3 && (gi - ei).abs() < 1e-3,
                "b={b} k={k}: gpu=({gr:.4},{gi:.4}) dft=({er:.4},{ei:.4})"
            );
        }
    }
}

#[test]
fn every_pixel_of_every_image_is_written() {
    // Two channels, a small budget: several batches, and a window that starts late.
    let n = 6_000usize;
    let a = tone(0.05, n);
    let b = tone(0.03, n);
    let params = CwtParams { num_scales: 21, f_min: 200.0, f_max: 2_000.0, ..defaults() };
    let (outs, cross) = compute_all(&[a, b], 8_000, 1_000, 5_500, 37, &params, true, false);
    assert_eq!(outs.len(), 2);
    for o in &outs {
        for image in [&o.0, &o.1, &o.2, &o.3] {
            assert_eq!(image.len(), 21 * 37);
            assert!(image.iter().all(|v| v.is_finite()));
        }
    }
    let cross = cross.unwrap();
    for image in [&cross.phase, &cross.coherence, &cross.amplitude] {
        assert!(image.iter().all(|v| v.is_finite()));
    }
}

#[test]
fn three_channels_give_three_outputs_and_one_cross_spectrum() {
    let n = 2_000usize;
    let channels = [tone(0.05, n), tone(0.05, n), tone(0.1, n)];
    let params = CwtParams { num_scales: 8, f_min: 200.0, f_max: 2_000.0, ..defaults() };
    let (outs, cross) = compute_all(&channels, 8_000, 0, n, 10, &params, true, false);
    assert_eq!(outs.len(), 3);
    assert!(cross.is_some());
}

#[test]
fn an_empty_window_is_blank() {
    let params = CwtParams { num_scales: 4, ..defaults() };
    let (outs, cross) =
        compute_all(&[vec![1.0; 100], vec![1.0; 90]], 8_000, 95, 100, 6, &params, true, false);
    assert_eq!(outs.len(), 2);
    assert_eq!(outs[1].3, vec![0.0; 24]);
    assert_eq!(cross.unwrap().amplitude, vec![0.0; 24]);
    let (none, cross) = compute_all(&[], 8_000, 0, 10, 6, &params, true, false);
    assert!(none.is_empty() && cross.is_none());
}

#[test]
fn fft_of_single_values_gives_them_back() {
    let input = vec![(1.5, -2.0), (0.25, 3.0)];
    assert_eq!(fft(&input, 1, 2, false), input);
    assert_eq!(fft(&input, 1, 2, true), input);
}

#[test]
fn preparing_cuts_decimates_and_tabulates() {
    let taps = taps();
    let preparation = preparation(&taps);
    let noise = |n: usize, k: usize| -> Vec<f32> {
        (0..n).map(|i| ((i * k) % 101) as f32 / 50.0 - 1.0).collect()
    };
    let channels = vec![noise(10, 3), noise(40_000, 7), noise(50_000, 11)];
    let group = Group { first: 1, count: 2 };
    let params: CwtParams<f64> = CwtParams {
        num_scales: 3,
        f_min: 200.0,
        f_max: 800.0,
        ..CwtParams::default_with(|n: u32| n as f64 / 1000.0)
    };
    for antialias in [false, true] {
        let asked = visible((10_000, 20_000), 1_000, antialias);
        let req = preparation.request(&channels, group, asked, &params, 8_000.0);
        // 8000 / (2.5 * 800) is 4; the reach is 5 * 6 * 8000 / (2 pi * 200).
        assert_eq!((req.total, req.max_d, req.support), (40_000, 4, 190));
        assert_eq!((req.width, req.num_scales, req.antialias), (1_000, 3, antialias));
        let p = preparation.prepare(req, &channels, group, &params, 8_000.0).unwrap();
        assert_eq!(p.plan.d, 4);
        assert_eq!(p.tapes.len(), 2);
        for (k, tape) in p.tapes.iter().enumerate() {
            let seg = channels[1 + k][p.plan.seg_start..p.plan.seg_end].to_vec();
            let expected = downsample(0.0, &seg, 4, antialias, &taps, |n: usize| n as f32);
            assert_eq!(*tape, expected);
            assert_eq!(tape.len(), p.plan.tape_len);
        }
        // The decimated rate is 2000, so that the range stays as it is.
        let at = |f: f64| 6.0 * 2_000.0 / (2.0 * PI * f);
        for (row, f) in [200.0, 400.0, 800.0].into_iter().enumerate() {
            assert!((p.table[row].0 - at(f)).abs() < 1e-9 && p.table[row].1 == 6.0);
        }
    }
}

#[test]
fn preparing_without_decimation_keeps_the_segment() {
    let no_taps = vec![];
    let preparation = preparation(&no_taps);
    let channels: Vec<Vec<f32>> = vec![(0..1_000).map(|i| i as f32).collect()];
    let group = Group { first: 0, count: 1 };
    let params: CwtParams<f64> = CwtParams::default_with(|n: u32| n as f64 / 1000.0);
    let asked = visible((400, 500), 100, true);
    let req = preparation.request(&channels, group, asked, &params, 8_000.0);
    let p = preparation.prepare(req, &channels, group, &params, 8_000.0).unwrap();
    assert_eq!(p.plan.d, 1);
    assert_eq!(p.tapes, vec![channels[0][p.plan.seg_start..p.plan.seg_end].to_vec()]);
    assert_eq!(p.table.len(), 128);
}

#[test]
fn preparing_nothing_gives_nothing() {
    let taps = taps();
    let preparation = preparation(&taps);
    let channels: Vec<Vec<f32>> = vec![vec![0.0; 1_000]];
    let params: CwtParams<f64> = CwtParams::default_with(|n: u32| n as f64 / 1000.0);
    for (count, window) in [(1, (400, 400)), (0, (0, 1_000))] {
        let group = Group { first: 0, count };
        let asked = visible(window, 100, true);
        let req = preparation.request(&channels, group, asked, &params, 8_000.0);
        assert!(preparation.prepare(req, &channels, group, &params, 8_000.0).is_none());
    }
}
