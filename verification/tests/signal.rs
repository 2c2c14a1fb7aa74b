use wavescope::decimation::{downsample, halfband_decim2, halfband_taps, Window};
use wavescope::squeeze::{
    rows_per_log, synchrosqueeze, synchrosqueeze_with_phase, Grid, Polar,
};

const PI: f64 = std::f64::consts::PI;

fn window() -> Window<
    f64,
    impl Fn(i64) -> f64,
    impl Fn(f64) -> f64,
    impl Fn(f64) -> f64,
> {
    Window {
        zero: 0.0,
        half: 0.5,
        half_turn: PI,
        turn: 2.0 * PI,
        two_turns: 4.0 * PI,
        terms: (0.42, 0.5, 0.08),
        number: |n: i64| n as f64,
        sin: |x: f64| x.sin(),
        cos: |x: f64| x.cos(),
    }
}

fn taps() -> Vec<f32> {
    halfband_taps(&window(), |v: f64| v as f32)
}

fn tone(f_rel: f64, n: usize) -> Vec<f32> {
    (0..n).map(|i| (2.0 * PI * f_rel * i as f64).sin() as f32).collect()
}

fn rms_mid(x: &[f32]) -> f64 {
    let a = &x[x.len() / 4..3 * x.len() / 4];
    (a.iter().map(|v| (*v as f64).powi(2)).sum::<f64>() / a.len() as f64).sqrt()
}

#[test]
fn halfband_passband_and_stopband() {
    let taps = taps();
    let n = 8192;
    let r0 = rms_mid(&tone(0.10, n));
    let pass = halfband_decim2(0.0, &tone(0.10, n), &taps);
    let stop = halfband_decim2(0.0, &tone(0.40, n), &taps);
    let g_pass = rms_mid(&pass) / r0;
    let g_stop = rms_mid(&stop) / r0;
    assert!((g_pass - 1.0).abs() < 0.01, "passband gain {g_pass}");
    assert!(g_stop < 0.01, "stopband gain {g_stop}");
}

#[test]
fn taps_add_up_to_one_and_skip_even_offsets() {
    let taps = taps();
    assert_eq!(taps.len(), 63);
    assert!((taps.iter().sum::<f32>() - 1.0).abs() < 1e-6);
    assert!((taps[31] - 0.5).abs() < 1e-3);
    assert!(taps[33].abs() < 1e-6);
}

#[test]
fn weights_are_a_windowed_sinc() {
    let w = window();
    // In the middle the window is one and the response one half.
    assert!((w.weight(31) - 0.5).abs() < 1e-12);
    // One step off: sin(pi/2) / pi, seen through the window at 32 of 62.
    let t = 32.0 / 62.0;
    let seen = 0.42 - 0.5 * (2.0 * PI * t).cos() + 0.08 * (4.0 * PI * t).cos();
    assert!((w.weight(32) - seen / PI).abs() < 1e-12);
    assert!(w.weight(0).abs() < 1e-12);
    for n in 0..31 {
        assert!((w.weight(n) - w.weight(62 - n)).abs() < 1e-12);
    }
}

#[test]
fn halving_is_centred_and_zero_extended() {
    // Centre 2, odd offsets of weight 1: y[m] = 10 x[2m] + x[2m-1] + x[2m+1].
    let taps = vec![0, 1, 10, 1, 0];
    assert_eq!(halfband_decim2(0, &vec![1, 2, 3, 4, 5], &taps), vec![12, 36]);
    assert_eq!(halfband_decim2(0, &vec![1], &taps), Vec::<i32>::new());
    // Less than two samples are not filtered, whatever the taps.
    assert_eq!(halfband_decim2(0, &vec![1], &vec![]), Vec::<i32>::new());
}

#[test]
fn blocks_are_averaged_with_a_short_last_one() {
    let x = vec![1.0f32, 3.0, 5.0, 7.0, 10.0];
    let y = downsample(0.0, &x, 2, false, &taps(), |n: usize| n as f32);
    assert_eq!(y, vec![2.0, 6.0, 10.0]);
}

#[test]
fn the_cascade_halves_once_per_power_of_two() {
    let x: Vec<i64> = (0..37).collect();
    let taps = vec![0, 0, 1];
    let once = downsample(0, &x, 1, true, &taps, |n: usize| n as i64);
    assert_eq!(once, x);
    // Nothing is filtered where nothing is dropped, nor where blocks are averaged.
    assert_eq!(downsample(0, &x, 1, true, &vec![], |n: usize| n as i64), x);
    let pairs = downsample(0, &vec![2, 4, 6, 9], 2, false, &vec![], |n: usize| n as i64);
    assert_eq!(pairs, vec![3, 7]);
    let eighth = downsample(0, &x, 8, true, &vec![1i64], |n: usize| n as i64);
    assert_eq!(eighth, vec![0, 8, 16, 24]);
}

fn target(width: usize, ns: usize, log_ratio: f32) -> Grid<
    f32,
    impl Fn(usize) -> f32,
    impl Fn(f32) -> f32,
    impl Fn(f32) -> usize,
> {
    let top = (ns - 1) as f32;
    Grid {
        num_scales: ns,
        width,
        zero: 0.0,
        one: 1.0,
        top,
        floor: 1e-6,
        rows_per_log: rows_per_log(top, log_ratio, 1e-6),
        number: |n: usize| n as f32,
        ln: |x: f32| x.ln(),
        whole: |t: f32| t.floor() as usize,
    }
}

fn with_phase(
    amp: &Vec<f32>,
    ph: &Vec<f32>,
    dev: &Vec<f32>,
    width: usize,
    ns: usize,
    log_ratio: f32,
) -> (Vec<f32>, Vec<f32>, Vec<f32>) {
    let polar = Polar {
        sin_cos: |p: f32| p.sin_cos(),
        angle: |im: f32, re: f32| im.atan2(re),
        length: |re: f32, im: f32| re.hypot(im),
    };
    synchrosqueeze_with_phase(amp, ph, dev, &target(width, ns, log_ratio), &polar)
}

#[test]
fn synchrosqueeze_reassigns_to_inst_freq_row() {
    let ns = 4usize;
    let width = 1usize;
    let log_ratio = 0.3f32;
    let delta = log_ratio / (ns - 1) as f32;

    let mut amp = vec![0.0f32; ns];
    let mut dev = vec![0.0f32; ns];
    amp[1] = 1.0;
    dev[1] = delta.exp() - 1.0;
    amp[3] = 1.0;
    dev[3] = (2.0 * delta).exp() - 1.0;

    let out = synchrosqueeze(&amp, &dev, &target(width, ns, log_ratio));
    assert!((out[2] - 1.0).abs() < 1e-4, "row 2 got {out:?}");
    assert!(out[1].abs() < 1e-4 && out[3].abs() < 1e-4, "{out:?}");
}

#[test]
fn synchrosqueeze_with_phase_carries_and_cancels() {
    let ns = 4usize;
    let width = 1usize;
    let log_ratio = 0.3f32;
    let delta = log_ratio / (ns - 1) as f32;

    let mut amp = vec![0.0f32; ns];
    let mut dev = vec![0.0f32; ns];
    let mut ph = vec![0.0f32; ns];
    amp[1] = 1.0;
    dev[1] = delta.exp() - 1.0;
    ph[1] = 1.0;
    amp[3] = 1.0;
    dev[3] = (-delta).exp() - 1.0;
    ph[3] = 1.0;

    let (a, p, c) = with_phase(&amp, &ph, &dev, width, ns, log_ratio);
    assert!((a[2] - 2.0).abs() < 1e-4, "amp {a:?}");
    assert!((p[2] - 1.0).abs() < 1e-4, "phase {p:?}");
    assert!((c[2] - 1.0).abs() < 1e-4, "coherence {c:?}");

    ph[3] = 1.0 - std::f32::consts::PI;
    let (a, _, c) = with_phase(&amp, &ph, &dev, width, ns, log_ratio);
    assert!((a[2] - 2.0).abs() < 1e-4, "amp {a:?}");
    assert!(c[2].abs() < 1e-4, "coherence {c:?}");
}

fn steps(width: usize, ns: usize) -> Grid<
    i32,
    impl Fn(usize) -> i32,
    impl Fn(i32) -> i32,
    impl Fn(i32) -> usize,
> {
    // Everything counts quarter rows, and a deviation moves a pixel by itself.
    Grid {
        num_scales: ns,
        width,
        zero: 0,
        one: 4,
        top: 4 * (ns as i32 - 1),
        floor: -1000,
        rows_per_log: 1,
        number: |n: usize| 4 * n as i32,
        ln: |x: i32| x - 4,
        whole: |t: i32| (t / 4) as usize,
    }
}

#[test]
fn rows_lie_evenly_on_the_logarithm() {
    assert_eq!(rows_per_log(12.0f32, 3.0, 1e-6), 4.0);
    assert_eq!(rows_per_log(12.0f32, 0.0, 0.5), 24.0);
    assert_eq!(rows_per_log(12.0f32, f32::NAN, 0.5), 24.0);
}

#[test]
fn squeezing_splits_linearly_and_keeps_the_mass() {
    let grid = steps(2, 3);
    let amp = vec![1, 2, 3, 0, 5, 6];
    let dev = vec![1, 4, -2, 0, 0, -8];
    // Column 0: row 0 splits 3 to 1; row 1 splits 2 to 2 over rows 0 and 1; row 2 stays.
    // Column 1: row 0 moves to row 1, row 2 moves to row 0.
    let out = synchrosqueeze(&amp, &dev, &grid);
    assert_eq!(out, vec![3 + 6, 24, 1 + 6, 8, 20, 0]);
    let column = |c: usize| out[c] + out[2 + c] + out[4 + c];
    assert_eq!((column(0), column(1)), (4 * (1 + 3 + 5), 4 * (2 + 6)));
}

#[test]
fn squeezing_drops_what_leaves_the_grid_and_zero_pads() {
    let grid = steps(1, 2);
    let out = synchrosqueeze(&vec![1, 1, 7], &vec![-1, 1, 0], &grid);
    assert_eq!(out, vec![0, 0, 0]);
    let out = synchrosqueeze(&vec![-3, 1, 7], &vec![0, 0, 0], &grid);
    assert_eq!(out, vec![0, 4, 0]);
}

#[test]
fn squeezing_drops_deviations_that_are_no_numbers() {
    let out = synchrosqueeze(&vec![1.0, 1.0], &vec![f32::NAN, 0.0], &target(1, 2, 0.3));
    assert_eq!(out, vec![0.0, 1.0]);
    // Also where the floor of the logarithm lies on the grid.
    assert_eq!(synchrosqueeze(&vec![1.0], &vec![f32::NAN], &target(1, 1, 0.3)), vec![0.0]);
    let out = synchrosqueeze(&vec![0.0, 1.0], &vec![0.0, f32::NAN], &target(1, 2, 20.0));
    assert_eq!(out, vec![0.0, 0.0]);
}

#[test]
fn squeezing_keeps_what_stays_on_the_grid() {
    let amp = vec![0.5f32, 1.5, 2.0, 0.25, 1.0, 3.0];
    let dev = vec![0.01f32, -0.02, 0.03, 0.0, 0.2, -0.05];
    // The deviation of 0.2 leads off the top, -0.02 off the bottom.
    let out = synchrosqueeze(&amp, &dev, &target(2, 3, 0.3));
    assert!((out[0] + out[2] + out[4] - 2.5).abs() < 1e-5, "{out:?}");
    assert!((out[1] + out[3] + out[5] - 3.25).abs() < 1e-5, "{out:?}");
}

#[test]
fn both_variants_place_amplitude_alike() {
    let amp = vec![0.5f32, 1.5, 2.0, 0.25, 0.0, 3.0];
    let dev = vec![0.01f32, -0.02, 0.03, 0.0, 0.2, -0.05];
    let ph = vec![0.1f32, 2.0, -1.0, 0.5, 3.0, -2.5];
    let plain = synchrosqueeze(&amp, &dev, &target(2, 3, 0.3));
    let (a, p, c) = with_phase(&amp, &ph, &dev, 2, 3, 0.3);
    assert_eq!(plain, a);
    for i in 0..6 {
        assert!((0.0..=1.0).contains(&c[i]));
        if a[i] == 0.0 {
            assert_eq!((p[i], c[i]), (0.0, 0.0));
        }
    }
}
