use wavescope::wavelet::{Band, CwtParams, FrequencyAxis, Reach, WaveletKind, BUMP_MU};

fn params(kind: WaveletKind) -> CwtParams<f64> {
    CwtParams { kind, ..CwtParams::default_with(|n: u32| n as f64 / 1000.0) }
}

#[test]
fn names_and_codes() {
    let all: Vec<(&str, i32)> =
        WaveletKind::all().into_iter().map(|k| (k.name(), k.code())).collect();
    assert_eq!(all, vec![("Morlet", 0), ("Generalized Morse", 1), ("Bump", 2), ("Paul", 3)]);
}

#[test]
fn default_parameters() {
    let p: CwtParams<f32> = CwtParams::default_with(|n: u32| n as f32 / 1000.0);
    let expected = CwtParams {
        num_scales: 128,
        f_min: 20.0f32,
        f_max: 20_000.0,
        kind: WaveletKind::Morlet,
        omega0_low: 6.0,
        omega0_high: 6.0,
        morse_beta: 20.0,
        morse_gamma: 3.0,
        bump_sigma: 0.6,
        paul_order: 4.0,
    };
    assert_eq!(p, expected);
    assert_eq!(p.convert(|x: f32| x as f64).f_max, 20_000.0);
}

#[test]
fn kernel_parameters_by_family() {
    assert_eq!(params(WaveletKind::Morlet).kernel_params(0.0), (0.0, 0.0));
    assert_eq!(params(WaveletKind::Morse).kernel_params(0.0), (20.0, 3.0));
    assert_eq!(params(WaveletKind::Bump).kernel_params(0.0), (0.6, 0.0));
    assert_eq!(params(WaveletKind::Paul).kernel_params(0.0), (4.0, 0.0));
}

#[test]
fn superlet_passes_sharpen_one_family() {
    for kind in WaveletKind::all() {
        let p = params(kind);
        let q = p.superlet_pass(3.0);
        let expected = match kind {
            WaveletKind::Morlet => CwtParams { omega0_low: 18.0, omega0_high: 18.0, ..p },
            WaveletKind::Morse => CwtParams { morse_beta: 60.0, ..p },
            WaveletKind::Bump => CwtParams { bump_sigma: 0.6 / 3.0, ..p },
            WaveletKind::Paul => CwtParams { paul_order: 12.0, ..p },
        };
        assert_eq!(q, expected);
    }
}

fn eta(p: &CwtParams<f64>, frac: f64) -> f64 {
    p.peak_eta(frac, 1.0, BUMP_MU as f64, |a: f64, b: f64| a.powf(b))
}

#[test]
fn peaks_by_family() {
    let adaptive = CwtParams { omega0_high: 24.0, ..params(WaveletKind::Morlet) };
    assert_eq!(eta(&adaptive, 0.0), 6.0);
    assert!((eta(&adaptive, 0.5) - 12.0).abs() < 1e-12);
    assert!((eta(&adaptive, 1.0) - 24.0).abs() < 1e-12);
    assert!((eta(&params(WaveletKind::Morse), 0.3) - (20.0f64 / 3.0).powf(1.0 / 3.0)).abs() < 1e-12);
    // Points with the same sum have the same product of peaks.
    let product = eta(&adaptive, 0.1) * eta(&adaptive, 0.7);
    assert!((product - eta(&adaptive, 0.4).powi(2)).abs() < 1e-9);
    assert_eq!(eta(&params(WaveletKind::Morse), 0.3), eta(&params(WaveletKind::Morse), 0.9));
    assert_eq!(eta(&params(WaveletKind::Bump), 0.3), 5.0);
    assert_eq!(eta(&params(WaveletKind::Paul), 0.3), 4.0);
}

#[test]
fn support_by_family() {
    let cycles =
        |k: WaveletKind| params(k).support_cycles(0.0, 1.5, BUMP_MU as f64, |x: f64| x.sqrt());
    assert_eq!(cycles(WaveletKind::Morlet), 0.0);
    assert!((cycles(WaveletKind::Morse) - 1.5 * 60.0f64.sqrt()).abs() < 1e-12);
    assert!((cycles(WaveletKind::Bump) - 12.5).abs() < 1e-12);
    assert_eq!(cycles(WaveletKind::Paul), 6.0);
}

#[test]
fn reach_is_the_larger_of_scale_and_cycles() {
    let turn = 2.0 * std::f64::consts::PI;
    let reach = Reach {
        zero: 0.0,
        one: 1.0,
        mu: BUMP_MU as f64,
        turn,
        scales: 5.0,
        cycles: 1.5,
        power: |a: f64, b: f64| a.powf(b),
        root: |a: f64| a.sqrt(),
        whole: |a: f64| a as usize,
    };
    let morlet = reach.support(&params(WaveletKind::Morlet), 44_100.0, 20.0);
    assert_eq!(morlet, (5.0 * 6.0 * 44_100.0 / (turn * 20.0)) as usize);
    // A negative product of the parameters has no root; the reach of the scale stands.
    let odd =
        CwtParams { morse_beta: -20.0, morse_gamma: 0.5, ..params(WaveletKind::Morse) };
    let morse = reach.support(&odd, 44_100.0, 20.0);
    assert_eq!(morse, (5.0 * (1600.0 * 44_100.0 / (turn * 20.0))) as usize);
    let bump = reach.support(&params(WaveletKind::Bump), 44_100.0, 20.0);
    assert_eq!(bump, (12.5f64 * 44_100.0 / 20.0) as usize);
}

#[test]
fn rows_are_log_spaced_and_peak_at_their_frequency() {
    let turn = 2.0 * std::f64::consts::PI;
    let axis = FrequencyAxis {
        f_min: 100.0,
        f_max: 1600.0,
        rate: 8000.0,
        one: 1.0,
        mu: BUMP_MU as f64,
        turn,
        number: |n: usize| n as f64,
        power: |a: f64, b: f64| a.powf(b),
    };
    let p = CwtParams { num_scales: 5, ..params(WaveletKind::Morlet) };
    let table = axis.table(&p);
    assert_eq!(table.len(), 5);
    for (i, (scale, eta)) in table.iter().enumerate() {
        assert_eq!(*eta, 6.0);
        let f = eta * 8000.0 / (turn * scale);
        assert!((f - 100.0 * 2f64.powi(i as i32)).abs() < 1e-9, "row {i} at {f}");
    }
    let single = axis.table(&CwtParams { num_scales: 1, ..p });
    assert!((single[0].0 - 6.0 * 8000.0 / (turn * 100.0)).abs() < 1e-9);
}

#[test]
fn the_ends_of_the_range_keep_their_distance() {
    let p = params(WaveletKind::Morlet);
    assert_eq!(p.with_low_end(50.0, 0.99), CwtParams { f_min: 50.0, ..p });
    assert_eq!(p.with_low_end(30_000.0, 0.99).f_min, 20_000.0 * 0.99);
    assert_eq!(p.with_high_end(500.0, 1.01), CwtParams { f_max: 500.0, ..p });
    assert_eq!(p.with_high_end(3.0, 1.01).f_max, 20.0 * 1.01);
}

#[test]
fn the_range_stays_below_half_the_sample_rate() {
    let band =
        Band { one: 1.0, two: 2.0, lowest: 0.1, share: 0.99, ratio: 1.01, samples: 2.5 };
    assert_eq!(band.range(20.0, 20_000.0, 44_100.0), (20.0, 20_000.0));
    assert_eq!(band.range(20.0, 20_000.0, 8_000.0), (20.0, 4_000.0 * 0.99));
    assert_eq!(band.range(0.0, 100.0, 8_000.0).0, 0.1);
    assert_eq!(band.range(5_000.0, 20_000.0, 8_000.0), (5_000.0, 5_000.0 * 1.01));
    let whole = |x: f64| x.floor() as usize;
    assert_eq!(band.largest_decimation(44_100.0, 1_000.0, whole), 17);
    assert_eq!(band.largest_decimation(44_100.0, 20_000.0, whole), 1);
}
