use wavescope::analysis::{
    allan_deviation, kuramoto_r, mean_plv, oc_cycles, wrap_pi, Circle, Phasors,
};

const TAU: f64 = std::f64::consts::TAU;
const PI: f64 = std::f64::consts::PI;

fn adev(y: &[f64], tau0: f64) -> Vec<[f64; 2]> {
    allan_deviation(0.0, 2.0, &y.to_vec(), tau0, |n: usize| n as f64, |x: f64| x.sqrt())
}

fn order_parameter(dphi: &[f64]) -> Vec<f64> {
    kuramoto_r(0.5, &dphi.to_vec(), |d: f64| d.cos(), |x: f64| x.abs())
}

fn plv(dphi: &[f64]) -> f64 {
    let phasors = Phasors {
        zero: 0.0,
        cos: |d: f64| d.cos(),
        sin: |d: f64| d.sin(),
        number: |n: usize| n as f64,
        root: |x: f64| x.sqrt(),
    };
    mean_plv(&dphi.to_vec(), &phasors)
}

fn wrap(a: f64) -> f64 {
    wrap_pi(a, Circle { half: PI, minus_half: -PI, full: TAU })
}

#[test]
fn allan_constant_frequency_is_zero() {
    // A pure frequency offset gives a linear phase and no second difference.
    let y = vec![0.003; 64];
    let adev = adev(&y, 1.0);
    assert!(!adev.is_empty());
    for [_, s] in adev {
        assert!(s.abs() < 1e-12, "sigma {s} should vanish");
    }
}

#[test]
fn allan_octave_taus() {
    let y: Vec<f64> = (0..32).map(|i| (i as f64 * 0.1).sin()).collect();
    let adev = adev(&y, 0.5);
    let taus: Vec<f64> = adev.iter().map(|p| p[0]).collect();
    assert_eq!(taus, vec![0.5, 1.0, 2.0, 4.0]);
}

#[test]
fn allan_of_too_little_is_empty() {
    assert!(adev(&[1.0], 1.0).is_empty());
    assert!(adev(&[1.0; 8], 0.0).is_empty());
    assert!(adev(&[1.0; 8], -1.0).is_empty());
    assert!(adev(&[1.0, 2.0], 1.0).is_empty());
    assert_eq!(adev(&[1.0; 3], 1.0).len(), 1);
}

#[test]
fn allan_value_of_an_alternating_series() {
    // Phase 0, 1, 0, 1, 0: every second difference has magnitude 2.
    let adev = adev(&[1.0, -1.0, 1.0, -1.0], 1.0);
    assert_eq!(adev.len(), 1);
    assert!((adev[0][1] - 2.0f64.sqrt()).abs() < 1e-12);
}

#[test]
fn allan_value_of_a_step() {
    // Phase 0, 0, 4, 8: the second differences are 4 and 0, and 16 / (2 * 2) is 4.
    assert_eq!(adev(&[0.0, 4.0, 4.0], 1.0), vec![[1.0, 2.0]]);
    // Twice the sample period: the phase doubles, and so does the averaging time.
    assert_eq!(adev(&[0.0, 4.0, 4.0], 2.0), vec![[2.0, 2.0]]);
}

#[test]
fn oc_sums_what_came_before() {
    assert_eq!(oc_cycles(0, &vec![1, 2, 4], 10, 3), vec![0, 30, 90]);
    assert!(oc_cycles(0, &vec![], 10, 3).is_empty());
}

#[test]
fn oc_constant_drift_is_linear() {
    let y = vec![0.01; 5];
    let oc = oc_cycles(0.0, &y, 100.0, 0.1);
    assert_eq!(oc.len(), 5);
    for (k, v) in oc.iter().enumerate() {
        assert!((v - k as f64 * 0.1).abs() < 1e-12, "oc[{k}] = {v}");
    }
}

#[test]
fn kuramoto_in_and_antiphase() {
    assert!((order_parameter(&[0.0])[0] - 1.0).abs() < 1e-12);
    assert!(order_parameter(&[PI])[0].abs() < 1e-12);
}

#[test]
fn order_is_a_share_of_the_difference() {
    // Two equal phasors that differ by a third of a turn add up to one.
    let r = order_parameter(&[TAU / 3.0, -TAU / 3.0, 0.5, 3.0 * PI]);
    assert!((r[0] - 0.5).abs() < 1e-12 && (r[1] - 0.5).abs() < 1e-12);
    assert!(r.iter().all(|x| (0.0..=1.0).contains(x)));
}

#[test]
fn plv_locked_vs_smeared() {
    let locked = vec![0.7; 100];
    assert!((plv(&locked) - 1.0).abs() < 1e-12);
    let smeared: Vec<f64> = (0..360).map(|d| (d as f64).to_radians()).collect();
    assert!(plv(&smeared) < 1e-2);
}

#[test]
fn plv_of_nothing_is_zero() {
    assert_eq!(plv(&[]), 0.0);
}

#[test]
fn plv_of_a_quarter_turn() {
    // Unit phasors at right angles: the mean is half a diagonal long.
    assert!((plv(&[0.0, PI / 2.0]) - 0.5f64.sqrt()).abs() < 1e-12);
    assert!(plv(&[0.0, PI]).abs() < 1e-12);
}

#[test]
fn plv_ignores_a_shift_and_the_order() {
    let phases = [0.1, 0.7, -0.4, 2.0];
    let r = plv(&phases);
    assert!((0.0..=1.0).contains(&r));
    let shifted: Vec<f64> = phases.iter().map(|p| p + 1.3).collect();
    assert!((plv(&shifted) - r).abs() < 1e-12);
    assert!((plv(&[2.0, 0.1, -0.4, 0.7]) - r).abs() < 1e-12);
}

#[test]
fn wrap_pi_range() {
    assert!((wrap(TAU + 0.5) - 0.5).abs() < 1e-12);
    assert!((wrap(-TAU - 0.5) + 0.5).abs() < 1e-12);
    assert!((wrap(PI) - PI).abs() < 1e-12);
}

#[test]
fn wrap_pi_moves_minus_half_a_turn() {
    assert!((wrap(-PI) - PI).abs() < 1e-12);
}

#[test]
fn wrapping_twice_changes_nothing() {
    for a in [-20.0, -PI, -1.0, 0.0, 2.0, PI, 3.5, 100.0] {
        let w = wrap(a);
        assert!(-PI < w && w <= PI);
        assert_eq!(wrap(w), w);
        let turns = (a - w) / TAU;
        assert!((turns - turns.round()).abs() < 1e-12);
    }
    let degrees = Circle { half: 180, minus_half: -180, full: 360 };
    assert_eq!(wrap_pi(540, degrees), 180);
    assert_eq!(wrap_pi(190, degrees), -170);
    assert_eq!(wrap_pi(-180, degrees), 180);
}
