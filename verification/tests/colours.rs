use wavescope::colormap::{
    clamp, colours_to_rgba, combined_to_rgba, lerp_colormap, log_compress, phase_to_rgba,
    scalogram_to_rgba, AmplitudeShade, ColorMap, DisplayMode, HueWheel, Palette, PhaseShade,
    Scaling, Stop,
};

const PI: f32 = std::f32::consts::PI;

fn palette() -> Palette<f32, impl Fn(u32) -> f32, impl Fn(f32) -> u8> {
    Palette {
        zero: 0.0,
        one: 1.0,
        thousandths: |n: u32| n as f32 / 1000.0,
        byte: |v: f32| (v * 255.0) as u8,
    }
}

fn scaling(vmin: f32, vmax: f32, log_amount: f32) -> Scaling<f32, impl Fn(f32) -> f32> {
    Scaling {
        zero: 0.0,
        one: 1.0,
        vmin,
        vmax,
        log_amount,
        floor: 1e-30,
        factor: 1e6,
        ln: |x: f32| x.ln(),
    }
}

fn wheel(gamma: f32) -> HueWheel<
    f32,
    impl Fn(f32) -> f32,
    impl Fn(f32) -> i32,
    impl Fn(i32) -> f32,
    impl Fn(f32, f32) -> f32,
> {
    HueWheel {
        zero: 0.0,
        one: 1.0,
        sectors: 6.0,
        half_turn: PI,
        turn: 2.0 * PI,
        gamma,
        floor: |x: f32| x.floor(),
        whole: |x: f32| x.floor() as i32,
        number: |n: i32| n as f32,
        power: |a: f32, b: f32| a.powf(b),
    }
}

#[test]
fn names() {
    let modes = [
        (DisplayMode::Amplitude, "Amplitude"),
        (DisplayMode::Phase, "Phase"),
        (DisplayMode::Combined, "Phase+Amplitude"),
        (DisplayMode::Synchro, "Synchro"),
        (DisplayMode::SynchroPhase, "SynchroPhase"),
        (DisplayMode::Superlet, "Superlet"),
        (DisplayMode::InstFreq, "InstFreq"),
        (DisplayMode::CrossPhase, "CrossPhase"),
    ];
    for (m, n) in modes {
        assert_eq!(m.name(), n);
    }
    let maps: Vec<&str> = ColorMap::all().into_iter().map(|m| m.name()).collect();
    assert_eq!(maps, vec!["Plasma", "Viridis", "Magma", "Inferno", "Hot"]);
}

#[test]
fn maps_start_and_end_at_their_stops() {
    let p = palette();
    assert_eq!(ColorMap::Hot.apply(0.0, &p), [0, 0, 0]);
    assert_eq!(ColorMap::Hot.apply(1.0, &p), [255, 255, 255]);
    assert_eq!(ColorMap::Hot.apply(-3.0, &p), [0, 0, 0]);
    assert_eq!(ColorMap::Hot.apply(7.0, &p), [255, 255, 255]);
    assert_eq!(ColorMap::Plasma.apply(0.0, &p), [12, 7, 134]);
    assert_eq!(ColorMap::Plasma.apply(1.0, &p), [239, 248, 33]);
    assert_eq!(ColorMap::Viridis.apply(0.5, &p), [32, 144, 140]);
    assert_eq!(ColorMap::Magma.apply(0.25, &p), [80, 18, 123]);
    assert_eq!(ColorMap::Inferno.apply(0.75, &p), [251, 160, 40]);
    // Half way from black to red.
    assert_eq!(ColorMap::Hot.apply(0.1665, &p)[1..], [0, 0]);
    assert!((ColorMap::Hot.apply(0.1665, &p)[0] as i32 - 127).abs() <= 1);
}

#[test]
fn tables_ascend_over_the_whole_range() {
    for map in ColorMap::all() {
        let t = map.stops();
        assert_eq!((t[0].at, t[t.len() - 1].at), (0, 1000));
        assert!(t.windows(2).all(|w| w[0].at < w[1].at));
        assert!(t.iter().all(|s| s.r <= 1000 && s.g <= 1000 && s.b <= 1000));
    }
}

#[test]
fn interpolation_between_stops() {
    let s = |at: f64, v: f64| Stop { at, r: v, g: 2.0 * v, b: -v };
    let stops = vec![s(0.0, 0.0), s(1.0, 10.0), s(3.0, 20.0)];
    assert_eq!(lerp_colormap(0.5, &stops), (5.0, 10.0, -5.0));
    assert_eq!(lerp_colormap(1.0, &stops), (10.0, 20.0, -10.0));
    assert_eq!(lerp_colormap(2.0, &stops), (15.0, 30.0, -15.0));
    assert_eq!(lerp_colormap(9.0, &stops), (20.0, 40.0, -20.0));
    assert_eq!(lerp_colormap(-1.0, &stops), (0.0, 0.0, 0.0));
    assert_eq!(lerp_colormap(0.3, &vec![]), (0.3, 0.3, 0.3));
    assert_eq!(lerp_colormap(f64::NAN, &stops), (20.0, 40.0, -20.0));
}

#[test]
fn clamping() {
    assert_eq!(clamp(5, 0, 3), 3);
    assert_eq!(clamp(-5, 0, 3), 0);
    assert_eq!(clamp(2, 0, 3), 2);
    assert!(clamp(f32::NAN, 0.0, 1.0).is_nan());
}

#[test]
fn brightness_blends_linear_and_log() {
    let lin = scaling(1.0, 3.0, 0.0);
    assert_eq!(lin.brightness(2.0), 0.5);
    assert_eq!(lin.brightness(0.0), 0.0);
    assert_eq!(lin.brightness(9.0), 1.0);
    let log = scaling(0.0, 1.0, 1.0);
    let expected = (0.001f32 * 1e6 + 1.0).ln() / (1e6f32 + 1.0).ln();
    assert!((log.brightness(0.001) - expected).abs() < 1e-6);
    let half = scaling(0.0, 1.0, 0.5);
    assert!((half.brightness(0.001) - (0.001 + expected) / 2.0).abs() < 1e-6);
    // A degenerate range does not divide by zero.
    assert_eq!(scaling(1.0, 1.0, 0.0).brightness(1.0), 0.0);
    assert_eq!(scaling(1.0, 1.0, 0.0).brightness(2.0), 1.0);
    assert_eq!(log_compress(0.0, 1.0, 1e6, &|x: f32| x.ln(), -2.0), 0.0);
}

#[test]
fn brightness_rises_from_end_to_end() {
    for log_amount in [0.0, 0.3, 1.0] {
        let light = scaling(0.5, 4.0, log_amount);
        assert_eq!((light.brightness(0.5), light.brightness(4.0)), (0.0, 1.0));
        let steps: Vec<f32> = (0..100).map(|i| light.brightness(i as f32 / 20.0)).collect();
        assert!(steps.windows(2).all(|w| w[0] <= w[1]));
        assert!(steps.iter().all(|t| (0.0..=1.0).contains(t)));
    }
}

#[test]
fn the_amount_of_log_scaling_is_limited() {
    for v in [0.5, 0.7, 1.0, 3.0] {
        let at = |amount: f32| scaling(0.5, 4.0, amount).brightness(v);
        assert_eq!(at(-2.0), at(0.0));
        assert_eq!(at(7.0), at(1.0));
        assert!((at(0.0) - (v - 0.5) / 3.5).abs() < 1e-6);
    }
}

fn hsv(h: f32, s: f32, v: f32) -> (f32, f32, f32) {
    wheel(1.0).hsv_to_rgb(h, s, v)
}

#[test]
fn hue_sectors() {
    assert_eq!(hsv(0.0, 1.0, 1.0), (1.0, 0.0, 0.0));
    assert_eq!(hsv(0.5, 1.0, 1.0), (0.0, 1.0, 1.0));
    assert_eq!(hsv(1.0, 1.0, 1.0), (1.0, 0.0, 0.0));
    assert_eq!(hsv(0.25, 1.0, 1.0), (0.5, 1.0, 0.0));
    assert_eq!(hsv(0.75, 1.0, 0.5), (0.25, 0.0, 0.5));
    assert_eq!(hsv(0.3, 0.0, 0.7), (0.7, 0.7, 0.7));
    let near = |a: (f32, f32, f32), b: (f32, f32, f32)| {
        (a.0 - b.0).abs() < 1e-5 && (a.1 - b.1).abs() < 1e-5 && (a.2 - b.2).abs() < 1e-5
    };
    assert!(near(hsv(1.0 / 3.0, 1.0, 1.0), (0.0, 1.0, 0.0)));
    assert!(near(hsv(0.9, 1.0, 1.0), (1.0, 0.0, 0.6)));
    assert!(near(hsv(0.45, 1.0, 1.0), (0.0, 1.0, 0.7)));
}

#[test]
fn images_have_the_highest_frequency_on_top() {
    let colours: Vec<[u8; 3]> = (1..=6).map(|v| [v, 10 * v, 0]).collect();
    assert_eq!(
        colours_to_rgba(&colours, 2, 3),
        vec![
            5, 50, 0, 255, 6, 60, 0, 255, //
            3, 30, 0, 255, 4, 40, 0, 255, //
            1, 10, 0, 255, 2, 20, 0, 255,
        ]
    );
    assert!(colours_to_rgba(&colours, 0, 3).is_empty());
}

#[test]
fn amplitude_is_shown_in_the_colour_map() {
    let (scaling, palette) = (scaling(0.0, 1.0, 0.0), palette());
    let shade = AmplitudeShade { map: ColorMap::Hot, scaling: &scaling, palette: &palette };
    // Two rows of two: the lower row is stored first and shown last.
    assert_eq!(
        scalogram_to_rgba(&vec![0.0, 0.0, 1.0, 0.0], 2, 2, &shade),
        vec![
            255, 255, 255, 255, 0, 0, 0, 255, //
            0, 0, 0, 255, 0, 0, 0, 255,
        ]
    );
    // Equal amplitudes have equal colours, wherever they stand.
    let rgba = scalogram_to_rgba(&vec![0.3, 0.8, 0.8, 0.3], 2, 2, &shade);
    assert_eq!((&rgba[0..4], &rgba[4..8]), (&rgba[12..16], &rgba[8..12]));
    assert_ne!(rgba[0..4], rgba[4..8]);
}

#[test]
fn phase_is_hue_and_coherence_saturation() {
    let (wheel, palette) = (wheel(2.0), palette());
    let shade = PhaseShade { wheel: &wheel, palette: &palette };
    let rgba = phase_to_rgba(&vec![0.0, 0.0], &vec![1.0, 0.0], 2, 1, &shade);
    assert_eq!(rgba, vec![0, 255, 255, 255, 255, 255, 255, 255]);
    // Half coherence, squared, takes a quarter out of the missing colour.
    let rgba = phase_to_rgba(&vec![0.0, -PI], &vec![0.5, 7.0], 1, 2, &shade);
    assert_eq!(rgba, vec![255, 0, 0, 255, 191, 255, 255, 255]);
}

#[test]
fn combined_images_are_lit_by_amplitude() {
    let (light, wheel, palette) = (scaling(0.0, 2.0, 0.0), wheel(1.0), palette());
    let shade = PhaseShade { wheel: &wheel, palette: &palette };
    let (phase, coherence) = (vec![0.0, 0.0, -PI], vec![1.0, 0.0, 1.0]);
    let show = |a: &Vec<f32>| combined_to_rgba((a, &phase, &coherence), 3, 1, &light, &shade);
    assert_eq!(show(&vec![1.0; 3]), vec![0, 127, 127, 255, 127, 127, 127, 255, 127, 0, 0, 255]);
    // Full amplitude shows what the phase image shows, none is black.
    assert_eq!(show(&vec![2.0; 3]), phase_to_rgba(&phase, &coherence, 3, 1, &shade));
    assert_eq!(show(&vec![0.0; 3]), vec![0, 0, 0, 255, 0, 0, 0, 255, 0, 0, 0, 255]);
}
