use wavescope::colormap::{ColorMap, DisplayMode};
use wavescope::extent::Limits;
use wavescope::geometry::{frequency_at, ridge_points, thumb, window_shares, Panel};
use wavescope::outputs::CrossOutput;
use wavescope::ridge::{export_ridge_csv, extract_ridge};
use wavescope::viewer::{
    AudioInfo, Axes, Effect, Layer, Rendering, Source, Span, Status, WaveletApp,
};
use wavescope::viewport::{
    hit, limit_range, lower, raise, reset_view, wheel, Cursor, FrequencyRange, Hit, Modifiers,
    ScrollbarDrag, Viewport, Wheel,
};
use wavescope::wavelet::CwtParams;
use wavescope::worker::{ComputeRequest, Outcome, WorkerMsg, WorkerResult};
use wavescope::audio::{AudioError, AudioFile};

type App = WaveletApp<f32, f64>;

fn window(a: f64, b: f64) -> Viewport<f64> {
    Viewport { t_start: a, t_end: b }
}

fn same(w: Viewport<f64>, a: f64, b: f64) {
    assert_eq!((w.t_start, w.t_end), (a, b));
}

fn source() -> Source<&'static str, impl Fn(u32, f32, f32) -> (f32, f32), impl Fn(f64) -> usize> {
    Source {
        channels: "data",
        limit: |sr: u32, lo: f32, hi: f32| limit_range(lo, hi, sr as f32 * 0.49, 2.0, 0.99),
        sample: |t: f64| t as usize,
    }
}

fn limits() -> Limits<f32, impl Fn(f32) -> bool> {
    Limits {
        infinity: f32::INFINITY,
        neg_infinity: f32::NEG_INFINITY,
        zero: 0.0,
        one: 1.0,
        is_finite: |v: f32| v.is_finite(),
    }
}

fn fresh() -> App {
    App::new(0.0, 1.0, 0.0, 1.0, CwtParams::default_with(|n: u32| n as f32 / 1000.0))
}

fn stereo() -> AudioInfo {
    AudioInfo { sample_rate: 8000, channels: 2, num_samples: 1000 }
}

fn loaded() -> (App, ComputeRequest<&'static str, f32>) {
    let mut app = fresh();
    let r = app.on_loaded(stereo(), window(0.0, 1000.0), (20.0, 3920.0), source());
    (app, r.unwrap())
}

/// Two channels of two rows and three columns.
fn results() -> Vec<(Vec<f32>, Vec<f32>, Vec<f32>, Vec<f32>)> {
    vec![
        (vec![1.0, 5.0, 2.0, 4.0, 3.0, 6.0], vec![0.1; 6], vec![0.2; 6], vec![0.3; 6]),
        (vec![7.0; 6], vec![1.1; 6], vec![1.2; 6], vec![1.3; 6]),
    ]
}

fn cross() -> Option<CrossOutput<f32>> {
    Some(CrossOutput { phase: vec![0.0; 6], coherence: vec![1.0; 6], amplitude: vec![2.0; 6] })
}

fn computed() -> App {
    let (mut app, _) = loaded();
    app.on_width(3, source());
    app.on_computed(results(), cross(), &limits());
    app
}

#[test]
fn a_new_viewer_is_idle() {
    let app = fresh();
    assert!(app.audio.is_none() && !app.computing);
    assert_eq!(app.status.message(), "Open an audio file to begin.");
    assert_eq!((app.superlet_order, app.last_width_px), (3, 1024));
    assert_eq!(app.colormap, ColorMap::Plasma);
    assert!(app.rebuild_textures().is_empty());
    assert_eq!(app.panels(), 0);
}

#[test]
fn loading_shows_everything_and_computes() {
    let (app, r) = loaded();
    assert_eq!((r.t_start, r.t_end, r.width_pixels), (0, 1000, 1024));
    assert_eq!((r.channels, r.sample_rate, r.superlet_order), ("data", 8000, 1));
    assert!(r.antialias && !r.unweighted);
    assert_eq!(r.params.f_max, 8000.0 * 0.49);
    assert!(app.computing);
    assert_eq!(app.status.message(), "Computing…");
    same(app.pending_compute_viewport, 0.0, 1000.0);
}

#[test]
fn loading_a_mono_file_leaves_the_cross_view() {
    let mut app = computed();
    app.select_mode(DisplayMode::CrossPhase, source());
    app.pick_seed(0.1, 100.0, 0);
    app.vmin = 0.5;
    let mono = AudioInfo { channels: 1, ..stereo() };
    app.on_loaded(mono, window(0.0, 1000.0), (20.0, 3920.0), source());
    assert_eq!(app.display_mode, DisplayMode::Amplitude);
    assert!(app.scalograms.is_empty() && app.cross.is_none() && app.ridge_seed.is_none());
    assert!(!app.norm_captured);
    assert_eq!(app.panel_label(0), "Mono");
}

#[test]
fn nothing_is_computed_without_a_file_or_a_window() {
    let mut app = fresh();
    assert!(app.trigger_compute(100, source()).is_none());
    assert!(!app.computing);
    let (mut app, _) = loaded();
    app.computing = false;
    app.viewport = window(2000.0, 3000.0);
    assert!(app.trigger_compute(100, source()).is_none());
    assert!(!app.computing);
}

#[test]
fn a_change_while_computing_waits_for_the_results() {
    let (mut app, _) = loaded();
    let e = app.set_antialias(false, source());
    assert!(matches!(e, Effect::Nothing));
    assert!(app.pending_compute && !app.antialias);
    app.on_computed(results(), cross(), &limits());
    assert!(!app.computing);
    assert_eq!(app.status.message(), "Ready.");
    let r = app.resume(source()).unwrap();
    assert!(!r.antialias);
    assert!(app.computing && !app.pending_compute);
    app.on_computed(results(), cross(), &limits());
    assert!(app.resume(source()).is_none());
}

#[test]
fn the_brightness_reference_is_captured_once() {
    let mut app = computed();
    assert_eq!((app.data_min, app.data_max, app.vmin, app.vmax), (1.0, 7.0, 1.0, 7.0));
    app.vmin = 2.0;
    let dim = vec![(vec![0.5; 6], vec![0.0; 6], vec![0.0; 6], vec![0.0; 6])];
    app.on_computed(dim, None, &limits());
    assert_eq!((app.data_min, app.data_max, app.vmin, app.vmax), (1.0, 7.0, 2.0, 7.0));
    let e: Effect<(), f32> = app.auto_normalize(&limits());
    assert!(matches!(e, Effect::Rebuild));
    assert_eq!((app.data_min, app.vmin, app.vmax), (0.5, 0.5, 0.5));
    let e: Effect<(), f32> = fresh().auto_normalize(&limits());
    assert!(matches!(e, Effect::Nothing));
}

#[test]
fn extents_skip_what_is_no_number() {
    let l = limits();
    assert_eq!(l.compute_norm(&vec![vec![f32::NAN, 2.0], vec![], vec![-1.0]]), (-1.0, 2.0));
    assert_eq!(l.compute_norm(&vec![]), (0.0, 1.0));
    assert_eq!(l.compute_norm(&vec![vec![f32::INFINITY]]), (0.0, 1.0));
}

#[test]
fn brightness_ends_do_not_cross() {
    let mut app = computed();
    let e: Effect<(), f32> = app.set_brightness(5.0, 4.0);
    assert!(matches!(e, Effect::Rebuild));
    assert_eq!((app.vmin, app.vmax), (4.0, 4.0));
}

#[test]
fn superlet_views_recompute_and_others_render() {
    let mut app = computed();
    match app.select_mode(DisplayMode::Superlet, source()) {
        Effect::Compute(r) => assert_eq!(r.superlet_order, 3),
        other => panic!("{other:?}"),
    }
    app.on_computed(results(), cross(), &limits());
    match app.set_superlet_order(5, source()) {
        Effect::Compute(r) => assert_eq!(r.superlet_order, 5),
        other => panic!("{other:?}"),
    }
    app.on_computed(results(), cross(), &limits());
    match app.select_mode(DisplayMode::Phase, source()) {
        Effect::Compute(r) => assert_eq!(r.superlet_order, 1),
        other => panic!("{other:?}"),
    }
    app.on_computed(results(), cross(), &limits());
    assert!(matches!(app.select_mode(DisplayMode::Combined, source()), Effect::Rebuild));
    let e: Effect<(), f32> = app.select_colormap(ColorMap::Hot);
    assert!(matches!(e, Effect::Rebuild));
    let e: Effect<(), f32> = fresh().select_colormap(ColorMap::Hot);
    assert!(matches!(e, Effect::Nothing));
    assert!(matches!(fresh().set_unweighted(true, source()), Effect::Nothing));
}

#[test]
fn layers_follow_the_mode() {
    let mut app = computed();
    let layer = |ch: usize, rendering: Rendering| Layer::Channel { ch, rendering };
    let cases = [
        (DisplayMode::Amplitude, Rendering::Amplitude, true),
        (DisplayMode::Superlet, Rendering::Amplitude, true),
        (DisplayMode::Phase, Rendering::Phase, false),
        (DisplayMode::Combined, Rendering::Combined, false),
        (DisplayMode::InstFreq, Rendering::InstFreq, true),
        (DisplayMode::Synchro, Rendering::Synchro, true),
        (DisplayMode::SynchroPhase, Rendering::SynchroPhase, false),
    ];
    for (mode, r, smooth) in cases {
        app.display_mode = mode;
        assert_eq!(app.rebuild_textures(), vec![layer(0, r), layer(1, r)]);
        assert_eq!(app.smooth(), smooth);
    }
    app.display_mode = DisplayMode::CrossPhase;
    assert_eq!(app.rebuild_textures(), vec![Layer::Cross]);
    assert_eq!((app.panels(), app.panel_label(0).as_str()), (1, "Δφ L−R"));
    assert_eq!(app.mode_controls(), (false, true, false));
    app.cross = None;
    assert_eq!(app.rebuild_textures().len(), 2);
    assert_eq!((app.panels(), app.panel_label(1).as_str()), (2, "R"));
    app.display_mode = DisplayMode::Phase;
    app.phases.clear();
    app.scalograms[0].truncate(2);
    assert_eq!(app.rebuild_textures(), vec![layer(1, Rendering::Amplitude)]);
    app.audio = Some(AudioInfo { channels: 5, ..stereo() });
    assert_eq!(app.panel_label(3), "Ch 4");
}

#[test]
fn cross_phase_is_offered_for_two_channels() {
    assert_eq!(fresh().display_modes().len(), 7);
    let (app, _) = loaded();
    assert_eq!(app.display_modes().len(), 8);
    assert_eq!(app.display_modes()[7], DisplayMode::CrossPhase);
}

#[test]
fn a_clear_change_of_width_recomputes() {
    let mut app = computed();
    assert_eq!(app.last_width_px, 3);
    assert!(app.on_width(35, source()).is_none());
    assert_eq!(app.last_width_px, 35);
    assert_eq!(app.on_width(68, source()).unwrap().width_pixels, 68);
    assert!(app.on_width(500, source()).is_none(), "a computation is under way");
    assert_eq!(app.last_width_px, 500);
}

#[test]
fn views_are_applied() {
    let mut app = computed();
    let r = app.apply_view(window(100.0, 300.0), (50.0, 500.0), 7, source()).unwrap();
    assert_eq!((r.t_start, r.t_end, r.width_pixels), (100, 300, 7));
    assert_eq!((r.params.f_min, r.params.f_max), (50.0, 500.0));
    assert!(app.apply_view(window(0.0, 10.0), (50.0, 500.0), 7, source()).is_none());
    assert!(app.pending_compute);
}

#[test]
fn errors_are_shown() {
    let (mut app, _) = loaded();
    app.on_error("boom".to_string());
    assert!(!app.computing);
    assert_eq!(app.error_msg.as_deref(), Some("boom"));
    assert_eq!(app.status.message(), "Error: boom");
    app.start_loading();
    assert!(app.computing && app.error_msg.is_none());
    assert_eq!(app.status.message(), "Loading…");
    app.on_exported("a.csv".to_string(), None);
    assert_eq!(app.status.message(), "Ridge exported: a.csv");
    app.on_exported("a.csv".to_string(), Some("disk full".to_string()));
    assert_eq!(app.error_msg.as_deref(), Some("CSV write failed: disk full"));
    assert!(matches!(app.status, Status::Exported(_)));
}

#[test]
fn ridges_follow_the_maximum() {
    // Four rows, five columns; the maximum climbs by one row per column, then jumps away.
    let amp = vec![
        9.0, 1.0, 1.0, 1.0, 8.0, //
        1.0, 9.0, 1.0, 1.0, 1.0, //
        1.0, 1.0, 9.0, 1.0, 1.0, //
        1.0, 1.0, 1.0, 9.0, 1.0,
    ];
    assert_eq!(extract_ridge(&amp, 5, Some((2, 0))), Some(vec![0, 1, 2, 3, 3]));
    assert_eq!(extract_ridge(&amp, 5, Some((2, 99))), Some(vec![0, 1, 2, 3, 3]));
    assert_eq!(extract_ridge(&amp, 5, Some((5, 0))), None);
    assert_eq!(extract_ridge(&amp, 5, None), None);
    assert_eq!(extract_ridge(&amp, 0, Some((0, 0))), None);
    assert_eq!(extract_ridge(&amp, 20, Some((0, 0))), None);
}

#[test]
fn ridges_step_by_at_most_two_rows_both_ways() {
    // Eight rows, two columns. The seed's column leads from row 0 over row 3 to row 5,
    // and the column before it is searched from row 5, not from row 3.
    let mut amp = vec![0.0; 16];
    amp[2] = 9.0;
    amp[7] = 1.0;
    amp[11] = 2.0;
    let rows = extract_ridge(&amp, 2, Some((1, 0))).unwrap();
    assert_eq!(rows[1], 5);
    assert!(rows[0].abs_diff(rows[1]) <= 2);
    assert_eq!(rows[0], 7);
}

#[test]
fn ridge_ties_go_up() {
    assert_eq!(extract_ridge(&vec![2.0, 2.0, 1.0], 1, Some((0, 0))), Some(vec![1]));
    assert_eq!(extract_ridge(&vec![2.0, f32::NAN], 1, Some((0, 0))), Some(vec![1]));
}

#[test]
fn the_seed_searches_further_than_a_step() {
    // Only the first search reaches row 3 from row 0.
    let amp = vec![1.0, 0.0, 0.0, 5.0, 0.0, 9.0];
    assert_eq!(extract_ridge(&amp, 1, Some((0, 0))), Some(vec![5]));
    assert_eq!(extract_ridge(&amp, 1, Some((0, 1))), Some(vec![5]));
    let far = vec![1.0, 0.0, 0.0, 0.0, 5.0];
    assert_eq!(extract_ridge(&far, 1, Some((0, 0))), Some(vec![0]));
}

#[test]
fn the_viewer_tracks_its_seed() {
    let mut app = computed();
    app.pick_seed(0.05, 200.0, 0);
    app.update_ridge(Some((1, 0)));
    // A tie would go to the upper row; here the first column has its maximum on top.
    assert_eq!(app.ridge_rows, Some(vec![1, 0, 1]));
    assert!(app.shows_ridge(0) && !app.shows_ridge(1));
    app.display_mode = DisplayMode::CrossPhase;
    assert!(app.shows_ridge(0));
    app.pick_seed(0.05, 200.0, 1);
    assert_eq!(app.ridge_seed.unwrap().ch, 0);
    app.update_ridge(None);
    assert!(app.ridge_rows.is_none() && !app.shows_ridge(0));
    app.clear_ridge();
    app.update_ridge(Some((1, 0)));
    assert!(app.ridge_rows.is_none());
}

#[test]
fn ridges_export_line_by_line() {
    let line = |c: usize, r: usize, i: usize| format!("{c},{r},{i}\n");
    let csv = export_ridge_csv(&vec![1, 0, 2], 3, 3, line).unwrap();
    assert_eq!(
        csv,
        "time_s,f_row_hz,f_inst_hz,rel_dev,amplitude,phase_rad,coherence\n0,1,3\n1,0,1\n2,2,8\n"
    );
    assert!(export_ridge_csv(&vec![0], 2, 3, line).is_none());
    assert!(export_ridge_csv(&vec![0], 1, 1, line).is_none());
    assert!(export_ridge_csv(&vec![], 0, 3, line).is_none());
}

fn axes() -> Axes<
    f64,
    impl Fn(usize) -> f64,
    impl Fn(f64) -> usize,
    impl Fn(f64) -> f64,
    impl Fn(f64, usize) -> usize,
> {
    Axes {
        zero: 0.0,
        number: |n: usize| n as f64,
        whole: |v: f64| v as usize,
        ln: |v: f64| v.ln(),
        nearest: |v: f64, n: usize| v.round().clamp(0.0, (n - 1) as f64) as usize,
    }
}

#[test]
fn seeds_are_located_in_the_window() {
    let a = axes();
    let w = window(100.0, 300.0);
    assert_eq!(a.column(0.2, 1000.0, w, 10), Some(5));
    assert_eq!(a.column(0.1, 1000.0, w, 10), Some(0));
    assert_eq!(a.column(0.3, 1000.0, w, 10), None);
    assert_eq!(a.column(0.09, 1000.0, w, 10), None);
    assert_eq!(a.column(0.1, 1000.0, window(5.0, 5.0), 10), None);
    assert_eq!(a.row(200.0, 100.0, 400.0, 5), Some(2));
    assert_eq!(a.row(10.0, 100.0, 400.0, 5), Some(0));
    assert_eq!(a.row(9000.0, 100.0, 400.0, 5), Some(4));
    assert_eq!(a.row(200.0, 400.0, 400.0, 5), None);
}

#[test]
fn panning_stays_in_the_recording() {
    let w = window(100.0, 300.0);
    same(w.pan(0.0, 1000.0, 50.0), 150.0, 350.0);
    same(w.pan(0.0, 1000.0, -500.0), 0.0, 200.0);
    same(w.pan(0.0, 1000.0, 5000.0), 800.0, 1000.0);
    same(window(0.0, 2000.0).pan(0.0, 1000.0, 10.0), 0.0, 1000.0);
    same(w.centre_on(0.0, 1000.0, 2.0, 500.0), 400.0, 600.0);
    same(w.centre_on(0.0, 1000.0, 2.0, 10.0), 0.0, 200.0);
}

#[test]
fn edges_keep_the_shortest_window() {
    let w = window(100.0, 300.0);
    same(w.resize_left(0.0, 8.0, 50.0), 150.0, 300.0);
    same(w.resize_left(0.0, 8.0, -500.0), 0.0, 300.0);
    same(w.resize_left(0.0, 8.0, 500.0), 292.0, 300.0);
    same(w.resize_right(1000.0, 8.0, 50.0), 100.0, 350.0);
    same(w.resize_right(1000.0, 8.0, 5000.0), 100.0, 1000.0);
    same(w.resize_right(1000.0, 8.0, -500.0), 100.0, 108.0);
}

#[test]
fn zooming_scales_around_a_point() {
    let w = window(100.0, 300.0);
    assert_eq!(w.point_at(0.25), 150.0);
    same(w.zoom(0.0, 1000.0, 8.0, 150.0, 0.5), 125.0, 225.0);
    same(w.zoom(0.0, 1000.0, 8.0, 150.0, 4.0), 0.0, 750.0);
    same(w.zoom(0.0, 1000.0, 8.0, 150.0, 0.001), 149.95, 157.95);
}

#[test]
fn the_wheel_pans_and_zooms() {
    let none = Modifiers { alt: false, shift: false, ctrl: false, command: false };
    let w = |x: f32, y: f32, m: Modifiers| wheel(0.0, 0.5, |v: f32| v.abs(), x, y, m);
    assert_eq!(w(0.0, 10.0, none), Wheel::ZoomTime(true));
    assert_eq!(w(0.0, -10.0, none), Wheel::ZoomTime(false));
    assert_eq!(w(0.0, 0.5, none), Wheel::Nothing);
    assert_eq!(w(3.0, 10.0, none), Wheel::PanTime(3.0));
    let alt = Modifiers { alt: true, ..none };
    assert_eq!(w(0.0, 10.0, alt), Wheel::PanTime(10.0));
    let shift = Modifiers { shift: true, ..none };
    assert_eq!(w(0.0, 10.0, shift), Wheel::PanFreq(10.0));
    assert_eq!(w(-20.0, 10.0, shift), Wheel::PanFreq(-20.0));
    assert_eq!(w(0.1, 0.2, shift), Wheel::Nothing);
    assert_eq!(w(0.0, 10.0, Modifiers { ctrl: true, ..none }), Wheel::Nothing);
    assert_eq!(w(0.0, 10.0, Modifiers { command: true, ..none }), Wheel::Nothing);
}

fn range() -> FrequencyRange<f64, f32, impl Fn(f64) -> f64, impl Fn(f64) -> f32> {
    FrequencyRange {
        ln: |v: f64| v.ln(),
        exp: |v: f64| v.exp() as f32,
        low: (0.5, 20_000.0),
        high: (1.0, 22_050.0),
        half: 0.5,
        log_limits: (0.5f64.ln(), 22_050.0f64.ln()),
        per_point: 0.002,
    }
}

#[test]
fn frequency_zooms_and_pans_in_log_space() {
    let r = range();
    let (lo, hi) = r.zoom_freq(0.5, 0.5, 100.0, 10_000.0);
    assert!((lo - 316.2278).abs() < 0.01 && (hi - 3162.278).abs() < 0.1, "{lo} {hi}");
    let (lo, hi) = r.zoom_freq(0.5, 100.0, 100.0, 10_000.0);
    assert_eq!((lo, hi), (0.5, 22_050.0));
    let (lo, hi) = r.zoom_freq(0.0, 0.0, 100.0, 10_000.0);
    assert!((hi - 10_000.0).abs() < 1.0 && lo == hi * 0.5, "{lo} {hi}");
    let (lo, hi) = r.pan_freq(50.0, 100.0, 1000.0);
    assert!((hi / lo - 10.0).abs() < 1e-3 && (lo - 125.8925).abs() < 0.01, "{lo} {hi}");
    let (lo, hi) = r.pan_freq(1e6, 100.0, 1000.0);
    assert!((hi - 22_050.0).abs() < 0.1 && (hi / lo - 10.0).abs() < 1e-3);
    let (lo, _) = r.pan_freq(-1e6, 100.0, 1000.0);
    assert!((lo - 0.5).abs() < 1e-4);
    assert_eq!(limit_range(20.0, 20_000.0, 3920.0, 2.0, 0.99), (20.0, 3920.0));
    assert_eq!(limit_range(5000.0, 20_000.0, 100.0, 2.0, 0.5), (50.0, 100.0));
    assert_eq!(limit_range(0.1, 0.2, 100.0, 2.0, 0.5), (0.1, 2.0));
}

#[test]
fn zooming_keeps_the_frequency_under_the_cursor() {
    let r = range();
    for ry in [0.0, 0.25, 0.6, 1.0] {
        let (lo, hi) = r.zoom_freq(ry, 0.5, 100.0, 10_000.0);
        let (lo, hi) = ((lo as f64).ln(), (hi as f64).ln());
        let cursor = 10_000.0f64.ln() - ry * 100.0f64.ln();
        assert!((hi - ry * (hi - lo) - cursor).abs() < 1e-5);
        assert!((hi - lo - 0.5 * 100.0f64.ln()).abs() < 1e-5);
    }
}

#[test]
fn what_is_not_a_number_does_not_limit() {
    assert_eq!((raise(1.0, 2.0), raise(3.0, 2.0)), (2.0, 3.0));
    assert_eq!((lower(1.0, 2.0), lower(3.0, 2.0)), (1.0, 2.0));
    assert_eq!((raise(f64::NAN, 2.0), raise(2.0, f64::NAN)), (2.0, 2.0));
    assert_eq!((lower(f64::NAN, 2.0), lower(2.0, f64::NAN)), (2.0, 2.0));
}

#[test]
fn the_scrollbar_grabs_edges_first() {
    let h = |x: f32| hit(|v: f32| v.abs(), x, 100.0, 200.0, 6.0);
    assert_eq!(h(95.0), Hit::LeftEdge);
    assert_eq!(h(106.0), Hit::LeftEdge);
    assert_eq!(h(206.0), Hit::RightEdge);
    assert_eq!(h(150.0), Hit::Body);
    assert_eq!(h(50.0), Hit::Track);
    assert_eq!(h(207.0), Hit::Track);
    assert_eq!(ScrollbarDrag::Nothing.cursor(Some(Hit::LeftEdge)), Cursor::ResizeHorizontal);
    assert_eq!(ScrollbarDrag::Nothing.cursor(Some(Hit::Body)), Cursor::Grab);
    assert_eq!(ScrollbarDrag::Nothing.cursor(Some(Hit::Track)), Cursor::Default);
    assert_eq!(ScrollbarDrag::Nothing.cursor(None), Cursor::Default);
    assert_eq!(ScrollbarDrag::Pan.cursor(None), Cursor::Grabbing);
    assert_eq!(ScrollbarDrag::ResizeRight.cursor(None), Cursor::ResizeHorizontal);
}

#[test]
fn dragging_the_scrollbar() {
    let span = Span { zero: 0.0, total: 1000.0, min_len: 8.0 };
    let mut app = computed();
    app.viewport = window(100.0, 300.0);
    app.scrollbar_press(Hit::Track, span, 2.0, 700.0);
    same(app.viewport, 600.0, 800.0);
    assert!(app.panning);
    app.scrollbar_move(span, -100.0);
    same(app.viewport, 500.0, 700.0);
    app.scrollbar_release();
    assert!(!app.panning && app.scrollbar_drag == ScrollbarDrag::Nothing);
    app.scrollbar_move(span, 50.0);
    same(app.viewport, 500.0, 700.0);
    app.scrollbar_press(Hit::LeftEdge, span, 2.0, 0.0);
    app.scrollbar_move(span, 50.0);
    same(app.viewport, 550.0, 700.0);
    app.scrollbar_press(Hit::RightEdge, span, 2.0, 0.0);
    app.scrollbar_move(span, 50.0);
    same(app.viewport, 550.0, 750.0);
    assert!(!app.panning);
    app.scrollbar_press(Hit::Body, span, 2.0, 0.0);
    assert_eq!(app.scrollbar_drag, ScrollbarDrag::Pan);
    same(app.viewport, 550.0, 750.0);
    app.drag_pan(span, 10.0);
    same(app.viewport, 560.0, 760.0);
    assert!(app.panning);
}

#[test]
fn images_slide_within_their_panel() {
    let p = Panel { left: 10.0, right: 110.0, width: 100.0, zero: 0.0, one: 1.0 };
    let size = |v: f32| v.abs();
    let s = p.slide(size, 25.0).unwrap();
    assert_eq!((s.x0, s.x1, s.u0, s.u1), (35.0, 110.0, 0.0, 0.75));
    let s = p.slide(size, -25.0).unwrap();
    assert_eq!((s.x0, s.x1, s.u0, s.u1), (10.0, 85.0, 0.25, 1.0));
    assert!(p.slide(size, 100.0).is_none());
    assert!(p.slide(size, -150.0).is_none());
}

#[test]
fn thumbs_show_the_window() {
    assert_eq!(window_shares(0.0, 1.0, window(250.0, 1500.0), 1000.0), (0.25, 1.0));
    assert_eq!(thumb(10.0, 100.0, 0.25, 0.5, 6.0), (35.0, 60.0));
    assert_eq!(thumb(10.0, 100.0, 0.25, 0.26, 6.0), (35.0, 41.0));
}

#[test]
fn the_pointer_reads_a_frequency() {
    let f = |ry: f64| frequency_at(|v: f64| v.ln(), |v: f64| v.exp(), 100.0, 400.0, ry);
    assert!((f(0.0) - 400.0).abs() < 1e-9);
    assert!((f(0.5) - 200.0).abs() < 1e-9);
    assert!((f(1.0) - 100.0).abs() < 1e-9);
}

#[test]
fn ridge_lines_are_cut_at_the_panel() {
    let pts = ridge_points(&vec![3, 4, 5], 1, 2, |c: usize, r: usize| (c as i32, r as i32));
    assert_eq!(pts, vec![(1, 4), (2, 5)]);
}

#[test]
fn the_newest_message_counts() {
    let load = |p: &str| WorkerMsg::<(), f32>::LoadFile { path: p.to_string() };
    let compute = |w: usize| {
        WorkerMsg::Compute(ComputeRequest {
            channels: (),
            sample_rate: 1,
            t_start: 0,
            t_end: 1,
            width_pixels: w,
            params: CwtParams::default_with(|n: u32| n as f32),
            antialias: true,
            unweighted: false,
            superlet_order: 1,
        })
    };
    assert!(!load("a").drains_queue() && compute(1).drains_queue());
    match compute(1).newest(vec![compute(2), compute(3)]) {
        WorkerMsg::Compute(r) => assert_eq!(r.width_pixels, 3),
        other => panic!("{other:?}"),
    }
    match compute(1).newest(vec![]) {
        WorkerMsg::Compute(r) => assert_eq!(r.width_pixels, 1),
        other => panic!("{other:?}"),
    }
    match compute(1).newest(vec![load("b")]) {
        WorkerMsg::LoadFile { path } => assert_eq!(path, "b"),
        other => panic!("{other:?}"),
    }
}

#[test]
fn the_worker_answers() {
    let text = |r: WorkerResult<f32>| match r {
        WorkerResult::Error(e) => e,
        other => panic!("{other:?}"),
    };
    assert_eq!(text(WorkerResult::of_init_failure("none")), "GPU init: none");
    assert_eq!(text(WorkerResult::of_load(Err(AudioError::OpenFlac))), "Cannot open FLAC file");
    assert_eq!(text(WorkerResult::of_compute(Outcome::Failed("x".to_string()))), "x");
    assert_eq!(
        text(WorkerResult::of_compute(Outcome::Aborted)),
        "GPU compute failed — try fewer scales or a smaller window"
    );
    let file = AudioFile {
        sample_rate: 5,
        channels: vec![vec![1.0f32]],
        duration_secs: 0.2,
        path: String::new(),
    };
    assert!(matches!(WorkerResult::of_load(Ok(file)), WorkerResult::Loaded(f) if f.sample_rate == 5));
    match WorkerResult::of_compute(Outcome::Finished((results(), cross()))) {
        WorkerResult::Computed { channels, cross } => {
            assert_eq!(channels.len(), 2);
            assert!(cross.is_some());
        }
        other => panic!("{other:?}"),
    }
}

#[test]
fn resetting_shows_the_whole_recording() {
    let (view, range) = reset_view(0.0f64, 12.5, |n: u32| n as f32);
    assert_eq!((view.t_start, view.t_end), (0.0, 12.5));
    assert_eq!(range, (20.0, 20_000.0));
}
