//! The viewer's state: what is shown, what is being computed, and what every event does.

use std::ops::{Add, Div, Mul, Sub};
use vstd::prelude::*;
use vstd::string::StringExecFns;

use crate::colormap::{ColorMap, DisplayMode};
use crate::extent::Limits;
use crate::numeric;
use crate::outputs::{CrossOutput, CwtOutput};
#[allow(unused_imports)]
use crate::plan;
#[allow(unused_imports)]
use crate::reals;
use crate::ridge;
use crate::text;
#[allow(unused_imports)]
use crate::viewport;
use crate::viewport::{Hit, ScrollbarDrag, Viewport};
use crate::wavelet::CwtParams;
use crate::worker::ComputeRequest;

verus! {

/// What the viewer knows of the loaded file.
#[derive(Clone, Copy, Debug, PartialEq, Eq, Structural)]
pub struct AudioInfo {
    pub sample_rate: u32,
    pub channels: usize,
    /// Samples of the first channel.
    pub num_samples: usize,
}

/// Ridge seed picked on the scalogram, in physical coordinates, so that it survives pans,
/// zooms and recomputes.
#[derive(Clone, Copy, Debug)]
pub struct RidgeSeed<V> {
    pub t_sec: V,
    pub f_hz: V,
    pub ch: usize,
}

/// The status line.
#[derive(Debug)]
pub enum Status {
    Idle,
    Loading,
    Computing,
    Ready,
    Failed(String),
    Exported(String),
}

impl Status {
    pub open spec fn text(self) -> Seq<char> {
        match self {
            Status::Idle => "Open an audio file to begin."@,
            Status::Loading => "Loading…"@,
            Status::Computing => "Computing…"@,
            Status::Ready => "Ready."@,
            Status::Failed(e) => "Error: "@ + e@,
            Status::Exported(path) => "Ridge exported: "@ + path@,
        }
    }

    pub fn message(&self) -> (s: String)
        ensures
            s@ == self.text(),
    {
        match self {
            Status::Idle => "Open an audio file to begin.".to_owned(),
            Status::Loading => "Loading…".to_owned(),
            Status::Computing => "Computing…".to_owned(),
            Status::Ready => "Ready.".to_owned(),
            Status::Failed(e) => "Error: ".to_owned().concat(e.as_str()),
            Status::Exported(path) => "Ridge exported: ".to_owned().concat(path.as_str()),
        }
    }
}

/// What a change asks for.
#[derive(Debug)]
pub enum Effect<C, F> {
    Nothing,
    /// Render the images anew.
    Rebuild,
    /// Hand this request to the worker.
    Compute(ComputeRequest<C, F>),
}

/// What a request is made from: the audio data, the limits that a sample rate puts on the
/// frequency range, and the sample that a point in time falls on.
pub struct Source<C, L, S> {
    pub channels: C,
    pub limit: L,
    pub sample: S,
}

/// The viewer. `F` is the number type of images and parameters, `V` that of time.
#[derive(Debug)]
pub struct WaveletApp<F, V> {
    pub audio: Option<AudioInfo>,
    /// Amplitude images, `[scale * width + col]`, one per channel.
    pub scalograms: Vec<Vec<F>>,
    pub phases: Vec<Vec<F>>,
    pub coherences: Vec<Vec<F>>,
    pub inst_devs: Vec<Vec<F>>,
    pub cross: Option<CrossOutput<F>>,
    pub scalogram_width: usize,
    pub ridge_seed: Option<RidgeSeed<V>>,
    /// Row of the ridge in every column.
    pub ridge_rows: Option<Vec<usize>>,
    /// Window that is shown.
    pub viewport: Viewport<V>,
    /// Window that the current images were computed for.
    pub tex_viewport: Viewport<V>,
    /// Window of the computation under way.
    pub pending_compute_viewport: Viewport<V>,
    /// A smooth pan is under way.
    pub panning: bool,
    pub scrollbar_drag: ScrollbarDrag,
    pub params: CwtParams<F>,
    pub colormap: ColorMap,
    pub display_mode: DisplayMode,
    /// Brightness window, in raw amplitude.
    pub vmin: F,
    pub vmax: F,
    /// Extent of the data when it was captured.
    pub data_min: F,
    pub data_max: F,
    /// The brightness reference is frozen.
    pub norm_captured: bool,
    pub antialias: bool,
    pub unweighted: bool,
    /// Passes of the superlet view.
    pub superlet_order: u32,
    pub computing: bool,
    pub pending_compute: bool,
    pub last_width_px: usize,
    pub error_msg: Option<String>,
    pub status: Status,
}

impl<F: Copy, V: Copy> WaveletApp<F, V> {
    /// The viewer before anything is loaded.
    pub fn new(zero: F, one: F, start: V, end: V, params: CwtParams<F>) -> (app: WaveletApp<F, V>)
        ensures
            app.audio is None,
            app.scalograms@.len() == 0,
            app.phases@.len() == 0,
            app.coherences@.len() == 0,
            app.inst_devs@.len() == 0,
            app.cross is None,
            app.scalogram_width == 0,
            app.ridge_seed is None,
            app.ridge_rows is None,
            app.viewport == (Viewport { t_start: start, t_end: end }),
            app.tex_viewport == app.viewport,
            app.pending_compute_viewport == app.viewport,
            !app.panning,
            app.scrollbar_drag == ScrollbarDrag::Nothing,
            app.params == params,
            app.colormap == ColorMap::Plasma,
            app.display_mode == DisplayMode::Amplitude,
            app.vmin == zero && app.data_min == zero,
            app.vmax == one && app.data_max == one,
            !app.norm_captured,
            app.antialias,
            !app.unweighted,
            app.superlet_order == 3,
            !app.computing,
            !app.pending_compute,
            app.last_width_px == 1024,
            app.error_msg is None,
            app.status == Status::Idle,
    {
        let viewport = Viewport { t_start: start, t_end: end };
        WaveletApp {
            audio: None,
            scalograms: Vec::new(),
            phases: Vec::new(),
            coherences: Vec::new(),
            inst_devs: Vec::new(),
            cross: None,
            scalogram_width: 0,
            ridge_seed: None,
            ridge_rows: None,
            viewport,
            tex_viewport: viewport,
            pending_compute_viewport: viewport,
            panning: false,
            scrollbar_drag: ScrollbarDrag::Nothing,
            params,
            colormap: ColorMap::Plasma,
            display_mode: DisplayMode::Amplitude,
            vmin: zero,
            vmax: one,
            data_min: zero,
            data_max: one,
            norm_captured: false,
            antialias: true,
            unweighted: false,
            superlet_order: 3,
            computing: false,
            pending_compute: false,
            last_width_px: 1024,
            error_msg: None,
            status: Status::Idle,
        }
    }

    /// Passes that a computation takes: extra ones are paid only while the view needs them.
    pub open spec fn order(self) -> u32 {
        if self.display_mode == DisplayMode::Superlet {
            self.superlet_order
        } else {
            1
        }
    }

    /// `new` and `r` are the state and the request after a computation was triggered: within
    /// limits for the sample rate, for the visible samples, if there are any.
    pub open spec fn triggered<C, L: Fn(u32, F, F) -> (F, F), S: Fn(V) -> usize>(
        self,
        width_px: usize,
        source: Source<C, L, S>,
        new: WaveletApp<F, V>,
        r: Option<ComputeRequest<C, F>>,
    ) -> bool {
        match self.audio {
            None => new == self && r is None,
            Some(a) => exists|f: (F, F), t0: usize, t1: usize|
                {
                    &&& #[trigger] call_ensures(
                        source.limit,
                        (a.sample_rate, self.params.f_min, self.params.f_max),
                        f,
                    )
                    &&& #[trigger] call_ensures(source.sample, (self.viewport.t_start,), t0)
                    &&& #[trigger] call_ensures(source.sample, (self.viewport.t_end,), t1)
                    &&& self.triggered_for(width_px, source, a, f, t0, t1, new, r)
                },
        }
    }

    pub open spec fn triggered_for<C, L, S>(
        self,
        width_px: usize,
        source: Source<C, L, S>,
        a: AudioInfo,
        f: (F, F),
        t0: usize,
        t1: usize,
        new: WaveletApp<F, V>,
        r: Option<ComputeRequest<C, F>>,
    ) -> bool {
        let params = CwtParams { f_min: f.0, f_max: f.1, ..self.params };
        let end = plan::min_of(t1 as int, a.num_samples as int) as usize;
        if t0 >= end {
            new == (WaveletApp { params, ..self }) && r is None
        } else {
            &&& new == (WaveletApp {
                params,
                pending_compute_viewport: self.viewport,
                computing: true,
                pending_compute: false,
                status: Status::Computing,
                ..self
            })
            &&& r == Some(
                ComputeRequest {
                    channels: source.channels,
                    sample_rate: a.sample_rate,
                    t_start: t0,
                    t_end: end,
                    width_pixels: width_px,
                    params,
                    antialias: self.antialias,
                    unweighted: self.unweighted,
                    superlet_order: self.order(),
                },
            )
        }
    }

    /// A request is for what is in view and set: the samples from the window's start to its
    /// end or that of the recording, at the width asked for, within the limits of the sample
    /// rate, with the switches as they are, and with more than one pass only for the superlet
    /// view. `at` is the sample that a point in time falls on.
    pub proof fn requests_follow_the_view<C, L: Fn(u32, F, F) -> (F, F), S: Fn(V) -> usize>(
        self,
        at: spec_fn(V) -> usize,
        limits: spec_fn(u32, F, F) -> (F, F),
        width_px: usize,
        source: Source<C, L, S>,
        new: WaveletApp<F, V>,
        r: Option<ComputeRequest<C, F>>,
    )
        requires
            forall|t: V, n: usize| #[trigger] call_ensures(source.sample, (t,), n) ==> n == at(t),
            forall|sr: u32, lo: F, hi: F, f: (F, F)| #[trigger]
                call_ensures(source.limit, (sr, lo, hi), f) ==> f == limits(sr, lo, hi),
            self.triggered(width_px, source, new, r),
        ensures
            r is Some <==> self.audio is Some && at(self.viewport.t_start) < at(self.viewport.t_end)
                && at(self.viewport.t_start) < self.audio->0.num_samples,
            r matches Some(q) ==> {
                let a = self.audio->0;
                &&& q.channels == source.channels
                &&& q.sample_rate == a.sample_rate
                &&& q.t_start == at(self.viewport.t_start)
                &&& q.t_end == at(self.viewport.t_end) || q.t_end == a.num_samples
                &&& q.t_end <= at(self.viewport.t_end) && q.t_end <= a.num_samples
                &&& q.width_pixels == width_px
                &&& (q.params.f_min, q.params.f_max) == limits(
                    a.sample_rate,
                    self.params.f_min,
                    self.params.f_max,
                )
                &&& q.params == (CwtParams {
                    f_min: q.params.f_min,
                    f_max: q.params.f_max,
                    ..self.params
                })
                &&& new.params == q.params
                &&& q.antialias == self.antialias
                &&& q.unweighted == self.unweighted
                &&& self.display_mode == DisplayMode::Superlet ==> q.superlet_order
                    == self.superlet_order
                &&& self.display_mode != DisplayMode::Superlet ==> q.superlet_order == 1
                &&& new.computing && !new.pending_compute && new.status == Status::Computing
                &&& new.pending_compute_viewport == self.viewport
            },
            new.viewport == self.viewport,
            new.tex_viewport == self.tex_viewport,
            new.display_mode == self.display_mode,
            new.scalograms == self.scalograms,
            new.antialias == self.antialias,
            new.unweighted == self.unweighted,
            new.superlet_order == self.superlet_order,
            new.last_width_px == self.last_width_px,
            r is None ==> new.computing == self.computing && new.pending_compute
                == self.pending_compute,
    {
    }

    /// Triggers a computation of the visible window.
    pub fn trigger_compute<C, L: Fn(u32, F, F) -> (F, F), S: Fn(V) -> usize>(
        &mut self,
        width_px: usize,
        source: Source<C, L, S>,
    ) -> (r: Option<ComputeRequest<C, F>>)
        requires
            forall|sr: u32, lo: F, hi: F| call_requires(source.limit, (sr, lo, hi)),
            forall|t: V| call_requires(source.sample, (t,)),
        ensures
            old(self).triggered(width_px, source, *final(self), r),
    {
        let a: AudioInfo = match self.audio {
            Some(a) => a,
            None => {
                return None;
            },
        };
        let f: (F, F) = (source.limit)(a.sample_rate, self.params.f_min, self.params.f_max);
        self.params.f_min = f.0;
        self.params.f_max = f.1;
        let t0: usize = (source.sample)(self.viewport.t_start);
        let t1: usize = (source.sample)(self.viewport.t_end);
        let end: usize = if t1 <= a.num_samples {
            t1
        } else {
            a.num_samples
        };
        if t0 >= end {
            assert(old(self).triggered_for(width_px, source, a, f, t0, t1, *self, None));
            return None;
        }
        let superlet_order: u32 = if self.display_mode == DisplayMode::Superlet {
            self.superlet_order
        } else {
            1
        };
        let request = ComputeRequest {
            channels: source.channels,
            sample_rate: a.sample_rate,
            t_start: t0,
            t_end: end,
            width_pixels: width_px,
            params: self.params,
            antialias: self.antialias,
            unweighted: self.unweighted,
            superlet_order,
        };
        self.pending_compute_viewport = self.viewport;
        self.computing = true;
        self.pending_compute = false;
        self.status = Status::Computing;
        assert(old(self).triggered_for(width_px, source, a, f, t0, t1, *self, Some(request)));
        Some(request)
    }

    /// `new` and `r` are the state and the request after a recompute was asked for: while
    /// a computation is under way it is remembered, else it is triggered.
    pub open spec fn requested<C, L: Fn(u32, F, F) -> (F, F), S: Fn(V) -> usize>(
        self,
        width_px: usize,
        source: Source<C, L, S>,
        new: WaveletApp<F, V>,
        r: Option<ComputeRequest<C, F>>,
    ) -> bool {
        if self.computing {
            new == (WaveletApp { pending_compute: true, ..self }) && r is None
        } else {
            self.triggered(width_px, source, new, r)
        }
    }

    /// Asks for a recompute.
    pub fn request_recompute<C, L: Fn(u32, F, F) -> (F, F), S: Fn(V) -> usize>(
        &mut self,
        width_px: usize,
        source: Source<C, L, S>,
    ) -> (r: Option<ComputeRequest<C, F>>)
        requires
            forall|sr: u32, lo: F, hi: F| call_requires(source.limit, (sr, lo, hi)),
            forall|t: V| call_requires(source.sample, (t,)),
        ensures
            old(self).requested(width_px, source, *final(self), r),
    {
        if self.computing {
            self.pending_compute = true;
            None
        } else {
            self.trigger_compute(width_px, source)
        }
    }
}

/// How one channel's image is rendered.
#[derive(Clone, Copy, Debug, PartialEq, Eq, Structural)]
pub enum Rendering {
    Amplitude,
    Phase,
    Combined,
    InstFreq,
    Synchro,
    SynchroPhase,
}

/// An image to render.
#[derive(Clone, Copy, Debug, PartialEq, Eq, Structural)]
pub enum Layer {
    /// The cross spectrum.
    Cross,
    Channel { ch: usize, rendering: Rendering },
}

impl<F: Copy, V: Copy> WaveletApp<F, V> {
    /// The cross-phase view is selected and there is a cross spectrum.
    pub open spec fn crossed(self) -> bool {
        self.display_mode == DisplayMode::CrossPhase && self.cross is Some
    }

    pub fn cross_active(&self) -> (b: bool)
        ensures
            b <==> self.crossed(),
    {
        self.display_mode == DisplayMode::CrossPhase && self.cross.is_some()
    }

    /// Images are interpolated between pixels.
    pub open spec fn interpolates(self) -> bool {
        self.display_mode == DisplayMode::Amplitude || self.display_mode == DisplayMode::InstFreq
            || self.display_mode == DisplayMode::Synchro || self.display_mode
            == DisplayMode::Superlet
    }

    /// Images may be interpolated between pixels. Phase must not be: it would run through
    /// the whole colour wheel where it wraps.
    pub fn smooth(&self) -> (b: bool)
        ensures
            b <==> self.interpolates(),
    {
        match self.display_mode {
            DisplayMode::Amplitude | DisplayMode::InstFreq | DisplayMode::Synchro
            | DisplayMode::Superlet => true,
            _ => false,
        }
    }

    /// How channel `i` is rendered: as the display mode says, where the images for it are
    /// there, else by amplitude.
    pub open spec fn rendering_of(self, i: int) -> Rendering {
        let phase = i < self.phases@.len();
        let coherence = i < self.coherences@.len();
        let deviation = i < self.inst_devs@.len();
        match self.display_mode {
            DisplayMode::Phase => if phase && coherence {
                Rendering::Phase
            } else {
                Rendering::Amplitude
            },
            DisplayMode::Combined => if phase && coherence {
                Rendering::Combined
            } else {
                Rendering::Amplitude
            },
            DisplayMode::InstFreq => if deviation {
                Rendering::InstFreq
            } else {
                Rendering::Amplitude
            },
            DisplayMode::Synchro => if deviation {
                Rendering::Synchro
            } else {
                Rendering::Amplitude
            },
            DisplayMode::SynchroPhase => if phase && deviation {
                Rendering::SynchroPhase
            } else {
                Rendering::Amplitude
            },
            _ => Rendering::Amplitude,
        }
    }

    fn rendering(&self, i: usize) -> (v: Rendering)
        ensures
            v == self.rendering_of(i as int),
    {
        let phase: bool = i < self.phases.len();
        let coherence: bool = i < self.coherences.len();
        let deviation: bool = i < self.inst_devs.len();
        match self.display_mode {
            DisplayMode::Phase if phase && coherence => Rendering::Phase,
            DisplayMode::Combined if phase && coherence => Rendering::Combined,
            DisplayMode::InstFreq if deviation => Rendering::InstFreq,
            DisplayMode::Synchro if deviation => Rendering::Synchro,
            DisplayMode::SynchroPhase if phase && deviation => Rendering::SynchroPhase,
            _ => Rendering::Amplitude,
        }
    }

    /// The images of the first `n` channels that have at least one full row.
    pub open spec fn channel_layers(self, n: int) -> Seq<Layer>
        decreases n,
    {
        if n <= 0 {
            seq![]
        } else {
            let before = self.channel_layers(n - 1);
            if self.scalograms@[n - 1]@.len() as int / self.scalogram_width as int > 0 {
                before.push(
                    Layer::Channel { ch: (n - 1) as usize, rendering: self.rendering_of(n - 1) },
                )
            } else {
                before
            }
        }
    }

    /// The images to render: none without columns, the cross spectrum alone in the
    /// cross-phase view, else one per channel.
    pub open spec fn layers(self) -> Seq<Layer> {
        if self.scalogram_width == 0 {
            seq![]
        } else if self.crossed() {
            if self.cross->0.phase@.len() as int / self.scalogram_width as int > 0 {
                seq![Layer::Cross]
            } else {
                seq![]
            }
        } else {
            self.channel_layers(self.scalograms@.len() as int)
        }
    }

    /// The images to render.
    pub fn rebuild_textures(&self) -> (list: Vec<Layer>)
        ensures
            list@ == self.layers(),
    {
        let mut list: Vec<Layer> = Vec::new();
        let width: usize = self.scalogram_width;
        if width == 0 {
            return list;
        }
        if self.display_mode == DisplayMode::CrossPhase {
            match &self.cross {
                Some(cross) => {
                    if cross.phase.len() / width > 0 {
                        list.push(Layer::Cross);
                    }
                    return list;
                },
                None => {},
            }
        }
        let mut i: usize = 0;
        while i < self.scalograms.len()
            invariant
                width == self.scalogram_width > 0,
                i <= self.scalograms@.len(),
                list@ == self.channel_layers(i as int),
            decreases self.scalograms@.len() - i,
        {
            if self.scalograms[i].len() / width > 0 {
                list.push(Layer::Channel { ch: i, rendering: self.rendering(i) });
            }
            i = i + 1;
        }
        list
    }

    proof fn channel_layers_ascend(self, n: int, i: int, j: int)
        requires
            0 <= n <= self.scalograms@.len() <= usize::MAX,
            0 <= i < j < self.channel_layers(n).len(),
        ensures
            self.channel_layers(n)[i] matches Layer::Channel { ch: a, .. } && a < n,
            self.channel_layers(n)[j] matches Layer::Channel { ch: b, .. } && b < n,
            self.channel_layers(n)[i]->ch < self.channel_layers(n)[j]->ch,
        decreases n,
    {
        let before = self.channel_layers(n - 1);
        if j < before.len() {
            self.channel_layers_ascend(n - 1, i, j);
        } else {
            self.channel_layers_below(n - 1, i);
        }
    }

    proof fn channel_layers_below(self, n: int, i: int)
        requires
            0 <= n <= self.scalograms@.len() <= usize::MAX,
            0 <= i < self.channel_layers(n).len(),
        ensures
            self.channel_layers(n)[i] matches Layer::Channel { ch, .. } && ch < n,
        decreases n,
    {
        if i < self.channel_layers(n - 1).len() {
            self.channel_layers_below(n - 1, i);
        }
    }

    /// No channel is rendered twice, channels come in order, and the cross spectrum is
    /// rendered alone.
    pub proof fn layers_are_distinct(self, i: int, j: int)
        requires
            self.scalograms@.len() <= usize::MAX,
            0 <= i < j < self.layers().len(),
        ensures
            self.layers()[i] is Channel,
            self.layers()[j] is Channel,
            self.layers()[i]->ch < self.layers()[j]->ch < self.scalograms@.len(),
    {
        self.channel_layers_ascend(self.scalograms@.len() as int, i, j);
    }

    proof fn channel_layers_hold(self, n: int, ch: int)
        requires
            0 <= ch < n <= self.scalograms@.len() <= usize::MAX,
            self.scalogram_width > 0,
            self.scalograms@[ch]@.len() >= self.scalogram_width,
        ensures
            self.channel_layers(n).contains(
                Layer::Channel { ch: ch as usize, rendering: self.rendering_of(ch) },
            ),
        decreases n,
    {
        let (len, w) = (self.scalograms@[ch]@.len() as int, self.scalogram_width as int);
        let wanted = Layer::Channel { ch: ch as usize, rendering: self.rendering_of(ch) };
        let before = self.channel_layers(n - 1);
        let all = self.channel_layers(n);
        assert(len / w > 0) by (nonlinear_arith)
            requires
                len >= w > 0,
        ;
        if ch == n - 1 {
            assert(all == before.push(wanted));
            assert(all[before.len() as int] == wanted);
        } else {
            self.channel_layers_hold(n - 1, ch);
            let i = choose|i: int| 0 <= i < before.len() && before[i] == wanted;
            assert(all[i] == wanted);
        }
    }

    /// Every channel with a full row is rendered, unless the cross spectrum is shown instead,
    /// which is then rendered if it has one.
    pub proof fn every_image_is_rendered(self, ch: int)
        requires
            self.scalograms@.len() <= usize::MAX,
            self.scalogram_width > 0,
        ensures
            !self.crossed() && 0 <= ch < self.scalograms@.len() && self.scalograms@[ch]@.len()
                >= self.scalogram_width ==> self.layers().contains(
                Layer::Channel { ch: ch as usize, rendering: self.rendering_of(ch) },
            ),
            self.crossed() && self.cross->0.phase@.len() >= self.scalogram_width ==> self.layers()
                == seq![Layer::Cross],
    {
        let w = self.scalogram_width as int;
        if self.crossed() {
            let len = self.cross->0.phase@.len() as int;
            if len >= w {
                assert(len / w > 0) by (nonlinear_arith)
                    requires
                        len >= w > 0,
                ;
            }
        } else if 0 <= ch < self.scalograms@.len() && self.scalograms@[ch]@.len()
            >= self.scalogram_width {
            self.channel_layers_hold(self.scalograms@.len() as int, ch);
        }
    }

    /// With the images of a channel at hand, its rendering is that of the display mode: the
    /// superlet view shows amplitudes of its own, and so does the cross-phase view while there
    /// is no cross spectrum. What shows phase is never interpolated, and everything else is.
    pub proof fn every_mode_has_its_rendering(self, i: int)
        requires
            i < self.phases@.len(),
            i < self.coherences@.len(),
            i < self.inst_devs@.len(),
        ensures
            self.rendering_of(i) == Rendering::Phase <==> self.display_mode == DisplayMode::Phase,
            self.rendering_of(i) == Rendering::Combined <==> self.display_mode
                == DisplayMode::Combined,
            self.rendering_of(i) == Rendering::InstFreq <==> self.display_mode
                == DisplayMode::InstFreq,
            self.rendering_of(i) == Rendering::Synchro <==> self.display_mode
                == DisplayMode::Synchro,
            self.rendering_of(i) == Rendering::SynchroPhase <==> self.display_mode
                == DisplayMode::SynchroPhase,
            self.display_mode != DisplayMode::CrossPhase ==> (self.interpolates()
                <==> self.rendering_of(i) != Rendering::Phase && self.rendering_of(i)
                != Rendering::Combined && self.rendering_of(i) != Rendering::SynchroPhase),
            self.display_mode == DisplayMode::CrossPhase ==> !self.interpolates(),
    {
    }

    /// A rendering never reads an image that is not there.
    pub proof fn renderings_read_what_is_there(self, i: int)
        ensures
            self.rendering_of(i) == Rendering::Phase || self.rendering_of(i) == Rendering::Combined
                ==> i < self.phases@.len() && i < self.coherences@.len(),
            self.rendering_of(i) == Rendering::InstFreq || self.rendering_of(i) == Rendering::Synchro
                || self.rendering_of(i) == Rendering::SynchroPhase ==> i < self.inst_devs@.len(),
            self.rendering_of(i) == Rendering::SynchroPhase ==> i < self.phases@.len(),
    {
    }

    /// What re-rendering asks for: nothing before there are images.
    pub open spec fn rerendered<C>(self, e: Effect<C, F>) -> bool {
        if self.scalogram_width > 0 {
            e is Rebuild
        } else {
            e is Nothing
        }
    }

    /// Asks for a new rendering, where there is something to render.
    pub fn rerender<C>(&self) -> (e: Effect<C, F>)
        ensures
            self.rerendered(e),
    {
        if self.scalogram_width > 0 {
            Effect::Rebuild
        } else {
            Effect::Nothing
        }
    }

    /// `c` says which of the controls for the superlet order, the phase fade and the deviation
    /// the display mode needs.
    pub open spec fn controls(self, c: (bool, bool, bool)) -> bool {
        &&& c.0 <==> self.display_mode == DisplayMode::Superlet
        &&& c.1 <==> self.display_mode == DisplayMode::Phase || self.display_mode
            == DisplayMode::Combined || self.display_mode == DisplayMode::CrossPhase
            || self.display_mode == DisplayMode::SynchroPhase
        &&& c.2 <==> self.display_mode == DisplayMode::InstFreq
    }

    /// The controls on show are those that matter: the superlet order where more than one pass
    /// can be asked for, the phase fade where phase is shown, which is where nothing is
    /// interpolated, and the deviation where it is what is shown.
    pub proof fn controls_are_those_that_matter(self, c: (bool, bool, bool), i: int)
        requires
            self.controls(c),
            self.superlet_order > 1,
        ensures
            c.0 <==> self.order() > 1,
            c.1 <==> !self.interpolates(),
            i < self.inst_devs@.len() ==> (c.2 <==> self.rendering_of(i) == Rendering::InstFreq),
    {
    }

    /// The controls that the display mode needs: superlet order, phase fade, deviation.
    pub fn mode_controls(&self) -> (c: (bool, bool, bool))
        ensures
            self.controls(c),
    {
        match self.display_mode {
            DisplayMode::Superlet => (true, false, false),
            DisplayMode::Phase | DisplayMode::Combined | DisplayMode::CrossPhase
            | DisplayMode::SynchroPhase => (false, true, false),
            DisplayMode::InstFreq => (false, false, true),
            DisplayMode::Amplitude | DisplayMode::Synchro => (false, false, false),
        }
    }

    /// The display modes on offer: cross phase only with two or more channels.
    pub open spec fn modes_of(self) -> Seq<DisplayMode> {
        let single = seq![
            DisplayMode::Amplitude,
            DisplayMode::Synchro,
            DisplayMode::SynchroPhase,
            DisplayMode::Superlet,
            DisplayMode::Phase,
            DisplayMode::Combined,
            DisplayMode::InstFreq,
        ];
        if self.audio is Some && self.audio->0.channels >= 2 {
            single.push(DisplayMode::CrossPhase)
        } else {
            single
        }
    }

    /// Every display mode is on offer once, but for the one that needs two channels where
    /// there are not two.
    pub proof fn every_mode_is_offered(self, mode: DisplayMode)
        ensures
            self.modes_of().contains(mode) <==> mode != DisplayMode::CrossPhase || (self.audio is Some
                && self.audio->0.channels >= 2),
            self.modes_of().no_duplicates(),
    {
        let m = self.modes_of();
        assert(m[0] == DisplayMode::Amplitude && m[1] == DisplayMode::Synchro && m[2]
            == DisplayMode::SynchroPhase && m[3] == DisplayMode::Superlet);
        assert(m[4] == DisplayMode::Phase && m[5] == DisplayMode::Combined && m[6]
            == DisplayMode::InstFreq);
        if m.len() == 8 {
            assert(m[7] == DisplayMode::CrossPhase);
        }
    }

    pub fn display_modes(&self) -> (modes: Vec<DisplayMode>)
        ensures
            modes@ == self.modes_of(),
    {
        let mut modes: Vec<DisplayMode> = vec![
            DisplayMode::Amplitude,
            DisplayMode::Synchro,
            DisplayMode::SynchroPhase,
            DisplayMode::Superlet,
            DisplayMode::Phase,
            DisplayMode::Combined,
            DisplayMode::InstFreq,
        ];
        match self.audio {
            Some(a) => {
                if a.channels >= 2 {
                    modes.push(DisplayMode::CrossPhase);
                }
            },
            None => {},
        }
        assert(modes@ =~= self.modes_of());
        modes
    }

    /// `e` is the request, if there is one.
    pub open spec fn computes<C>(r: Option<ComputeRequest<C, F>>, e: Effect<C, F>) -> bool {
        match r {
            Some(q) => e == Effect::Compute(q),
            None => e is Nothing,
        }
    }

    fn compute_effect<C>(r: Option<ComputeRequest<C, F>>) -> (e: Effect<C, F>)
        ensures
            Self::computes(r, e),
    {
        match r {
            Some(q) => Effect::Compute(q),
            None => Effect::Nothing,
        }
    }

    /// `new` and `e` follow from a change that needs a recompute, made to give `self`: with a
    /// file loaded, a recompute of the current width is asked for.
    pub open spec fn recomputed<C, L: Fn(u32, F, F) -> (F, F), S: Fn(V) -> usize>(
        self,
        source: Source<C, L, S>,
        new: WaveletApp<F, V>,
        e: Effect<C, F>,
    ) -> bool {
        if self.audio is Some {
            exists|r: Option<ComputeRequest<C, F>>| #[trigger]
                self.requested(self.last_width_px, source, new, r) && Self::computes(r, e)
        } else {
            new == self && e is Nothing
        }
    }

    fn recompute_loaded<C, L: Fn(u32, F, F) -> (F, F), S: Fn(V) -> usize>(
        &mut self,
        source: Source<C, L, S>,
    ) -> (e: Effect<C, F>)
        requires
            forall|sr: u32, lo: F, hi: F| call_requires(source.limit, (sr, lo, hi)),
            forall|t: V| call_requires(source.sample, (t,)),
        ensures
            old(self).recomputed(source, *final(self), e),
    {
        if self.audio.is_some() {
            let width: usize = self.last_width_px;
            let r = self.request_recompute(width, source);
            Self::compute_effect(r)
        } else {
            Effect::Nothing
        }
    }

    /// `new` and `e` follow from a change of the display mode that gave `self`, away from
    /// `from`. Superlet amplitudes come from extra passes, so entering or leaving that view
    /// recomputes; any other switch renders anew.
    pub open spec fn switched<C, L: Fn(u32, F, F) -> (F, F), S: Fn(V) -> usize>(
        self,
        from: DisplayMode,
        source: Source<C, L, S>,
        new: WaveletApp<F, V>,
        e: Effect<C, F>,
    ) -> bool {
        let edge = (from == DisplayMode::Superlet) != (self.display_mode == DisplayMode::Superlet);
        if edge && self.audio is Some {
            self.recomputed(source, new, e)
        } else {
            new == self && self.rerendered(e)
        }
    }

    /// `new` and `e` follow from selecting a display mode.
    pub open spec fn mode_selected<C, L: Fn(u32, F, F) -> (F, F), S: Fn(V) -> usize>(
        self,
        mode: DisplayMode,
        source: Source<C, L, S>,
        new: WaveletApp<F, V>,
        e: Effect<C, F>,
    ) -> bool {
        (WaveletApp { display_mode: mode, ..self }).switched(self.display_mode, source, new, e)
    }

    /// `new` and `e` follow from setting the number of superlet passes.
    pub open spec fn order_set<C, L: Fn(u32, F, F) -> (F, F), S: Fn(V) -> usize>(
        self,
        order: u32,
        source: Source<C, L, S>,
        new: WaveletApp<F, V>,
        e: Effect<C, F>,
    ) -> bool {
        (WaveletApp { superlet_order: order, ..self }).recomputed(source, new, e)
    }

    /// `new` and `e` follow from choosing how phase increments are weighed.
    pub open spec fn weighting_set<C, L: Fn(u32, F, F) -> (F, F), S: Fn(V) -> usize>(
        self,
        unweighted: bool,
        source: Source<C, L, S>,
        new: WaveletApp<F, V>,
        e: Effect<C, F>,
    ) -> bool {
        (WaveletApp { unweighted, ..self }).recomputed(source, new, e)
    }

    /// `new` and `e` follow from switching the anti-aliasing filter.
    pub open spec fn filter_set<C, L: Fn(u32, F, F) -> (F, F), S: Fn(V) -> usize>(
        self,
        antialias: bool,
        source: Source<C, L, S>,
        new: WaveletApp<F, V>,
        e: Effect<C, F>,
    ) -> bool {
        (WaveletApp { antialias, ..self }).recomputed(source, new, e)
    }

    /// `new` and `e` follow from changed transform parameters.
    pub open spec fn params_set<C, L: Fn(u32, F, F) -> (F, F), S: Fn(V) -> usize>(
        self,
        params: CwtParams<F>,
        source: Source<C, L, S>,
        new: WaveletApp<F, V>,
        e: Effect<C, F>,
    ) -> bool {
        (WaveletApp { params, ..self }).recomputed(source, new, e)
    }

    /// What a recompute leaves as it is: everything but the frequency range, which keeps within
    /// limits, and what tells that a computation is under way or wanted.
    pub open spec fn alike(self, new: WaveletApp<F, V>) -> bool {
        new == (WaveletApp {
            params: CwtParams {
                f_min: new.params.f_min,
                f_max: new.params.f_max,
                ..self.params
            },
            pending_compute_viewport: new.pending_compute_viewport,
            computing: new.computing,
            pending_compute: new.pending_compute,
            status: new.status,
            ..self
        })
    }

    /// `e` asks for nothing that `new` does not show to be under way: while a computation is
    /// running a further one is only remembered, and without a file there is none.
    pub open spec fn asks<C>(self, new: WaveletApp<F, V>, e: Effect<C, F>) -> bool {
        &&& self.audio is None ==> e is Nothing && new.computing == self.computing
            && new.pending_compute == self.pending_compute
        &&& self.audio is Some && self.computing ==> e is Nothing && new.computing
            && new.pending_compute
        &&& e matches Effect::Compute(q) ==> {
            &&& new.computing && !self.computing && self.audio is Some
            &&& q.width_pixels == self.last_width_px
            &&& q.params == new.params
            &&& q.antialias == new.antialias
            &&& q.unweighted == new.unweighted
            &&& q.superlet_order == new.order()
        }
        &&& !(e is Rebuild)
    }

    /// Each control changes its own setting and no other, and the recompute that follows is
    /// for the changed setting.
    pub proof fn settings_are_taken_over<C, L: Fn(u32, F, F) -> (F, F), S: Fn(V) -> usize>(
        self,
        order: u32,
        on: bool,
        params: CwtParams<F>,
        source: Source<C, L, S>,
        new: WaveletApp<F, V>,
        e: Effect<C, F>,
    )
        ensures
            self.order_set(order, source, new, e) ==> new.superlet_order == order && self.asks(new, e)
                && self.alike(WaveletApp { superlet_order: self.superlet_order, ..new }),
            self.weighting_set(on, source, new, e) ==> new.unweighted == on && self.asks(new, e)
                && self.alike(WaveletApp { unweighted: self.unweighted, ..new }),
            self.filter_set(on, source, new, e) ==> new.antialias == on && self.asks(new, e)
                && self.alike(WaveletApp { antialias: self.antialias, ..new }),
            self.params_set(params, source, new, e) ==> self.asks(new, e) && (WaveletApp {
                params,
                ..self
            }).alike(new),
    {
    }

    /// Selecting a display mode changes it and nothing else. Into and out of the superlet view
    /// of a loaded file it computes anew, with the passes that the new view takes; between any
    /// other two it only renders what is there.
    pub proof fn only_superlets_compute_anew<C, L: Fn(u32, F, F) -> (F, F), S: Fn(V) -> usize>(
        self,
        mode: DisplayMode,
        source: Source<C, L, S>,
        new: WaveletApp<F, V>,
        e: Effect<C, F>,
    )
        requires
            self.mode_selected(mode, source, new, e),
        ensures
            new.display_mode == mode,
            self.alike(WaveletApp { display_mode: self.display_mode, ..new }),
            ({
                let (before, after) = (self.display_mode == DisplayMode::Superlet, mode
                    == DisplayMode::Superlet);
                if self.audio is Some && (before != after) {
                    &&& self.asks(new, e)
                    &&& e matches Effect::Compute(q) ==> q.superlet_order == if after {
                        self.superlet_order
                    } else {
                        1
                    }
                } else {
                    &&& new == (WaveletApp { display_mode: mode, ..self })
                    &&& e is Rebuild <==> self.scalogram_width > 0
                    &&& e is Nothing <==> self.scalogram_width == 0
                }
            }),
    {
    }

    /// Selects a display mode.
    pub fn select_mode<C, L: Fn(u32, F, F) -> (F, F), S: Fn(V) -> usize>(
        &mut self,
        mode: DisplayMode,
        source: Source<C, L, S>,
    ) -> (e: Effect<C, F>)
        requires
            forall|sr: u32, lo: F, hi: F| call_requires(source.limit, (sr, lo, hi)),
            forall|t: V| call_requires(source.sample, (t,)),
        ensures
            old(self).mode_selected(mode, source, *final(self), e),
    {
        let from: DisplayMode = self.display_mode;
        self.display_mode = mode;
        let edge: bool = (from == DisplayMode::Superlet) != (mode == DisplayMode::Superlet);
        if edge && self.audio.is_some() {
            self.recompute_loaded(source)
        } else {
            self.rerender()
        }
    }

    /// Selects a colour map.
    pub fn select_colormap<C>(&mut self, map: ColorMap) -> (e: Effect<C, F>)
        ensures
            *final(self) == (WaveletApp { colormap: map, ..*old(self) }),
            final(self).rerendered(e),
    {
        self.colormap = map;
        self.rerender()
    }

    /// Sets the number of superlet passes.
    pub fn set_superlet_order<C, L: Fn(u32, F, F) -> (F, F), S: Fn(V) -> usize>(
        &mut self,
        order: u32,
        source: Source<C, L, S>,
    ) -> (e: Effect<C, F>)
        requires
            forall|sr: u32, lo: F, hi: F| call_requires(source.limit, (sr, lo, hi)),
            forall|t: V| call_requires(source.sample, (t,)),
        ensures
            old(self).order_set(order, source, *final(self), e),
    {
        self.superlet_order = order;
        self.recompute_loaded(source)
    }

    /// Chooses how phase increments are weighed.
    pub fn set_unweighted<C, L: Fn(u32, F, F) -> (F, F), S: Fn(V) -> usize>(
        &mut self,
        unweighted: bool,
        source: Source<C, L, S>,
    ) -> (e: Effect<C, F>)
        requires
            forall|sr: u32, lo: F, hi: F| call_requires(source.limit, (sr, lo, hi)),
            forall|t: V| call_requires(source.sample, (t,)),
        ensures
            old(self).weighting_set(unweighted, source, *final(self), e),
    {
        self.unweighted = unweighted;
        self.recompute_loaded(source)
    }

    /// Switches the anti-aliasing filter.
    pub fn set_antialias<C, L: Fn(u32, F, F) -> (F, F), S: Fn(V) -> usize>(
        &mut self,
        antialias: bool,
        source: Source<C, L, S>,
    ) -> (e: Effect<C, F>)
        requires
            forall|sr: u32, lo: F, hi: F| call_requires(source.limit, (sr, lo, hi)),
            forall|t: V| call_requires(source.sample, (t,)),
        ensures
            old(self).filter_set(antialias, source, *final(self), e),
    {
        self.antialias = antialias;
        self.recompute_loaded(source)
    }

    /// Takes over changed transform parameters.
    pub fn set_params<C, L: Fn(u32, F, F) -> (F, F), S: Fn(V) -> usize>(
        &mut self,
        params: CwtParams<F>,
        source: Source<C, L, S>,
    ) -> (e: Effect<C, F>)
        requires
            forall|sr: u32, lo: F, hi: F| call_requires(source.limit, (sr, lo, hi)),
            forall|t: V| call_requires(source.sample, (t,)),
        ensures
            old(self).params_set(params, source, *final(self), e),
    {
        self.params = params;
        self.recompute_loaded(source)
    }

    /// `new` waits for a file.
    pub open spec fn loading(self, new: WaveletApp<F, V>) -> bool {
        new == (WaveletApp { computing: true, status: Status::Loading, error_msg: None, ..self })
    }

    /// `new` shows an error of the worker.
    pub open spec fn failed(self, message: String, new: WaveletApp<F, V>) -> bool {
        &&& new == (WaveletApp {
            computing: false,
            error_msg: Some(message),
            status: new.status,
            ..self
        })
        &&& new.status matches Status::Failed(e) && e@ == message@
    }

    /// `new` tells that the ridge was written to a file, or could not be.
    pub open spec fn exported(
        self,
        path: String,
        failure: Option<String>,
        new: WaveletApp<F, V>,
    ) -> bool {
        &&& failure is None ==> new == (WaveletApp { status: Status::Exported(path), ..self })
        &&& failure matches Some(e) ==> new == (WaveletApp { error_msg: new.error_msg, ..self }) && (
        new.error_msg matches Some(m) && m@ == "CSV write failed: "@ + e@)
    }

    /// `new` has no ridge.
    pub open spec fn ridge_dropped(self, new: WaveletApp<F, V>) -> bool {
        new == (WaveletApp { ridge_seed: None, ridge_rows: None, ..self })
    }

    /// While a file is loading, requests wait, and after an error they are made at once again,
    /// for the view of before: an error changes nothing of what is shown.
    pub proof fn errors_do_not_block<C, L: Fn(u32, F, F) -> (F, F), S: Fn(V) -> usize>(
        self,
        width_px: usize,
        source: Source<C, L, S>,
        waiting: WaveletApp<F, V>,
        asked: WaveletApp<F, V>,
        none: Option<ComputeRequest<C, F>>,
        message: String,
        failed: WaveletApp<F, V>,
        new: WaveletApp<F, V>,
        r: Option<ComputeRequest<C, F>>,
    )
        requires
            self.loading(waiting),
            waiting.requested(width_px, source, asked, none),
            asked.failed(message, failed),
            failed.requested(width_px, source, new, r),
        ensures
            none is None,
            waiting.error_msg is None,
            failed.error_msg == Some(message),
            failed.status.text() == "Error: "@ + message@,
            failed.pending_compute,
            failed.triggered(width_px, source, new, r),
            self.alike(WaveletApp { error_msg: self.error_msg, ..failed }),
            (failed.params, failed.viewport, failed.tex_viewport) == (
                self.params,
                self.viewport,
                self.tex_viewport,
            ),
    {
    }

    /// Writing a ridge touches neither the ridge nor the view, and tells either where it went
    /// or why it did not; dropping the ridge touches nothing else and leaves none to draw.
    pub proof fn exports_change_nothing_else(
        self,
        path: String,
        failure: Option<String>,
        new: WaveletApp<F, V>,
        dropped: WaveletApp<F, V>,
        panel: usize,
    )
        requires
            self.exported(path, failure, new),
            new.ridge_dropped(dropped),
        ensures
            (new.ridge_seed, new.ridge_rows) == (self.ridge_seed, self.ridge_rows),
            self.alike(WaveletApp { error_msg: self.error_msg, ..new }),
            failure is None ==> new.status.text() == "Ridge exported: "@ + path@,
            failure is None ==> new.error_msg == self.error_msg,
            failure matches Some(e) ==> new.status == self.status && (new.error_msg matches Some(m)
                && m@ == "CSV write failed: "@ + e@),
            !dropped.ridge_shown(panel),
            dropped == (WaveletApp {
                ridge_seed: dropped.ridge_seed,
                ridge_rows: dropped.ridge_rows,
                ..new
            }),
    {
    }

    /// A file was chosen and is being loaded.
    pub fn start_loading(&mut self)
        ensures
            old(self).loading(*final(self)),
    {
        self.computing = true;
        self.status = Status::Loading;
        self.error_msg = None;
    }

    /// The worker reported an error.
    pub fn on_error(&mut self, message: String)
        ensures
            old(self).failed(message, *final(self)),
    {
        self.computing = false;
        self.status = Status::Failed(message.clone());
        self.error_msg = Some(message);
    }

    /// The ridge was written to a file, or could not be.
    pub fn on_exported(&mut self, path: String, failure: Option<String>)
        ensures
            old(self).exported(path, failure, *final(self)),
    {
        match failure {
            None => {
                self.status = Status::Exported(path);
            },
            Some(e) => {
                self.error_msg = Some("CSV write failed: ".to_owned().concat(e.as_str()));
            },
        }
    }

    /// Drops the ridge.
    pub fn clear_ridge(&mut self)
        ensures
            old(self).ridge_dropped(*final(self)),
    {
        self.ridge_seed = None;
        self.ridge_rows = None;
    }

    /// Channel that a click on panel `panel` means: the cross spectrum stands for the first.
    pub open spec fn seed_channel(self, panel: usize) -> usize {
        if self.crossed() {
            0
        } else {
            panel
        }
    }

    /// `new` has a ridge seed picked on panel `panel`.
    pub open spec fn picked(self, t_sec: V, f_hz: V, panel: usize, new: WaveletApp<F, V>) -> bool {
        new == (WaveletApp {
            ridge_seed: Some(RidgeSeed { t_sec, f_hz, ch: self.seed_channel(panel) }),
            ..self
        })
    }

    /// Picks a ridge seed on a panel.
    pub fn pick_seed(&mut self, t_sec: V, f_hz: V, panel: usize)
        ensures
            old(self).picked(t_sec, f_hz, panel, *final(self)),
    {
        let ch: usize = if self.cross_active() {
            0
        } else {
            panel
        };
        self.ridge_seed = Some(RidgeSeed { t_sec, f_hz, ch });
    }

    /// Number of panels.
    pub open spec fn panel_count(self) -> usize {
        if self.crossed() {
            1
        } else if self.audio is Some {
            self.audio->0.channels
        } else {
            0
        }
    }

    /// Number of panels: one for the cross spectrum, else one per channel.
    pub fn panels(&self) -> (n: usize)
        ensures
            n == self.panel_count(),
    {
        if self.cross_active() {
            1
        } else {
            match self.audio {
                Some(a) => a.channels,
                None => 0,
            }
        }
    }

    /// The ridge is drawn on panel `panel`: that of the seed's channel, or the only one of
    /// the cross spectrum. It needs a ridge as wide as the images and at least two rows.
    pub open spec fn ridge_shown(self, panel: usize) -> bool {
        &&& self.ridge_seed is Some
        &&& self.ridge_rows is Some
        &&& if self.crossed() {
            panel == 0
        } else {
            panel == self.ridge_seed->0.ch
        }
        &&& self.scalogram_width > 0
        &&& self.ridge_seed->0.ch < self.scalograms@.len()
        &&& self.scalograms@[self.ridge_seed->0.ch as int]@.len() as int
            / self.scalogram_width as int > 1
        &&& self.ridge_rows->0@.len() == self.scalogram_width
    }

    pub fn shows_ridge(&self, panel: usize) -> (b: bool)
        ensures
            b <==> self.ridge_shown(panel),
    {
        match (&self.ridge_seed, &self.ridge_rows) {
            (Some(seed), Some(rows)) => {
                let here: bool = if self.cross_active() {
                    panel == 0
                } else {
                    panel == seed.ch
                };
                here && self.scalogram_width > 0 && seed.ch < self.scalograms.len()
                    && self.scalograms[seed.ch].len() / self.scalogram_width > 1 && rows.len()
                    == self.scalogram_width
            },
            _ => false,
        }
    }

    /// The text above panel `panel`.
    pub open spec fn label_of(self, panel: int) -> Seq<char> {
        if self.crossed() {
            "Δφ L−R"@
        } else if self.audio->0.channels == 1 {
            "Mono"@
        } else if self.audio->0.channels == 2 {
            if panel == 0 {
                "L"@
            } else {
                "R"@
            }
        } else {
            "Ch "@ + text::decimal_of(panel + 1)
        }
    }

    /// Labels tell the panels apart, and those of more than two channels count from one.
    pub proof fn labels_tell_panels_apart(self, a: int, b: int)
        requires
            self.audio is Some,
            0 <= a < self.panel_count(),
            0 <= b < self.panel_count(),
            self.label_of(a) == self.label_of(b),
        ensures
            a == b,
            self.audio->0.channels > 2 && !self.crossed() ==> text::value_of(
                self.label_of(a).skip(3),
            ) == a + 1,
    {
        reveal_strlit("L");
        reveal_strlit("R");
        reveal_strlit("Ch ");
        if !self.crossed() && self.audio->0.channels == 2 {
            assert("L"@[0] == 'L' && "R"@[0] == 'R');
        }
        if !self.crossed() && self.audio->0.channels > 2 {
            assert(self.label_of(a).skip(3) =~= text::decimal_of(a + 1));
            assert(self.label_of(b).skip(3) =~= text::decimal_of(b + 1));
            text::decimals_read_back(a + 1);
            text::decimals_read_back(b + 1);
        }
    }

    pub fn panel_label(&self, panel: usize) -> (s: String)
        requires
            self.audio is Some,
            panel < i64::MAX,
        ensures
            s@ == self.label_of(panel as int),
    {
        if self.cross_active() {
            return "Δφ L−R".to_owned();
        }
        let channels: usize = match self.audio {
            Some(a) => a.channels,
            None => 0,
        };
        if channels == 1 {
            "Mono".to_owned()
        } else if channels == 2 {
            if panel == 0 {
                "L".to_owned()
            } else {
                "R".to_owned()
            }
        } else {
            let n: String = text::decimal(panel as i64 + 1);
            "Ch ".to_owned().concat(n.as_str())
        }
    }
}

impl<F: Copy, V: Copy> WaveletApp<F, V> {
    /// This state with a newly loaded file: the whole file is shown over the given frequency
    /// range, the amplitude images, the cross spectrum and the ridge of the file before are
    /// gone, and a view that needs two channels gives way where there is only one.
    pub open spec fn loaded(
        self,
        info: AudioInfo,
        window: Viewport<V>,
        f: (F, F),
        new: WaveletApp<F, V>,
    ) -> bool {
        &&& new.scalograms@.len() == 0
        &&& new == (WaveletApp {
            audio: Some(info),
            scalograms: new.scalograms,
            cross: None,
            ridge_seed: None,
            ridge_rows: None,
            viewport: window,
            tex_viewport: window,
            panning: false,
            params: CwtParams { f_min: f.0, f_max: f.1, ..self.params },
            display_mode: if info.channels < 2 && self.display_mode == DisplayMode::CrossPhase {
                DisplayMode::Amplitude
            } else {
                self.display_mode
            },
            norm_captured: false,
            computing: false,
            ..self
        })
    }

    /// `new` and `r` follow from a file that was loaded.
    pub open spec fn opened<C, L: Fn(u32, F, F) -> (F, F), S: Fn(V) -> usize>(
        self,
        info: AudioInfo,
        window: Viewport<V>,
        f: (F, F),
        source: Source<C, L, S>,
        new: WaveletApp<F, V>,
        r: Option<ComputeRequest<C, F>>,
    ) -> bool {
        exists|mid: WaveletApp<F, V>| #[trigger]
            self.loaded(info, window, f, mid) && mid.triggered(
                mid.last_width_px,
                source,
                new,
                r,
            )
    }

    /// A new file starts afresh: nothing of the one before is left to show or to draw on, the
    /// brightness is captured anew, and the first request is for the new file at the current
    /// width. Settings that do not depend on the file stay, the display mode too unless it
    /// needs two channels and the file has not two.
    pub proof fn a_new_file_starts_afresh<C, L: Fn(u32, F, F) -> (F, F), S: Fn(V) -> usize>(
        self,
        info: AudioInfo,
        window: Viewport<V>,
        f: (F, F),
        source: Source<C, L, S>,
        new: WaveletApp<F, V>,
        r: Option<ComputeRequest<C, F>>,
    )
        requires
            self.opened(info, window, f, source, new, r),
        ensures
            new.audio == Some(info),
            new.viewport == window,
            new.tex_viewport == window,
            new.layers().len() == 0,
            new.scalograms@.len() == 0,
            new.cross is None,
            new.ridge_seed is None && new.ridge_rows is None,
            !new.panning && !new.norm_captured,
            new.display_mode == DisplayMode::CrossPhase ==> info.channels >= 2,
            self.display_mode != DisplayMode::CrossPhase || info.channels >= 2 ==> new.display_mode
                == self.display_mode,
            self.display_mode == DisplayMode::CrossPhase && info.channels < 2 ==> new.display_mode
                == DisplayMode::Amplitude,
            new.computing <==> r is Some,
            r matches Some(q) ==> {
                &&& q.sample_rate == info.sample_rate
                &&& q.channels == source.channels
                &&& q.width_pixels == self.last_width_px
                &&& q.t_end <= info.num_samples
                &&& new.pending_compute_viewport == window
            },
            (new.params.num_scales, new.params.kind) == (self.params.num_scales, self.params.kind),
            (new.antialias, new.unweighted, new.superlet_order) == (
                self.antialias,
                self.unweighted,
                self.superlet_order,
            ),
            (new.colormap, new.last_width_px) == (self.colormap, self.last_width_px),
    {
    }

    /// A file was loaded: shows all of it and triggers the first computation.
    pub fn on_loaded<C, L: Fn(u32, F, F) -> (F, F), S: Fn(V) -> usize>(
        &mut self,
        info: AudioInfo,
        window: Viewport<V>,
        f: (F, F),
        source: Source<C, L, S>,
    ) -> (r: Option<ComputeRequest<C, F>>)
        requires
            forall|sr: u32, lo: F, hi: F| call_requires(source.limit, (sr, lo, hi)),
            forall|t: V| call_requires(source.sample, (t,)),
        ensures
            old(self).opened(info, window, f, source, *final(self), r),
    {
        self.viewport = window;
        self.tex_viewport = window;
        self.panning = false;
        self.params.f_min = f.0;
        self.params.f_max = f.1;
        self.scalograms = Vec::new();
        self.cross = None;
        self.ridge_seed = None;
        self.ridge_rows = None;
        self.norm_captured = false;
        if info.channels < 2 && self.display_mode == DisplayMode::CrossPhase {
            self.display_mode = DisplayMode::Amplitude;
        }
        self.audio = Some(info);
        self.computing = false;
        let ghost mid = *self;
        assert(old(self).loaded(info, window, f, mid));
        let width: usize = self.last_width_px;
        self.trigger_compute(width, source)
    }

    /// `new` holds the images of the results, channel by channel.
    pub open spec fn holds_results(results: Seq<CwtOutput<F>>, new: WaveletApp<F, V>) -> bool {
        &&& new.scalograms@ == Seq::new(results.len(), |i: int| results[i].0)
        &&& new.phases@ == Seq::new(results.len(), |i: int| results[i].1)
        &&& new.coherences@ == Seq::new(results.len(), |i: int| results[i].2)
        &&& new.inst_devs@ == Seq::new(results.len(), |i: int| results[i].3)
    }

    /// This state with new results: they belong to the window that was asked for, at the
    /// current width. The brightness reference is captured from the first results after a
    /// file was loaded, and stays.
    pub open spec fn computed<Q: Fn(F) -> bool>(
        self,
        results: Seq<CwtOutput<F>>,
        cross: Option<CrossOutput<F>>,
        limits: Limits<F, Q>,
        new: WaveletApp<F, V>,
    ) -> bool where F: PartialOrd {
        &&& Self::holds_results(results, new)
        &&& new == (WaveletApp {
            computing: false,
            tex_viewport: self.pending_compute_viewport,
            panning: false,
            scalograms: new.scalograms,
            phases: new.phases,
            coherences: new.coherences,
            inst_devs: new.inst_devs,
            cross,
            scalogram_width: self.last_width_px,
            norm_captured: true,
            data_min: new.data_min,
            data_max: new.data_max,
            vmin: new.vmin,
            vmax: new.vmax,
            status: Status::Ready,
            ..self
        })
        &&& if self.norm_captured {
            new.data_min == self.data_min && new.data_max == self.data_max && new.vmin == self.vmin
                && new.vmax == self.vmax
        } else {
            new.normalised(limits)
        }
    }

    /// The brightness window spans the data.
    pub open spec fn normalised<Q: Fn(F) -> bool>(self, limits: Limits<F, Q>) -> bool where
        F: PartialOrd,
     {
        &&& limits.extent_of(self.scalograms@, (self.data_min, self.data_max))
        &&& self.vmin == self.data_min
        &&& self.vmax == self.data_max
    }

    /// Captures the extent of the data and resets the brightness window to it.
    pub fn capture_norm<Q: Fn(F) -> bool>(&mut self, limits: &Limits<F, Q>) where F: PartialOrd
        requires
            forall|v: F| call_requires(limits.is_finite, (v,)),
        ensures
            final(self).normalised(*limits),
            *final(self) == (WaveletApp {
                data_min: final(self).data_min,
                data_max: final(self).data_max,
                vmin: final(self).vmin,
                vmax: final(self).vmax,
                ..*old(self)
            }),
    {
        let (lo, hi): (F, F) = limits.compute_norm(&self.scalograms);
        self.data_min = lo;
        self.data_max = hi;
        self.vmin = lo;
        self.vmax = hi;
    }

    /// Results arrived.
    pub fn on_computed<Q: Fn(F) -> bool>(
        &mut self,
        results: Vec<CwtOutput<F>>,
        cross: Option<CrossOutput<F>>,
        limits: &Limits<F, Q>,
    ) where F: PartialOrd
        requires
            forall|v: F| call_requires(limits.is_finite, (v,)),
        ensures
            old(self).computed(results@, cross, *limits, *final(self)),
    {
        self.computing = false;
        self.tex_viewport = self.pending_compute_viewport;
        self.panning = false;
        let mut results = results;
        let ghost all = results@;
        let mut scalograms: Vec<Vec<F>> = Vec::new();
        let mut phases: Vec<Vec<F>> = Vec::new();
        let mut coherences: Vec<Vec<F>> = Vec::new();
        let mut inst_devs: Vec<Vec<F>> = Vec::new();
        let n: usize = results.len();
        let mut i: usize = 0;
        while i < n
            invariant
                i <= n == all.len(),
                results@ == all.skip(i as int),
                scalograms@ == Seq::new(i as nat, |k: int| all[k].0),
                phases@ == Seq::new(i as nat, |k: int| all[k].1),
                coherences@ == Seq::new(i as nat, |k: int| all[k].2),
                inst_devs@ == Seq::new(i as nat, |k: int| all[k].3),
            decreases n - i,
        {
            let (a, p, c, d) = results.remove(0);
            scalograms.push(a);
            phases.push(p);
            coherences.push(c);
            inst_devs.push(d);
            i = i + 1;
            assert(results@ =~= all.skip(i as int));
            assert(scalograms@ =~= Seq::new(i as nat, |k: int| all[k].0));
            assert(phases@ =~= Seq::new(i as nat, |k: int| all[k].1));
            assert(coherences@ =~= Seq::new(i as nat, |k: int| all[k].2));
            assert(inst_devs@ =~= Seq::new(i as nat, |k: int| all[k].3));
        }
        self.scalograms = scalograms;
        self.phases = phases;
        self.coherences = coherences;
        self.inst_devs = inst_devs;
        self.cross = cross;
        self.scalogram_width = self.last_width_px;
        if !self.norm_captured {
            self.capture_norm(limits);
            self.norm_captured = true;
        }
        self.status = Status::Ready;
    }

    /// `new` and `r` follow once results have been rendered: a recompute that was asked for
    /// meanwhile is triggered.
    pub open spec fn resumed<C, L: Fn(u32, F, F) -> (F, F), S: Fn(V) -> usize>(
        self,
        source: Source<C, L, S>,
        new: WaveletApp<F, V>,
        r: Option<ComputeRequest<C, F>>,
    ) -> bool {
        if self.pending_compute {
            (WaveletApp { pending_compute: false, ..self }).triggered(
                self.last_width_px,
                source,
                new,
                r,
            )
        } else {
            new == self && r is None
        }
    }

    /// Triggers the recompute that was asked for while results were on their way.
    pub fn resume<C, L: Fn(u32, F, F) -> (F, F), S: Fn(V) -> usize>(
        &mut self,
        source: Source<C, L, S>,
    ) -> (r: Option<ComputeRequest<C, F>>)
        requires
            forall|sr: u32, lo: F, hi: F| call_requires(source.limit, (sr, lo, hi)),
            forall|t: V| call_requires(source.sample, (t,)),
        ensures
            old(self).resumed(source, *final(self), r),
    {
        if self.pending_compute {
            self.pending_compute = false;
            let width: usize = self.last_width_px;
            self.trigger_compute(width, source)
        } else {
            None
        }
    }

    /// Results are shown for the window that they were asked for, wherever the view has moved
    /// meanwhile: channel by channel, amplitude, phase, coherence and deviation each in its
    /// place. The brightness is captured from the first of them and stays for the others.
    pub proof fn results_are_shown_for_their_window<
        C,
        L: Fn(u32, F, F) -> (F, F),
        S: Fn(V) -> usize,
        Q: Fn(F) -> bool,
    >(
        self,
        width_px: usize,
        source: Source<C, L, S>,
        asked: WaveletApp<F, V>,
        r: Option<ComputeRequest<C, F>>,
        moved: Viewport<V>,
        results: Seq<CwtOutput<F>>,
        cross: Option<CrossOutput<F>>,
        limits: Limits<F, Q>,
        new: WaveletApp<F, V>,
        ch: int,
    ) where F: PartialOrd
        requires
            self.triggered(width_px, source, asked, r),
            r is Some,
            (WaveletApp { viewport: moved, ..asked }).computed(results, cross, limits, new),
        ensures
            new.tex_viewport == self.viewport,
            new.viewport == moved,
            !new.computing && !new.panning && new.norm_captured,
            new.scalogram_width == self.last_width_px,
            new.scalograms@.len() == results.len(),
            0 <= ch < results.len() ==> {
                &&& new.scalograms@[ch] == results[ch].0
                &&& new.phases@[ch] == results[ch].1
                &&& new.coherences@[ch] == results[ch].2
                &&& new.inst_devs@[ch] == results[ch].3
            },
            new.phases@.len() == results.len(),
            new.coherences@.len() == results.len(),
            new.inst_devs@.len() == results.len(),
            new.cross == cross,
            self.norm_captured ==> (new.vmin, new.vmax, new.data_min, new.data_max) == (
                self.vmin,
                self.vmax,
                self.data_min,
                self.data_max,
            ),
            !self.norm_captured ==> limits.extent_of(new.scalograms@, (new.vmin, new.vmax))
                && new.data_min == new.vmin && new.data_max == new.vmax,
            (new.display_mode, new.colormap) == (self.display_mode, self.colormap),
            new.pending_compute == asked.pending_compute,
    {
    }

    /// A recompute that is asked for while a computation is under way is not lost: with the
    /// results it is triggered, for the state of that moment.
    pub proof fn a_change_while_computing_is_not_lost<
        C,
        L: Fn(u32, F, F) -> (F, F),
        S: Fn(V) -> usize,
        Q: Fn(F) -> bool,
    >(
        self,
        width_px: usize,
        source: Source<C, L, S>,
        asked: WaveletApp<F, V>,
        r: Option<ComputeRequest<C, F>>,
        results: Seq<CwtOutput<F>>,
        cross: Option<CrossOutput<F>>,
        limits: Limits<F, Q>,
        rendered: WaveletApp<F, V>,
        resumed: WaveletApp<F, V>,
        next: Option<ComputeRequest<C, F>>,
    ) where F: PartialOrd
        requires
            self.computing,
            self.requested(width_px, source, asked, r),
            asked.computed(results, cross, limits, rendered),
            rendered.resumed(source, resumed, next),
        ensures
            r is None,
            (WaveletApp { pending_compute: false, ..rendered }).triggered(
                rendered.last_width_px,
                source,
                resumed,
                next,
            ),
    {
    }

    /// A request is only ever made while none is under way, and marks one as under way.
    pub proof fn one_computation_at_a_time<C, L: Fn(u32, F, F) -> (F, F), S: Fn(V) -> usize>(
        self,
        width_px: usize,
        source: Source<C, L, S>,
        new: WaveletApp<F, V>,
        r: Option<ComputeRequest<C, F>>,
    )
        requires
            self.requested(width_px, source, new, r),
            r is Some,
        ensures
            !self.computing,
            new.computing,
            new.pending_compute_viewport == self.viewport,
            self.audio is Some,
            r->0.t_start < r->0.t_end <= self.audio->0.num_samples,
    {
    }

    /// A change of width by more than this recomputes at once.
    pub open spec fn width_changed(self, width_px: usize) -> bool {
        &&& self.last_width_px > 0
        &&& !self.computing
        &&& self.audio is Some
        &&& (width_px - self.last_width_px > 32 || self.last_width_px - width_px > 32)
    }

    /// `new` and `r` follow from a new width of the panel.
    pub open spec fn fitted<C, L: Fn(u32, F, F) -> (F, F), S: Fn(V) -> usize>(
        self,
        width_px: usize,
        source: Source<C, L, S>,
        new: WaveletApp<F, V>,
        r: Option<ComputeRequest<C, F>>,
    ) -> bool {
        let with = WaveletApp { last_width_px: width_px, ..self };
        if self.width_changed(width_px) {
            with.triggered(width_px, source, new, r)
        } else {
            r is None && new == with
        }
    }

    /// The new width is remembered in any case. It is computed for only where it differs by
    /// more than 32 from a width before, and then it is what the request asks for; nothing is
    /// computed while a computation is under way or without a file.
    pub proof fn widths_are_computed_for<C, L: Fn(u32, F, F) -> (F, F), S: Fn(V) -> usize>(
        self,
        width_px: usize,
        source: Source<C, L, S>,
        new: WaveletApp<F, V>,
        r: Option<ComputeRequest<C, F>>,
    )
        requires
            self.fitted(width_px, source, new, r),
        ensures
            new.last_width_px == width_px,
            self.alike(WaveletApp { last_width_px: self.last_width_px, ..new }),
            self.computing || self.audio is None || self.last_width_px == 0 ==> r is None,
            self.last_width_px - 32 <= width_px <= self.last_width_px + 32 ==> r is None,
            r is None ==> new.computing == self.computing && new.pending_compute
                == self.pending_compute,
            r matches Some(q) ==> new.computing && q.width_pixels == width_px && q.superlet_order
                == self.order() && q.antialias == self.antialias && q.unweighted == self.unweighted,
            (width_px > self.last_width_px + 32 || width_px + 32 < self.last_width_px)
                && self.last_width_px > 0 && !self.computing ==> (WaveletApp {
                last_width_px: width_px,
                ..self
            }).triggered(width_px, source, new, r),
    {
    }

    /// The panel has a new width: a clearly different one triggers a computation.
    pub fn on_width<C, L: Fn(u32, F, F) -> (F, F), S: Fn(V) -> usize>(
        &mut self,
        width_px: usize,
        source: Source<C, L, S>,
    ) -> (r: Option<ComputeRequest<C, F>>)
        requires
            forall|sr: u32, lo: F, hi: F| call_requires(source.limit, (sr, lo, hi)),
            forall|t: V| call_requires(source.sample, (t,)),
        ensures
            old(self).fitted(width_px, source, *final(self), r),
    {
        let last: usize = self.last_width_px;
        self.last_width_px = width_px;
        if last > 0 && !self.computing && self.audio.is_some() {
            let diff: usize = if width_px >= last {
                width_px - last
            } else {
                last - width_px
            };
            if diff > 32 {
                return self.trigger_compute(width_px, source);
            }
        }
        None
    }

    /// `new` and `r` follow from a changed time window and frequency range.
    pub open spec fn viewed<C, L: Fn(u32, F, F) -> (F, F), S: Fn(V) -> usize>(
        self,
        window: Viewport<V>,
        f: (F, F),
        width_px: usize,
        source: Source<C, L, S>,
        new: WaveletApp<F, V>,
        r: Option<ComputeRequest<C, F>>,
    ) -> bool {
        (WaveletApp {
            viewport: window,
            params: CwtParams { f_min: f.0, f_max: f.1, ..self.params },
            ..self
        }).requested(width_px, source, new, r)
    }

    /// A changed view is shown at once and is what is computed next, at the width asked for;
    /// the window of the images on show stays until the results are there.
    pub proof fn changed_views_are_computed<C, L: Fn(u32, F, F) -> (F, F), S: Fn(V) -> usize>(
        self,
        limits: spec_fn(u32, F, F) -> (F, F),
        window: Viewport<V>,
        f: (F, F),
        width_px: usize,
        source: Source<C, L, S>,
        new: WaveletApp<F, V>,
        r: Option<ComputeRequest<C, F>>,
    )
        requires
            forall|sr: u32, lo: F, hi: F, g: (F, F)| #[trigger]
                call_ensures(source.limit, (sr, lo, hi), g) ==> g == limits(sr, lo, hi),
            self.viewed(window, f, width_px, source, new, r),
        ensures
            new.viewport == window,
            self.alike(WaveletApp { viewport: self.viewport, ..new }),
            self.computing ==> r is None && new.pending_compute && new.params.f_min == f.0
                && new.params.f_max == f.1,
            !self.computing && self.audio is Some ==> (new.params.f_min, new.params.f_max) == limits(
                self.audio->0.sample_rate,
                f.0,
                f.1,
            ),
            r matches Some(q) ==> q.width_pixels == width_px && q.params == new.params
                && new.pending_compute_viewport == window,
    {
    }

    /// Takes over a changed time window and frequency range.
    pub fn apply_view<C, L: Fn(u32, F, F) -> (F, F), S: Fn(V) -> usize>(
        &mut self,
        window: Viewport<V>,
        f: (F, F),
        width_px: usize,
        source: Source<C, L, S>,
    ) -> (r: Option<ComputeRequest<C, F>>)
        requires
            forall|sr: u32, lo: F, hi: F| call_requires(source.limit, (sr, lo, hi)),
            forall|t: V| call_requires(source.sample, (t,)),
        ensures
            old(self).viewed(window, f, width_px, source, *final(self), r),
    {
        self.viewport = window;
        self.params.f_min = f.0;
        self.params.f_max = f.1;
        self.request_recompute(width_px, source)
    }

    /// `new` has this brightness window, its low end not above its high end.
    pub open spec fn brightened(self, vmin: F, vmax: F, new: WaveletApp<F, V>) -> bool where
        F: PartialOrd,
     {
        ||| numeric::above(vmin, vmax, true) && new == (WaveletApp { vmin: vmax, vmax, ..self })
        ||| numeric::above(vmin, vmax, false) && new == (WaveletApp { vmin, vmax, ..self })
    }

    /// The brightness window has the high end that was set, never a low end above it, and the
    /// low end that was set unless that was above. The captured extent of the data stays.
    pub proof fn brightness_is_a_window(
        self,
        val: spec_fn(F) -> real,
        vmin: F,
        vmax: F,
        new: WaveletApp<F, V>,
    ) where F: PartialOrd
        requires
            numeric::exact_order(val),
            self.brightened(vmin, vmax, new),
        ensures
            new.vmax == vmax,
            val(new.vmin) <= val(new.vmax),
            val(vmin) <= val(vmax) ==> new.vmin == vmin,
            new.data_min == self.data_min,
            new.data_max == self.data_max,
            self.alike(WaveletApp { vmin: self.vmin, vmax: self.vmax, ..new }),
    {
    }

    /// Sets the brightness window; its low end is never above its high end.
    pub fn set_brightness<C>(&mut self, vmin: F, vmax: F) -> (e: Effect<C, F>) where F: PartialOrd
        ensures
            old(self).brightened(vmin, vmax, *final(self)),
            final(self).rerendered(e),
    {
        self.vmin = if vmin > vmax {
            vmax
        } else {
            vmin
        };
        self.vmax = vmax;
        self.rerender()
    }

    /// Resets the brightness window to the data, where there is any.
    pub fn auto_normalize<C, Q: Fn(F) -> bool>(&mut self, limits: &Limits<F, Q>) -> (e: Effect<
        C,
        F,
    >) where F: PartialOrd
        requires
            forall|v: F| call_requires(limits.is_finite, (v,)),
        ensures
            old(self).scalogram_width == 0 ==> *final(self) == *old(self) && e is Nothing,
            old(self).scalogram_width > 0 ==> {
                &&& e is Rebuild
                &&& final(self).normalised(*limits)
                &&& *final(self) == (WaveletApp {
                    data_min: final(self).data_min,
                    data_max: final(self).data_max,
                    vmin: final(self).vmin,
                    vmax: final(self).vmax,
                    ..*old(self)
                })
            },
    {
        if self.scalogram_width > 0 {
            self.capture_norm(limits);
            Effect::Rebuild
        } else {
            Effect::Nothing
        }
    }

    /// Follows the ridge through the current images from the seed, which lies at `start`
    /// (column and row) where it is in view. Without seed, file or image there is none.
    pub fn update_ridge(&mut self, start: Option<(usize, usize)>) where F: PartialOrd
        ensures
            old(self).followed(start, *final(self)),
            final(self).ridge_rows matches Some(rows) ==> {
                let image = old(self).scalograms@[old(self).ridge_seed->0.ch as int]@;
                forall|c: int|
                    0 <= c < rows@.len() ==> #[trigger] rows@[c] < image.len() as int / old(
                        self,
                    ).scalogram_width as int
            },
    {
        self.ridge_rows = None;
        let ch: usize = match self.ridge_seed {
            Some(seed) => seed.ch,
            None => {
                return ;
            },
        };
        if self.audio.is_none() || ch >= self.scalograms.len() {
            return ;
        }
        self.ridge_rows = ridge::extract_ridge(&self.scalograms[ch], self.scalogram_width, start);
    }

    /// `new` has the ridge that is followed from `start`, if there is one.
    pub open spec fn followed(self, start: Option<(usize, usize)>, new: WaveletApp<F, V>) -> bool where
        F: PartialOrd,
     {
        &&& new == (WaveletApp { ridge_rows: new.ridge_rows, ..self })
        &&& new.ridge_rows is Some <==> self.has_ridge(start)
        &&& new.ridge_rows matches Some(rows) ==> ridge::ridge_from(
            self.scalograms@[self.ridge_seed->0.ch as int]@,
            self.scalogram_width as int,
            start->0,
            rows@,
        )
    }

    /// A ridge that was picked on a panel is drawn on that panel and on no other, as soon as
    /// it could be followed through an image of two rows or more.
    pub proof fn ridges_are_drawn_where_they_were_picked(
        self,
        t_sec: V,
        f_hz: V,
        panel: usize,
        seeded: WaveletApp<F, V>,
        start: Option<(usize, usize)>,
        new: WaveletApp<F, V>,
        other: usize,
    ) where F: PartialOrd
        requires
            self.picked(t_sec, f_hz, panel, seeded),
            seeded.followed(start, new),
            new.ridge_rows is Some,
            self.scalograms@[new.ridge_seed->0.ch as int]@.len() >= 2 * self.scalogram_width,
        ensures
            panel < self.panel_count() ==> (new.ridge_shown(other) <==> other == panel),
            new.ridge_seed->0.t_sec == t_sec,
            new.ridge_seed->0.f_hz == f_hz,
            !self.crossed() ==> new.ridge_seed->0.ch == panel,
            self.crossed() ==> new.ridge_seed->0.ch == 0,
    {
        let len = self.scalograms@[new.ridge_seed->0.ch as int]@.len() as int;
        let w = self.scalogram_width as int;
        assert(len / w > 1) by (nonlinear_arith)
            requires
                len >= 2 * w,
                w > 0,
        ;
    }

    /// There is a ridge to follow.
    pub open spec fn has_ridge(self, start: Option<(usize, usize)>) -> bool {
        &&& self.ridge_seed is Some
        &&& self.audio is Some
        &&& self.ridge_seed->0.ch < self.scalograms@.len()
        &&& ridge::trackable(
            self.scalograms@[self.ridge_seed->0.ch as int]@.len() as int,
            self.scalogram_width as int,
            start,
        )
    }
}

/// The recording as the scrollbar sees it: where it starts and ends, and the shortest
/// window.
#[derive(Clone, Copy, Debug)]
pub struct Span<V> {
    pub zero: V,
    pub total: V,
    pub min_len: V,
}

impl<F: Copy, V: Copy + Add<Output = V> + Sub<Output = V> + Div<Output = V> + PartialOrd> WaveletApp<
    F,
    V,
> {
    /// `new` has its window moved by `dt`, the image sliding along.
    pub open spec fn dragged(self, span: Span<V>, dt: V, new: WaveletApp<F, V>) -> bool {
        &&& self.viewport.panned(span.zero, span.total, dt, new.viewport)
        &&& new == (WaveletApp { viewport: new.viewport, panning: true, ..self })
    }

    /// `new` follows from a press on the scrollbar.
    pub open spec fn scrollbar_pressed(
        self,
        h: Hit,
        span: Span<V>,
        two: V,
        centre: V,
        new: WaveletApp<F, V>,
    ) -> bool {
        if h == Hit::Track {
            &&& self.viewport.centred(span.zero, span.total, two, centre, new.viewport)
            &&& new == (WaveletApp {
                scrollbar_drag: ScrollbarDrag::Pan,
                viewport: new.viewport,
                panning: true,
                ..self
            })
        } else {
            new == (WaveletApp { scrollbar_drag: ScrollbarDrag::grabbed(h), ..self })
        }
    }

    /// `new` follows from moving what was grabbed on the scrollbar by `dt`.
    pub open spec fn scrollbar_moved(self, span: Span<V>, dt: V, new: WaveletApp<F, V>) -> bool {
        match self.scrollbar_drag {
            ScrollbarDrag::Pan => self.dragged(span, dt, new),
            ScrollbarDrag::ResizeLeft => {
                &&& self.viewport.left_resized(span.zero, span.min_len, dt, new.viewport)
                &&& new == (WaveletApp { viewport: new.viewport, ..self })
            },
            ScrollbarDrag::ResizeRight => {
                &&& self.viewport.right_resized(span.total, span.min_len, dt, new.viewport)
                &&& new == (WaveletApp { viewport: new.viewport, ..self })
            },
            ScrollbarDrag::Nothing => new == self,
        }
    }

    /// `new` follows from letting the scrollbar go.
    pub open spec fn scrollbar_released(self, new: WaveletApp<F, V>) -> bool {
        new == (WaveletApp { scrollbar_drag: ScrollbarDrag::Nothing, panning: false, ..self })
    }

    /// A drag on the scrollbar moves what it grabbed by the distance of the pointer: the left
    /// or the right edge alone, or the whole window, as far as the recording and the shortest
    /// window allow. Beside the thumb the window first comes to the pointer. Let go, it moves
    /// no more.
    pub proof fn a_drag_moves_what_it_grabbed(
        self,
        val: spec_fn(V) -> real,
        h: Hit,
        span: Span<V>,
        two: V,
        centre: V,
        pressed: WaveletApp<F, V>,
        dt: V,
        moved: WaveletApp<F, V>,
        released: WaveletApp<F, V>,
        dt2: V,
        after: WaveletApp<F, V>,
    )
        requires
            viewport::exact(val),
            numeric::exact_quotients(val),
            val(span.zero) == 0real,
            val(two) == 2real,
            0real <= val(span.min_len) <= self.viewport.length(val),
            0real <= val(self.viewport.t_start),
            val(self.viewport.t_end) <= val(span.total),
            self.scrollbar_pressed(h, span, two, centre, pressed),
            pressed.scrollbar_moved(span, dt, moved),
            moved.scrollbar_released(released),
            released.scrollbar_moved(span, dt2, after),
        ensures
            ({
                let (a, b) = (val(self.viewport.t_start), val(self.viewport.t_end));
                let (x, y) = (val(moved.viewport.t_start), val(moved.viewport.t_end));
                let (d, m, n) = (val(dt), val(span.min_len), val(span.total));
                &&& h == Hit::LeftEdge ==> y == b && (0real <= a + d <= b - m ==> x == a + d)
                &&& h == Hit::RightEdge ==> x == a && (a + m <= b + d <= n ==> y == b + d)
                &&& h == Hit::Body ==> y - x == b - a && (0real <= a + d && b + d <= n ==> x == a
                    + d)
                &&& h == Hit::Track ==> y - x == b - a && (b - a <= 2real * val(centre) <= 2real * n
                    - (b - a) && b - a <= 2real * (val(centre) + d) <= 2real * n - (b - a) ==> x + y
                    == 2real * (val(centre) + d))
                &&& h != Hit::Track ==> pressed.viewport == self.viewport
                &&& 0real <= x && x + m <= y <= n
            }),
            moved.panning <==> self.panning || h == Hit::Body || h == Hit::Track,
            !released.panning,
            after == released,
            after.viewport == moved.viewport,
            after == (WaveletApp {
                viewport: moved.viewport,
                scrollbar_drag: ScrollbarDrag::Nothing,
                panning: false,
                ..self
            }),
    {
        if h == Hit::Track {
            self.viewport.centring_keeps_the_length(
                val,
                span.zero,
                span.total,
                two,
                centre,
                pressed.viewport,
            );
        }
        if h == Hit::Track || h == Hit::Body {
            pressed.viewport.panning_keeps_the_length(
                val,
                span.zero,
                span.total,
                dt,
                moved.viewport,
            );
        }
    }

    /// Drags the image: the window follows by `dt` and the image slides along.
    pub fn drag_pan(&mut self, span: Span<V>, dt: V)
        requires
            numeric::adds::<V>(),
            numeric::subtracts::<V>(),
        ensures
            old(self).dragged(span, dt, *final(self)),
    {
        self.panning = true;
        self.viewport = self.viewport.pan(span.zero, span.total, dt);
    }

    /// Presses the scrollbar: an edge or the body of the thumb is grabbed; beside the thumb
    /// the window jumps there first, its middle at `centre`.
    pub fn scrollbar_press(&mut self, h: Hit, span: Span<V>, two: V, centre: V)
        requires
            numeric::adds::<V>(),
            numeric::subtracts::<V>(),
            numeric::divides::<V>(),
        ensures
            old(self).scrollbar_pressed(h, span, two, centre, *final(self)),
    {
        self.scrollbar_drag = ScrollbarDrag::pressed(h);
        if h == Hit::Track {
            self.viewport = self.viewport.centre_on(span.zero, span.total, two, centre);
            self.panning = true;
        }
    }

    /// Moves what was grabbed on the scrollbar by `dt`.
    pub fn scrollbar_move(&mut self, span: Span<V>, dt: V)
        requires
            numeric::adds::<V>(),
            numeric::subtracts::<V>(),
        ensures
            old(self).scrollbar_moved(span, dt, *final(self)),
    {
        match self.scrollbar_drag {
            ScrollbarDrag::Pan => {
                self.viewport = self.viewport.pan(span.zero, span.total, dt);
                self.panning = true;
            },
            ScrollbarDrag::ResizeLeft => {
                self.viewport = self.viewport.resize_left(span.zero, span.min_len, dt);
            },
            ScrollbarDrag::ResizeRight => {
                self.viewport = self.viewport.resize_right(span.total, span.min_len, dt);
            },
            ScrollbarDrag::Nothing => {},
        }
    }

    /// Lets the scrollbar go.
    pub fn scrollbar_release(&mut self)
        ensures
            old(self).scrollbar_released(*final(self)),
    {
        self.scrollbar_drag = ScrollbarDrag::Nothing;
        self.panning = false;
    }
}

/// Functions on time and frequency that locate a seed.
pub struct Axes<V, N, W, L, R> {
    pub zero: V,
    /// A number as a value.
    pub number: N,
    /// The whole part of a value that is not negative.
    pub whole: W,
    /// The logarithm.
    pub ln: L,
    /// The row nearest to a value, of the given number of rows.
    pub nearest: R,
}

impl<
    V: Copy + Add<Output = V> + Sub<Output = V> + Mul<Output = V> + Div<Output = V> + PartialOrd,
    N: Fn(usize) -> V,
    W: Fn(V) -> usize,
    L: Fn(V) -> V,
    R: Fn(V, usize) -> usize,
> Axes<V, N, W, L, R> {
    pub open spec fn callable(self) -> bool {
        &&& numeric::adds::<V>()
        &&& numeric::subtracts::<V>()
        &&& numeric::multiplies::<V>()
        &&& numeric::divides::<V>()
        &&& forall|n: usize| call_requires(self.number, (n,))
        &&& forall|v: V| call_requires(self.whole, (v,))
        &&& forall|v: V| call_requires(self.ln, (v,))
        &&& forall|v: V, n: usize| call_requires(self.nearest, (v, n))
    }

    /// `x` is the place of time `t_sec` along the columns of a window.
    pub open spec fn place_of(self, t_sec: V, rate: V, window: Viewport<V>, span: V, w: V, x: V) -> bool {
        exists|a: V, b: V, c: V|
            {
                &&& #[trigger] numeric::product(t_sec, rate, a)
                &&& #[trigger] numeric::difference(a, window.t_start, b)
                &&& #[trigger] numeric::quotient(b, span, c)
                &&& numeric::product(c, w, x)
            }
    }

    /// `c` is the column of time `t_sec`, `None` where it is outside the window or the
    /// window is empty.
    pub open spec fn column_at(
        self,
        t_sec: V,
        rate: V,
        window: Viewport<V>,
        width: usize,
        c: Option<usize>,
    ) -> bool {
        exists|span: V| #[trigger]
            numeric::difference(window.t_end, window.t_start, span) && {
                ||| numeric::at_most(span, self.zero, true) && c is None
                ||| numeric::at_most(span, self.zero, false) && exists|w: V, x: V|
                    {
                        &&& #[trigger] call_ensures(self.number, (width,), w)
                        &&& #[trigger] self.place_of(t_sec, rate, window, span, w, x)
                        &&& {
                            ||| (numeric::below(x, self.zero, true) || numeric::at_least(
                                x,
                                w,
                                true,
                            )) && c is None
                            ||| numeric::below(x, self.zero, false) && numeric::at_least(
                                x,
                                w,
                                false,
                            ) && (c matches Some(k) && call_ensures(self.whole, (x,), k))
                        }
                    }
            }
    }

    /// The column of a time in a window of `width` columns.
    pub fn column(&self, t_sec: V, rate: V, window: Viewport<V>, width: usize) -> (c: Option<usize>)
        requires
            self.callable(),
        ensures
            self.column_at(t_sec, rate, window, width, c),
    {
        let span: V = window.t_end - window.t_start;
        assert(numeric::difference(window.t_end, window.t_start, span));
        if span <= self.zero {
            return None;
        }
        let w: V = (self.number)(width);
        let a: V = t_sec * rate;
        let b: V = a - window.t_start;
        let q: V = b / span;
        let x: V = q * w;
        proof {
            assert(numeric::product(t_sec, rate, a));
            assert(numeric::difference(a, window.t_start, b));
            assert(numeric::quotient(b, span, q));
            assert(self.place_of(t_sec, rate, window, span, w, x));
        }
        if x < self.zero || x >= w {
            None
        } else {
            Some((self.whole)(x))
        }
    }

    /// `r` is the row nearest to frequency `f_hz` on a logarithmic axis of `num_scales` rows,
    /// `None` where the axis is empty.
    pub open spec fn row_at(
        self,
        f_hz: V,
        f_min: V,
        f_max: V,
        num_scales: usize,
        r: Option<usize>,
    ) -> bool {
        exists|lo: V, hi: V|
            {
                &&& #[trigger] call_ensures(self.ln, (f_min,), lo)
                &&& #[trigger] call_ensures(self.ln, (f_max,), hi)
                &&& {
                    ||| numeric::at_most(hi, lo, true) && r is None
                    ||| numeric::at_most(hi, lo, false) && exists|l: V, a: V, b: V, c: V, n: V, x: V|
                        {
                            &&& #[trigger] call_ensures(self.ln, (f_hz,), l)
                            &&& #[trigger] numeric::difference(l, lo, a)
                            &&& #[trigger] numeric::difference(hi, lo, b)
                            &&& #[trigger] numeric::quotient(a, b, c)
                            &&& #[trigger] call_ensures(self.number, ((num_scales - 1) as usize,), n)
                            &&& #[trigger] numeric::product(c, n, x)
                            &&& r matches Some(k) && call_ensures(self.nearest, (x, num_scales), k)
                        }
                }
            }
    }

    /// The row of a frequency.
    pub fn row(&self, f_hz: V, f_min: V, f_max: V, num_scales: usize) -> (r: Option<usize>)
        requires
            self.callable(),
            num_scales >= 1,
        ensures
            self.row_at(f_hz, f_min, f_max, num_scales, r),
    {
        let lo: V = (self.ln)(f_min);
        let hi: V = (self.ln)(f_max);
        if hi <= lo {
            return None;
        }
        let l: V = (self.ln)(f_hz);
        let a: V = l - lo;
        let b: V = hi - lo;
        let c: V = a / b;
        let n: V = (self.number)(num_scales - 1);
        let x: V = c * n;
        proof {
            assert(numeric::difference(l, lo, a));
            assert(numeric::difference(hi, lo, b));
            assert(numeric::quotient(a, b, c));
            assert(numeric::product(c, n, x));
        }
        Some((self.nearest)(x, num_scales))
    }

    /// With exact arithmetic, a time is in the column that it falls into: column `k` spans the
    /// share from `k` to `k + 1` of `width` of the window. Times outside the window are in no
    /// column, all others are in one.
    pub proof fn columns_divide_the_window(
        self,
        val: spec_fn(V) -> real,
        t_sec: V,
        rate: V,
        window: Viewport<V>,
        width: usize,
        c: Option<usize>,
    )
        requires
            numeric::exact_differences(val),
            numeric::exact_products(val),
            numeric::exact_quotients(val),
            numeric::exact_order(val),
            val(self.zero) == 0real,
            forall|n: usize, v: V| #[trigger]
                call_ensures(self.number, (n,), v) ==> val(v) == n as int as real,
            forall|v: V, n: usize| #[trigger]
                call_ensures(self.whole, (v,), n) && 0real <= val(v) < usize::MAX as int as real
                    ==> n as int as real <= val(v) < n as int as real + 1real,
            self.column_at(t_sec, rate, window, width, c),
        ensures
            ({
                let (a, b) = (val(window.t_start), val(window.t_end));
                let at = val(t_sec) * val(rate) - a;
                let w = width as int as real;
                &&& c is Some <==> a < b && 0real <= at && at < b - a && width > 0
                &&& c matches Some(k) ==> k < width && k as int as real * (b - a) <= at * w < (
                k as int as real + 1real) * (b - a)
            }),
    {
        let span = choose|span: V| #[trigger]
            numeric::difference(window.t_end, window.t_start, span) && {
                ||| numeric::at_most(span, self.zero, true) && c is None
                ||| numeric::at_most(span, self.zero, false) && exists|w: V, x: V|
                    {
                        &&& #[trigger] call_ensures(self.number, (width,), w)
                        &&& #[trigger] self.place_of(t_sec, rate, window, span, w, x)
                        &&& {
                            ||| (numeric::below(x, self.zero, true) || numeric::at_least(
                                x,
                                w,
                                true,
                            )) && c is None
                            ||| numeric::below(x, self.zero, false) && numeric::at_least(
                                x,
                                w,
                                false,
                            ) && (c matches Some(k) && call_ensures(self.whole, (x,), k))
                        }
                    }
            };
        let s = val(span);
        if s > 0real {
            let (w, x) = choose|w: V, x: V|
                {
                    &&& #[trigger] call_ensures(self.number, (width,), w)
                    &&& #[trigger] self.place_of(t_sec, rate, window, span, w, x)
                    &&& {
                        ||| (numeric::below(x, self.zero, true) || numeric::at_least(x, w, true))
                            && c is None
                        ||| numeric::below(x, self.zero, false) && numeric::at_least(x, w, false)
                            && (c matches Some(k) && call_ensures(self.whole, (x,), k))
                    }
                };
            let (a, b, q) = choose|a: V, b: V, q: V|
                {
                    &&& #[trigger] numeric::product(t_sec, rate, a)
                    &&& #[trigger] numeric::difference(a, window.t_start, b)
                    &&& #[trigger] numeric::quotient(b, span, q)
                    &&& numeric::product(q, w, x)
                };
            share_placed(val(b), s, val(q), width as int, val(x), c);
        }
    }

    /// With exact arithmetic, the row of a frequency is the nearest one on the logarithmic
    /// axis, the lowest frequency in row zero and the highest in the last; a frequency that a
    /// row stands for is in that row.
    pub proof fn rows_are_the_nearest(
        self,
        val: spec_fn(V) -> real,
        log: spec_fn(real) -> real,
        f_hz: V,
        f_min: V,
        f_max: V,
        num_scales: usize,
        r: Option<usize>,
        k: int,
    )
        requires
            numeric::exact_differences(val),
            numeric::exact_products(val),
            numeric::exact_quotients(val),
            numeric::exact_order(val),
            num_scales >= 1,
            val(f_min) > 0real,
            val(f_max) > 0real,
            val(f_hz) > 0real,
            forall|n: usize, v: V| #[trigger]
                call_ensures(self.number, (n,), v) ==> val(v) == n as int as real,
            forall|v: V, l: V| #[trigger]
                call_ensures(self.ln, (v,), l) && val(v) > 0real ==> val(l) == log(val(v)),
            forall|v: V, n: usize, m: usize| #[trigger]
                call_ensures(self.nearest, (v, n), m) && n > 0 ==> nearest_row(val(v), n as int, m as int),
            self.row_at(f_hz, f_min, f_max, num_scales, r),
        ensures
            ({
                let (lo, hi, at) = (log(val(f_min)), log(val(f_max)), log(val(f_hz)));
                let n = num_scales - 1;
                &&& r is Some <==> lo < hi
                &&& r matches Some(m) ==> m < num_scales && {
                    &&& lo <= at <= hi ==> (2real * (m as int as real) - 1real) * (hi - lo) <= 2real
                        * ((at - lo) * (n as real)) <= (2real * (m as int as real) + 1real) * (hi
                        - lo)
                    &&& 0 <= k <= n && (at - lo) * (n as real) == (k as real) * (hi - lo) ==> m == k
                    &&& at == lo ==> m == 0
                    &&& at == hi ==> m == n
                }
            }),
    {
        let (l0, l1) = choose|lo: V, hi: V|
            {
                &&& #[trigger] call_ensures(self.ln, (f_min,), lo)
                &&& #[trigger] call_ensures(self.ln, (f_max,), hi)
                &&& {
                    ||| numeric::at_most(hi, lo, true) && r is None
                    ||| numeric::at_most(hi, lo, false) && exists|
                        l: V,
                        a: V,
                        b: V,
                        c: V,
                        n: V,
                        x: V,
                    |
                        {
                            &&& #[trigger] call_ensures(self.ln, (f_hz,), l)
                            &&& #[trigger] numeric::difference(l, lo, a)
                            &&& #[trigger] numeric::difference(hi, lo, b)
                            &&& #[trigger] numeric::quotient(a, b, c)
                            &&& #[trigger] call_ensures(
                                self.number,
                                ((num_scales - 1) as usize,),
                                n,
                            )
                            &&& #[trigger] numeric::product(c, n, x)
                            &&& r matches Some(k) && call_ensures(self.nearest, (x, num_scales), k)
                        }
                }
            };
        let (lo, hi, at) = (log(val(f_min)), log(val(f_max)), log(val(f_hz)));
        if lo < hi {
            let (l, a, b, c, n, x) = choose|l: V, a: V, b: V, c: V, n: V, x: V|
                {
                    &&& #[trigger] call_ensures(self.ln, (f_hz,), l)
                    &&& #[trigger] numeric::difference(l, l0, a)
                    &&& #[trigger] numeric::difference(l1, l0, b)
                    &&& #[trigger] numeric::quotient(a, b, c)
                    &&& #[trigger] call_ensures(self.number, ((num_scales - 1) as usize,), n)
                    &&& #[trigger] numeric::product(c, n, x)
                    &&& r matches Some(k) && call_ensures(self.nearest, (x, num_scales), k)
                };
            let m = r->0 as int;
            assert(nearest_row(val(x), num_scales as int, m));
            row_placed(at - lo, hi - lo, val(c), num_scales - 1, val(x), m, k);
            let s = hi - lo;
            assert(0real * (val(n)) == 0real && 0real * s == 0real);
            assert(s * val(n) == val(n) * s);
            if at == lo {
                row_placed(at - lo, hi - lo, val(c), num_scales - 1, val(x), m, 0);
            }
            if at == hi {
                row_placed(at - lo, hi - lo, val(c), num_scales - 1, val(x), m, num_scales - 1);
            }
        }
    }
}

/// `m` is the row of `n` that is nearest to `x`.
pub open spec fn nearest_row(x: real, n: int, m: int) -> bool {
    &&& 0 <= m < n
    &&& 0real <= x <= (n - 1) as real ==> 2real * (m as real) - 1real <= 2real * x <= 2real * (
    m as real) + 1real
}

proof fn share_placed(at: real, span: real, q: real, width: int, x: real, c: Option<usize>)
    requires
        span > 0real,
        0 <= width <= usize::MAX,
        q * span == at,
        x == q * (width as real),
        c is None <==> x < 0real || x >= width as real,
        c matches Some(k) ==> k as int as real <= x < k as int as real + 1real,
    ensures
        c is Some <==> 0real <= at < span && width > 0,
        c matches Some(k) ==> k < width && k as int as real * span <= at * (width as real) < (
        k as int as real + 1real) * span,
{
    let w = width as real;
    assert(1real * span == span && 0real * w == 0real && 1real * w == w && 0real * span == 0real);
    if q < 1real {
        reals::ordered(q, 1real, span);
        if w > 0real {
            reals::ordered(q, 1real, w);
        }
    } else {
        reals::weakly_ordered(1real, q, span);
        reals::weakly_ordered(1real, q, w);
    }
    if q >= 0real {
        reals::not_negative(q, w);
        reals::not_negative(q, span);
    } else {
        reals::ordered(q, 0real, span);
        if w > 0real {
            reals::ordered(q, 0real, w);
        }
    }
    reals::associated(span, q, w);
    assert(span * q == q * span);
    assert(span * x == x * span);
    if let Some(k) = c {
        let kr = k as int as real;
        assert(kr < w);
        assert((k as int) < width);
        reals::weakly_ordered(kr, x, span);
        reals::ordered(x, kr + 1real, span);
    }
}

proof fn row_placed(at: real, span: real, q: real, n: int, x: real, m: int, k: int)
    requires
        span > 0real,
        n >= 0,
        q * span == at,
        x == q * (n as real),
        nearest_row(x, n + 1, m),
    ensures
        0real <= at <= span ==> (2real * (m as real) - 1real) * span <= 2real * (at * (n as real))
            <= (2real * (m as real) + 1real) * span,
        0 <= k <= n && at * (n as real) == (k as real) * span ==> m == k,
{
    let w = n as real;
    reals::associated(span, q, w);
    assert(span * q == q * span);
    assert(span * x == x * span);
    assert(at * w == x * span);
    assert(1real * span == span && 0real * w == 0real && 1real * w == w);
    if 0real <= at <= span {
        reals::quotient_sign(q, span);
        reals::quotient_at_most(q, span, 1real);
        reals::not_negative(q, w);
        reals::weakly_ordered(q, 1real, w);
        reals::weakly_ordered(2real * (m as real) - 1real, 2real * x, span);
        reals::weakly_ordered(2real * x, 2real * (m as real) + 1real, span);
        assert((2real * x) * span == 2real * (x * span)) by {
            reals::associated(2real, x, span);
        }
    }
    if 0 <= k <= n && at * w == (k as real) * span {
        if x < k as real {
            reals::ordered(x, k as real, span);
        } else if x > k as real {
            reals::ordered(k as real, x, span);
        }
        assert(x == k as real);
        assert(2 * m - 1 <= 2 * k <= 2 * m + 1);
    }
}

} // verus!
