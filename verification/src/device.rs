//! What a device holds while it performs the operations of a transform, and what its images
//! show in the end.
//!
//! The numbers themselves do not matter here, only where they come from: a buffer holds
//! some samples of a channel, their spectrum, the wavelets of some rows, or what has become
//! of these, and a pixel shows a stretch of a channel's tape through the wavelet of a row.

use vstd::prelude::*;

#[allow(unused_imports)]
use crate::engine::{self, Buf, GpuOp, RunSetup};
#[allow(unused_imports)]
use crate::gpu::ExtractParams;
#[allow(unused_imports)]
use crate::plan::{self, Chunk, CwtPlan};

verus! {

/// Samples `lo` to below `lo + len` of a channel's tape, and zeros behind them.
pub struct Stretch {
    pub channel: int,
    pub lo: int,
    pub len: int,
}

/// The wavelets of rows `first` to below `first + rows`.
pub struct Wavelets<F> {
    pub kind: u32,
    pub p1: F,
    pub p2: F,
    pub first: int,
    pub rows: int,
}

/// What a buffer holds.
pub enum Content<F> {
    /// Nothing that can be told.
    Anything,
    /// Real samples.
    Samples(Stretch),
    /// The same as complex numbers.
    Complex(Stretch),
    /// Their spectrum.
    Spectrum(Stretch),
    /// Spectra of wavelets.
    Bank(Wavelets<F>),
    /// The spectrum times that of every wavelet.
    Products(Stretch, Wavelets<F>),
    /// The samples filtered by every wavelet.
    Filtered(Stretch, Wavelets<F>),
}

/// What a pixel shows: a quantity of the samples `from` to below `to` of a tape, seen
/// through the wavelet of a row.
pub struct Shown<F> {
    /// The samples that were filtered.
    pub of: Stretch,
    /// Those of a second channel, for a cross spectrum.
    pub with: Option<Stretch>,
    /// Which of the quantities that a reduction yields.
    pub what: int,
    pub kind: u32,
    pub p1: F,
    pub p2: F,
    /// The row whose wavelet it is.
    pub row: int,
    pub from: int,
    pub to: int,
    /// One past the last sample that a phase increment is taken to.
    pub limit: int,
    pub unweighted: bool,
}

/// A device: its FFT length, the table of columns, its buffers and images.
pub struct Device<F> {
    pub n: int,
    pub width: int,
    pub bounds: Seq<u32>,
    pub bufs: spec_fn(Buf) -> Content<F>,
    /// What pixel (image, row, column) shows.
    pub pixels: spec_fn(int, int, int) -> Option<Shown<F>>,
}

/// A tape position relative to a chunk, in the 32-bit arithmetic of the kernels.
pub open spec fn relative(bound: u32, chunk_lo: i32) -> int {
    (((bound as i32) - chunk_lo) as i32) as int
}

/// First local sample of a column.
pub open spec fn local_start(bounds: Seq<u32>, p: ExtractParams, col: int) -> int {
    relative(bounds[col], p.chunk_lo)
}

/// One past the last local sample of a column; a column shows one sample at least.
pub open spec fn local_end(bounds: Seq<u32>, p: ExtractParams, col: int) -> int {
    let end = plan::min_of(
        plan::min_of(relative(bounds[col + 1], p.chunk_lo), p.valid_end as int),
        p.n as int,
    );
    plan::max_of(end, local_start(bounds, p, col) + 1)
}

impl<F> Device<F> {
    pub open spec fn with(self, b: Buf, c: Content<F>) -> Device<F> {
        Device {
            bufs: |x: Buf|
                if x == b {
                    c
                } else {
                    (self.bufs)(x)
                },
            ..self
        }
    }

    /// The samples become complex numbers.
    pub open spec fn widened(self, src: Buf, n: int) -> Content<F> {
        match (self.bufs)(src) {
            Content::Samples(s) => if n == self.n {
                Content::Complex(s)
            } else {
                Content::Anything
            },
            _ => Content::Anything,
        }
    }

    /// A forward transform gives a spectrum, an inverse one filtered samples.
    pub open spec fn transformed(self, src: Buf, n: int, batch: int, inverse: bool) -> Content<F> {
        match (self.bufs)(src) {
            Content::Complex(s) => if n == self.n && batch == 1 && !inverse {
                Content::Spectrum(s)
            } else {
                Content::Anything
            },
            Content::Products(s, w) => if n == self.n && batch == w.rows && inverse {
                Content::Filtered(s, w)
            } else {
                Content::Anything
            },
            _ => Content::Anything,
        }
    }

    pub open spec fn multiplied(self, spectrum: Buf, bank: Buf, n: int, rows: int) -> Content<F> {
        match ((self.bufs)(spectrum), (self.bufs)(bank)) {
            (Content::Spectrum(s), Content::Bank(w)) => if n == self.n && rows == w.rows {
                Content::Products(s, w)
            } else {
                Content::Anything
            },
            _ => Content::Anything,
        }
    }

    /// What a reduction of the rows in `a`, and in `b` for a cross spectrum, shows in a
    /// pixel.
    pub open spec fn reduced(
        self,
        a: Buf,
        b: Option<Buf>,
        what: int,
        p: ExtractParams,
        row: int,
        col: int,
    ) -> Option<Shown<F>> {
        match (self.bufs)(a) {
            Content::Filtered(s, w) => {
                let second = match b {
                    Some(b) => match (self.bufs)(b) {
                        Content::Filtered(t, v) => if v == w && t.lo == s.lo && t.len == s.len {
                            Some(t)
                        } else {
                            None
                        },
                        _ => None,
                    },
                    None => None,
                };
                if (b is Some && second is None) || p.n != self.n || p.width != self.width
                    || p.rows != w.rows {
                    None
                } else {
                    Some(
                        Shown {
                            of: s,
                            with: second,
                            what,
                            kind: w.kind,
                            p1: w.p1,
                            p2: w.p2,
                            row: w.first + (row - p.scale_offset),
                            from: s.lo + local_start(self.bounds, p, col),
                            to: s.lo + local_end(self.bounds, p, col),
                            limit: s.lo + p.chunk_len,
                            unweighted: p.unit_weight == 1,
                        },
                    )
                }
            },
            _ => None,
        }
    }

    /// Reductions write `images` images from `first` on, in the rows and columns of `p`.
    pub open spec fn drawn(
        self,
        a: Buf,
        b: Option<Buf>,
        first: int,
        images: int,
        p: ExtractParams,
    ) -> Device<F> {
        Device {
            pixels: |image: int, row: int, col: int|
                if first <= image < first + images && p.scale_offset <= row < p.scale_offset
                    + p.rows && p.col_start <= col < p.col_start + p.col_count {
                    self.reduced(a, b, image - first, p, row, col)
                } else {
                    (self.pixels)(image, row, col)
                },
            ..self
        }
    }

    /// The device after an operation.
    pub open spec fn step(self, op: GpuOp<F>) -> Device<F> {
        match op {
            GpuOp::Upload { channel, lo, copy } => self.with(
                Buf::Real(channel),
                if copy <= self.n {
                    Content::Samples(
                        Stretch { channel: channel as int, lo: lo as int, len: copy as int },
                    )
                } else {
                    Content::Anything
                },
            ),
            GpuOp::RealToComplex { src, dst, params } => self.with(
                dst,
                self.widened(src, params.n as int),
            ),
            // The scratch buffer is overwritten on the way.
            GpuOp::Fft { src, dst, scratch, n, batch, inverse } => if src == dst || src == scratch
                || dst == scratch {
                self.with(dst, Content::Anything).with(scratch, Content::Anything)
            } else {
                self.with(scratch, Content::Anything).with(
                    dst,
                    self.transformed(src, n as int, batch as int, inverse),
                )
            },
            GpuOp::Wavelet { bank, params } => self.with(
                bank,
                if params.n == self.n {
                    Content::Bank(
                        Wavelets {
                            kind: params.kind,
                            p1: params.p1,
                            p2: params.p2,
                            first: params.scale_offset as int,
                            rows: params.num_scales as int,
                        },
                    )
                } else {
                    Content::Anything
                },
            ),
            GpuOp::Multiply { spectrum, bank, product, params } => self.with(
                product,
                self.multiplied(spectrum, bank, params.n as int, params.num_scales as int),
            ),
            GpuOp::Extract { rows, first, params } => self.drawn(
                rows,
                None,
                first as int,
                4,
                params,
            ),
            GpuOp::CrossExtract { a, b, first, params } => self.drawn(
                a,
                Some(b),
                first as int,
                3,
                params,
            ),
            GpuOp::Submit => self,
        }
    }

    /// The device after some operations, performed in order.
    pub open spec fn run(self, ops: Seq<GpuOp<F>>) -> Device<F>
        decreases ops.len(),
    {
        if ops.len() == 0 {
            self
        } else {
            self.run(ops.drop_last()).step(ops.last())
        }
    }

    proof fn run_splits(self, a: Seq<GpuOp<F>>, b: Seq<GpuOp<F>>)
        ensures
            self.run(a + b) == self.run(a).run(b),
        decreases b.len(),
    {
        if b.len() == 0 {
            assert(a + b =~= a);
        } else {
            self.run_splits(a, b.drop_last());
            assert((a + b).drop_last() =~= a + b.drop_last());
        }
    }

    proof fn run_one(self, op: GpuOp<F>)
        ensures
            self.run(seq![op]) == self.step(op),
    {
        assert(seq![op].drop_last() =~= seq![]);
        assert(self.run(seq![]) == self);
    }

    /// The devices have the same size and tables.
    spec fn alike(self, other: Device<F>) -> bool {
        self.n == other.n && self.width == other.width && self.bounds == other.bounds
    }
}

/// The samples of a channel that a chunk holds.
spec fn stretch_of(plan: CwtPlan, ch: Chunk, c: int) -> Stretch {
    Stretch { channel: c, lo: ch.lo as int, len: plan.copied(ch) }
}

spec fn bank_of<F>(plan: CwtPlan, setup: RunSetup<F>, off: int) -> Wavelets<F> {
    Wavelets {
        kind: setup.kind,
        p1: setup.p1,
        p2: setup.p2,
        first: off,
        rows: plan.batch_rows(off),
    }
}

/// The spectra of the first `k` channels are those of a chunk.
spec fn spectra<F>(dev: Device<F>, plan: CwtPlan, ch: Chunk, k: int) -> bool {
    forall|c: int|
        0 <= c < k ==> #[trigger] (dev.bufs)(Buf::Spectrum(c as usize)) == Content::<F>::Spectrum(
            stretch_of(plan, ch, c),
        )
}

/// What a pixel of an image shows of a chunk.
spec fn pixel_of<F>(
    bounds: Seq<u32>,
    plan: CwtPlan,
    setup: RunSetup<F>,
    ch: Chunk,
    image: int,
    row: int,
    col: int,
) -> Shown<F> {
    let cross = image >= 4 * setup.channels;
    let p = plan.extract_params(setup.unweighted, ch, 0);
    Shown {
        of: stretch_of(
            plan,
            ch,
            if cross {
                0
            } else {
                image / 4
            },
        ),
        with: if cross {
            Some(stretch_of(plan, ch, 1))
        } else {
            None
        },
        what: if cross {
            image - 8
        } else {
            image % 4
        },
        kind: setup.kind,
        p1: setup.p1,
        p2: setup.p2,
        row,
        from: ch.lo + local_start(bounds, p, col),
        to: ch.lo + local_end(bounds, p, col),
        limit: ch.lo + plan.copied(ch),
        unweighted: setup.unweighted,
    }
}

/// Sizes with which all parameters fit their fields.
spec fn fits<F>(dev: Device<F>, plan: CwtPlan, ch: Chunk) -> bool {
    &&& dev.n == plan.n_fft
    &&& dev.width == plan.width
    &&& plan.n_fft <= plan::N_FFT_MAX
    &&& plan.num_scales <= u32::MAX
    &&& plan.width <= u32::MAX
    &&& ch.col_start <= ch.col_end <= plan.width
    &&& plan.batch >= 1
}

impl CwtPlan {
    proof fn uploads<F>(self, dev: Device<F>, ch: Chunk, k: int) -> (out: Device<F>)
        requires
            fits(dev, self, ch),
            0 <= k <= 2,
        ensures
            out == dev.run(self.upload_ops(k, ch)),
            out.alike(dev),
            out.pixels == dev.pixels,
            forall|c: int|
                0 <= c < k ==> #[trigger] (out.bufs)(Buf::Real(c as usize)) == Content::<
                    F,
                >::Samples(stretch_of(self, ch, c)),
        decreases k,
    {
        let ops = self.upload_ops::<F>(k, ch);
        if k > 0 {
            let before = self.uploads(dev, ch, k - 1);
            assert(ops.drop_last() =~= self.upload_ops::<F>(k - 1, ch));
            let out = before.step(ops.last());
            assert forall|c: int| 0 <= c < k implies #[trigger] (out.bufs)(Buf::Real(c as usize))
                == Content::<F>::Samples(stretch_of(self, ch, c)) by {
                if c < k - 1 {
                    assert((before.bufs)(Buf::Real(c as usize)) == Content::<F>::Samples(
                        stretch_of(self, ch, c),
                    ));
                }
            }
            out
        } else {
            dev
        }
    }

    proof fn forwards<F>(self, dev: Device<F>, ch: Chunk, channels: int, k: int) -> (out: Device<F>)
        requires
            fits(dev, self, ch),
            0 <= k <= channels <= 2,
            forall|c: int|
                0 <= c < channels ==> #[trigger] (dev.bufs)(Buf::Real(c as usize)) == Content::<
                    F,
                >::Samples(stretch_of(self, ch, c)),
        ensures
            out == dev.run(self.forward_ops(k)),
            out.alike(dev),
            out.pixels == dev.pixels,
            spectra(out, self, ch, k),
            forall|c: int|
                0 <= c < channels ==> #[trigger] (out.bufs)(Buf::Real(c as usize)) == Content::<
                    F,
                >::Samples(stretch_of(self, ch, c)),
        decreases k,
    {
        let ops = self.forward_ops::<F>(k);
        if k > 0 {
            let before = self.forwards(dev, ch, channels, k - 1);
            let fewer = self.forward_ops::<F>(k - 1);
            let (a, b) = (ops[2 * k - 2], ops[2 * k - 1]);
            assert(ops.drop_last() =~= fewer.push(a));
            assert(fewer.push(a).drop_last() =~= fewer);
            let mid = before.step(a);
            let out = mid.step(b);
            assert(fewer.push(a).last() == a && ops.last() == b);
            assert(dev.run(fewer.push(a)) == mid);
            assert(dev.run(ops) == out);
            assert((before.bufs)(Buf::Real((k - 1) as usize)) == Content::<F>::Samples(
                stretch_of(self, ch, k - 1),
            ));
            assert((mid.bufs)(Buf::Complex) == Content::<F>::Complex(stretch_of(self, ch, k - 1)));
            assert forall|c: int| 0 <= c < k implies #[trigger] (out.bufs)(
                Buf::Spectrum(c as usize),
            ) == Content::<F>::Spectrum(stretch_of(self, ch, c)) by {
                if c < k - 1 {
                    assert((before.bufs)(Buf::Spectrum(c as usize)) == Content::<F>::Spectrum(
                        stretch_of(self, ch, c),
                    ));
                }
            }
            assert forall|c: int| 0 <= c < channels implies #[trigger] (out.bufs)(
                Buf::Real(c as usize),
            ) == Content::<F>::Samples(stretch_of(self, ch, c)) by {
                assert((before.bufs)(Buf::Real(c as usize)) == Content::<F>::Samples(
                    stretch_of(self, ch, c),
                ));
            }
            out
        } else {
            dev
        }
    }

    proof fn channels_drawn<F>(
        self,
        dev: Device<F>,
        setup: RunSetup<F>,
        ch: Chunk,
        off: int,
        all: int,
        image: int,
        row: int,
        col: int,
    ) -> (out: Device<F>)
        requires
            fits(dev, self, ch),
            setup.channels <= all <= 2,
            spectra(dev, self, ch, all),
            0 <= off < self.num_scales,
            0 <= image < 4 * all || image >= 8,
            0 <= row,
            0 <= col,
        ensures
            out == dev.run(self.channel_ops(setup, ch, off)),
            out.alike(dev),
            spectra(out, self, ch, all),
            forall|c: int|
                0 <= c < setup.channels ==> #[trigger] (out.bufs)(Buf::Rows(c as usize))
                    == Content::Filtered(stretch_of(self, ch, c), bank_of(self, setup, off)),
            (out.pixels)(image, row, col) == if 0 <= image < 4 * setup.channels && off <= row < off
                + self.batch_rows(off) && ch.col_start <= col < ch.col_end {
                Some(
                    pixel_of(
                        dev.bounds,
                        self,
                        RunSetup { channels: all as usize, ..setup },
                        ch,
                        image,
                        row,
                        col,
                    ),
                )
            } else {
                (dev.pixels)(image, row, col)
            },
        decreases setup.channels,
    {
        let ops = self.channel_ops(setup, ch, off);
        let n = setup.channels as int;
        if n == 0 {
            assert(ops =~= seq![]);
            dev
        } else {
            let fewer = RunSetup { channels: (n - 1) as usize, ..setup };
            let before = self.channels_drawn(dev, fewer, ch, off, all, image, row, col);
            let first = self.channel_ops(fewer, ch, off);
            let (a, b, c, d) = (ops[4 * n - 4], ops[4 * n - 3], ops[4 * n - 2], ops[4 * n - 1]);
            assert(ops.drop_last() =~= first.push(a).push(b).push(c));
            assert(first.push(a).push(b).push(c).drop_last() =~= first.push(a).push(b));
            assert(first.push(a).push(b).drop_last() =~= first.push(a));
            assert(first.push(a).drop_last() =~= first);
            assert((4 * n - 4) % 4 == 0 && (4 * n - 3) % 4 == 1 && (4 * n - 2) % 4 == 2 && (4 * n
                - 1) % 4 == 3);
            assert((4 * n - 3) / 4 == n - 1 && (4 * n - 2) / 4 == n - 1 && (4 * n - 1) / 4 == n
                - 1);
            let (s, w) = (stretch_of(self, ch, n - 1), bank_of(self, setup, off));
            assert(w == bank_of(self, fewer, off));
            assert(w.rows == self.batch_rows(off) && 1 <= w.rows <= u32::MAX);
            let e = before.step(a);
            assert((e.bufs)(Buf::Bank) == Content::Bank(w));
            assert((before.bufs)(Buf::Spectrum((n - 1) as usize)) == Content::<F>::Spectrum(s));
            let f = e.step(b);
            assert((f.bufs)(Buf::Product) == Content::Products(s, w));
            let g = f.step(c);
            assert((g.bufs)(Buf::Rows((n - 1) as usize)) == Content::Filtered(s, w));
            let out = g.step(d);
            assert(first.push(a).last() == a && ops.last() == d);
            assert(dev.run(first.push(a)) == e);
            assert(first.push(a).push(b).last() == b);
            assert(dev.run(first.push(a).push(b)) == f);
            assert(first.push(a).push(b).push(c).last() == c);
            assert(dev.run(first.push(a).push(b).push(c)) == g);
            assert(dev.run(ops) == out);
            assert forall|k: int| 0 <= k < all implies #[trigger] (out.bufs)(
                Buf::Spectrum(k as usize),
            ) == Content::<F>::Spectrum(stretch_of(self, ch, k)) by {
                assert((before.bufs)(Buf::Spectrum(k as usize)) == Content::<F>::Spectrum(
                    stretch_of(self, ch, k),
                ));
            }
            assert forall|k: int| 0 <= k < n implies #[trigger] (out.bufs)(Buf::Rows(k as usize))
                == Content::Filtered(stretch_of(self, ch, k), w) by {
                if k < n - 1 {
                    assert((before.bufs)(Buf::Rows(k as usize)) == Content::Filtered(
                        stretch_of(self, ch, k),
                        w,
                    ));
                }
            }
            assert(g.pixels == before.pixels);
            out
        }
    }

    /// After a batch the pixels of its rows show the chunk.
    proof fn batch_drawn<F>(
        self,
        dev: Device<F>,
        setup: RunSetup<F>,
        ch: Chunk,
        off: int,
        image: int,
        row: int,
        col: int,
    ) -> (out: Device<F>)
        requires
            fits(dev, self, ch),
            1 <= setup.channels <= 2,
            spectra(dev, self, ch, setup.channels as int),
            0 <= off < self.num_scales,
            0 <= image < engine::image_count(setup.channels as int),
            0 <= row,
            0 <= col,
        ensures
            out == dev.run(
                self.channel_ops(setup, ch, off) + self.cross_ops(setup, ch, off),
            ),
            out.alike(dev),
            spectra(out, self, ch, setup.channels as int),
            (out.pixels)(image, row, col) == if off <= row < off + self.batch_rows(off)
                && ch.col_start <= col < ch.col_end {
                Some(pixel_of(dev.bounds, self, setup, ch, image, row, col))
            } else {
                (dev.pixels)(image, row, col)
            },
    {
        let all = setup.channels as int;
        let mid = self.channels_drawn(dev, setup, ch, off, all, image, row, col);
        let (a, b) = (self.channel_ops(setup, ch, off), self.cross_ops(setup, ch, off));
        dev.run_splits(a, b);
        if setup.channels == 2 {
            mid.run_one(b[0]);
            assert(b =~= seq![b[0]]);
            assert((mid.bufs)(Buf::Rows(0 as usize)) == Content::Filtered(
                stretch_of(self, ch, 0),
                bank_of(self, setup, off),
            ));
            assert((mid.bufs)(Buf::Rows(1 as usize)) == Content::Filtered(
                stretch_of(self, ch, 1),
                bank_of(self, setup, off),
            ));
            let out = mid.step(b[0]);
            assert forall|k: int| 0 <= k < all implies #[trigger] (out.bufs)(
                Buf::Spectrum(k as usize),
            ) == Content::<F>::Spectrum(stretch_of(self, ch, k)) by {
                assert((mid.bufs)(Buf::Spectrum(k as usize)) == Content::<F>::Spectrum(
                    stretch_of(self, ch, k),
                ));
            }
            out
        } else {
            assert(mid.run(b) == mid);
            mid
        }
    }

    proof fn batches_drawn<F>(
        self,
        dev: Device<F>,
        setup: RunSetup<F>,
        ch: Chunk,
        off: int,
        image: int,
        row: int,
        col: int,
    ) -> (out: Device<F>)
        requires
            fits(dev, self, ch),
            1 <= setup.channels <= 2,
            spectra(dev, self, ch, setup.channels as int),
            0 <= off <= self.num_scales,
            0 <= image < engine::image_count(setup.channels as int),
            0 <= row < self.num_scales,
            0 <= col,
        ensures
            out == dev.run(self.batch_ops(setup, ch, off)),
            out.alike(dev),
            (out.pixels)(image, row, col) == if off <= row && ch.col_start <= col < ch.col_end {
                Some(pixel_of(dev.bounds, self, setup, ch, image, row, col))
            } else {
                (dev.pixels)(image, row, col)
            },
        decreases self.num_scales - off,
    {
        if self.batch_rows(off) <= 0 {
            dev
        } else {
            let mid = self.batch_drawn(dev, setup, ch, off, image, row, col);
            let next = off + self.batch_rows(off);
            let out = self.batches_drawn(mid, setup, ch, next, image, row, col);
            let a = self.channel_ops(setup, ch, off) + self.cross_ops(setup, ch, off);
            dev.run_splits(a, self.batch_ops(setup, ch, next));
            out
        }
    }

    proof fn chunk_drawn<F>(
        self,
        dev: Device<F>,
        setup: RunSetup<F>,
        ch: Chunk,
        image: int,
        row: int,
        col: int,
    ) -> (out: Device<F>)
        requires
            fits(dev, self, ch),
            1 <= setup.channels <= 2,
            0 <= image < engine::image_count(setup.channels as int),
            0 <= row < self.num_scales,
            0 <= col,
        ensures
            out == dev.run(self.chunk_ops(setup, ch)),
            out.alike(dev),
            (out.pixels)(image, row, col) == if ch.col_start <= col < ch.col_end {
                Some(pixel_of(dev.bounds, self, setup, ch, image, row, col))
            } else {
                (dev.pixels)(image, row, col)
            },
    {
        let all = setup.channels as int;
        let a = self.upload_ops::<F>(all, ch);
        let b = self.forward_ops::<F>(all);
        let c = self.batch_ops(setup, ch, 0);
        let d = seq![GpuOp::<F>::Submit];
        let x = self.uploads(dev, ch, all);
        let y = self.forwards(x, ch, all, all);
        let z = self.batches_drawn(y, setup, ch, 0, image, row, col);
        dev.run_splits(a, b);
        dev.run_splits(a + b, c);
        dev.run_splits(a + b + c, d);
        z.run_one(d[0]);
        z
    }

    proof fn program_drawn<F>(
        self,
        dev: Device<F>,
        setup: RunSetup<F>,
        k: nat,
        at: int,
        image: int,
        row: int,
        col: int,
    ) -> (out: Device<F>)
        requires
            forall|i: int|
                0 <= i < self.chunks@.len() ==> fits(dev, self, #[trigger] self.chunks@[i]),
            1 <= setup.channels <= 2,
            0 <= image < engine::image_count(setup.channels as int),
            0 <= row < self.num_scales,
            0 <= col,
            k <= self.chunks@.len(),
            forall|i: int|
                0 <= i < self.chunks@.len() ==> (i == at <==> (
                #[trigger] self.chunks@[i]).col_start <= col < self.chunks@[i].col_end),
        ensures
            out == dev.run(self.program(setup, k)),
            out.alike(dev),
            0 <= at < k ==> (out.pixels)(image, row, col) == Some(
                pixel_of(dev.bounds, self, setup, self.chunks@[at], image, row, col),
            ),
        decreases k,
    {
        if k > 0 {
            let before = self.program_drawn(dev, setup, (k - 1) as nat, at, image, row, col);
            let ch = self.chunks@[k - 1];
            assert(fits(dev, self, ch));
            let out = self.chunk_drawn(before, setup, ch, image, row, col);
            dev.run_splits(self.program(setup, (k - 1) as nat), self.chunk_ops(setup, ch));
            out
        } else {
            dev
        }
    }

    /// Running a plan, on whatever device, shows in every pixel of every image what it is
    /// for: the quantity that the image is of, taken of the channel's own tape, from the
    /// first sample of the column to the last (of a single sample where the column has
    /// none), through the wavelet of the row, all of it within the samples that were
    /// transformed.
    pub proof fn every_pixel_shows_its_samples<F>(
        self,
        req: plan::WindowRequest,
        setup: RunSetup<F>,
        dev: Device<F>,
        image: int,
        row: int,
        col: int,
    )
        requires
            !req.blank(),
            req.plannable(),
            req.planned(self),
            1 <= setup.channels <= 2,
            req.num_scales <= u32::MAX,
            req.width <= u32::MAX,
            dev.n == self.n_fft,
            dev.width == self.width,
            dev.bounds == self.bounds@,
            0 <= image < (if setup.channels == 2 {
                11int
            } else {
                4int
            }),
            0 <= row < self.num_scales,
            0 <= col < self.width,
        ensures
            ({
                let end = dev.run(self.program(setup, self.chunks@.len()));
                (end.pixels)(image, row, col) matches Some(r) && {
                    &&& r.of.channel == if image < 8 {
                        image / 4
                    } else {
                        0
                    }
                    &&& r.what == if image < 8 {
                        image % 4
                    } else {
                        image - 8
                    }
                    &&& image < 8 ==> r.with is None
                    &&& image >= 8 ==> (r.with matches Some(t) && t.channel == 1 && t.lo == r.of.lo
                        && t.len == r.of.len)
                    &&& r.kind == setup.kind && r.p1 == setup.p1 && r.p2 == setup.p2
                    &&& r.row == row
                    &&& r.from == self.bounds@[col]
                    &&& r.to == plan::max_of(self.bounds@[col + 1] as int, r.from + 1)
                    &&& 0 <= r.of.lo <= r.from < r.to <= r.of.lo + r.of.len <= self.tape_len
                    &&& r.limit == r.of.lo + r.of.len
                    &&& r.unweighted == setup.unweighted
                }
            }),
    {
        let at = req.every_column_has_one_chunk(self, col);
        let ch = self.chunks@[at];
        req.ranges();
        req.fft_length();
        req.batches_fit_the_budget();
        assert forall|i: int| 0 <= i < self.chunks@.len() implies fits(
            dev,
            self,
            #[trigger] self.chunks@[i],
        ) by {
            if req.chunked() {
                assert(req.greedy_chunk(self.chunks@[i]));
            }
        }
        assert forall|i: int| 0 <= i < self.chunks@.len() implies (i == at <==> (
        #[trigger] self.chunks@[i]).col_start <= col < self.chunks@[i].col_end) by {
            assert(req.in_chunk(col, self.chunks@[i]) ==> i == at);
        }
        let end = self.program_drawn(dev, setup, self.chunks@.len(), at, image, row, col);
        let p = self.extract_params(setup.unweighted, ch, 0);
        let (lo, b0, b1) = (ch.lo as u32, self.bounds@[col], self.bounds@[col + 1]);
        assert(b0 == req.bound(col) && b1 == req.bound(col + 1));
        req.bounds_ascend(col, col + 1);
        req.bounds_ascend(col + 1, self.width as int);
        req.room_for_one_sample(self, at, col);
        let lo_size = ch.lo;
        assert(lo_size as i32 == (lo_size as u32) as i32) by (bit_vector);
        assert(self.copied(ch) == ch.len);
        assert(relative(b0, p.chunk_lo) == b0 - lo) by {
            assert((((b0 as i32) - (lo as i32)) as i32) as int == b0 - lo) by (bit_vector)
                requires
                    b0 >= lo,
                    b0 - lo <= 0x1000_0000,
            ;
        }
        assert(relative(b1, p.chunk_lo) == b1 - lo) by {
            assert((((b1 as i32) - (lo as i32)) as i32) as int == b1 - lo) by (bit_vector)
                requires
                    b1 >= lo,
                    b1 - lo <= 0x1000_0000,
            ;
        }
    }
}

} // verus!
