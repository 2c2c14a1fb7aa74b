//! The transform engine: which buffers a transform needs and which operations it
//! performs on them, in order.

use vstd::prelude::*;

#[allow(unused_imports)]
use crate::gpu;
use crate::gpu::{workgroups, ExtractParams, Kernel, MulParams, RcParams, WavParams};
use crate::plan::{Chunk, CwtPlan};
#[allow(unused_imports)]
use crate::plan;

verus! {

/// A buffer on the device.
#[derive(Clone, Copy, Debug, PartialEq, Eq, Structural)]
pub enum Buf {
    /// A channel's samples, `n_fft` reals.
    Real(usize),
    /// `n_fft` complex numbers, shared by the channels.
    Complex,
    /// Ping-pong partner of the forward FFT.
    FftScratch,
    /// A channel's spectrum, `n_fft` complex numbers.
    Spectrum(usize),
    /// One batch of wavelet spectra; later the ping-pong partner of the inverse FFT.
    Bank,
    /// One batch of products.
    Product,
    /// One batch of a channel's transform rows.
    Rows(usize),
    /// Scale of every row.
    Scales,
    /// Peak frequency parameter of every row.
    Eta,
    /// First tape sample of every column.
    Bounds,
    /// An image: four per channel, then three of the cross spectrum.
    Out(usize),
}

/// One operation of a transform.
#[derive(Clone, Copy, Debug)]
pub enum GpuOp<F> {
    /// Fill the channel's real buffer with `copy` tape samples from `lo` on, then zeros.
    Upload { channel: usize, lo: usize, copy: usize },
    RealToComplex { src: Buf, dst: Buf, params: RcParams },
    Fft { src: Buf, dst: Buf, scratch: Buf, n: u32, batch: u32, inverse: bool },
    Wavelet { bank: Buf, params: WavParams<F> },
    Multiply { spectrum: Buf, bank: Buf, product: Buf, params: MulParams },
    /// Reduce rows to amplitude, phase, coherence and frequency deviation, written to four
    /// images from `first` on.
    Extract { rows: Buf, first: usize, params: ExtractParams },
    /// Reduce two channels' rows to cross phase, coherence and amplitude, written to three
    /// images from `first` on.
    CrossExtract { a: Buf, b: Buf, first: usize, params: ExtractParams },
    /// Hand the recorded operations to the device.
    Submit,
}

/// What a transform is run with besides its plan.
#[derive(Clone, Copy, Debug)]
pub struct RunSetup<F> {
    /// Number of signals, one or two.
    pub channels: usize,
    /// Wavelet family code.
    pub kind: u32,
    /// First shape parameter.
    pub p1: F,
    /// Second shape parameter.
    pub p2: F,
    /// Weigh phase increments equally rather than by energy.
    pub unweighted: bool,
}

/// Index of the first image of a channel.
pub open spec fn channel_images(channel: int) -> int {
    4 * channel
}

/// Index of the first cross-spectrum image.
pub const CROSS_IMAGES: usize = 8;

/// Number of images that a transform of `channels` signals yields.
pub open spec fn image_count(channels: int) -> int {
    4 * channels + if channels == 2 {
        3int
    } else {
        0int
    }
}

impl CwtPlan {
    /// Tape samples of a chunk that go into its FFT.
    pub open spec fn copied(self, ch: Chunk) -> int {
        plan::min_of(ch.len as int, self.n_fft as int)
    }

    /// Rows of the batch that starts at row `off`.
    pub open spec fn batch_rows(self, off: int) -> int {
        plan::min_of(self.batch as int, self.num_scales - off)
    }

    /// How the batch at `off` of a chunk is reduced to pixels.
    pub open spec fn extract_params(self, unweighted: bool, ch: Chunk, off: int) -> ExtractParams {
        ExtractParams {
            n: self.n_fft as u32,
            rows: self.batch_rows(off) as u32,
            scale_offset: off as u32,
            width: self.width as u32,
            col_start: ch.col_start as u32,
            col_count: (ch.col_end - ch.col_start) as u32,
            chunk_lo: ch.lo as i32,
            chunk_len: self.copied(ch) as i32,
            valid_end: plan::min_of(self.valid_end - ch.lo, self.copied(ch)) as i32,
            unit_weight: if unweighted {
                1
            } else {
                0
            },
            _pad: [0, 0],
        }
    }

    /// Every channel's samples of a chunk are uploaded.
    pub open spec fn upload_ops<F>(self, channels: int, ch: Chunk) -> Seq<GpuOp<F>> {
        Seq::new(
            channels as nat,
            |c: int|
                GpuOp::Upload {
                    channel: c as usize,
                    lo: ch.lo,
                    copy: self.copied(ch) as usize,
                },
        )
    }

    /// Every channel's samples are transformed.
    pub open spec fn forward_ops<F>(self, channels: int) -> Seq<GpuOp<F>> {
        Seq::new(
            (2 * channels) as nat,
            |i: int|
                if i % 2 == 0 {
                    GpuOp::RealToComplex {
                        src: Buf::Real((i / 2) as usize),
                        dst: Buf::Complex,
                        params: RcParams { n: self.n_fft as u32, _pad: [0, 0, 0] },
                    }
                } else {
                    GpuOp::Fft {
                        src: Buf::Complex,
                        dst: Buf::Spectrum((i / 2) as usize),
                        scratch: Buf::FftScratch,
                        n: self.n_fft as u32,
                        batch: 1,
                        inverse: false,
                    }
                },
        )
    }

    /// One batch of scales: for every channel a fresh wavelet bank, its product with the
    /// channel's spectrum, the inverse transform and the reduction to pixels. (The bank is
    /// fresh for each channel because the inverse transform overwrites it.)
    pub open spec fn channel_ops<F>(self, setup: RunSetup<F>, ch: Chunk, off: int) -> Seq<
        GpuOp<F>,
    > {
        let n = self.n_fft as u32;
        let rows = self.batch_rows(off) as u32;
        Seq::new(
            (4 * setup.channels) as nat,
            |i: int|
                if i % 4 == 0 {
                    GpuOp::Wavelet {
                        bank: Buf::Bank,
                        params: WavParams {
                            n,
                            num_scales: rows,
                            scale_offset: off as u32,
                            kind: setup.kind,
                            p1: setup.p1,
                            p2: setup.p2,
                            _pad: [0, 0],
                        },
                    }
                } else if i % 4 == 1 {
                    GpuOp::Multiply {
                        spectrum: Buf::Spectrum((i / 4) as usize),
                        bank: Buf::Bank,
                        product: Buf::Product,
                        params: MulParams { n, num_scales: rows, _pad: [0, 0] },
                    }
                } else if i % 4 == 2 {
                    GpuOp::Fft {
                        src: Buf::Product,
                        dst: Buf::Rows((i / 4) as usize),
                        scratch: Buf::Bank,
                        n,
                        batch: rows,
                        inverse: true,
                    }
                } else {
                    GpuOp::Extract {
                        rows: Buf::Rows((i / 4) as usize),
                        first: channel_images(i / 4) as usize,
                        params: self.extract_params(setup.unweighted, ch, off),
                    }
                },
        )
    }

    /// Two channels also give their cross spectrum.
    pub open spec fn cross_ops<F>(self, setup: RunSetup<F>, ch: Chunk, off: int) -> Seq<GpuOp<F>> {
        if setup.channels == 2 {
            seq![
                GpuOp::CrossExtract {
                    a: Buf::Rows(0),
                    b: Buf::Rows(1),
                    first: CROSS_IMAGES,
                    params: self.extract_params(setup.unweighted, ch, off),
                },
            ]
        } else {
            seq![]
        }
    }

    /// The batches of a chunk from row `off` on.
    pub open spec fn batch_ops<F>(self, setup: RunSetup<F>, ch: Chunk, off: int) -> Seq<GpuOp<F>>
        decreases self.num_scales - off,
    {
        if self.batch_rows(off) <= 0 {
            seq![]
        } else {
            self.channel_ops(setup, ch, off) + self.cross_ops(setup, ch, off) + self.batch_ops(
                setup,
                ch,
                off + self.batch_rows(off),
            )
        }
    }

    /// All operations of a chunk.
    pub open spec fn chunk_ops<F>(self, setup: RunSetup<F>, ch: Chunk) -> Seq<GpuOp<F>> {
        self.upload_ops(setup.channels as int, ch) + self.forward_ops(setup.channels as int)
            + self.batch_ops(setup, ch, 0) + seq![GpuOp::Submit]
    }

    /// The operations of the first `k` chunks, in order.
    pub open spec fn program<F>(self, setup: RunSetup<F>, k: nat) -> Seq<GpuOp<F>>
        decreases k,
    {
        if k == 0 {
            seq![]
        } else {
            self.program(setup, (k - 1) as nat) + self.chunk_ops(setup, self.chunks@[k - 1])
        }
    }

    /// What the operations rely on: every chunk starts within the shown part, columns
    /// ascend, and a batch holds at least one row.
    pub open spec fn runnable(self) -> bool {
        &&& self.batch >= 1
        &&& self.n_fft <= plan::N_FFT_MAX
        &&& forall|i: int|
            0 <= i < self.chunks@.len() ==> {
                &&& (#[trigger] self.chunks@[i]).lo <= self.valid_end
                &&& self.chunks@[i].col_start <= self.chunks@[i].col_end
            }
    }
}

impl CwtPlan {
    fn record_forward<F: Copy>(&self, channels: usize, ch: Chunk, ops: &mut Vec<GpuOp<F>>)
        requires
            channels <= 2,
        ensures
            final(ops)@ == old(ops)@ + self.upload_ops(channels as int, ch) + self.forward_ops(
                channels as int,
            ),
    {
        let copy: usize = if ch.len <= self.n_fft {
            ch.len
        } else {
            self.n_fft
        };
        let mut c: usize = 0;
        while c < channels
            invariant
                c <= channels <= 2,
                copy == self.copied(ch),
                ops@ == old(ops)@ + self.upload_ops::<F>(c as int, ch),
            decreases channels - c,
        {
            ops.push(GpuOp::Upload { channel: c, lo: ch.lo, copy });
            assert(self.upload_ops::<F>(c + 1, ch) =~= self.upload_ops(c as int, ch).push(
                ops@.last(),
            ));
            c = c + 1;
        }
        let n: u32 = self.n_fft as u32;
        let ghost before = ops@;
        let mut c: usize = 0;
        while c < channels
            invariant
                c <= channels <= 2,
                n == self.n_fft as u32,
                ops@ == before + self.forward_ops::<F>(c as int),
            decreases channels - c,
        {
            let params = RcParams::new(n);
            ops.push(GpuOp::RealToComplex { src: Buf::Real(c), dst: Buf::Complex, params });
            ops.push(
                GpuOp::Fft {
                    src: Buf::Complex,
                    dst: Buf::Spectrum(c),
                    scratch: Buf::FftScratch,
                    n,
                    batch: 1,
                    inverse: false,
                },
            );
            proof {
                assert(params._pad =~= [0u32, 0, 0]);
                let next = self.forward_ops::<F>(c + 1);
                let now = self.forward_ops::<F>(c as int);
                assert(next =~= now.push(next[2 * c]).push(next[2 * c + 1]));
                assert(ops@ =~= before + next);
            }
            c = c + 1;
        }
    }

    fn record_batch<F: Copy>(
        &self,
        setup: RunSetup<F>,
        ch: Chunk,
        off: usize,
        rows: usize,
        ops: &mut Vec<GpuOp<F>>,
    )
        requires
            setup.channels <= 2,
            rows == self.batch_rows(off as int),
            self.n_fft <= plan::N_FFT_MAX,
            ch.lo <= self.valid_end,
            ch.col_start <= ch.col_end,
        ensures
            final(ops)@ == old(ops)@ + self.channel_ops(setup, ch, off as int) + self.cross_ops(
                setup,
                ch,
                off as int,
            ),
    {
        let copy: usize = if ch.len <= self.n_fft {
            ch.len
        } else {
            self.n_fft
        };
        let ahead: usize = self.valid_end - ch.lo;
        let valid: usize = if ahead <= copy {
            ahead
        } else {
            copy
        };
        let n: u32 = self.n_fft as u32;
        let params = ExtractParams {
            n,
            rows: rows as u32,
            scale_offset: off as u32,
            width: self.width as u32,
            col_start: ch.col_start as u32,
            col_count: (ch.col_end - ch.col_start) as u32,
            chunk_lo: ch.lo as i32,
            chunk_len: copy as i32,
            valid_end: valid as i32,
            unit_weight: if setup.unweighted {
                1
            } else {
                0
            },
            _pad: [0, 0],
        };
        assert(params == self.extract_params(setup.unweighted, ch, off as int)) by {
            assert(params._pad =~= [0u32, 0]);
        }
        let mut c: usize = 0;
        while c < setup.channels
            invariant
                c <= setup.channels <= 2,
                n == self.n_fft as u32,
                rows == self.batch_rows(off as int),
                params == self.extract_params(setup.unweighted, ch, off as int),
                ops@ == old(ops)@ + self.channel_ops(
                    RunSetup { channels: c, ..setup },
                    ch,
                    off as int,
                ),
            decreases setup.channels - c,
        {
            let wav = WavParams {
                n,
                num_scales: rows as u32,
                scale_offset: off as u32,
                kind: setup.kind,
                p1: setup.p1,
                p2: setup.p2,
                _pad: [0, 0],
            };
            let product = MulParams::new(n, rows as u32);
            ops.push(GpuOp::Wavelet { bank: Buf::Bank, params: wav });
            ops.push(
                GpuOp::Multiply {
                    spectrum: Buf::Spectrum(c),
                    bank: Buf::Bank,
                    product: Buf::Product,
                    params: product,
                },
            );
            ops.push(
                GpuOp::Fft {
                    src: Buf::Product,
                    dst: Buf::Rows(c),
                    scratch: Buf::Bank,
                    n,
                    batch: rows as u32,
                    inverse: true,
                },
            );
            ops.push(GpuOp::Extract { rows: Buf::Rows(c), first: 4 * c, params });
            proof {
                assert(wav._pad =~= [0u32, 0]);
                assert(product._pad =~= [0u32, 0]);
                let next = self.channel_ops(
                    RunSetup { channels: (c + 1) as usize, ..setup },
                    ch,
                    off as int,
                );
                let now = self.channel_ops(RunSetup { channels: c, ..setup }, ch, off as int);
                assert(next =~= now.push(next[4 * c]).push(next[4 * c + 1]).push(
                    next[4 * c + 2],
                ).push(next[4 * c + 3]));
                assert(ops@ =~= old(ops)@ + next);
            }
            c = c + 1;
        }
        assert(RunSetup { channels: c, ..setup } == setup);
        if setup.channels == 2 {
            ops.push(
                GpuOp::CrossExtract {
                    a: Buf::Rows(0),
                    b: Buf::Rows(1),
                    first: CROSS_IMAGES,
                    params,
                },
            );
        }
        assert(ops@ =~= old(ops)@ + self.channel_ops(setup, ch, off as int) + self.cross_ops(
            setup,
            ch,
            off as int,
        ));
    }

    fn record_chunk<F: Copy>(&self, setup: RunSetup<F>, ch: Chunk, ops: &mut Vec<GpuOp<F>>)
        requires
            setup.channels <= 2,
            self.runnable(),
            self.chunks@.contains(ch),
        ensures
            final(ops)@ == old(ops)@ + self.chunk_ops(setup, ch),
    {
        self.record_forward(setup.channels, ch, ops);
        let ghost before = ops@;
        let mut off: usize = 0;
        assert(ops@ + self.batch_ops(setup, ch, 0) == before + self.batch_ops(setup, ch, 0));
        while off < self.num_scales
            invariant
                off <= self.num_scales,
                setup.channels <= 2,
                self.runnable(),
                self.chunks@.contains(ch),
                ops@ + self.batch_ops(setup, ch, off as int) == before + self.batch_ops(
                    setup,
                    ch,
                    0,
                ),
            decreases self.num_scales - off,
        {
            let left: usize = self.num_scales - off;
            let rows: usize = if self.batch <= left {
                self.batch
            } else {
                left
            };
            let ghost now = ops@;
            self.record_batch(setup, ch, off, rows, ops);
            proof {
                let rest = self.batch_ops(setup, ch, off + rows);
                assert(self.batch_ops(setup, ch, off as int) == self.channel_ops(
                    setup,
                    ch,
                    off as int,
                ) + self.cross_ops(setup, ch, off as int) + rest);
                assert(ops@ + rest =~= now + self.batch_ops(setup, ch, off as int));
            }
            off = off + rows;
        }
        proof {
            assert(self.batch_ops(setup, ch, off as int) =~= seq![]);
            assert(ops@ =~= before + self.batch_ops(setup, ch, 0));
        }
        ops.push(GpuOp::Submit);
        assert(ops@ =~= old(ops)@ + self.chunk_ops(setup, ch));
    }

    /// The operations that compute the planned transform.
    pub fn operations<F: Copy>(&self, setup: RunSetup<F>) -> (ops: Vec<GpuOp<F>>)
        requires
            setup.channels <= 2,
            self.runnable(),
        ensures
            ops@ == self.program(setup, self.chunks@.len()),
    {
        let mut ops: Vec<GpuOp<F>> = Vec::new();
        let mut k: usize = 0;
        assert(ops@ =~= self.program(setup, 0));
        while k < self.chunks.len()
            invariant
                k <= self.chunks@.len(),
                setup.channels <= 2,
                self.runnable(),
                ops@ == self.program(setup, k as nat),
            decreases self.chunks@.len() - k,
        {
            let ch = self.chunks[k];
            self.record_chunk(setup, ch, &mut ops);
            k = k + 1;
        }
        ops
    }
}

impl<F> GpuOp<F> {
    /// The kernel that an operation runs, with its invocations along x and its rows. An FFT
    /// pass works on pairs, one invocation each. Uploads and submissions run none.
    pub open spec fn kernel_of(self) -> Option<(Kernel, u32, u32)> {
        match self {
            GpuOp::Upload { .. } | GpuOp::Submit => None,
            GpuOp::RealToComplex { params, .. } => Some((Kernel::RealToComplex, params.n, 1)),
            GpuOp::Fft { n, batch, .. } => Some((Kernel::Fft, n / 2, batch)),
            GpuOp::Wavelet { params, .. } => Some((Kernel::Wavelet, params.n, params.num_scales)),
            GpuOp::Multiply { params, .. } => Some((Kernel::Multiply, params.n, params.num_scales)),
            GpuOp::Extract { params, .. } => Some((Kernel::Extract, params.col_count, params.rows)),
            GpuOp::CrossExtract { params, .. } => Some(
                (Kernel::CrossExtract, params.col_count, params.rows),
            ),
        }
    }

    /// `k` is the kernel that an operation runs and the workgroups to launch, if any.
    pub open spec fn launches(self, k: Option<(Kernel, (u32, u32, u32))>) -> bool {
        &&& k is Some <==> self.kernel_of() is Some
        &&& k matches Some(l) ==> {
            let (kernel, cols, rows) = self.kernel_of()->0;
            l.0 == kernel && gpu::launched(cols, rows, l.1)
        }
    }

    /// Element (`x`, `y`) belongs to the work of an operation: a value of a row, a pair of
    /// values of a row for an FFT pass, or a pixel of the columns and rows that are reduced.
    pub open spec fn works_on(self, x: int, y: int) -> bool {
        match self {
            GpuOp::Upload { .. } | GpuOp::Submit => false,
            GpuOp::RealToComplex { params, .. } => 0 <= x < params.n && y == 0,
            GpuOp::Fft { n, batch, .. } => 0 <= x && 2 * x + 1 < n && 0 <= y < batch,
            GpuOp::Wavelet { params, .. } => 0 <= x < params.n && 0 <= y < params.num_scales,
            GpuOp::Multiply { params, .. } => 0 <= x < params.n && 0 <= y < params.num_scales,
            GpuOp::Extract { params, .. } => covers(
                params,
                params.scale_offset + y,
                params.col_start + x,
            ),
            GpuOp::CrossExtract { params, .. } => covers(
                params,
                params.scale_offset + y,
                params.col_start + x,
            ),
        }
    }

    /// Every element that an operation works on has an invocation of its kernel, 64 of which
    /// make a workgroup along x, and every workgroup `g` has such an element; each operation
    /// runs the kernel of its own name, and what only moves data runs none.
    pub proof fn work_is_launched(
        self,
        k: Option<(Kernel, (u32, u32, u32))>,
        x: int,
        y: int,
        g: int,
    )
        requires
            self.launches(k),
        ensures
            self.works_on(x, y) ==> (k matches Some((kernel, wg)) && x / 64 < wg.0 && y < wg.1
                && wg.2 == 1),
            k matches Some((kernel, wg)) ==> (0 <= g < wg.0 && 0 <= y < wg.1 ==> self.works_on(
                64 * g,
                y,
            )),
            k is None <==> self is Upload || self is Submit,
            k matches Some((kernel, wg)) ==> {
                &&& kernel == Kernel::RealToComplex <==> self is RealToComplex
                &&& kernel == Kernel::Fft <==> self is Fft
                &&& kernel == Kernel::Wavelet <==> self is Wavelet
                &&& kernel == Kernel::Multiply <==> self is Multiply
                &&& kernel == Kernel::Extract <==> self is Extract
                &&& kernel == Kernel::CrossExtract <==> self is CrossExtract
            },
    {
    }

    /// The kernel that an operation runs and the workgroups to launch.
    pub fn launch(&self) -> (k: Option<(Kernel, (u32, u32, u32))>)
        ensures
            self.launches(k),
    {
        match self {
            GpuOp::Upload { .. } | GpuOp::Submit => None,
            GpuOp::RealToComplex { params, .. } => Some(
                (Kernel::RealToComplex, workgroups(params.n, 1)),
            ),
            GpuOp::Fft { n, batch, .. } => Some((Kernel::Fft, workgroups(*n / 2, *batch))),
            GpuOp::Wavelet { params, .. } => Some(
                (Kernel::Wavelet, workgroups(params.n, params.num_scales)),
            ),
            GpuOp::Multiply { params, .. } => Some(
                (Kernel::Multiply, workgroups(params.n, params.num_scales)),
            ),
            GpuOp::Extract { params, .. } => Some(
                (Kernel::Extract, workgroups(params.col_count, params.rows)),
            ),
            GpuOp::CrossExtract { params, .. } => Some(
                (Kernel::CrossExtract, workgroups(params.col_count, params.rows)),
            ),
        }
    }
}

/// The operation writes pixel (`row`, `col`) of image `image`.
pub open spec fn writes<F>(op: GpuOp<F>, image: int, row: int, col: int) -> bool {
    match op {
        GpuOp::Extract { first, params, .. } => first <= image < first + 4 && covers(
            params,
            row,
            col,
        ),
        GpuOp::CrossExtract { first, params, .. } => first <= image < first + 3 && covers(
            params,
            row,
            col,
        ),
        _ => false,
    }
}

/// The pixels that a reduction writes.
pub open spec fn covers(params: ExtractParams, row: int, col: int) -> bool {
    &&& params.scale_offset <= row < params.scale_offset + params.rows
    &&& params.col_start <= col < params.col_start + params.col_count
}

/// How often the operations write a pixel of an image.
pub open spec fn write_count<F>(ops: Seq<GpuOp<F>>, image: int, row: int, col: int) -> nat
    decreases ops.len(),
{
    if ops.len() == 0 {
        0
    } else {
        write_count(ops.drop_last(), image, row, col) + if writes(ops.last(), image, row, col) {
            1nat
        } else {
            0nat
        }
    }
}

proof fn write_count_splits<F>(a: Seq<GpuOp<F>>, b: Seq<GpuOp<F>>, image: int, row: int, col: int)
    ensures
        write_count(a + b, image, row, col) == write_count(a, image, row, col) + write_count(
            b,
            image,
            row,
            col,
        ),
    decreases b.len(),
{
    if b.len() == 0 {
        assert(a + b =~= a);
    } else {
        assert((a + b).drop_last() =~= a + b.drop_last());
        write_count_splits(a, b.drop_last(), image, row, col);
    }
}

proof fn nothing_written<F>(ops: Seq<GpuOp<F>>, image: int, row: int, col: int)
    requires
        forall|i: int| 0 <= i < ops.len() ==> !writes(#[trigger] ops[i], image, row, col),
    ensures
        write_count(ops, image, row, col) == 0,
    decreases ops.len(),
{
    if ops.len() > 0 {
        nothing_written(ops.drop_last(), image, row, col);
    }
}

impl CwtPlan {
    proof fn channel_ops_write_once<F>(
        self,
        setup: RunSetup<F>,
        ch: Chunk,
        off: int,
        image: int,
        row: int,
        col: int,
    )
        requires
            setup.channels <= 2,
            0 <= image,
            0 <= row,
            0 <= col,
        ensures
            write_count(self.channel_ops(setup, ch, off), image, row, col) == (if image < 4
                * setup.channels && covers(
                self.extract_params(setup.unweighted, ch, off),
                row,
                col,
            ) {
                1nat
            } else {
                0nat
            }),
        decreases setup.channels,
    {
        let ops = self.channel_ops(setup, ch, off);
        let n = setup.channels;
        if n == 0 {
            assert(ops =~= seq![]);
        } else {
            let fewer = RunSetup { channels: (n - 1) as usize, ..setup };
            self.channel_ops_write_once(fewer, ch, off, image, row, col);
            let last = seq![ops[4 * n - 4], ops[4 * n - 3], ops[4 * n - 2], ops[4 * n - 1]];
            assert(ops =~= self.channel_ops(fewer, ch, off) + last);
            write_count_splits(self.channel_ops(fewer, ch, off), last, image, row, col);
            assert((4 * n - 1) % 4 == 3 && (4 * n - 1) / 4 == n - 1);
            nothing_written(last.drop_last(), image, row, col);
            assert(last.last() == ops[4 * n - 1]);
        }
    }

    proof fn batch_ops_write_once<F>(
        self,
        setup: RunSetup<F>,
        ch: Chunk,
        off: int,
        image: int,
        row: int,
        col: int,
    )
        requires
            1 <= setup.channels <= 2,
            self.batch >= 1,
            0 <= image < image_count(setup.channels as int),
            0 <= row < self.num_scales <= u32::MAX,
            0 <= col,
            ch.col_start <= ch.col_end <= u32::MAX,
            0 <= off <= self.num_scales,
        ensures
            write_count(self.batch_ops(setup, ch, off), image, row, col) == (if off <= row
                && ch.col_start <= col < ch.col_end {
                1nat
            } else {
                0nat
            }),
        decreases self.num_scales - off,
    {
        if self.batch_rows(off) > 0 {
            let a = self.channel_ops(setup, ch, off);
            let b = self.cross_ops(setup, ch, off);
            let rest = self.batch_ops(setup, ch, off + self.batch_rows(off));
            self.channel_ops_write_once(setup, ch, off, image, row, col);
            self.batch_ops_write_once(
                setup,
                ch,
                off + self.batch_rows(off),
                image,
                row,
                col,
            );
            write_count_splits(a, b, image, row, col);
            write_count_splits(a + b, rest, image, row, col);
            if setup.channels == 2 {
                assert(b.drop_last() =~= seq![]);
                assert(write_count(b.drop_last(), image, row, col) == 0);
            }
        }
    }

    proof fn chunk_ops_write_once<F>(
        self,
        setup: RunSetup<F>,
        ch: Chunk,
        image: int,
        row: int,
        col: int,
    )
        requires
            1 <= setup.channels <= 2,
            self.batch >= 1,
            0 <= image < image_count(setup.channels as int),
            0 <= row < self.num_scales <= u32::MAX,
            0 <= col,
            ch.col_start <= ch.col_end <= u32::MAX,
        ensures
            write_count(self.chunk_ops(setup, ch), image, row, col) == (if ch.col_start <= col
                < ch.col_end {
                1nat
            } else {
                0nat
            }),
    {
        let a = self.upload_ops::<F>(setup.channels as int, ch);
        let b = self.forward_ops::<F>(setup.channels as int);
        let c = self.batch_ops(setup, ch, 0);
        let d = seq![GpuOp::<F>::Submit];
        self.batch_ops_write_once(setup, ch, 0, image, row, col);
        nothing_written(a, image, row, col);
        nothing_written(b, image, row, col);
        nothing_written(d, image, row, col);
        write_count_splits(a, b, image, row, col);
        write_count_splits(a + b, c, image, row, col);
        write_count_splits(a + b + c, d, image, row, col);
    }

    proof fn program_writes_once<F>(
        self,
        setup: RunSetup<F>,
        k: nat,
        at: int,
        image: int,
        row: int,
        col: int,
    )
        requires
            1 <= setup.channels <= 2,
            self.batch >= 1,
            0 <= image < image_count(setup.channels as int),
            0 <= row < self.num_scales <= u32::MAX,
            0 <= col,
            k <= self.chunks@.len(),
            forall|i: int|
                0 <= i < self.chunks@.len() ==> (#[trigger] self.chunks@[i]).col_start
                    <= self.chunks@[i].col_end <= u32::MAX,
            forall|i: int|
                0 <= i < self.chunks@.len() ==> (i == at <==> (
                #[trigger] self.chunks@[i]).col_start <= col < self.chunks@[i].col_end),
        ensures
            write_count(self.program(setup, k), image, row, col) == (if 0 <= at < k {
                1nat
            } else {
                0nat
            }),
        decreases k,
    {
        if k > 0 {
            let before = self.program(setup, (k - 1) as nat);
            let ch = self.chunks@[k - 1];
            self.program_writes_once(setup, (k - 1) as nat, at, image, row, col);
            self.chunk_ops_write_once(setup, ch, image, row, col);
            write_count_splits(before, self.chunk_ops(setup, ch), image, row, col);
        }
    }

    /// A plan can be run.
    pub proof fn plans_are_runnable(self, req: plan::WindowRequest)
        requires
            !req.blank(),
            req.plannable(),
            req.planned(self),
        ensures
            self.runnable(),
    {
        req.ranges();
        req.fft_length();
        req.batches_fit_the_budget();
        assert forall|i: int| 0 <= i < self.chunks@.len() implies {
            &&& (#[trigger] self.chunks@[i]).lo <= self.valid_end
            &&& self.chunks@[i].col_start <= self.chunks@[i].col_end
        } by {
            let ch = self.chunks@[i];
            if req.chunked() {
                assert(req.greedy_chunk(ch));
                req.bounds_ascend(ch.col_start as int, ch.col_end as int);
            }
        }
    }

    /// Running a plan writes every pixel of every image exactly once.
    pub proof fn every_pixel_is_written_once<F>(
        self,
        req: plan::WindowRequest,
        setup: RunSetup<F>,
        image: int,
        row: int,
        col: int,
    )
        requires
            !req.blank(),
            req.plannable(),
            req.planned(self),
            1 <= setup.channels <= 2,
            req.num_scales <= u32::MAX,
            req.width <= u32::MAX,
            0 <= image < image_count(setup.channels as int),
            0 <= row < req.num_scales,
            0 <= col < req.width,
        ensures
            write_count(self.program(setup, self.chunks@.len()), image, row, col) == 1,
    {
        self.plans_are_runnable(req);
        let at = req.every_column_has_one_chunk(self, col);
        assert forall|i: int| 0 <= i < self.chunks@.len() implies (#[trigger] self.chunks@[i]).col_start
            <= self.chunks@[i].col_end <= u32::MAX by {
            if req.chunked() {
                assert(req.greedy_chunk(self.chunks@[i]));
            }
        }
        assert forall|i: int| 0 <= i < self.chunks@.len() implies (i == at <==> (
        #[trigger] self.chunks@[i]).col_start <= col < self.chunks@[i].col_end) by {
            assert(req.in_chunk(col, self.chunks@[i]) ==> i == at);
        }
        self.program_writes_once(setup, self.chunks@.len(), at, image, row, col);
    }
}

/// The buffers of one transform configuration. They are kept between transforms of the
/// same configuration.
#[derive(Clone, Copy, Debug, PartialEq, Eq, Structural)]
pub struct BufferSet {
    pub n_fft: usize,
    pub batch: usize,
    pub width: usize,
    pub num_scales: usize,
    pub channels: usize,
}

impl BufferSet {
    /// Sizes in bytes can be computed.
    pub open spec fn sizes_fit(self) -> bool {
        &&& self.n_fft * 8 <= usize::MAX
        &&& self.batch * self.n_fft * 8 <= usize::MAX
        &&& self.num_scales * self.width * 4 <= usize::MAX
        &&& self.num_scales * 4 <= usize::MAX
        &&& (self.width + 1) * 4 <= usize::MAX
    }

    /// Size of a buffer in bytes: 4 for a real number or an index, 8 for a complex number.
    pub open spec fn byte_size(self, b: Buf) -> int {
        match b {
            Buf::Real(_) => self.n_fft * 4,
            Buf::Complex | Buf::FftScratch | Buf::Spectrum(_) => self.n_fft * 8,
            Buf::Bank | Buf::Product | Buf::Rows(_) => self.batch * self.n_fft * 8,
            Buf::Scales | Buf::Eta => self.num_scales * 4,
            Buf::Bounds => (self.width + 1) * 4,
            Buf::Out(_) => self.num_scales * self.width * 4,
        }
    }

    /// The set holds buffer `b`.
    pub open spec fn has(self, b: Buf) -> bool {
        match b {
            Buf::Real(c) => c < self.channels,
            Buf::Spectrum(c) => c < self.channels,
            Buf::Rows(c) => c < self.channels,
            Buf::Out(i) => i < image_count(self.channels as int),
            _ => true,
        }
    }

    /// The set is that of a plan for `channels` signals.
    pub open spec fn serves(self, plan: CwtPlan, channels: usize) -> bool {
        &&& self.n_fft == plan.n_fft
        &&& self.batch == plan.batch
        &&& self.width == plan.width
        &&& self.num_scales == plan.num_scales
        &&& self.channels == channels
    }

    /// The buffers that a plan for `channels` signals needs.
    pub fn of(plan: &CwtPlan, channels: usize) -> (s: BufferSet)
        ensures
            s.serves(*plan, channels),
    {
        BufferSet {
            n_fft: plan.n_fft,
            batch: plan.batch,
            width: plan.width,
            num_scales: plan.num_scales,
            channels,
        }
    }

    /// Size of a buffer in bytes.
    pub fn bytes(self, b: Buf) -> (n: u64)
        requires
            self.sizes_fit(),
        ensures
            n == self.byte_size(b),
    {
        let n: usize = match b {
            Buf::Real(_) => self.n_fft * 4,
            Buf::Complex | Buf::FftScratch | Buf::Spectrum(_) => self.n_fft * 8,
            Buf::Bank | Buf::Product | Buf::Rows(_) => {
                assert(self.batch * self.n_fft <= self.batch * self.n_fft * 8) by (
                    nonlinear_arith)
                    requires
                        0 <= self.batch,
                        0 <= self.n_fft,
                ;
                self.batch * self.n_fft * 8
            },
            Buf::Scales | Buf::Eta => self.num_scales * 4,
            Buf::Bounds => (self.width + 1) * 4,
            Buf::Out(_) => {
                assert(self.num_scales * self.width <= self.num_scales * self.width * 4) by (
                    nonlinear_arith)
                    requires
                        0 <= self.num_scales,
                        0 <= self.width,
                ;
                self.num_scales * self.width * 4
            },
        };
        n as u64
    }

    /// The kept buffers cannot serve and new ones are needed.
    pub fn stale(kept: Option<BufferSet>, needed: BufferSet) -> (r: bool)
        ensures
            r <==> kept != Some(needed),
    {
        match kept {
            Some(b) => b != needed,
            None => true,
        }
    }

    /// Number of images of the set.
    pub fn images(self) -> (n: usize)
        requires
            self.channels <= 2,
        ensures
            n == image_count(self.channels as int),
    {
        if self.channels == 2 {
            11
        } else {
            4 * self.channels
        }
    }

    /// All buffers of the set, each once.
    pub fn buffers(self) -> (list: Vec<Buf>)
        requires
            self.channels <= 2,
        ensures
            forall|b: Buf| #[trigger] list@.contains(b) <==> self.has(b),
            list@.no_duplicates(),
    {
        let mut list: Vec<Buf> = vec![
            Buf::Complex,
            Buf::FftScratch,
            Buf::Bank,
            Buf::Product,
            Buf::Scales,
            Buf::Eta,
            Buf::Bounds,
        ];
        let mut c: usize = 0;
        while c < self.channels
            invariant
                c <= self.channels <= 2,
                list@.no_duplicates(),
                list@.len() == 7 + 3 * c,
                forall|i: int|
                    0 <= i < list@.len() ==> match #[trigger] list@[i] {
                        Buf::Real(k) => k < c && i == 7 + 3 * k,
                        Buf::Spectrum(k) => k < c && i == 8 + 3 * k,
                        Buf::Rows(k) => k < c && i == 9 + 3 * k,
                        Buf::Out(_) => false,
                        _ => i < 7,
                    },
                list@[0] == Buf::Complex,
                list@[1] == Buf::FftScratch,
                list@[2] == Buf::Bank,
                list@[3] == Buf::Product,
                list@[4] == Buf::Scales,
                list@[5] == Buf::Eta,
                list@[6] == Buf::Bounds,
                c >= 1 ==> list@[7] == Buf::Real(0) && list@[8] == Buf::Spectrum(0) && list@[9]
                    == Buf::Rows(0),
                c >= 2 ==> list@[10] == Buf::Real(1) && list@[11] == Buf::Spectrum(1) && list@[12]
                    == Buf::Rows(1),
            decreases self.channels - c,
        {
            list.push(Buf::Real(c));
            list.push(Buf::Spectrum(c));
            list.push(Buf::Rows(c));
            c = c + 1;
        }
        let ghost base = list@;
        let n: usize = self.images();
        let mut i: usize = 0;
        while i < n
            invariant
                i <= n,
                n == image_count(self.channels as int),
                list@.no_duplicates(),
                list@.len() == base.len() + i,
                forall|k: int| 0 <= k < base.len() ==> #[trigger] list@[k] == base[k],
                forall|k: int| 0 <= k < base.len() ==> !(#[trigger] base[k] is Out),
                forall|k: int|
                    base.len() <= k < list@.len() ==> #[trigger] list@[k] == Buf::Out(
                        (k - base.len()) as usize,
                    ),
            decreases n - i,
        {
            list.push(Buf::Out(i));
            i = i + 1;
        }
        assert forall|b: Buf| #[trigger] list@.contains(b) <==> self.has(b) by {
            if self.has(b) {
                let at: int = match b {
                    Buf::Complex => 0,
                    Buf::FftScratch => 1,
                    Buf::Bank => 2,
                    Buf::Product => 3,
                    Buf::Scales => 4,
                    Buf::Eta => 5,
                    Buf::Bounds => 6,
                    Buf::Real(k) => 7 + 3 * k,
                    Buf::Spectrum(k) => 8 + 3 * k,
                    Buf::Rows(k) => 9 + 3 * k,
                    Buf::Out(k) => base.len() + k,
                };
                assert(list@[at] == b);
            }
        }
        list
    }
}

/// The operation reads or writes buffer `b`.
pub open spec fn uses<F>(op: GpuOp<F>, b: Buf) -> bool {
    match op {
        GpuOp::Upload { channel, .. } => b == Buf::Real(channel),
        GpuOp::RealToComplex { src, dst, .. } => b == src || b == dst,
        GpuOp::Fft { src, dst, scratch, .. } => b == src || b == dst || b == scratch,
        GpuOp::Wavelet { bank, .. } => b == bank || b == Buf::Scales || b == Buf::Eta,
        GpuOp::Multiply { spectrum, bank, product, .. } => b == spectrum || b == bank || b
            == product,
        GpuOp::Extract { rows, first, .. } => b == rows || b == Buf::Scales || b == Buf::Eta || b
            == Buf::Bounds || (b matches Buf::Out(i) && first <= i < first + 4),
        GpuOp::CrossExtract { a, b: other, first, .. } => b == a || b == other || b == Buf::Bounds
            || (b matches Buf::Out(i) && first <= i < first + 3),
        GpuOp::Submit => false,
    }
}

/// The operation finds its buffers in the set, and an FFT works on three different ones.
pub open spec fn served<F>(op: GpuOp<F>, set: BufferSet) -> bool {
    &&& forall|b: Buf| #[trigger] uses(op, b) ==> set.has(b)
    &&& op matches GpuOp::Fft { src, dst, scratch, .. } ==> src != dst && dst != scratch && scratch
        != src
}

impl CwtPlan {
    proof fn batch_ops_are_served<F>(
        self,
        setup: RunSetup<F>,
        ch: Chunk,
        off: int,
        set: BufferSet,
        i: int,
    )
        requires
            1 <= setup.channels <= 2,
            set.channels == setup.channels,
            0 <= i < self.batch_ops(setup, ch, off).len(),
        ensures
            served(self.batch_ops(setup, ch, off)[i], set),
        decreases self.num_scales - off,
    {
        if self.batch_rows(off) > 0 {
            let a = self.channel_ops(setup, ch, off);
            let b = self.cross_ops(setup, ch, off);
            if i < a.len() {
                assert(self.batch_ops(setup, ch, off)[i] == a[i]);
            } else if i < a.len() + b.len() {
                assert(self.batch_ops(setup, ch, off)[i] == b[i - a.len()]);
            } else {
                self.batch_ops_are_served(
                    setup,
                    ch,
                    off + self.batch_rows(off),
                    set,
                    i - a.len() - b.len(),
                );
            }
        }
    }

    /// Every operation of a transform works on buffers of its buffer set, and no FFT
    /// overwrites what it reads.
    pub proof fn every_operation_is_served<F>(
        self,
        setup: RunSetup<F>,
        k: nat,
        set: BufferSet,
        i: int,
    )
        requires
            1 <= setup.channels <= 2,
            set.channels == setup.channels,
            k <= self.chunks@.len(),
            0 <= i < self.program(setup, k).len(),
        ensures
            served(self.program(setup, k)[i], set),
        decreases k,
    {
        let before = self.program(setup, (k - 1) as nat);
        let ch = self.chunks@[k - 1];
        if i < before.len() {
            self.every_operation_is_served(setup, (k - 1) as nat, set, i);
        } else {
            let j = i - before.len();
            let a = self.upload_ops::<F>(setup.channels as int, ch);
            let b = self.forward_ops::<F>(setup.channels as int);
            let c = self.batch_ops(setup, ch, 0);
            let op = self.chunk_ops(setup, ch)[j];
            assert(self.program(setup, k)[i] == op);
            if j < a.len() {
                assert(op == a[j]);
            } else if j < a.len() + b.len() {
                assert(op == b[j - a.len()]);
            } else if j < a.len() + b.len() + c.len() {
                assert(op == c[j - a.len() - b.len()]);
                self.batch_ops_are_served(setup, ch, 0, set, j - a.len() - b.len());
            }
        }
    }

    /// The big buffers of a plan fit the budget, so their sizes can be computed.
    pub proof fn buffer_sizes_fit(self, req: plan::WindowRequest, set: BufferSet)
        requires
            !req.blank(),
            req.plannable(),
            req.planned(self),
            set.n_fft == self.n_fft,
            set.batch == self.batch,
            set.width == self.width,
            set.num_scales == self.num_scales,
            req.num_scales * req.width * 4 <= usize::MAX,
            (req.width + 1) * 4 <= usize::MAX,
            req.num_scales * 4 <= usize::MAX,
        ensures
            set.sizes_fit(),
            self.batch == 1 || set.byte_size(Buf::Bank) <= plan::BIG_BUF_BUDGET,
    {
        req.fft_length();
        req.batches_fit_the_budget();
        let (b, n) = (self.batch as int, self.n_fft as int);
        assert(b * (n * 8) == b * n * 8) by (nonlinear_arith);
        if b == 1 {
            assert(b * n * 8 == n * 8) by (nonlinear_arith)
                requires
                    b == 1,
            ;
        }
    }

    /// Every operation finds room in its buffers for all that it reads and writes: real
    /// numbers and indices of four bytes, complex numbers of eight.
    pub proof fn buffers_have_room<F>(
        self,
        setup: RunSetup<F>,
        ch: Chunk,
        off: int,
        set: BufferSet,
        i: int,
    )
        requires
            set.serves(self, setup.channels),
            self.n_fft <= u32::MAX,
            self.num_scales <= u32::MAX,
            self.width <= u32::MAX,
            ch.col_start <= ch.col_end <= self.width,
            0 <= off < self.num_scales,
            0 <= i < self.channel_ops(setup, ch, off).len(),
        ensures
            ({
                let op = self.channel_ops(setup, ch, off)[i];
                &&& op matches GpuOp::Wavelet { bank, params } ==> {
                    &&& params.num_scales * params.n * 8 <= set.byte_size(bank)
                    &&& (params.scale_offset + params.num_scales) * 4 <= set.byte_size(Buf::Scales)
                    &&& (params.scale_offset + params.num_scales) * 4 <= set.byte_size(Buf::Eta)
                }
                &&& op matches GpuOp::Multiply { spectrum, bank, product, params } ==> {
                    &&& params.n * 8 <= set.byte_size(spectrum)
                    &&& params.num_scales * params.n * 8 <= set.byte_size(bank)
                    &&& params.num_scales * params.n * 8 <= set.byte_size(product)
                }
                &&& op matches GpuOp::Fft { src, dst, scratch, n, batch, .. } ==> {
                    &&& batch * n * 8 <= set.byte_size(src)
                    &&& batch * n * 8 <= set.byte_size(dst)
                    &&& batch * n * 8 <= set.byte_size(scratch)
                }
                &&& op matches GpuOp::Extract { rows, first, params } ==> {
                    &&& params.rows * params.n * 8 <= set.byte_size(rows)
                    &&& (params.scale_offset + params.rows) * params.width * 4 <= set.byte_size(
                        Buf::Out(first),
                    )
                    &&& (params.col_start + params.col_count + 1) * 4 <= set.byte_size(Buf::Bounds)
                }
            }),
            forall|op: GpuOp<F>| #[trigger]
                self.forward_ops(setup.channels as int).contains(op) ==> match op {
                    GpuOp::RealToComplex { src, dst, params } => params.n * 4 == set.byte_size(src)
                        && params.n * 8 == set.byte_size(dst),
                    GpuOp::Fft { src, dst, scratch, n, batch, .. } => batch == 1 && n * 8
                        == set.byte_size(src) && n * 8 == set.byte_size(dst) && n * 8
                        == set.byte_size(scratch),
                    _ => false,
                },
            self.copied(ch) * 4 <= set.byte_size(Buf::Real(0)),
    {
        let rows = self.batch_rows(off);
        let (n, b, w, ns) = (
            self.n_fft as int,
            self.batch as int,
            self.width as int,
            self.num_scales as int,
        );
        assert(rows * n * 8 <= b * n * 8) by (nonlinear_arith)
            requires
                rows <= b,
                n >= 0,
        ;
        assert((off + rows) * w * 4 <= ns * w * 4) by (nonlinear_arith)
            requires
                off + rows <= ns,
                w >= 0,
        ;
    }
}

} // verus!
