//! The plan of one transform: how a visible window of a recording is decimated,
//! padded, cut into FFT-sized chunks and spread over scale batches.
//!
//! A plan is pure integer bookkeeping. The samples themselves, and the frequencies
//! that decide `max_d` and `support`, stay with the caller.

use vstd::prelude::*;
use vstd::arithmetic::div_mod::*;
use vstd::arithmetic::mul::*;

use crate::pow2;

verus! {

/// FFT length cap per chunk; longer views are split into time chunks.
pub const N_FFT_CAP: usize = 1048576;

/// Longest FFT, which a single column of that length takes: a row of it is the largest
/// buffer that a device can be asked for.
pub const N_FFT_MAX: usize = 268435456;

/// Budget in bytes of one big (rows x n_fft complex) buffer; the scale axis is
/// processed in batches that fit it.
pub const BIG_BUF_BUDGET: u64 = 201326592;

pub open spec fn min_of(a: int, b: int) -> int {
    if a <= b { a } else { b }
}

pub open spec fn max_of(a: int, b: int) -> int {
    if a >= b { a } else { b }
}

/// What is asked of the planner.
#[derive(Clone, Copy, Debug, PartialEq, Eq)]
pub struct WindowRequest {
    /// Samples that every signal has.
    pub total: usize,
    /// First visible sample.
    pub t_start: usize,
    /// One past the last visible sample.
    pub t_end: usize,
    /// Image columns.
    pub width: usize,
    /// Image rows (wavelet scales).
    pub num_scales: usize,
    /// Largest decimation factor that keeps the displayed band in the passband.
    pub max_d: usize,
    /// One-sided wavelet support at the lowest frequency, in samples.
    pub support: usize,
    /// Decimate with the half-band cascade rather than with a block average.
    pub antialias: bool,
    /// Largest buffer that the device lets a kernel see, in bytes.
    pub max_binding: u64,
}

/// A run of whole columns with the tape samples that one FFT covers.
#[derive(Clone, Copy, Debug, PartialEq, Eq)]
pub struct Chunk {
    /// First column.
    pub col_start: usize,
    /// One past the last column.
    pub col_end: usize,
    /// First tape sample.
    pub lo: usize,
    /// Number of tape samples.
    pub len: usize,
}

/// A complete plan.
#[derive(Debug)]
pub struct CwtPlan {
    /// Image columns.
    pub width: usize,
    /// Image rows.
    pub num_scales: usize,
    /// Decimation factor, a power of two.
    pub d: usize,
    /// First sample of the padded segment.
    pub seg_start: usize,
    /// One past the last sample of the padded segment.
    pub seg_end: usize,
    /// Samples of the decimated segment (the tape).
    pub tape_len: usize,
    /// First tape sample that is shown.
    pub valid_start: usize,
    /// One past the last tape sample that is shown.
    pub valid_end: usize,
    /// Tape sample at which each column starts; one entry more than columns.
    pub bounds: Vec<u32>,
    /// FFT length, a power of two.
    pub n_fft: usize,
    /// Time chunks, in column order.
    pub chunks: Vec<Chunk>,
    /// Scales per batch.
    pub batch: usize,
}

impl WindowRequest {
    /// First visible sample, within the recording.
    pub open spec fn start(self) -> int {
        min_of(self.t_start as int, self.total as int)
    }

    /// One past the last visible sample, within the recording.
    pub open spec fn end(self) -> int {
        min_of(self.t_end as int, self.total as int)
    }

    pub open spec fn visible(self) -> int {
        self.end() - self.start()
    }

    /// There is nothing to show, or nowhere to show it.
    pub open spec fn degenerate(self) -> bool {
        self.start() >= self.end() || self.width == 0 || self.num_scales == 0
    }

    /// One pixel stands for at most `visible / width` samples, and the factor stays
    /// within `max_d`.
    pub open spec fn decimation(self) -> int {
        pow2::floor_pow2_of(
            min_of(max_of(self.visible() / self.width as int, 1), self.max_d as int) as nat,
        ) as int
    }

    /// Room for the wavelet support and for the decimator's tail, at most half of the
    /// recording, at least 16 samples.
    pub open spec fn padding(self) -> int {
        max_of(
            min_of(max_of(self.support as int, 64 * self.decimation()), self.total as int / 2),
            16,
        )
    }

    pub open spec fn seg_start(self) -> int {
        max_of(self.start() - self.padding(), 0)
    }

    pub open spec fn seg_end(self) -> int {
        min_of(self.end() + self.padding(), self.total as int)
    }

    pub open spec fn tape_len(self) -> int {
        decimated_len(self.seg_end() - self.seg_start(), self.decimation(), self.antialias)
    }

    pub open spec fn valid_start(self) -> int {
        min_of((self.start() - self.seg_start()) / self.decimation(), self.tape_len())
    }

    pub open spec fn valid_end(self) -> int {
        min_of(
            self.valid_start() + self.visible() / self.decimation() + 1,
            self.tape_len(),
        )
    }

    pub open spec fn valid_len(self) -> int {
        self.valid_end() - self.valid_start()
    }

    /// No transform is run and the image is all zeros.
    pub open spec fn blank(self) -> bool {
        self.degenerate() || self.tape_len() < 4 || self.valid_start() >= self.valid_end()
    }

    /// Tape sample at which column `c` starts.
    pub open spec fn bound(self, c: int) -> int {
        self.valid_start() + c * self.valid_len() / self.width as int
    }

    /// Chunk padding on either side, in tape samples.
    pub open spec fn chunk_pad(self) -> int {
        min_of(max_of(self.padding() / self.decimation(), 1), N_FFT_CAP as int / 4)
    }

    /// Samples that stay free in every FFT, so that the circular wrap of the
    /// convolution does not reach the shown part.
    pub open spec fn slack(self) -> int {
        min_of(max_of(self.chunk_pad(), 64), 4096)
    }

    /// The tape does not fit one FFT.
    pub open spec fn chunked(self) -> bool {
        self.tape_len() + self.slack() > N_FFT_CAP
    }

    /// Tape samples of the widest column.
    pub open spec fn widest(self) -> int {
        (self.valid_len() + self.width - 1) / self.width as int
    }

    /// FFT length of chunks: the cap, or as much more as a single column needs.
    pub open spec fn chunk_fft(self) -> int {
        max_of(
            N_FFT_CAP as int,
            pow2::next_pow2_of(
                (self.widest() + 2 * self.chunk_pad() + self.slack()) as nat,
            ) as int,
        )
    }

    /// Shown samples that one chunk can hold.
    pub open spec fn usable(self) -> int {
        self.chunk_fft() - 2 * self.chunk_pad() - self.slack()
    }

    /// The window can be planned: tape positions fit the tables of the kernels, and no
    /// single column is longer than the longest FFT.
    pub open spec fn plannable(self) -> bool {
        &&& self.max_d >= 1
        &&& self.width < usize::MAX
        &&& !self.blank() ==> self.tape_len() <= u32::MAX
        &&& !self.blank() ==> self.n_fft() <= N_FFT_MAX
    }

    pub open spec fn n_fft(self) -> int {
        if self.chunked() {
            self.chunk_fft()
        } else {
            max_of(pow2::next_pow2_of((self.tape_len() + self.slack()) as nat) as int, 64)
        }
    }

    pub open spec fn batch(self) -> int {
        let budget = min_of(BIG_BUF_BUDGET as int, self.max_binding as int);
        min_of(max_of(budget / (self.n_fft() * 8), 1), self.num_scales as int)
    }

    /// `ch` takes as many whole columns as a chunk can hold, at least one, with padding
    /// on both sides as far as the tape reaches.
    pub open spec fn greedy_chunk(self, ch: Chunk) -> bool {
        let (c0, c1) = (ch.col_start as int, ch.col_end as int);
        &&& 0 <= c0 < c1 <= self.width
        &&& c1 == c0 + 1 || self.bound(c1) - self.bound(c0) <= self.usable()
        &&& c1 == self.width || self.bound(c1 + 1) - self.bound(c0) > self.usable()
        &&& ch.lo == max_of(self.bound(c0) - self.chunk_pad(), 0)
        &&& ch.lo + ch.len == min_of(self.bound(c1) + self.chunk_pad(), self.tape_len())
    }

    /// The first `chunks.len()` chunks of the plan: they start at column 0 and follow
    /// each other without a gap.
    pub open spec fn greedy_chunks(self, chunks: Seq<Chunk>) -> bool {
        &&& forall|i: int| 0 <= i < chunks.len() ==> self.greedy_chunk(#[trigger] chunks[i])
        &&& chunks.len() > 0 ==> chunks[0].col_start == 0
        &&& forall|i: int, j: int|
            0 <= i && j == i + 1 && j < chunks.len() ==> #[trigger] chunks[j].col_start
                == #[trigger] chunks[i].col_end
    }

    /// The time chunks of the plan.
    pub open spec fn chunk_list(self, chunks: Seq<Chunk>) -> bool {
        if self.chunked() {
            &&& self.greedy_chunks(chunks)
            &&& chunks.len() > 0
            &&& chunks.last().col_end == self.width
        } else {
            &&& chunks.len() == 1
            &&& chunks[0].col_start == 0
            &&& chunks[0].col_end == self.width
            &&& chunks[0].lo == 0
            &&& chunks[0].len == self.tape_len()
        }
    }

    /// `p` is the plan for this request.
    pub open spec fn planned(self, p: CwtPlan) -> bool {
        &&& p.width == self.width
        &&& p.num_scales == self.num_scales
        &&& p.d == self.decimation()
        &&& p.seg_start == self.seg_start()
        &&& p.seg_end == self.seg_end()
        &&& p.tape_len == self.tape_len()
        &&& p.valid_start == self.valid_start()
        &&& p.valid_end == self.valid_end()
        &&& p.bounds@.len() == self.width + 1
        &&& forall|c: int| 0 <= c <= self.width ==> #[trigger] p.bounds@[c] == self.bound(c)
        &&& p.n_fft == self.n_fft()
        &&& self.chunk_list(p.chunks@)
        &&& p.batch == self.batch()
    }
}

/// Length of `n` samples after decimation by `d`: the half-band cascade drops an odd
/// sample at each halving, the block average keeps a short last block.
pub open spec fn decimated_len(n: int, d: int, antialias: bool) -> int {
    if d == 1 || antialias {
        n / d
    } else {
        (n + d - 1) / d
    }
}

impl WindowRequest {
    /// The plain ranges of everything that a plan is made of.
    pub proof fn ranges(self)
        requires
            !self.degenerate(),
            self.max_d >= 1,
        ensures
            1 <= self.decimation() <= self.max_d,
            pow2::is_pow2(self.decimation() as nat),
            16 <= self.padding(),
            self.padding() <= max_of(self.total as int / 2, 16),
            0 <= self.seg_start() <= self.start() < self.end() <= self.seg_end() <= self.total,
            0 <= self.valid_start() <= self.valid_end() <= self.tape_len() <= self.total,
            1 <= self.chunk_pad() <= N_FFT_CAP / 4,
            64 <= self.slack() <= 4096,
    {
        let q = min_of(max_of(self.visible() / self.width as int, 1), self.max_d as int);
        lemma_div_pos_is_pos(self.visible(), self.width as int);
        pow2::floor_pow2_is_tight(q as nat);
        let d = self.decimation();
        let n = self.seg_end() - self.seg_start();
        lemma_div_is_ordered_by_denominator(n, 1, d);
        lemma_div_pos_is_pos(n, d);
        if d > 1 {
            lemma_div_plus_one(n - 1, d);
            lemma_div_is_ordered_by_denominator(n - 1, 1, d);
            lemma_div_pos_is_pos(n - 1, d);
        }
        lemma_div_pos_is_pos(self.start() - self.seg_start(), d);
        lemma_div_pos_is_pos(self.visible(), d);
        lemma_div_pos_is_pos(self.padding(), d);
    }

    /// Columns start where the one before ends, from the first shown tape sample to the
    /// last.
    pub proof fn bounds_ascend(self, a: int, b: int)
        requires
            !self.blank(),
            0 <= a <= b <= self.width,
        ensures
            self.valid_start() <= self.bound(a) <= self.bound(b) <= self.valid_end(),
            self.bound(0) == self.valid_start(),
            self.bound(self.width as int) == self.valid_end(),
    {
        let len = self.valid_len();
        let w = self.width as int;
        lemma_mul_inequality(a, b, len);
        lemma_mul_inequality(b, w, len);
        lemma_mul_nonnegative(a, len);
        lemma_div_is_ordered(a * len, b * len, w);
        lemma_div_is_ordered(b * len, w * len, w);
        lemma_div_pos_is_pos(a * len, w);
        lemma_div_by_multiple(len, w);
        lemma_mul_is_commutative(w, len);
        assert(0 * len == 0);
        lemma_div_basics_1(w);
    }
}

/// Length of `n` samples after decimation by `d`.
pub fn decimated(n: usize, d: usize, antialias: bool) -> (r: usize)
    requires
        d >= 1,
    ensures
        r == decimated_len(n as int, d as int, antialias),
{
    if d == 1 || antialias {
        n / d
    } else if n == 0 {
        proof {
            lemma_basic_div(d - 1, d as int);
        }
        0
    } else {
        proof {
            lemma_div_plus_one(n - 1, d as int);
            lemma_div_is_ordered_by_denominator(n - 1, 1, d as int);
        }
        (n - 1) / d + 1
    }
}

/// Tape sample at which each of the `width` columns starts, and the end of the last,
/// for `len` shown samples from `first` on.
fn column_bounds(first: usize, len: usize, width: usize) -> (b: Vec<u32>)
    requires
        0 < width < usize::MAX,
        first + len <= u32::MAX,
    ensures
        b@.len() == width + 1,
        forall|c: int| 0 <= c <= width ==> #[trigger] b@[c] == first + c * len / width as int,
{
    let mut b: Vec<u32> = Vec::new();
    let mut c: usize = 0;
    while c <= width
        invariant
            0 < width < usize::MAX,
            first + len <= u32::MAX,
            c <= width + 1,
            b@.len() == c,
            forall|k: int| 0 <= k < c ==> #[trigger] b@[k] == first + k * len / width as int,
        decreases width + 1 - c,
    {
        proof {
            let (ci, li, wi) = (c as int, len as int, width as int);
            lemma_mul_nonnegative(ci, li);
            lemma_mul_inequality(ci, wi, li);
            lemma_div_is_ordered(ci * li, wi * li, wi);
            lemma_div_pos_is_pos(ci * li, wi);
            lemma_mul_is_commutative(wi, li);
            lemma_div_by_multiple(li, wi);
            assert(ci * li <= u64::MAX * u64::MAX) by (nonlinear_arith)
                requires
                    0 <= ci <= u64::MAX,
                    0 <= li <= u64::MAX,
            ;
        }
        let q: u128 = (c as u128 * len as u128) / (width as u128);
        b.push((first + q as usize) as u32);
        c = c + 1;
    }
    b
}

impl WindowRequest {
    /// The time chunks of a tape that does not fit one FFT: as many whole columns as a
    /// chunk can hold, again and again.
    fn split_columns(
        self,
        bounds: &Vec<u32>,
        tape_len: usize,
        chunk_pad: usize,
        usable: usize,
    ) -> (list: Vec<Chunk>)
        requires
            !self.blank(),
            self.chunked(),
            self.max_d >= 1,
            self.width < usize::MAX,
            self.tape_len() <= u32::MAX,
            bounds@.len() == self.width + 1,
            forall|c: int| 0 <= c <= self.width ==> #[trigger] bounds@[c] == self.bound(c),
            tape_len == self.tape_len(),
            chunk_pad == self.chunk_pad(),
            usable == self.usable(),
        ensures
            self.chunk_list(list@),
    {
        let width: usize = self.width;
        let mut list: Vec<Chunk> = Vec::new();
        let mut c0: usize = 0;
        proof {
            self.ranges();
        }
        while c0 < width
            invariant
                !self.blank(),
                self.chunked(),
                self.max_d >= 1,
                self.width < usize::MAX,
                self.tape_len() <= u32::MAX,
                width == self.width,
                bounds@.len() == width + 1,
                forall|c: int| 0 <= c <= width ==> #[trigger] bounds@[c] == self.bound(c),
                tape_len == self.tape_len(),
                chunk_pad == self.chunk_pad(),
                usable == self.usable(),
                1 <= chunk_pad <= N_FFT_CAP / 4,
                self.valid_end() <= tape_len,
                0 <= self.valid_start(),
                0 <= c0 <= width,
                self.greedy_chunks(list@),
                list@.len() == 0 <==> c0 == 0,
                list@.len() > 0 ==> list@.last().col_end == c0,
            decreases width - c0,
        {
            let mut c1: usize = c0 + 1;
            proof {
                if c1 < width {
                    self.bounds_ascend(c0 as int, c1 + 1);
                }
            }
            while c1 < width && (bounds[c1 + 1] - bounds[c0]) as usize <= usable
                invariant
                    !self.blank(),
                    self.width < usize::MAX,
                    width == self.width,
                    bounds@.len() == width + 1,
                    forall|c: int| 0 <= c <= width ==> #[trigger] bounds@[c] == self.bound(c),
                    usable == self.usable(),
                    c0 < c1 <= width,
                    c1 < width ==> bounds@[c0 as int] <= bounds@[c1 + 1],
                    c1 == c0 + 1 || self.bound(c1 as int) - self.bound(c0 as int) <= usable,
                decreases width - c1,
            {
                c1 = c1 + 1;
                proof {
                    if c1 < width {
                        self.bounds_ascend(c0 as int, c1 + 1);
                    }
                }
            }
            proof {
                self.bounds_ascend(c0 as int, c1 as int);
            }
            let first: usize = bounds[c0] as usize;
            let last: usize = bounds[c1] as usize;
            let lo: usize = if first >= chunk_pad { first - chunk_pad } else { 0 };
            let hi: usize = if tape_len - last <= chunk_pad { tape_len } else { last + chunk_pad };
            let ghost before = list@;
            list.push(Chunk { col_start: c0, col_end: c1, lo, len: hi - lo });
            proof {
                assert(list@ == before.push(list@.last()));
                assert(self.greedy_chunk(list@.last()));
            }
            c0 = c1;
        }
        list
    }
}

/// The decimated segment around the visible window.
struct Tape {
    d: usize,
    padding: usize,
    seg_start: usize,
    seg_end: usize,
    tape_len: usize,
    valid_start: usize,
    valid_end: usize,
}

impl WindowRequest {
    /// Decimation factor, padding and tape of the window; `None` where the image is blank.
    fn tape(self) -> (r: Option<Tape>)
        requires
            self.max_d >= 1,
        ensures
            r is None <==> self.blank(),
            r matches Some(t) ==> {
                &&& t.d == self.decimation()
                &&& t.padding == self.padding()
                &&& t.seg_start == self.seg_start()
                &&& t.seg_end == self.seg_end()
                &&& t.tape_len == self.tape_len()
                &&& t.valid_start == self.valid_start()
                &&& t.valid_end == self.valid_end()
            },
    {
        let total: usize = self.total;
        let start: usize = if self.t_start <= total { self.t_start } else { total };
        let end: usize = if self.t_end <= total { self.t_end } else { total };
        if start >= end || self.width == 0 || self.num_scales == 0 {
            return None;
        }
        proof {
            self.ranges();
        }
        let visible: usize = end - start;

        let per_column: usize = visible / self.width;
        let wanted: usize = if per_column >= 1 { per_column } else { 1 };
        let d: usize = pow2::floor_pow2(if wanted <= self.max_d { wanted } else { self.max_d });

        let tail: usize = if d <= usize::MAX / 64 { d * 64 } else { usize::MAX };
        let room: usize = if self.support >= tail { self.support } else { tail };
        let half: usize = total / 2;
        let capped: usize = if room <= half { room } else { half };
        let padding: usize = if capped >= 16 { capped } else { 16 };
        assert(padding == self.padding());

        let seg_start: usize = if start >= padding { start - padding } else { 0 };
        let seg_end: usize = if total - end <= padding { total } else { end + padding };
        let tape_len: usize = decimated(seg_end - seg_start, d, self.antialias);

        let lead: usize = (start - seg_start) / d;
        let valid_start: usize = if lead <= tape_len { lead } else { tape_len };
        let shown: usize = visible / d;
        let valid_end: usize = if tape_len - valid_start <= shown {
            tape_len
        } else {
            valid_start + shown + 1
        };
        if tape_len < 4 || valid_start >= valid_end {
            return None;
        }
        Some(Tape { d, padding, seg_start, seg_end, tape_len, valid_start, valid_end })
    }

    /// Chunk padding and slack for a padding of `padding` samples decimated by `d`.
    fn chunk_room(self, padding: usize, d: usize) -> (r: (usize, usize))
        requires
            !self.degenerate(),
            self.max_d >= 1,
            d == self.decimation(),
            padding == self.padding(),
        ensures
            r.0 == self.chunk_pad(),
            r.1 == self.slack(),
    {
        proof {
            self.ranges();
        }
        let pad: usize = padding / d;
        let at_least: usize = if pad >= 1 { pad } else { 1 };
        let chunk_pad: usize = if at_least <= N_FFT_CAP / 4 { at_least } else { N_FFT_CAP / 4 };
        let slack_low: usize = if chunk_pad >= 64 { chunk_pad } else { 64 };
        let slack: usize = if slack_low <= 4096 { slack_low } else { 4096 };
        (chunk_pad, slack)
    }

    /// Scales whose complex rows of `n_fft` samples fit one buffer, at least one.
    fn scale_batch(self, n_fft: usize) -> (r: usize)
        requires
            n_fft == self.n_fft(),
            1 <= n_fft <= N_FFT_MAX,
        ensures
            r == self.batch(),
    {
        let budget: u64 = if BIG_BUF_BUDGET <= self.max_binding {
            BIG_BUF_BUDGET
        } else {
            self.max_binding
        };
        let row_bytes: u64 = n_fft as u64 * 8;
        let fitting: u64 = budget / row_bytes;
        proof {
            lemma_div_is_ordered_by_denominator(budget as int, 1, row_bytes as int);
        }
        let rows: usize = if fitting >= 1 { fitting as usize } else { 1 };
        if rows <= self.num_scales { rows } else { self.num_scales }
    }

    /// No column is wider than the widest.
    pub proof fn columns_are_no_wider(self, c: int)
        requires
            !self.blank(),
            self.max_d >= 1,
            0 <= c < self.width,
        ensures
            0 <= self.bound(c + 1) - self.bound(c) <= self.widest() <= self.tape_len(),
    {
        self.ranges();
        self.bounds_ascend(c, c + 1);
        let (len, w, q) = (self.valid_len(), self.width as int, self.widest());
        lemma_fundamental_div_mod(len + w - 1, w);
        lemma_mod_bound(len + w - 1, w);
        assert(len <= q * w) by (nonlinear_arith)
            requires
                len + w - 1 == w * q + (len + w - 1) % w,
                (len + w - 1) % w < w,
        ;
        assert((c + 1) * len == c * len + len) by (nonlinear_arith);
        lemma_div_is_ordered((c + 1) * len, c * len + q * w, w);
        lemma_hoist_over_denominator(c * len, q, w as nat);
        assert(q <= len) by (nonlinear_arith)
            requires
                len + w - 1 == w * q + (len + w - 1) % w,
                (len + w - 1) % w >= 0,
                len >= 1,
                w >= 1,
        ;
    }

    /// The FFT length is a power of two. It stays within its cap, unless a single column
    /// needs more, and then holds that column.
    pub proof fn fft_length(self)
        requires
            !self.blank(),
            self.max_d >= 1,
        ensures
            pow2::is_pow2(self.n_fft() as nat),
            64 <= self.n_fft(),
            !self.chunked() ==> self.tape_len() + self.slack() <= self.n_fft() <= N_FFT_CAP,
            self.chunked() ==> self.widest() <= self.usable(),
            self.chunked() && self.widest() + 2 * self.chunk_pad() + self.slack() <= N_FFT_CAP
                ==> self.n_fft() == N_FFT_CAP,
    {
        self.ranges();
        cap_is_pow2();
        self.columns_are_no_wider(0);
        let need = (self.widest() + 2 * self.chunk_pad() + self.slack()) as nat;
        pow2::next_pow2_is_tight(need);
        if need <= N_FFT_CAP {
            pow2::next_pow2_below(need, N_FFT_CAP as nat);
        }
        if !self.chunked() {
            let x = (self.tape_len() + self.slack()) as nat;
            pow2::next_pow2_is_tight(x);
            pow2::next_pow2_below(x, N_FFT_CAP as nat);
        }
    }
}

impl WindowRequest {
    /// FFT length of chunks, where it is not beyond the longest.
    fn chunk_length(self, t: &Tape, chunk_pad: usize, slack: usize) -> (r: Option<usize>)
        requires
            !self.blank(),
            self.max_d >= 1,
            t.valid_start == self.valid_start(),
            t.valid_end == self.valid_end(),
            chunk_pad == self.chunk_pad(),
            slack == self.slack(),
        ensures
            r matches Some(n) ==> n == self.chunk_fft() <= N_FFT_MAX,
            r is None ==> self.chunk_fft() > N_FFT_MAX,
    {
        let len: usize = t.valid_end - t.valid_start;
        let w: usize = self.width;
        let q: usize = len / w;
        proof {
            let (l, v, k) = (len as int, w as int, q as int);
            lemma_fundamental_div_mod(l, v);
            lemma_mod_bound(l, v);
            lemma_mul_is_commutative(v, k);
            assert(l % v > 0 ==> k < l) by (nonlinear_arith)
                requires
                    l == v * k + l % v,
                    v >= 1,
                    k >= 0,
            ;
        }
        let widest: usize = if len % w == 0 {
            q
        } else {
            q + 1
        };
        proof {
            self.ranges();
            max_is_pow2();
            let (l, v) = (len as int, w as int);
            assert((l / v + 1) * v == (l / v) * v + v) by (nonlinear_arith);
            if l % v == 0 {
                lemma_fundamental_div_mod_converse(l + v - 1, v, l / v, v - 1);
            } else {
                lemma_fundamental_div_mod_converse(l + v - 1, v, l / v + 1, l % v - 1);
            }
            assert(widest == self.widest());
            pow2::next_pow2_is_tight((widest + 2 * chunk_pad + slack) as nat);
        }
        if widest > N_FFT_MAX - 2 * chunk_pad - slack {
            return None;
        }
        proof {
            pow2::next_pow2_below((widest + 2 * chunk_pad + slack) as nat, N_FFT_MAX as nat);
        }
        let need: usize = pow2::next_pow2(widest + 2 * chunk_pad + slack);
        Some(
            if need >= N_FFT_CAP {
                need
            } else {
                N_FFT_CAP
            },
        )
    }

    /// Whether the window can be planned.
    pub fn can_plan(self) -> (b: bool)
        ensures
            b <==> self.plannable(),
    {
        if self.max_d < 1 || self.width == usize::MAX {
            return false;
        }
        let t: Tape = match self.tape() {
            Some(t) => t,
            None => {
                return true;
            },
        };
        if t.tape_len as u64 > u32::MAX as u64 {
            return false;
        }
        let (chunk_pad, slack): (usize, usize) = self.chunk_room(t.padding, t.d);
        proof {
            self.ranges();
            self.fft_length();
        }
        if t.tape_len <= N_FFT_CAP - slack {
            return true;
        }
        match self.chunk_length(&t, chunk_pad, slack) {
            Some(_) => true,
            None => false,
        }
    }
}

impl CwtPlan {
    /// Plans the transform of one window, or `None` where there is nothing to transform
    /// and the image stays blank.
    pub fn new(req: WindowRequest) -> (r: Option<CwtPlan>)
        requires
            req.plannable(),
        ensures
            r is None <==> req.blank(),
            r matches Some(p) ==> req.planned(p),
    {
        let t: Tape = match req.tape() {
            Some(t) => t,
            None => {
                return None;
            },
        };
        proof {
            req.ranges();
            req.fft_length();
        }
        let bounds: Vec<u32> = column_bounds(
            t.valid_start,
            t.valid_end - t.valid_start,
            req.width,
        );
        let (chunk_pad, slack): (usize, usize) = req.chunk_room(t.padding, t.d);
        let n_fft: usize;
        let chunks: Vec<Chunk>;
        if t.tape_len <= N_FFT_CAP - slack {
            let n: usize = pow2::next_pow2(t.tape_len + slack);
            n_fft = if n >= 64 { n } else { 64 };
            let mut one: Vec<Chunk> = Vec::new();
            one.push(Chunk { col_start: 0, col_end: req.width, lo: 0, len: t.tape_len });
            chunks = one;
        } else {
            n_fft = match req.chunk_length(&t, chunk_pad, slack) {
                Some(n) => n,
                None => N_FFT_CAP,
            };
            let usable: usize = n_fft - 2 * chunk_pad - slack;
            chunks = req.split_columns(&bounds, t.tape_len, chunk_pad, usable);
        }
        let batch: usize = req.scale_batch(n_fft);
        Some(
            CwtPlan {
                width: req.width,
                num_scales: req.num_scales,
                d: t.d,
                seg_start: t.seg_start,
                seg_end: t.seg_end,
                tape_len: t.tape_len,
                valid_start: t.valid_start,
                valid_end: t.valid_end,
                bounds,
                n_fft,
                chunks,
                batch,
            },
        )
    }
}

impl WindowRequest {
    /// A column belongs to a chunk.
    pub open spec fn in_chunk(self, c: int, ch: Chunk) -> bool {
        ch.col_start <= c < ch.col_end
    }

    /// Every column belongs to exactly one chunk, the tape samples that the chunk carries
    /// reach from the first sample of the column to its last, and all of them go into the
    /// FFT: a view is computed in full, however long it is.
    pub proof fn every_column_has_one_chunk(self, p: CwtPlan, c: int) -> (i: int)
        requires
            !self.blank(),
            self.max_d >= 1,
            self.planned(p),
            0 <= c < self.width,
        ensures
            0 <= i < p.chunks@.len(),
            self.in_chunk(c, p.chunks@[i]),
            forall|j: int|
                0 <= j < p.chunks@.len() && #[trigger] self.in_chunk(c, p.chunks@[j]) ==> j == i,
            p.chunks@[i].lo <= self.bound(c) <= self.bound(c + 1) <= p.chunks@[i].lo
                + p.chunks@[i].len <= self.tape_len(),
            p.chunks@[i].len <= p.n_fft,
    {
        let chunks = p.chunks@;
        let i = self.locate(chunks, chunks.len() as int, c);
        let ch = chunks[i];
        self.ranges();
        self.bounds_ascend(ch.col_start as int, c);
        self.bounds_ascend(c, c + 1);
        self.bounds_ascend(c + 1, ch.col_end as int);
        self.chunks_fit_the_fft(p, i);
        assert forall|j: int|
            0 <= j < chunks.len() && #[trigger] self.in_chunk(c, chunks[j]) implies j == i by {
            if j < i {
                self.chunks_ascend(chunks, j, i);
            } else if i < j {
                self.chunks_ascend(chunks, i, j);
            }
        }
        i
    }

    proof fn locate(self, chunks: Seq<Chunk>, n: int, c: int) -> (i: int)
        requires
            self.chunk_list(chunks),
            1 <= n <= chunks.len(),
            0 <= c < chunks[n - 1].col_end,
        ensures
            0 <= i < n,
            self.in_chunk(c, chunks[i]),
        decreases n,
    {
        if c >= chunks[n - 1].col_start {
            n - 1
        } else if n == 1 {
            assert(chunks[0].col_start == 0);
            0
        } else {
            assert(chunks[n - 1].col_start == chunks[n - 2].col_end);
            self.locate(chunks, n - 1, c)
        }
    }

    proof fn chunks_ascend(self, chunks: Seq<Chunk>, i: int, j: int)
        requires
            self.chunk_list(chunks),
            0 <= i < j < chunks.len(),
        ensures
            chunks[i].col_end <= chunks[j].col_start,
        decreases j - i,
    {
        if j > i + 1 {
            self.chunks_ascend(chunks, i, j - 1);
            assert(self.greedy_chunk(chunks[j - 1]));
        }
        assert(chunks[j].col_start == chunks[j - 1].col_end);
    }

    /// All samples of a chunk fit its FFT, and at least `slack` samples of the FFT stay
    /// free.
    pub proof fn chunks_fit_the_fft(self, p: CwtPlan, i: int)
        requires
            !self.blank(),
            self.max_d >= 1,
            self.planned(p),
            0 <= i < p.chunks@.len(),
        ensures
            p.chunks@[i].len + self.slack() <= p.n_fft,
    {
        self.ranges();
        self.fft_length();
        let ch = p.chunks@[i];
        if self.chunked() {
            assert(self.greedy_chunk(ch));
            let (c0, c1) = (ch.col_start as int, ch.col_end as int);
            self.bounds_ascend(c0, c1);
            if c1 == c0 + 1 {
                self.columns_are_no_wider(c0);
            }
        }
    }

    /// The chunk of a column holds its first sample, even where the column has none of its
    /// own.
    pub proof fn room_for_one_sample(self, p: CwtPlan, i: int, c: int)
        requires
            !self.blank(),
            self.max_d >= 1,
            self.planned(p),
            0 <= i < p.chunks@.len(),
            0 <= c < self.width,
            self.in_chunk(c, p.chunks@[i]),
        ensures
            self.bound(c) < self.valid_end(),
            self.bound(c) < p.chunks@[i].lo + p.chunks@[i].len,
    {
        self.ranges();
        let (len, w) = (self.valid_len(), self.width as int);
        assert(c * len < w * len) by (nonlinear_arith)
            requires
                c < w,
                len > 0,
        ;
        lemma_mul_nonnegative(c, len);
        lemma_mul_is_commutative(w, len);
        lemma_multiply_divide_lt(c * len, w, len);
        let ch = p.chunks@[i];
        if self.chunked() {
            assert(self.greedy_chunk(ch));
            self.bounds_ascend(c, ch.col_end as int);
        }
    }

    /// The scales of one batch fit the buffer budget, unless a single scale does not.
    pub proof fn batches_fit_the_budget(self)
        requires
            !self.blank(),
            self.max_d >= 1,
        ensures
            1 <= self.batch() <= self.num_scales,
            self.batch() == 1 || self.batch() * (self.n_fft() * 8) <= min_of(
                BIG_BUF_BUDGET as int,
                self.max_binding as int,
            ),
    {
        self.fft_length();
        let budget = min_of(BIG_BUF_BUDGET as int, self.max_binding as int);
        let row = self.n_fft() * 8;
        lemma_fundamental_div_mod(budget, row);
        lemma_mod_bound(budget, row);
        if self.batch() > 1 {
            lemma_mul_inequality(self.batch(), budget / row, row);
            lemma_mul_is_commutative(budget / row, row);
        }
    }

    /// A pixel stands for at least one decimated sample: decimation never drops below
    /// the resolution of the image.
    pub proof fn decimation_keeps_the_image_resolution(self)
        requires
            !self.degenerate(),
            self.max_d >= 1,
        ensures
            self.decimation() == 1 || self.decimation() * self.width <= self.visible(),
            self.decimation() <= self.max_d,
    {
        self.ranges();
        let w = self.width as int;
        let q = min_of(max_of(self.visible() / w, 1), self.max_d as int);
        lemma_div_pos_is_pos(self.visible(), w);
        pow2::floor_pow2_is_tight(q as nat);
        let d = self.decimation();
        if d > 1 {
            lemma_fundamental_div_mod(self.visible(), w);
            lemma_mod_bound(self.visible(), w);
            lemma_mul_inequality(d, self.visible() / w, w);
            lemma_mul_is_commutative(self.visible() / w, w);
        }
    }
}

/// Exact positions of an image on the recording. Everything here is said of the fields of a
/// plan and of its request.
impl WindowRequest {
    /// The decimation factor is the largest power of two within the limit that leaves every
    /// column a sample.
    pub proof fn decimation_is_the_largest(self, p: CwtPlan)
        requires
            self.max_d >= 1,
            self.planned(p),
            0 < self.width,
            self.t_start < self.t_end,
            self.t_end <= self.total,
            self.num_scales > 0,
        ensures
            exists|k: nat| p.d == #[trigger] pow2::two_to(k),
            p.d <= self.max_d,
            p.d == 1 || p.d * self.width <= self.t_end - self.t_start,
            2 * p.d > self.max_d || 2 * p.d * self.width > self.t_end - self.t_start,
    {
        self.ranges();
        let (v, w) = (self.visible(), self.width as int);
        let q = min_of(max_of(v / w, 1), self.max_d as int);
        lemma_div_pos_is_pos(v, w);
        pow2::floor_pow2_is_tight(q as nat);
        pow2::pow2_is_two_to(p.d as nat);
        self.decimation_keeps_the_image_resolution();
        if 2 * p.d <= self.max_d {
            assert(2 * p.d > max_of(v / w, 1));
            lemma_fundamental_div_mod(v, w);
            lemma_mod_bound(v, w);
            assert(2 * p.d * w > v) by (nonlinear_arith)
                requires
                    v == w * (v / w) + v % w,
                    v % w < w,
                    2 * p.d >= v / w + 1,
                    w > 0,
            ;
        }
    }

    /// The segment holds the visible window and, on either side, as much more as the
    /// wavelets and the decimator reach, unless the recording ends before or half of it
    /// lies there. The tape is the segment, decimated.
    pub proof fn segment_reaches_far_enough(self, p: CwtPlan)
        requires
            self.max_d >= 1,
            self.planned(p),
            0 < self.width,
            self.t_start < self.t_end,
            self.t_end <= self.total,
            self.num_scales > 0,
        ensures
            p.seg_start <= self.t_start && self.t_end <= p.seg_end <= self.total,
            ({
                let before = self.t_start - p.seg_start;
                p.seg_start == 0 || before >= self.support && before >= 64 * p.d || before
                    >= self.total as int / 2
            }),
            ({
                let after = p.seg_end - self.t_end;
                p.seg_end == self.total || after >= self.support && after >= 64 * p.d || after
                    >= self.total as int / 2
            }),
            p.d > 1 && !self.antialias ==> p.d * (p.tape_len - 1) < p.seg_end - p.seg_start <= p.d
                * p.tape_len,
            p.d == 1 || self.antialias ==> p.d * p.tape_len <= p.seg_end - p.seg_start < p.d * (
            p.tape_len + 1),
    {
        self.ranges();
        let (n, d, t) = (p.seg_end - p.seg_start, p.d as int, p.tape_len as int);
        if d == 1 || self.antialias {
            lemma_fundamental_div_mod(n, d);
            lemma_mod_bound(n, d);
            assert(d * t <= n < d * (t + 1)) by (nonlinear_arith)
                requires
                    n == d * t + n % d,
                    0 <= n % d < d,
            ;
        } else {
            lemma_fundamental_div_mod(n + d - 1, d);
            lemma_mod_bound(n + d - 1, d);
            assert(d * (t - 1) < n <= d * t) by (nonlinear_arith)
                requires
                    n + d - 1 == d * t + (n + d - 1) % d,
                    0 <= (n + d - 1) % d < d,
            ;
        }
    }

    /// The first column starts with the decimated sample that holds the start of the visible
    /// window, and every further column within three decimated samples of its share of the
    /// window. The last column ends where the tape ends or behind the end of the window.
    pub proof fn columns_follow_the_window(self, p: CwtPlan, c: int)
        requires
            !self.blank(),
            self.max_d >= 1,
            self.planned(p),
            self.t_end <= self.total,
            0 <= c <= self.width,
        ensures
            p.bounds@.len() == self.width + 1,
            p.bounds@[0] == p.valid_start && p.bounds@[self.width as int] == p.valid_end,
            p.seg_start + p.d * p.bounds@[0] <= self.t_start < p.seg_start + p.d * (p.bounds@[0]
                + 1),
            p.valid_end == p.tape_len || p.seg_start + p.d * (p.valid_end + 1) > self.t_end,
            p.valid_end <= p.tape_len,
            ({
                let (w, d) = (self.width as int, p.d as int);
                let at = w * (p.seg_start + d * p.bounds@[c]);
                let share = w * self.t_start + c * (self.t_end - self.t_start);
                share - 3 * d * w < at <= share + d * w
            }),
    {
        self.ranges();
        self.bounds_ascend(0, 0);
        self.bounds_ascend(c, self.width as int);
        self.segment_reaches_far_enough(p);
        let (d, w, t) = (p.d as int, self.width as int, p.tape_len as int);
        let (s, v, l) = (p.seg_start as int, self.visible(), p.seg_end - p.seg_start);
        let (vs, vl) = (p.valid_start as int, self.valid_len());
        let lead = self.t_start - s;
        lemma_fundamental_div_mod(lead, d);
        lemma_mod_bound(lead, d);
        assert(vs == lead / d);
        assert(d * vs <= lead < d * (vs + 1)) by (nonlinear_arith)
            requires
                lead == d * vs + lead % d,
                0 <= lead % d < d,
        ;
        lemma_fundamental_div_mod(v, d);
        lemma_mod_bound(v, d);
        let k = v / d + 1;
        assert(v < d * k <= v + d) by (nonlinear_arith)
            requires
                v == d * (v / d) + v % d,
                0 <= v % d < d,
                k == v / d + 1,
        ;
        assert(vl <= k);
        assert(d * vl <= d * k) by (nonlinear_arith)
            requires
                vl <= k,
                d >= 1,
        ;
        assert(d * (vs + vl) == d * vs + d * vl) by (nonlinear_arith);
        assert(d * (t + 1) == d * t + d && d * (vs + 1) == d * vs + d) by (nonlinear_arith);
        assert(d * (t - 1) == d * t - d) by (nonlinear_arith);
        assert(d * vl > v - d);
        let b = c * vl / w;
        lemma_fundamental_div_mod(c * vl, w);
        lemma_mod_bound(c * vl, w);
        let bound = p.bounds@[c] as int;
        assert(bound == vs + b);
        assert(w * (s + d * bound) == w * (s + d * vs) + d * (w * b)) by (nonlinear_arith)
            requires
                bound == vs + b,
        ;
        assert(d * (w * b) <= d * (c * vl)) by (nonlinear_arith)
            requires
                w * b <= c * vl,
                d >= 1,
        ;
        assert(d * (w * b) > d * (c * vl) - d * w) by (nonlinear_arith)
            requires
                c * vl < w * b + w,
                d >= 1,
        ;
        let e = d * vl;
        assert(d * (c * vl) == c * e) by (nonlinear_arith)
            requires
                e == d * vl,
        ;
        assert(c * v - d * w <= c * e <= c * v + d * w) by (nonlinear_arith)
            requires
                v - d < e <= v + d,
                0 <= c <= w,
                d >= 1,
        ;
        let x = s + d * vs;
        assert(w * self.t_start - d * w < w * x <= w * self.t_start) by (nonlinear_arith)
            requires
                self.t_start - d < x <= self.t_start,
                w >= 1,
        ;
        assert(3 * d * w == d * w + d * w + d * w) by (nonlinear_arith);
        assert(d * (p.valid_end + 1) == d * (vs + vl) + d) by (nonlinear_arith)
            requires
                p.valid_end == vs + vl,
        ;
        assert(w * (s + d * p.bounds@[c]) == w * (s + d * bound));
    }

    /// Every column lies in a chunk that holds, on either side of it, as much of the tape as
    /// the wavelets reach, unless the tape ends before, half of the recording or a quarter
    /// of the usual FFT lies there. Behind the samples the FFT has room that keeps the
    /// circular wrap away.
    pub proof fn chunks_reach_far_enough(self, p: CwtPlan, c: int) -> (i: int)
        requires
            !self.blank(),
            self.max_d >= 1,
            self.planned(p),
            self.t_end <= self.total,
            0 <= c < self.width,
        ensures
            0 <= i < p.chunks@.len(),
            p.chunks@[i].col_start <= c < p.chunks@[i].col_end,
            ({
                let ch = p.chunks@[i];
                let before = p.bounds@[c] - ch.lo;
                let after = ch.lo + ch.len - p.bounds@[c + 1];
                let d = p.d as int;
                &&& before >= 0 && after >= 0
                &&& ch.lo == 0 || before >= N_FFT_CAP / 4 || (before + 1) * d > self.support || (
                before + 1) * d > self.total as int / 2
                &&& ch.lo + ch.len == p.tape_len || after >= N_FFT_CAP / 4 || (after + 1) * d
                    > self.support || (after + 1) * d > self.total as int / 2
                &&& ch.lo + ch.len <= p.tape_len
                &&& ch.len + 64 <= p.n_fft
            }),
    {
        let i = self.every_column_has_one_chunk(p, c);
        self.ranges();
        self.chunks_fit_the_fft(p, i);
        let ch = p.chunks@[i];
        if self.chunked() {
            assert(self.greedy_chunk(ch));
            self.bounds_ascend(ch.col_start as int, c);
            self.bounds_ascend(c + 1, ch.col_end as int);
            let (d, pad) = (p.d as int, self.padding());
            lemma_fundamental_div_mod(pad, d);
            lemma_mod_bound(pad, d);
            let q = pad / d;
            let before = p.bounds@[c] - ch.lo;
            let after = ch.lo + ch.len - p.bounds@[c + 1];
            assert(before >= q ==> (before + 1) * d > pad) by (nonlinear_arith)
                requires
                    pad == d * q + pad % d,
                    0 <= pad % d < d,
            ;
            assert(after >= q ==> (after + 1) * d > pad) by (nonlinear_arith)
                requires
                    pad == d * q + pad % d,
                    0 <= pad % d < d,
            ;
        }
        i
    }

    /// A window that reaches behind the recording is planned like one that ends there.
    pub proof fn windows_are_cut_at_the_end(self, p: CwtPlan)
        ensures
            self.t_start <= self.total < self.t_end ==> {
                let cut = WindowRequest { t_end: self.total, ..self };
                (self.planned(p) <==> cut.planned(p)) && (self.blank() <==> cut.blank())
            },
            self.t_start >= self.total || self.t_start >= self.t_end ==> self.blank(),
    {
        let cut = WindowRequest { t_end: self.total, ..self };
        if self.t_start <= self.total < self.t_end {
            assert(cut.start() == self.start() && cut.end() == self.end());
            assert(cut.decimation() == self.decimation() && cut.padding() == self.padding());
            assert(cut.tape_len() == self.tape_len() && cut.valid_start() == self.valid_start());
            assert(cut.valid_end() == self.valid_end() && cut.chunk_pad() == self.chunk_pad());
            assert(cut.n_fft() == self.n_fft() && cut.batch() == self.batch());
            assert(forall|c: int| #[trigger] cut.bound(c) == self.bound(c));
            assert(forall|ch: Chunk| #[trigger] cut.greedy_chunk(ch) == self.greedy_chunk(ch));
            assert(cut.chunk_list(p.chunks@) == self.chunk_list(p.chunks@));
        }
    }

    /// A window that is not empty is shown, whatever its length, unless the recording is
    /// shorter than a few decimated samples.
    pub proof fn a_visible_window_is_shown(self)
        requires
            self.max_d >= 1,
            self.t_start < self.t_end,
            self.t_end <= self.total,
            self.width > 0,
            self.num_scales > 0,
            self.total >= 8 * self.max_d,
        ensures
            !self.blank(),
    {
        self.ranges();
        self.decimation_keeps_the_image_resolution();
        let (d, l) = (self.decimation(), self.seg_end() - self.seg_start());
        let (v, lead) = (self.visible(), self.start() - self.seg_start());
        assert(d == 1 || v >= d) by {
            assert(d * self.width >= d) by (nonlinear_arith)
                requires
                    self.width >= 1,
                    d >= 1,
            ;
        }
        assert(l >= 4 * d);
        assert(l >= lead + v);
        assert(v >= d);
        lemma_div_is_ordered(4 * d, l, d);
        lemma_div_by_multiple(4, d);
        lemma_div_is_ordered(lead + d, l, d);
        lemma_div_plus_one(lead, d);
        lemma_div_is_ordered(l, l + d - 1, d);
        lemma_div_pos_is_pos(v, d);
    }
}

proof fn max_is_pow2()
    ensures
        pow2::is_pow2(N_FFT_MAX as nat),
{
    reveal_with_fuel(pow2::is_pow2, 30);
}

proof fn cap_is_pow2()
    ensures
        pow2::is_pow2(N_FFT_CAP as nat),
{
    reveal_with_fuel(pow2::is_pow2, 22);
}

impl WindowRequest {
    /// The padding that a window asks for, in samples: what the longest wavelet and the tail of
    /// the decimator reach, no more than half of the recording, no less than 16.
    pub open spec fn is_pad(self, d: int, pad: int) -> bool {
        let half = self.total as int / 2;
        &&& pad >= 16
        &&& pad > 16 ==> pad <= half && (pad == half || pad == self.support || pad == 64 * d)
        &&& pad > 16 ==> pad <= self.support || pad <= 64 * d
        &&& pad >= half || pad >= self.support && pad >= 64 * d
    }

    /// A plan takes no more samples than it must: the segment ends where the padding does or
    /// where the recording does, and what is shown ends with the first tape sample behind the
    /// window, or with the tape.
    pub proof fn segments_are_no_longer(self, p: CwtPlan, pad: int)
        requires
            !self.blank(),
            self.max_d >= 1,
            self.planned(p),
            self.t_end <= self.total,
            self.is_pad(p.d as int, pad),
        ensures
            p.seg_start == 0 || p.seg_start == self.t_start - pad,
            p.seg_start == 0 ==> self.t_start <= pad,
            p.seg_end == self.total || p.seg_end == self.t_end + pad,
            p.seg_end == self.total ==> self.t_end + pad >= self.total,
            p.valid_end == p.tape_len || {
                let shown = p.valid_end - p.valid_start;
                (shown - 1) * p.d <= self.t_end - self.t_start < shown * p.d
            },
            p.valid_start <= p.valid_end <= p.tape_len,
    {
        self.ranges();
        let (v, d) = (self.visible(), p.d as int);
        let q = v / d;
        lemma_fundamental_div_mod(v, d);
        lemma_mod_bound(v, d);
        assert(q * d == d * q && (q + 1) * d == d * q + d) by (nonlinear_arith);
    }

    /// The columns divide what is shown evenly: column `c` starts at the last whole sample
    /// that is not behind its share.
    pub proof fn columns_divide_what_is_shown(self, p: CwtPlan, c: int)
        requires
            !self.blank(),
            self.max_d >= 1,
            self.planned(p),
            0 <= c <= self.width,
        ensures
            ({
                let (w, len) = (self.width as int, p.valid_end - p.valid_start);
                let at = p.bounds@[c] - p.valid_start;
                w * at <= c * len < w * (at + 1)
            }),
    {
        self.ranges();
        let (w, len) = (self.width as int, self.valid_len());
        let at = c * len / w;
        lemma_fundamental_div_mod(c * len, w);
        lemma_mod_bound(c * len, w);
        assert(w * (at + 1) == w * at + w) by (nonlinear_arith);
    }

    /// A plan wastes nothing: with `free` samples to be left free, the FFT is the shortest
    /// power of two from 64 on that holds the tape, or where that is longer than 2^20 the tape
    /// is split, into chunks that could not take one column more; and a batch takes as many
    /// rows as a buffer of 192 MiB, or as large as the device allows, can hold.
    pub proof fn nothing_is_wasted(self, p: CwtPlan, pad: int, margin: int, free: int, i: int)
        requires
            !self.blank(),
            self.max_d >= 1,
            self.planned(p),
            self.is_pad(p.d as int, pad),
            0 <= i < p.chunks@.len(),
            margin == min_of(max_of(pad / p.d as int, 1), 262144),
            free == min_of(max_of(margin, 64), 4096),
        ensures
            pow2::is_pow2(p.n_fft as nat),
            p.tape_len + free <= 1048576 ==> {
                &&& p.chunks@.len() == 1
                &&& p.chunks@[0].lo == 0 && p.chunks@[0].len == p.tape_len
                &&& p.tape_len + free <= p.n_fft
                &&& p.n_fft == 64 || p.n_fft < 2 * (p.tape_len + free)
            },
            p.tape_len + free > 1048576 ==> {
                let (a, b) = (p.chunks@[i].col_start as int, p.chunks@[i].col_end as int);
                &&& a < b <= self.width
                &&& p.n_fft >= 1048576
                &&& p.bounds@[b] - p.bounds@[a] + 2 * margin + free <= p.n_fft
                &&& b == self.width || p.bounds@[b + 1] - p.bounds@[a] + 2 * margin + free > p.n_fft
                &&& p.chunks@[i].lo == 0 || p.chunks@[i].lo == p.bounds@[a] - margin
                &&& p.chunks@[i].lo + p.chunks@[i].len == p.tape_len || p.chunks@[i].lo
                    + p.chunks@[i].len == p.bounds@[b] + margin
            },
            1 <= p.batch <= self.num_scales,
            p.batch == 1 || p.batch * (p.n_fft * 8) <= 201326592 && p.batch * (p.n_fft * 8)
                <= self.max_binding,
            p.batch == self.num_scales || (p.batch + 1) * (p.n_fft * 8) > 201326592 || (p.batch + 1)
                * (p.n_fft * 8) > self.max_binding,
    {
        self.ranges();
        self.fft_length();
        self.batches_fit_the_budget();
        assert(pad == self.padding());
        assert(margin == self.chunk_pad());
        assert(free == self.slack());
        if self.chunked() {
            let ch = p.chunks@[i];
            assert(self.greedy_chunk(ch));
            let (a, b) = (ch.col_start as int, ch.col_end as int);
            assert(p.bounds@[a] == self.bound(a) && p.bounds@[b] == self.bound(b));
            if b < self.width {
                assert(p.bounds@[b + 1] == self.bound(b + 1));
            }
            if b == a + 1 {
                self.columns_are_no_wider(a);
            }
        } else {
            pow2::next_pow2_is_tight((self.tape_len() + self.slack()) as nat);
        }
        let budget = min_of(BIG_BUF_BUDGET as int, self.max_binding as int);
        let row = self.n_fft() * 8;
        let q = budget / row;
        lemma_fundamental_div_mod(budget, row);
        lemma_mod_bound(budget, row);
        assert((q + 1) * row == row * q + row) by (nonlinear_arith);
        if self.batch() < self.num_scales && self.batch() > q {
            assert(q <= 0 && self.batch() == 1);
            assert(2 * row >= (q + 1) * row) by (nonlinear_arith)
                requires
                    q <= 0,
                    row >= 0,
            ;
        }
    }
}

} // verus!
