//! What the compute kernels are told: uniform parameter blocks, bind-group layouts,
//! workgroup counts and the stages of the Stockham FFT.

use vstd::prelude::*;

#[allow(unused_imports)]
use crate::pow2;

verus! {

/// Invocations per workgroup along x.
pub const WG: u32 = 64;

/// `a / b`, rounded up.
pub fn ceil_div(a: u32, b: u32) -> (r: u32)
    requires
        b > 0,
    ensures
        r == (a + b - 1) / b as int,
        r * b >= a,
        r > 0 ==> (r - 1) * b < a,
{
    let q: u32 = a / b;
    let rest: u32 = a % b;
    proof {
        let (x, d) = (a as int, b as int);
        vstd::arithmetic::div_mod::lemma_fundamental_div_mod(x, d);
        if rest == 0 {
            vstd::arithmetic::div_mod::lemma_fundamental_div_mod_converse(
                x + d - 1,
                d,
                q as int,
                d - 1,
            );
            assert((q - 1) * d == d * q - d) by (nonlinear_arith);
        } else {
            assert(d * (q + 1) == d * q + d) by (nonlinear_arith);
            vstd::arithmetic::div_mod::lemma_fundamental_div_mod_converse(
                x + d - 1,
                d,
                q + 1,
                rest - 1,
            );
            assert(q <= a) by (nonlinear_arith)
                requires
                    a == d * q + rest,
                    d >= 1,
                    q >= 0,
                    rest >= 0,
            ;
            assert(q < u32::MAX) by (nonlinear_arith)
                requires
                    a == d * q + rest,
                    a <= u32::MAX,
                    d >= 1,
                    q >= 0,
                    rest >= 1,
            ;
        }
        assert(q * d == d * q) by (nonlinear_arith);
        assert((q + 1) * d == d * (q + 1)) by (nonlinear_arith);
    }
    if rest == 0 {
        q
    } else {
        q + 1
    }
}

/// Parameters of the real-to-complex kernel.
#[derive(Clone, Copy, Debug, PartialEq, Eq)]
pub struct RcParams {
    pub n: u32,
    pub _pad: [u32; 3],
}

/// Parameters of the wavelet kernel; `p1` and `p2` are the family's shape parameters.
#[derive(Clone, Copy, Debug, PartialEq, Eq)]
pub struct WavParams<F> {
    pub n: u32,
    pub num_scales: u32,
    pub scale_offset: u32,
    pub kind: u32,
    pub p1: F,
    pub p2: F,
    pub _pad: [u32; 2],
}

/// Parameters of the spectrum product kernel.
#[derive(Clone, Copy, Debug, PartialEq, Eq)]
pub struct MulParams {
    pub n: u32,
    pub num_scales: u32,
    pub _pad: [u32; 2],
}

/// Parameters of the kernels that reduce transform rows to image columns.
#[derive(Clone, Copy, Debug, PartialEq, Eq)]
pub struct ExtractParams {
    /// FFT length.
    pub n: u32,
    /// Rows in this batch.
    pub rows: u32,
    /// Image row of the first row of the batch.
    pub scale_offset: u32,
    /// Image columns.
    pub width: u32,
    /// First column of the chunk.
    pub col_start: u32,
    /// Columns of the chunk.
    pub col_count: u32,
    /// First tape sample of the chunk.
    pub chunk_lo: i32,
    /// Tape samples copied into the FFT.
    pub chunk_len: i32,
    /// One past the last shown sample, relative to the chunk.
    pub valid_end: i32,
    /// 1: every phase increment weighs the same; 0: weighted by energy.
    pub unit_weight: u32,
    pub _pad: [u32; 2],
}

/// Parameters of one FFT stage; `dir` is the sign of the twiddle angle.
#[derive(Clone, Copy, Debug, PartialEq, Eq)]
pub struct FftParams<F> {
    pub n: u32,
    pub batch: u32,
    pub ns: u32,
    pub dir: F,
}

impl RcParams {
    pub fn new(n: u32) -> (p: RcParams)
        ensures
            p.n == n,
            p._pad@ == seq![0u32, 0, 0],
    {
        RcParams { n, _pad: [0, 0, 0] }
    }

    /// The block as it lies in the uniform buffer, one word per member.
    pub open spec fn layout(self) -> Seq<u32> {
        seq![self.n] + self._pad@
    }

    pub fn words(&self) -> (w: Vec<u32>)
        ensures
            w@ == self.layout(),
    {
        let mut w: Vec<u32> = Vec::new();
        w.push(self.n);
        w.push(self._pad[0]);
        w.push(self._pad[1]);
        w.push(self._pad[2]);
        assert(w@ =~= self.layout());
        w
    }
}

impl WavParams<u32> {
    /// The block as it lies in the uniform buffer, shape parameters by their bits.
    pub open spec fn layout(self) -> Seq<u32> {
        seq![self.n, self.num_scales, self.scale_offset, self.kind, self.p1, self.p2] + self._pad@
    }

    pub fn words(&self) -> (w: Vec<u32>)
        ensures
            w@ == self.layout(),
    {
        let mut w: Vec<u32> = Vec::new();
        w.push(self.n);
        w.push(self.num_scales);
        w.push(self.scale_offset);
        w.push(self.kind);
        w.push(self.p1);
        w.push(self.p2);
        w.push(self._pad[0]);
        w.push(self._pad[1]);
        assert(w@ =~= self.layout());
        w
    }
}

impl MulParams {
    pub fn new(n: u32, num_scales: u32) -> (p: MulParams)
        ensures
            p.n == n,
            p.num_scales == num_scales,
            p._pad@ == seq![0u32, 0],
    {
        MulParams { n, num_scales, _pad: [0, 0] }
    }

    /// The block as it lies in the uniform buffer.
    pub open spec fn layout(self) -> Seq<u32> {
        seq![self.n, self.num_scales] + self._pad@
    }

    pub fn words(&self) -> (w: Vec<u32>)
        ensures
            w@ == self.layout(),
    {
        let mut w: Vec<u32> = Vec::new();
        w.push(self.n);
        w.push(self.num_scales);
        w.push(self._pad[0]);
        w.push(self._pad[1]);
        assert(w@ =~= self.layout());
        w
    }
}

impl ExtractParams {
    /// The block as it lies in the uniform buffer, signed members in two's complement.
    pub open spec fn layout(self) -> Seq<u32> {
        seq![
            self.n,
            self.rows,
            self.scale_offset,
            self.width,
            self.col_start,
            self.col_count,
            self.chunk_lo as u32,
            self.chunk_len as u32,
            self.valid_end as u32,
            self.unit_weight,
        ] + self._pad@
    }

    pub fn words(&self) -> (w: Vec<u32>)
        ensures
            w@ == self.layout(),
    {
        let mut w: Vec<u32> = Vec::new();
        w.push(self.n);
        w.push(self.rows);
        w.push(self.scale_offset);
        w.push(self.width);
        w.push(self.col_start);
        w.push(self.col_count);
        w.push(self.chunk_lo as u32);
        w.push(self.chunk_len as u32);
        w.push(self.valid_end as u32);
        w.push(self.unit_weight);
        w.push(self._pad[0]);
        w.push(self._pad[1]);
        assert(w@ =~= self.layout());
        w
    }
}

impl FftParams<u32> {
    /// The block as it lies in the uniform buffer, the direction by its bits.
    pub open spec fn layout(self) -> Seq<u32> {
        seq![self.n, self.batch, self.ns, self.dir]
    }

    pub fn words(&self) -> (w: Vec<u32>)
        ensures
            w@ == self.layout(),
    {
        let mut w: Vec<u32> = Vec::new();
        w.push(self.n);
        w.push(self.batch);
        w.push(self.ns);
        w.push(self.dir);
        assert(w@ =~= self.layout());
        w
    }
}

/// A uniform block is a whole number of 16-byte rows, whatever it holds.
pub proof fn blocks_fill_uniform_rows(
    rc: RcParams,
    wav: WavParams<u32>,
    product: MulParams,
    extract: ExtractParams,
    fft: FftParams<u32>,
)
    ensures
        rc.layout().len() % 4 == 0,
        wav.layout().len() % 4 == 0,
        product.layout().len() % 4 == 0,
        extract.layout().len() % 4 == 0,
        fft.layout().len() % 4 == 0,
{
}

/// The members of each block lie in the order in which the kernels declare them, one word
/// apart.
pub proof fn members_lie_in_order(
    rc: RcParams,
    wav: WavParams<u32>,
    product: MulParams,
    extract: ExtractParams,
    fft: FftParams<u32>,
)
    ensures
        rc.layout()[0] == rc.n,
        ({
            let w = wav.layout();
            &&& w[0] == wav.n && w[1] == wav.num_scales && w[2] == wav.scale_offset
            &&& w[3] == wav.kind && w[4] == wav.p1 && w[5] == wav.p2
        }),
        product.layout()[0] == product.n && product.layout()[1] == product.num_scales,
        ({
            let w = extract.layout();
            &&& w[0] == extract.n && w[1] == extract.rows && w[2] == extract.scale_offset
            &&& w[3] == extract.width && w[4] == extract.col_start && w[5] == extract.col_count
            &&& w[6] == extract.chunk_lo as u32 && w[7] == extract.chunk_len as u32
            &&& w[8] == extract.valid_end as u32 && w[9] == extract.unit_weight
        }),
        ({
            let w = fft.layout();
            w[0] == fft.n && w[1] == fft.batch && w[2] == fft.ns && w[3] == fft.dir
        }),
        (rc.layout().len(), wav.layout().len(), product.layout().len()) == (4nat, 8nat, 4nat),
        (extract.layout().len(), fft.layout().len()) == (12nat, 4nat),
{
}

/// Byte `k` of a word, counted from the least significant.
pub open spec fn byte_of(word: u32, k: int) -> u8 {
    if k == 0 {
        (word % 256) as u8
    } else if k == 1 {
        (word / 256 % 256) as u8
    } else if k == 2 {
        (word / 65536 % 256) as u8
    } else {
        (word / 16777216) as u8
    }
}

/// The words in little-endian memory order.
pub open spec fn little_endian(words: Seq<u32>) -> Seq<u8> {
    Seq::new(4 * words.len(), |i: int| byte_of(words[i / 4], i % 4))
}

/// The words in big-endian memory order.
pub open spec fn big_endian(words: Seq<u32>) -> Seq<u8> {
    Seq::new(4 * words.len(), |i: int| byte_of(words[i / 4], 3 - i % 4))
}

/// The four bytes of a word add up to it, in little-endian order with the first one counting
/// least, in big-endian order with the last.
pub proof fn bytes_add_up(words: Seq<u32>, i: int)
    requires
        0 <= i < words.len(),
    ensures
        ({
            let (l, b) = (little_endian(words), big_endian(words));
            let k = 4 * i;
            &&& l.len() == 4 * words.len() && b.len() == 4 * words.len()
            &&& words[i] == l[k] + 256 * l[k + 1] + 65536 * l[k + 2] + 16777216 * l[k + 3]
            &&& words[i] == b[k + 3] + 256 * b[k + 2] + 65536 * b[k + 1] + 16777216 * b[k]
        }),
{
    let k = 4 * i;
    assert(k / 4 == i && (k + 1) / 4 == i && (k + 2) / 4 == i && (k + 3) / 4 == i);
    assert(k % 4 == 0 && (k + 1) % 4 == 1 && (k + 2) % 4 == 2 && (k + 3) % 4 == 3);
    let w = words[i];
    assert(w / 16777216 < 256 && w / 65536 / 256 == w / 16777216 && w / 256 / 256 == w / 65536);
}

/// `bytemuck::cast_slice` from words to bytes: the memory of the words, byte by byte, in
/// the order of the machine, which is one of the two.
#[verifier::external_body]
pub(crate) fn cast_words(words: &[u32]) -> (bytes: Vec<u8>)
    ensures
        bytes@ == little_endian(words@) || bytes@ == big_endian(words@),
{
    bytemuck::cast_slice::<u32, u8>(words).to_vec()
}

/// The bytes to upload for a block or table of words, in the order of the machine.
pub fn upload_bytes(words: &Vec<u32>) -> (bytes: Vec<u8>)
    ensures
        bytes@.len() == 4 * words@.len(),
        bytes@ == little_endian(words@) || bytes@ == big_endian(words@),
{
    cast_words(words.as_slice())
}

/// How a kernel sees one of its buffers.
#[derive(Clone, Copy, Debug, PartialEq, Eq, Structural)]
pub enum Bind {
    StorageRead,
    StorageWrite,
    Uniform,
}

/// The compute kernels.
#[derive(Clone, Copy, Debug, PartialEq, Eq, Structural)]
pub enum Kernel {
    RealToComplex,
    Wavelet,
    Multiply,
    Extract,
    CrossExtract,
    Fft,
}

impl Kernel {
    /// The bindings of a kernel in order. The parameter block always comes last.
    pub open spec fn layout(self) -> Seq<Bind> {
        match self {
            Kernel::RealToComplex | Kernel::Fft => seq![
                Bind::StorageRead,
                Bind::StorageWrite,
                Bind::Uniform,
            ],
            // bank, scales, eta
            Kernel::Wavelet => seq![
                Bind::StorageWrite,
                Bind::StorageRead,
                Bind::StorageRead,
                Bind::Uniform,
            ],
            // spectrum, bank, product
            Kernel::Multiply => seq![
                Bind::StorageRead,
                Bind::StorageRead,
                Bind::StorageWrite,
                Bind::Uniform,
            ],
            // rows, four images, scales, eta, bounds
            Kernel::Extract => seq![
                Bind::StorageRead,
                Bind::StorageWrite,
                Bind::StorageWrite,
                Bind::StorageWrite,
                Bind::StorageWrite,
                Bind::StorageRead,
                Bind::StorageRead,
                Bind::StorageRead,
                Bind::Uniform,
            ],
            // two row buffers, three images, bounds
            Kernel::CrossExtract => seq![
                Bind::StorageRead,
                Bind::StorageRead,
                Bind::StorageWrite,
                Bind::StorageWrite,
                Bind::StorageWrite,
                Bind::StorageRead,
                Bind::Uniform,
            ],
        }
    }

    /// Every kernel reads something, its parameter block is its last binding and the only
    /// uniform one, and it writes as many buffers as it has results: four images for a
    /// channel, three for a pair of channels, else one.
    pub proof fn results_are_writable(self, i: int)
        requires
            0 <= i < self.layout().len(),
        ensures
            self.layout()[i] == Bind::Uniform <==> i == self.layout().len() - 1,
            self.layout().len() == match self {
                Kernel::RealToComplex | Kernel::Fft => 3nat,
                Kernel::Wavelet | Kernel::Multiply => 4nat,
                Kernel::Extract => 9nat,
                Kernel::CrossExtract => 7nat,
            },
            self.layout()[i] == Bind::StorageWrite <==> match self {
                Kernel::RealToComplex | Kernel::Fft => i == 1,
                Kernel::Wavelet => i == 0,
                Kernel::Multiply => i == 2,
                Kernel::Extract => 1 <= i <= 4,
                Kernel::CrossExtract => 2 <= i <= 4,
            },
    {
    }

    pub fn binds(self) -> (b: Vec<Bind>)
        ensures
            b@ == self.layout(),
    {
        let r = Bind::StorageRead;
        let w = Bind::StorageWrite;
        let u = Bind::Uniform;
        let b = match self {
            Kernel::RealToComplex | Kernel::Fft => vec![r, w, u],
            Kernel::Wavelet => vec![w, r, r, u],
            Kernel::Multiply => vec![r, r, w, u],
            Kernel::Extract => vec![r, w, w, w, w, r, r, r, u],
            Kernel::CrossExtract => vec![r, r, w, w, w, r, u],
        };
        assert(b@ =~= self.layout());
        b
    }

    /// Name under which the kernel is registered with the device.
    pub fn label(self) -> (s: &'static str)
        ensures
            s@ == match self {
                Kernel::RealToComplex => "real_to_complex"@,
                Kernel::Wavelet => "wavelet"@,
                Kernel::Multiply => "multiply"@,
                Kernel::Extract => "extract"@,
                Kernel::CrossExtract => "cross_extract"@,
                Kernel::Fft => "fft"@,
            },
    {
        match self {
            Kernel::RealToComplex => "real_to_complex",
            Kernel::Wavelet => "wavelet",
            Kernel::Multiply => "multiply",
            Kernel::Extract => "extract",
            Kernel::CrossExtract => "cross_extract",
            Kernel::Fft => "fft",
        }
    }
}

/// `wg` are the workgroups for `cols` invocations along x in each of `rows` rows.
pub open spec fn launched(cols: u32, rows: u32, wg: (u32, u32, u32)) -> bool {
    &&& wg.0 == (cols + WG - 1) / WG as int
    &&& wg.1 == rows
    &&& wg.2 == 1
    &&& wg.0 * WG >= cols
}

/// Every pixel is computed, and no workgroup is idle: with 64 invocations per workgroup along
/// x and one along y, invocation (`x`, `y`) belongs to a workgroup that is launched wherever
/// it is wanted, and every workgroup that is launched holds one that is wanted.
pub proof fn every_invocation_is_launched(
    cols: u32,
    rows: u32,
    wg: (u32, u32, u32),
    x: int,
    y: int,
    gx: int,
)
    requires
        launched(cols, rows, wg),
    ensures
        0 <= x < cols && 0 <= y < rows ==> x / 64 < wg.0 && y < wg.1 && wg.2 == 1,
        0 <= gx < wg.0 ==> gx * 64 < cols,
        wg.1 == rows,
{
}

/// Workgroups to launch for `cols` invocations along x in each of `rows` rows.
pub fn workgroups(cols: u32, rows: u32) -> (wg: (u32, u32, u32))
    ensures
        launched(cols, rows, wg),
{
    (ceil_div(cols, WG), rows, 1)
}

/// The three buffers of one FFT.
#[derive(Clone, Copy, Debug, PartialEq, Eq, Structural)]
pub enum FftBuf {
    Input,
    Output,
    Scratch,
}

/// One pass of the Stockham FFT from `src` to `dst`.
#[derive(Clone, Copy, Debug, PartialEq, Eq, Structural)]
pub struct FftStage {
    /// Span of the butterflies; `None` for a plain copy.
    pub ns: Option<u32>,
    pub src: FftBuf,
    pub dst: FftBuf,
}

/// Where pass `i` of `count` writes: the passes alternate, and the last one writes the
/// output.
pub open spec fn stage_dst(count: int, i: int) -> FftBuf {
    if (count - i) % 2 == 1 {
        FftBuf::Output
    } else {
        FftBuf::Scratch
    }
}

/// Butterfly pass `i` of `count`: it reads what the pass before it wrote.
pub open spec fn stage(count: int, i: int) -> FftStage {
    FftStage {
        ns: Some(pow2::two_to(i as nat) as u32),
        src: if i == 0 {
            FftBuf::Input
        } else {
            stage_dst(count, i - 1)
        },
        dst: stage_dst(count, i),
    }
}

/// The passes of an FFT of length `n`, a power of two: one of butterflies for each doubling
/// of the length. The transform of a single value is that value.
pub open spec fn stages_of(n: nat) -> Seq<FftStage> {
    if n == 1 {
        seq![FftStage { ns: None, src: FftBuf::Input, dst: FftBuf::Output }]
    } else {
        let count = pow2::floor_log2_of(n);
        Seq::new(count, |i: int| stage(count as int, i))
    }
}

/// The passes of an FFT of length `n`, a power of two.
pub fn fft_stages(n: u32) -> (stages: Vec<FftStage>)
    requires
        pow2::is_pow2(n as nat),
    ensures
        stages@ == stages_of(n as nat),
        n > 1 ==> pow2::two_to(stages@.len()) == n,
        n > 1 ==> forall|i: int|
            0 <= i < stages@.len() ==> ((#[trigger] stages@[i]).ns matches Some(ns) && ns
                == pow2::two_to(i as nat)),
{
    let mut stages: Vec<FftStage> = Vec::new();
    if n == 1 {
        stages.push(FftStage { ns: None, src: FftBuf::Input, dst: FftBuf::Output });
        assert(stages@ =~= stages_of(1));
        return stages;
    }
    let mut count: u32 = 0;
    let mut m: u32 = n;
    proof {
        pow2::pow2_is_two_to(n as nat);
    }
    while m > 1
        invariant
            1 <= m <= n,
            count + m <= n + 1,
            count + pow2::floor_log2_of(m as nat) == pow2::floor_log2_of(n as nat),
        decreases m,
    {
        m = m / 2;
        count = count + 1;
    }
    let mut dst_is_output: bool = count % 2 == 1;
    let mut src = FftBuf::Input;
    let mut ns: u32 = 1;
    let mut i: u32 = 0;
    while i < count
        invariant
            i <= count,
            count == pow2::floor_log2_of(n as nat),
            pow2::two_to(count as nat) == n,
            stages@.len() == i,
            i < count ==> ns == pow2::two_to(i as nat),
            dst_is_output == ((count - i) % 2 == 1),
            src == (if i == 0 { FftBuf::Input } else { stage_dst(count as int, i - 1) }),
            forall|k: int| 0 <= k < i ==> #[trigger] stages@[k] == stage(count as int, k),
            forall|k: int|
                0 <= k < i ==> ((#[trigger] stages@[k]).ns matches Some(ns) && ns
                    == pow2::two_to(k as nat)),
        decreases count - i,
    {
        let dst = if dst_is_output {
            FftBuf::Output
        } else {
            FftBuf::Scratch
        };
        stages.push(FftStage { ns: Some(ns), src, dst });
        src = dst;
        dst_is_output = !dst_is_output;
        i = i + 1;
        if i < count {
            proof {
                pow2::two_to_ascends(i as nat, count as nat);
            }
            ns = ns * 2;
        }
    }
    assert(stages@ =~= stages_of(n as nat));
    stages
}

/// Whatever power of two the length is, the first pass reads the input and the last one
/// writes the output; every pass reads what the one before it wrote, none reads the buffer
/// that it writes, and none overwrites the input.
pub proof fn fft_lands_in_output(n: nat, i: int)
    requires
        pow2::is_pow2(n),
        0 <= i < stages_of(n).len(),
    ensures
        stages_of(n)[0].src == FftBuf::Input,
        stages_of(n).last().dst == FftBuf::Output,
        stages_of(n)[i].src != stages_of(n)[i].dst,
        stages_of(n)[i].dst != FftBuf::Input,
        i > 0 ==> stages_of(n)[i].src == stages_of(n)[i - 1].dst,
{
}

/// The butterflies of the first pass span one value, those of every further pass twice as
/// many as those before, and those of the last one half of the transform.
pub proof fn butterflies_double(n: nat, i: int)
    requires
        pow2::is_pow2(n),
        1 < n <= u32::MAX,
        0 <= i < stages_of(n).len(),
    ensures
        stages_of(n)[i].ns is Some,
        stages_of(n)[0].ns == Some(1u32),
        i > 0 ==> stages_of(n)[i].ns->0 == 2 * stages_of(n)[i - 1].ns->0,
        2 * stages_of(n).last().ns->0 == n,
{
    let count = pow2::floor_log2_of(n);
    pow2::pow2_is_two_to(n);
    pow2::two_to_ascends(i as nat, count);
    pow2::two_to_ascends((count - 1) as nat, count);
    assert(pow2::two_to(0) == 1);
    if i > 0 {
        pow2::two_to_ascends((i - 1) as nat, count);
    }
}

/// There is at least one pass.
pub proof fn fft_has_a_pass(n: nat)
    requires
        pow2::is_pow2(n),
    ensures
        stages_of(n).len() > 0,
{
    pow2::pow2_is_two_to(n);
}

} // verus!
