//! Audio files: which decoder reads them, and how decoded samples become channels.

use std::ops::Div;
use vstd::prelude::*;
use vstd::arithmetic::div_mod::*;
use vstd::string::StringExecFns;

use crate::colormap;
use crate::numeric;
#[allow(unused_imports)]
use crate::pow2;
#[allow(unused_imports)]
use crate::reals;

verus! {

/// Decoding errors of the WAV reader.
#[verifier::external_type_specification]
#[verifier::external_body]
pub struct ExWavError(hound::Error);

/// Decoding errors of the FLAC reader.
#[verifier::external_type_specification]
#[verifier::external_body]
pub struct ExFlacError(claxon::Error);

/// What `hound::WavReader::new` reads from the head of a file: channels, sample rate, bits
/// per sample, and whether samples are floating point.
pub uninterp spec fn wav_header(bytes: Seq<u8>) -> Option<(u16, u32, u16, bool)>;

/// What `hound::WavReader::samples` reads from a file with integer samples, in file order.
pub uninterp spec fn wav_integers(bytes: Seq<u8>) -> Option<Seq<i32>>;

/// What `claxon::FlacReader::new` reads from the head of a file: channels, sample rate and
/// bits per sample.
pub uninterp spec fn flac_header(bytes: Seq<u8>) -> Option<(u32, u32, u32)>;

/// What `claxon::FlacReader::samples` decodes, in file order.
pub uninterp spec fn flac_integers(bytes: Seq<u8>) -> Option<Seq<i32>>;

/// `hound::WavReader::new` and `spec` on the bytes of a file. A readable head names at
/// least one channel and at least one bit per sample.
#[verifier::external_body]
fn read_wav_header(bytes: &Vec<u8>) -> (r: Result<(u16, u32, u16, bool), hound::Error>)
    ensures
        r matches Ok(h) ==> wav_header(bytes@) == Some(h) && h.0 >= 1 && h.2 >= 1,
        r is Err ==> wav_header(bytes@) is None,
{
    let reader = hound::WavReader::new(bytes.as_slice())?;
    let spec = reader.spec();
    let float = match spec.sample_format {
        hound::SampleFormat::Float => true,
        hound::SampleFormat::Int => false,
    };
    Ok((spec.channels, spec.sample_rate, spec.bits_per_sample, float))
}

/// `hound::WavReader::samples` on the bytes of a file, all samples or the first error. The
/// samples make up whole frames. Samples come only with 8, 16, 24 or 32 bits, and each
/// lies in the range of a two's-complement number of that many bits.
#[verifier::external_body]
fn read_wav_integers(bytes: &Vec<u8>) -> (r: Result<Vec<i32>, hound::Error>)
    ensures
        r matches Ok(v) ==> wav_integers(bytes@) == Some(v@),
        r is Err ==> wav_integers(bytes@) is None,
        r matches Ok(v) ==> (wav_header(bytes@) matches Some(h) && (v@.len() as int) % (h.0 as int)
            == 0 && (v@.len() > 0 ==> h.2 == 8 || h.2 == 16 || h.2 == 24 || h.2 == 32) && forall|
            i: int,
        |
            0 <= i < v@.len() ==> -full_scale_of(h.2 as nat) <= #[trigger] v@[i] < full_scale_of(
                h.2 as nat,
            )),
{
    let mut reader = hound::WavReader::new(bytes.as_slice())?;
    reader.samples::<i32>().collect()
}

/// `claxon::FlacReader::new` and `streaminfo` on the bytes of a file. A readable head names
/// one to eight channels, 1 to 32 bits per sample and a sample rate of at least one.
#[verifier::external_body]
fn read_flac_header(bytes: &Vec<u8>) -> (r: Result<(u32, u32, u32), claxon::Error>)
    ensures
        r matches Ok(h) ==> flac_header(bytes@) == Some(h) && 1 <= h.0 <= 8 && 1 <= h.2 <= 32
            && 1 <= h.1,
        r is Err ==> flac_header(bytes@) is None,
{
    let reader = claxon::FlacReader::new(bytes.as_slice())?;
    let info = reader.streaminfo();
    Ok((info.channels, info.sample_rate, info.bits_per_sample))
}

/// `claxon::FlacReader::samples` on the bytes of a file, all samples or the first error. In
/// which range samples lie is not said: frames may differ from the head of the file.
#[verifier::external_body]
fn read_flac_integers(bytes: &Vec<u8>) -> (r: Result<Vec<i32>, claxon::Error>)
    ensures
        r matches Ok(v) ==> flac_integers(bytes@) == Some(v@),
        r is Err ==> flac_integers(bytes@) is None,
{
    let mut reader = claxon::FlacReader::new(bytes.as_slice())?;
    reader.samples().collect()
}

/// An ASCII letter in lower case; every other character stays.
pub open spec fn lower(c: char) -> char {
    if 'A' <= c <= 'Z' {
        (c as u32 + 32) as char
    } else {
        c
    }
}

pub open spec fn lowered(s: Seq<char>) -> Seq<char> {
    Seq::new(s.len(), |i: int| lower(s[i]))
}

/// `str::to_ascii_lowercase`: a copy in which ASCII letters are in lower case and all other
/// characters are unchanged.
#[verifier::external_body]
fn ascii_lowercase(s: &str) -> (r: String)
    ensures
        r@ == lowered(s@),
{
    s.to_ascii_lowercase()
}

/// Why a file could not be loaded.
#[derive(Debug)]
pub enum AudioError {
    OpenWav,
    WavFloats,
    WavIntegers,
    OpenFlac,
    FlacSamples,
    /// The extension, in lower case.
    Unsupported(String),
    ZeroChannels,
}

impl AudioError {
    pub open spec fn text(self) -> Seq<char> {
        match self {
            AudioError::OpenWav => "Cannot open WAV file"@,
            AudioError::WavFloats => "Reading WAV float samples"@,
            AudioError::WavIntegers => "Reading WAV int samples"@,
            AudioError::OpenFlac => "Cannot open FLAC file"@,
            AudioError::FlacSamples => "Reading FLAC samples"@,
            AudioError::Unsupported(ext) => "Unsupported audio format: ."@ + ext@,
            AudioError::ZeroChannels => "Audio file has zero channels"@,
        }
    }

    /// The message that is shown.
    pub fn message(&self) -> (s: String)
        ensures
            s@ == self.text(),
    {
        match self {
            AudioError::OpenWav => "Cannot open WAV file".to_owned(),
            AudioError::WavFloats => "Reading WAV float samples".to_owned(),
            AudioError::WavIntegers => "Reading WAV int samples".to_owned(),
            AudioError::OpenFlac => "Cannot open FLAC file".to_owned(),
            AudioError::FlacSamples => "Reading FLAC samples".to_owned(),
            AudioError::Unsupported(ext) => {
                "Unsupported audio format: .".to_owned().concat(ext.as_str())
            },
            AudioError::ZeroChannels => "Audio file has zero channels".to_owned(),
        }
    }
}

/// The file formats.
#[derive(Debug)]
pub enum AudioFormat {
    Wav,
    Flac,
    /// Some other extension, in lower case.
    Other(String),
}

impl AudioFormat {
    /// The format that a file extension stands for, whatever its case.
    pub open spec fn named(ext: Seq<char>, f: AudioFormat) -> bool {
        let low = lowered(ext);
        if low == "wav"@ || low == "wave"@ {
            f is Wav
        } else if low == "flac"@ {
            f is Flac
        } else {
            f matches AudioFormat::Other(e) && e@ == low
        }
    }

    pub fn from_extension(ext: &str) -> (f: AudioFormat)
        ensures
            Self::named(ext@, f),
    {
        let low = ascii_lowercase(ext);
        if low == "wav".to_owned() || low == "wave".to_owned() {
            AudioFormat::Wav
        } else if low == "flac".to_owned() {
            AudioFormat::Flac
        } else {
            AudioFormat::Other(low)
        }
    }
}

/// A loaded audio file with samples normalised to the range from minus one to one.
#[derive(Debug)]
pub struct AudioFile<T> {
    pub sample_rate: u32,
    /// Samples of each channel.
    pub channels: Vec<Vec<T>>,
    pub duration_secs: T,
    pub path: String,
}

impl<T> AudioFile<T> {
    /// Every sample lies between minus one and one where samples are read as real numbers.
    pub open spec fn is_normalised(self, val: spec_fn(T) -> real) -> bool {
        forall|c: int, k: int|
            0 <= c < self.channels@.len() && 0 <= k < self.channels@[c]@.len() ==> -1real <= val(
                #[trigger] self.channels@[c]@[k],
            ) <= 1real
    }
}

/// The value that a sample of `bits` bits is divided by, the magnitude of the most negative
/// sample. (For 64 bits the sign bit itself.)
pub open spec fn full_scale_of(bits: nat) -> int {
    if bits == 64 {
        i64::MIN as int
    } else {
        pow2::two_to((bits - 1) as nat) as int
    }
}

pub fn full_scale(bits: u32) -> (m: i64)
    requires
        1 <= bits <= 64,
    ensures
        m == full_scale_of(bits as nat),
{
    if bits == 64 {
        return i64::MIN;
    }
    let mut m: i64 = 1;
    let mut k: u32 = 1;
    proof {
        assert(pow2::two_to(62) == 0x4000_0000_0000_0000) by {
            reveal_with_fuel(pow2::two_to, 63);
        }
    }
    while k < bits
        invariant
            1 <= k <= bits <= 63,
            m == pow2::two_to((k - 1) as nat),
            pow2::two_to(62) == 0x4000_0000_0000_0000,
        decreases bits - k,
    {
        proof {
            pow2::two_to_ascends((k - 1) as nat, 62);
        }
        m = m * 2;
        k = k + 1;
    }
    m
}

/// The sample of frame `k` of channel `c`, of `n` interleaved channels, lies at `k * n + c`.
pub open spec fn deinterleaved<T>(samples: Seq<T>, n: int, channels: Seq<Vec<T>>) -> bool {
    &&& channels.len() == n
    &&& forall|c: int, k: int|
        0 <= c < n && 0 <= k ==> (k < (#[trigger] channels[c])@.len() <==> #[trigger] at(n, c, k)
            < samples.len())
    &&& forall|c: int, k: int|
        0 <= c < n && 0 <= k < channels[c]@.len() ==> #[trigger] channels[c]@[k] == samples[at(
            n,
            c,
            k,
        )]
}

pub open spec fn at(n: int, c: int, k: int) -> int {
    k * n + c
}

impl<T> AudioFile<T> {
    /// The file holds the interleaved samples.
    pub open spec fn holds<D: Fn(usize, u32) -> T>(
        self,
        samples: Seq<T>,
        num_channels: int,
        sample_rate: u32,
        path: Seq<char>,
        seconds: D,
    ) -> bool {
        &&& self.sample_rate == sample_rate
        &&& self.path@ == path
        &&& deinterleaved(samples, num_channels, self.channels@)
        &&& call_ensures(
            seconds,
            ((samples.len() as int / num_channels) as usize, sample_rate),
            self.duration_secs,
        )
    }

    /// Samples of the first channel.
    pub fn num_samples(&self) -> (n: usize)
        ensures
            n == (if self.channels@.len() == 0 {
                0
            } else {
                self.channels@[0]@.len()
            }),
    {
        if self.channels.len() == 0 {
            0
        } else {
            self.channels[0].len()
        }
    }
}

impl<T: Copy> AudioFile<T> {
    /// Splits interleaved samples into channels. `seconds` gives the duration of a number of
    /// frames at a sample rate.
    pub fn from_interleaved<D: Fn(usize, u32) -> T>(
        samples: &Vec<T>,
        num_channels: usize,
        sample_rate: u32,
        path: String,
        seconds: D,
    ) -> (r: Result<AudioFile<T>, AudioError>)
        requires
            forall|n: usize, rate: u32| call_requires(seconds, (n, rate)),
        ensures
            num_channels == 0 ==> r == Err::<AudioFile<T>, AudioError>(AudioError::ZeroChannels),
            num_channels > 0 ==> (r matches Ok(a) && a.holds(
                samples@,
                num_channels as int,
                sample_rate,
                path@,
                seconds,
            )),
    {
        if num_channels == 0 {
            return Err(AudioError::ZeroChannels);
        }
        let num_frames: usize = samples.len() / num_channels;
        let len: usize = samples.len();
        let mut channels: Vec<Vec<T>> = Vec::new();
        let mut c: usize = 0;
        while c < num_channels
            invariant
                0 < num_channels,
                c <= num_channels,
                len == samples@.len(),
                channels@.len() == c,
                forall|d: int, k: int|
                    0 <= d < c && 0 <= k ==> (k < (#[trigger] channels@[d])@.len() <==>
                    #[trigger] at(num_channels as int, d, k) < samples@.len()),
                forall|d: int, k: int|
                    0 <= d < c && 0 <= k < channels@[d]@.len() ==> #[trigger] channels@[d]@[k]
                        == samples@[at(num_channels as int, d, k)],
            decreases num_channels - c,
        {
            let mut channel: Vec<T> = Vec::new();
            let mut i: usize = c;
            let mut more: bool = c < len;
            proof {
                assert(0 * num_channels == 0);
            }
            while more
                invariant
                    0 < num_channels,
                    c < num_channels,
                    len == samples@.len(),
                    more ==> i == at(num_channels as int, c as int, channel@.len() as int) && i
                        < len,
                    !more ==> at(num_channels as int, c as int, channel@.len() as int) >= len,
                    forall|k: int|
                        0 <= k < channel@.len() ==> #[trigger] at(num_channels as int, c as int, k)
                            < len && channel@[k] == samples@[at(num_channels as int, c as int, k)],
                decreases len - channel@.len(),
            {
                proof {
                    let (n, k) = (num_channels as int, channel@.len() as int);
                    assert((k + 1) * n == k * n + n) by (nonlinear_arith);
                    assert(k <= k * n) by (nonlinear_arith)
                        requires
                            n >= 1,
                            k >= 0,
                    ;
                }
                channel.push(samples[i]);
                if num_channels < len - i {
                    i = i + num_channels;
                } else {
                    more = false;
                }
            }
            proof {
                let n = num_channels as int;
                assert forall|k: int| 0 <= k implies (k < channel@.len() <==> #[trigger] at(
                    n,
                    c as int,
                    k,
                ) < samples@.len()) by {
                    if k >= channel@.len() {
                        let m = channel@.len() as int;
                        assert(m * n <= k * n) by (nonlinear_arith)
                            requires
                                0 <= m <= k,
                                n >= 1,
                        ;
                    }
                }
            }
            channels.push(channel);
            c = c + 1;
        }
        let duration_secs: T = seconds(num_frames, sample_rate);
        Ok(AudioFile { sample_rate, channels, duration_secs, path })
    }
}

/// Interleaved sample `i` is frame `i / n` of channel `i % n`: no sample is lost and none
/// comes twice.
pub proof fn every_sample_has_its_place<T>(samples: Seq<T>, n: int, channels: Seq<Vec<T>>, i: int)
    requires
        n >= 1,
        deinterleaved(samples, n, channels),
        0 <= i < samples.len(),
    ensures
        0 <= i % n < channels.len(),
        0 <= i / n < channels[i % n]@.len(),
        channels[i % n]@[i / n] == samples[i],
        forall|c: int, k: int|
            0 <= c < n && 0 <= k < channels[c]@.len() && #[trigger] at(n, c, k) == i ==> c == i % n
                && k == i / n,
{
    lemma_fundamental_div_mod(i, n);
    lemma_mod_bound(i, n);
    lemma_div_pos_is_pos(i, n);
    assert(n * (i / n) == (i / n) * n) by (nonlinear_arith);
    assert(at(n, i % n, i / n) == i);
    assert forall|c: int, k: int|
        0 <= c < n && 0 <= k < channels[c]@.len() && #[trigger] at(n, c, k) == i implies c == i % n
        && k == i / n by {
        lemma_fundamental_div_mod_converse(i, n, k, c);
    }
}

/// A sample of `bits` bits, limited to full scale where it exceeds it.
pub open spec fn limited(s: i32, bits: nat) -> i64 {
    if bits > 32 {
        s as i64
    } else if s < -full_scale_of(bits) {
        (-full_scale_of(bits)) as i64
    } else if s > full_scale_of(bits) {
        full_scale_of(bits) as i64
    } else {
        s as i64
    }
}

fn limit(s: i32, bits: u32, max: i64) -> (r: i64)
    requires
        1 <= bits <= 64,
        max == full_scale_of(bits as nat),
    ensures
        r == limited(s, bits as nat),
{
    if bits > 32 {
        return s as i64;
    }
    proof {
        pow2::two_to_ascends((bits - 1) as nat, bits as nat);
    }
    if (s as i64) < -max {
        -max
    } else if s as i64 > max {
        max
    } else {
        s as i64
    }
}

/// How a file is read.
pub struct Decoder<T, N, D> {
    /// The lowest and the highest sample.
    pub minus_one: T,
    pub one: T,
    /// A number as a sample.
    pub number: N,
    /// The duration of a number of frames at a sample rate.
    pub seconds: D,
}

impl<
    T: Copy + Div<Output = T> + PartialOrd,
    N: Fn(i64) -> T,
    D: Fn(usize, u32) -> T,
> Decoder<T, N, D> {
    pub open spec fn callable(self) -> bool {
        &&& numeric::divides::<T>()
        &&& forall|n: i64| call_requires(self.number, (n,))
        &&& forall|n: usize, rate: u32| call_requires(self.seconds, (n, rate))
    }

    /// `r` is an integer sample, limited to full scale and divided by it.
    pub open spec fn scaled(self, s: i32, bits: nat, r: T) -> bool {
        exists|a: T, b: T|
            {
                &&& #[trigger] call_ensures(self.number, (limited(s, bits),), a)
                &&& #[trigger] call_ensures(self.number, (full_scale_of(bits) as i64,), b)
                &&& numeric::quotient(a, b, r)
            }
    }

    /// `t` holds the integer samples as shares of full scale.
    pub open spec fn normalised(self, samples: Seq<i32>, bits: nat, t: Seq<T>) -> bool {
        &&& t.len() == samples.len()
        &&& forall|i: int|
            0 <= i < t.len() ==> self.scaled(samples[i], bits, #[trigger] t[i])
    }

    /// `t` holds the floating-point samples, limited to the lowest and the highest sample.
    pub open spec fn within(self, samples: Seq<T>, t: Seq<T>) -> bool {
        &&& t.len() == samples.len()
        &&& forall|i: int|
            0 <= i < t.len() ==> colormap::clamped(
                samples[i],
                self.minus_one,
                self.one,
                #[trigger] t[i],
            )
    }

    /// `r` is what interleaved integer samples load as.
    pub open spec fn loaded(
        self,
        samples: Seq<i32>,
        bits: nat,
        num_channels: int,
        sample_rate: u32,
        path: Seq<char>,
        r: Result<AudioFile<T>, AudioError>,
    ) -> bool {
        if num_channels == 0 {
            r == Err::<AudioFile<T>, AudioError>(AudioError::ZeroChannels)
        } else {
            r matches Ok(a) && exists|t: Seq<T>|
                {
                    &&& #[trigger] self.normalised(samples, bits, t)
                    &&& a.holds(t, num_channels, sample_rate, path, self.seconds)
                }
        }
    }

    /// Loads interleaved integer samples.
    pub fn from_integers(
        &self,
        samples: &Vec<i32>,
        bits: u32,
        num_channels: usize,
        sample_rate: u32,
        path: String,
    ) -> (r: Result<AudioFile<T>, AudioError>)
        requires
            self.callable(),
            samples@.len() > 0 ==> 1 <= bits <= 64,
        ensures
            self.loaded(
                samples@,
                bits as nat,
                num_channels as int,
                sample_rate,
                path@,
                r,
            ),
    {
        let mut t: Vec<T> = Vec::new();
        if samples.len() > 0 {
            let max: i64 = full_scale(bits);
            let mut i: usize = 0;
            while i < samples.len()
                invariant
                    self.callable(),
                    1 <= bits <= 64,
                    max == full_scale_of(bits as nat),
                    i <= samples@.len(),
                    t@.len() == i,
                    forall|k: int|
                        0 <= k < i ==> self.scaled(samples@[k], bits as nat, #[trigger] t@[k]),
                decreases samples@.len() - i,
            {
                let a: T = (self.number)(limit(samples[i], bits, max));
                let b: T = (self.number)(max);
                let r: T = a / b;
                proof {
                    let s = samples@[i as int];
                    let full = full_scale_of(bits as nat) as i64;
                    assert(call_ensures(self.number, (limited(s, bits as nat),), a));
                    assert(call_ensures(self.number, (full,), b));
                    assert(self.scaled(s, bits as nat, r));
                }
                t.push(r);
                i = i + 1;
            }
        }
        assert(self.normalised(samples@, bits as nat, t@));
        AudioFile::from_interleaved(&t, num_channels, sample_rate, path, &self.seconds)
    }

    /// `r` is what interleaved floating-point samples load as; `None` where they could not
    /// be read.
    pub open spec fn float_loaded(
        self,
        samples: Option<Vec<T>>,
        num_channels: int,
        sample_rate: u32,
        path: Seq<char>,
        r: Result<AudioFile<T>, AudioError>,
    ) -> bool {
        match samples {
            None => r == Err::<AudioFile<T>, AudioError>(AudioError::WavFloats),
            Some(v) => if num_channels == 0 {
                r == Err::<AudioFile<T>, AudioError>(AudioError::ZeroChannels)
            } else {
                r matches Ok(a) && exists|t: Seq<T>|
                    {
                        &&& #[trigger] self.within(v@, t)
                        &&& a.holds(t, num_channels, sample_rate, path, self.seconds)
                    }
            },
        }
    }

    /// Loads floating-point samples, or says that there are none.
    pub fn from_floats(
        &self,
        samples: Option<Vec<T>>,
        num_channels: usize,
        sample_rate: u32,
        path: String,
    ) -> (r: Result<AudioFile<T>, AudioError>)
        requires
            self.callable(),
        ensures
            self.float_loaded(samples, num_channels as int, sample_rate, path@, r),
    {
        let v: Vec<T> = match samples {
            Some(v) => v,
            None => {
                return Err(AudioError::WavFloats);
            },
        };
        let mut t: Vec<T> = Vec::new();
        let mut i: usize = 0;
        while i < v.len()
            invariant
                i <= v@.len(),
                t@.len() == i,
                forall|k: int|
                    0 <= k < i ==> colormap::clamped(
                        v@[k],
                        self.minus_one,
                        self.one,
                        #[trigger] t@[k],
                    ),
            decreases v@.len() - i,
        {
            t.push(colormap::clamp(v[i], self.minus_one, self.one));
            i = i + 1;
        }
        assert(self.within(v@, t@));
        AudioFile::from_interleaved(&t, num_channels, sample_rate, path, &self.seconds)
    }

    /// `r` is what the bytes of a WAV file load as.
    pub open spec fn wav_loaded<F: Fn(&Vec<u8>) -> Option<Vec<T>>>(
        self,
        bytes: &Vec<u8>,
        path: Seq<char>,
        read_floats: F,
        r: Result<AudioFile<T>, AudioError>,
    ) -> bool {
        match wav_header(bytes@) {
            None => r == Err::<AudioFile<T>, AudioError>(AudioError::OpenWav),
            Some(h) => if h.3 {
                exists|f: Option<Vec<T>>| #[trigger]
                    call_ensures(read_floats, (bytes,), f) && self.float_loaded(
                        f,
                        h.0 as int,
                        h.1,
                        path,
                        r,
                    )
            } else {
                match wav_integers(bytes@) {
                    None => r == Err::<AudioFile<T>, AudioError>(AudioError::WavIntegers),
                    Some(v) => self.loaded(v, h.2 as nat, h.0 as int, h.1, path, r),
                }
            },
        }
    }

    /// Loads the bytes of a WAV file. `read_floats` reads the samples of a floating-point
    /// file. Integer samples never exceed full scale, so that none is limited.
    pub fn load_wav<F: Fn(&Vec<u8>) -> Option<Vec<T>>>(
        &self,
        bytes: &Vec<u8>,
        path: String,
        read_floats: F,
    ) -> (r: Result<AudioFile<T>, AudioError>)
        requires
            self.callable(),
            forall|b: &Vec<u8>| call_requires(read_floats, (b,)),
        ensures
            self.wav_loaded(bytes, path@, read_floats, r),
            r is Ok && wav_header(bytes@).unwrap().3 == false ==> {
                let h = wav_header(bytes@).unwrap();
                let v = wav_integers(bytes@).unwrap();
                forall|i: int|
                    0 <= i < v.len() ==> -full_scale_of(h.2 as nat) <= #[trigger] v[i]
                        < full_scale_of(h.2 as nat) && limited(v[i], h.2 as nat) == v[i]
            },
            r is Ok && wav_header(bytes@).unwrap().3 == false && wav_integers(bytes@).unwrap().len()
                > 0 ==> {
                let bits = wav_header(bytes@).unwrap().2;
                bits == 8 || bits == 16 || bits == 24 || bits == 32
            },
            r matches Ok(a) ==> forall|val: spec_fn(T) -> real| #[trigger]
                self.exact(val) ==> a.is_normalised(val),
            r matches Ok(a) ==> (wav_header(bytes@) matches Some(h) && a.sample_rate == h.1
                && a.channels@.len() == h.0 && a.path@ == path@),
    {
        let h: (u16, u32, u16, bool) = match read_wav_header(bytes) {
            Ok(h) => h,
            Err(_) => {
                return Err(AudioError::OpenWav);
            },
        };
        let ghost name = path@;
        if h.3 {
            let f: Option<Vec<T>> = read_floats(bytes);
            let ghost floats = f;
            let r = self.from_floats(f, h.0 as usize, h.1, path);
            proof {
                if r is Ok {
                    let a = r->Ok_0;
                    assert forall|val: spec_fn(T) -> real| #[trigger] self.exact(val) implies
                        a.is_normalised(val) by {
                        self.floats_are_normalised(val, floats->0, h.0 as int, h.1, name, a);
                    }
                }
            }
            r
        } else {
            match read_wav_integers(bytes) {
                Ok(v) => {
                    let r = self.from_integers(&v, h.2 as u32, h.0 as usize, h.1, path);
                    proof {
                        if r is Ok {
                            let a = r->Ok_0;
                            assert forall|val: spec_fn(T) -> real| #[trigger]
                                self.exact(val) implies a.is_normalised(val) by {
                                self.integers_are_normalised(
                                    val,
                                    v@,
                                    h.2 as nat,
                                    h.0 as int,
                                    h.1,
                                    name,
                                    a,
                                );
                            }
                        }
                    }
                    r
                },
                Err(_) => Err(AudioError::WavIntegers),
            }
        }
    }

    /// `r` is what the bytes of a FLAC file load as.
    pub open spec fn flac_loaded(
        self,
        bytes: Seq<u8>,
        path: Seq<char>,
        r: Result<AudioFile<T>, AudioError>,
    ) -> bool {
        match flac_header(bytes) {
            None => r == Err::<AudioFile<T>, AudioError>(AudioError::OpenFlac),
            Some(h) => match flac_integers(bytes) {
                None => r == Err::<AudioFile<T>, AudioError>(AudioError::FlacSamples),
                Some(v) => self.loaded(v, h.2 as nat, h.0 as int, h.1, path, r),
            },
        }
    }

    /// Loads the bytes of a FLAC file.
    pub fn load_flac(&self, bytes: &Vec<u8>, path: String) -> (r: Result<AudioFile<T>, AudioError>)
        requires
            self.callable(),
        ensures
            self.flac_loaded(bytes@, path@, r),
            r is Ok ==> 1 <= flac_header(bytes@).unwrap().2 <= 32,
            r matches Ok(a) ==> forall|val: spec_fn(T) -> real| #[trigger]
                self.exact(val) ==> a.is_normalised(val),
            r matches Ok(a) ==> (flac_header(bytes@) matches Some(h) && a.sample_rate == h.1
                && a.channels@.len() == h.0 && a.path@ == path@),
    {
        let ghost name = path@;
        match read_flac_header(bytes) {
            Ok(h) => match read_flac_integers(bytes) {
                Ok(v) => {
                    let r = self.from_integers(&v, h.2, h.0 as usize, h.1, path);
                    proof {
                        if r is Ok {
                            let a = r->Ok_0;
                            assert forall|val: spec_fn(T) -> real| #[trigger]
                                self.exact(val) implies a.is_normalised(val) by {
                                self.integers_are_normalised(
                                    val,
                                    v@,
                                    h.2 as nat,
                                    h.0 as int,
                                    h.1,
                                    name,
                                    a,
                                );
                            }
                        }
                    }
                    r
                },
                Err(_) => Err(AudioError::FlacSamples),
            },
            Err(_) => Err(AudioError::OpenFlac),
        }
    }

    /// The decoder's numbers are exact where samples are read as real numbers, and its
    /// limits are minus one and one.
    pub open spec fn exact(self, val: spec_fn(T) -> real) -> bool {
        &&& numeric::exact_quotients(val)
        &&& numeric::exact_order(val)
        &&& forall|n: i64, r: T| #[trigger]
            call_ensures(self.number, (n,), r) ==> val(r) == n as int as real
        &&& val(self.minus_one) == -1real
        &&& val(self.one) == 1real
    }

    /// Every sample of a file with integer samples lies between minus one and one.
    pub proof fn integers_are_normalised(
        self,
        val: spec_fn(T) -> real,
        samples: Seq<i32>,
        bits: nat,
        num_channels: int,
        sample_rate: u32,
        path: Seq<char>,
        a: AudioFile<T>,
    )
        requires
            self.exact(val),
            samples.len() > 0 ==> 1 <= bits <= 32,
            num_channels >= 1,
            self.loaded(samples, bits, num_channels, sample_rate, path, Ok(a)),
        ensures
            a.is_normalised(val),
    {
        let t = choose|t: Seq<T>|
            {
                &&& #[trigger] self.normalised(samples, bits, t)
                &&& a.holds(t, num_channels, sample_rate, path, self.seconds)
            };
        assert forall|c: int, k: int|
            0 <= c < a.channels@.len() && 0 <= k < a.channels@[c]@.len() implies -1real <= val(
            #[trigger] a.channels@[c]@[k],
        ) <= 1real by {
            let i = at(num_channels, c, k);
            assert(i >= 0) by (nonlinear_arith)
                requires
                    i == k * num_channels + c,
                    k >= 0,
                    num_channels >= 1,
                    c >= 0,
            ;
            assert(a.channels@[c]@[k] == t[i]);
            assert(self.scaled(samples[i], bits, t[i]));
            pow2::two_to_ascends((bits - 1) as nat, 32);
            assert(pow2::two_to(32) == 0x1_0000_0000) by {
                reveal_with_fuel(pow2::two_to, 33);
            }
            let full = full_scale_of(bits) as real;
            let s = limited(samples[i], bits) as int as real;
            let r = val(t[i]);
            assert(r * full == s);
            assert(-1real <= r <= 1real) by (nonlinear_arith)
                requires
                    r * full == s,
                    full >= 1real,
                    -full <= s <= full,
            ;
        }
    }

    /// Every sample of a file with floating-point samples lies between minus one and one.
    pub proof fn floats_are_normalised(
        self,
        val: spec_fn(T) -> real,
        samples: Vec<T>,
        num_channels: int,
        sample_rate: u32,
        path: Seq<char>,
        a: AudioFile<T>,
    )
        requires
            self.exact(val),
            num_channels >= 1,
            self.float_loaded(Some(samples), num_channels, sample_rate, path, Ok(a)),
        ensures
            a.is_normalised(val),
    {
        let t = choose|t: Seq<T>|
            {
                &&& #[trigger] self.within(samples@, t)
                &&& a.holds(t, num_channels, sample_rate, path, self.seconds)
            };
        assert forall|c: int, k: int|
            0 <= c < a.channels@.len() && 0 <= k < a.channels@[c]@.len() implies -1real <= val(
            #[trigger] a.channels@[c]@[k],
        ) <= 1real by {
            let i = at(num_channels, c, k);
            assert(i >= 0) by (nonlinear_arith)
                requires
                    i == k * num_channels + c,
                    k >= 0,
                    num_channels >= 1,
                    c >= 0,
            ;
            assert(a.channels@[c]@[k] == t[i]);
        }
    }
}

impl<T> AudioFile<T> {
    /// The file is a recording of `n` channels at a sample rate: its channels have as many
    /// samples as `samples` holds for each, and its duration in seconds times the rate is
    /// the number of whole frames.
    pub open spec fn records(
        self,
        val: spec_fn(T) -> real,
        samples: int,
        n: int,
        sample_rate: u32,
        path: Seq<char>,
    ) -> bool {
        &&& self.sample_rate == sample_rate
        &&& self.path@ == path
        &&& self.channels@.len() == n
        &&& forall|c: int|
            0 <= c < n ==> {
                let len = (#[trigger] self.channels@[c])@.len() as int;
                (len - 1) * n + c < samples <= len * n + c
            }
        &&& exists|frames: int|
            {
                &&& val(self.duration_secs) * sample_rate as real == #[trigger] as_real(frames)
                &&& frames * n <= samples < (frames + 1) * n
            }
    }
}

/// `v` is the sample at `i` as a share of full scale, which it is limited to.
pub open spec fn holds_integer(samples: Seq<i32>, i: int, bits: nat, v: real) -> bool {
    let s = samples[i];
    let full = pow2::two_to((bits - 1) as nat) as int;
    &&& 0 <= i < samples.len()
    &&& -full <= s <= full ==> v * full as real == s as int as real
    &&& s > full ==> v == 1real
    &&& s < -full ==> v == -1real
}

/// `v` is the sample at `i`, limited to minus one and one.
pub open spec fn holds_float<T>(val: spec_fn(T) -> real, samples: Seq<T>, i: int, v: real) -> bool {
    let s = val(samples[i]);
    &&& 0 <= i < samples.len()
    &&& -1real <= s <= 1real ==> v == s
    &&& s > 1real ==> v == 1real
    &&& s < -1real ==> v == -1real
}

/// An integer as a real number.
pub open spec fn as_real(n: int) -> real {
    n as real
}

impl<
    T: Copy + Div<Output = T> + PartialOrd,
    N: Fn(i64) -> T,
    D: Fn(usize, u32) -> T,
> Decoder<T, N, D> {
    /// Durations are exact where values are read as real numbers.
    pub open spec fn exact_seconds(self, val: spec_fn(T) -> real) -> bool {
        forall|n: usize, rate: u32, r: T| #[trigger]
            call_ensures(self.seconds, (n, rate), r) && rate > 0 ==> val(r) * rate as real
                == as_real(n as int)
    }

    proof fn held_is_recorded(
        self,
        val: spec_fn(T) -> real,
        samples: Seq<T>,
        n: int,
        sample_rate: u32,
        path: Seq<char>,
        a: AudioFile<T>,
    )
        requires
            self.exact_seconds(val),
            sample_rate > 0,
            n >= 1,
            samples.len() <= usize::MAX,
            a.holds(samples, n, sample_rate, path, self.seconds),
        ensures
            a.records(val, samples.len() as int, n, sample_rate, path),
    {
        let len = samples.len() as int;
        lemma_fundamental_div_mod(len, n);
        lemma_mod_bound(len, n);
        lemma_div_is_ordered_by_denominator(len, 1, n);
        lemma_div_pos_is_pos(len, n);
        let frames = len / n;
        assert(frames <= len);
        assert(val(a.duration_secs) * sample_rate as real == as_real(frames));
        assert(frames * n <= len < (frames + 1) * n) by (nonlinear_arith)
            requires
                len == n * frames + len % n,
                0 <= len % n < n,
        ;
        assert forall|c: int| 0 <= c < n implies ({
            let l = (#[trigger] a.channels@[c])@.len() as int;
            (l - 1) * n + c < len <= l * n + c
        }) by {
            let l = a.channels@[c]@.len() as int;
            assert(!(at(n, c, l) < len));
            if l > 0 {
                assert(at(n, c, l - 1) < len);
            } else {
                assert((l - 1) * n + c < 0) by (nonlinear_arith)
                    requires
                        l == 0,
                        0 <= c < n,
                ;
            }
        }
    }

    /// With exact arithmetic, a file of integer samples is what its head says, and every
    /// stored sample times full scale is the sample at its place, where that does not
    /// exceed full scale.
    pub proof fn integers_are_stored_in_place(
        self,
        val: spec_fn(T) -> real,
        samples: Seq<i32>,
        bits: nat,
        n: int,
        sample_rate: u32,
        path: Seq<char>,
        a: AudioFile<T>,
    )
        requires
            self.exact(val),
            self.exact_seconds(val),
            sample_rate > 0,
            n >= 1,
            samples.len() <= usize::MAX,
            samples.len() > 0 ==> 1 <= bits <= 32,
            self.loaded(samples, bits, n, sample_rate, path, Ok(a)),
        ensures
            a.records(val, samples.len() as int, n, sample_rate, path),
            forall|c: int, k: int|
                0 <= c < n && 0 <= k < a.channels@[c]@.len() ==> holds_integer(
                    samples,
                    k * n + c,
                    bits,
                    val(#[trigger] a.channels@[c]@[k]),
                ),
    {
        let t = choose|t: Seq<T>|
            {
                &&& #[trigger] self.normalised(samples, bits, t)
                &&& a.holds(t, n, sample_rate, path, self.seconds)
            };
        self.held_is_recorded(val, t, n, sample_rate, path, a);
        assert forall|c: int, k: int|
            0 <= c < n && 0 <= k < a.channels@[c]@.len() implies holds_integer(
            samples,
            k * n + c,
            bits,
            val(#[trigger] a.channels@[c]@[k]),
        ) by {
            let i = at(n, c, k);
            assert(i >= 0) by (nonlinear_arith)
                requires
                    i == k * n + c,
                    k >= 0,
                    n >= 1,
                    c >= 0,
            ;
            assert(k < a.channels@[c]@.len() <==> at(n, c, k) < t.len());
            assert(a.channels@[c]@[k] == t[i]);
            assert(self.scaled(samples[i], bits, t[i]));
            pow2::two_to_ascends((bits - 1) as nat, 32);
            assert(pow2::two_to(32) == 0x1_0000_0000) by {
                reveal_with_fuel(pow2::two_to, 33);
            }
            let full = pow2::two_to((bits - 1) as nat) as int as real;
            let v = val(t[i]);
            assert(1real * full == full);
            reals::negated(1real, full);
            if samples[i] > full_scale_of(bits) {
                reals::quotient_at_most(v, full, 1real);
                reals::quotient_at_most(1real, full, v);
            }
            if samples[i] < -full_scale_of(bits) {
                reals::quotient_at_most(v, full, -1real);
                reals::quotient_at_most(-1real, full, v);
            }
        }
    }

    /// With exact arithmetic, a file of floating-point samples is what its head says, and
    /// every stored sample is the sample at its place, limited to minus one and one.
    pub proof fn floats_are_stored_in_place(
        self,
        val: spec_fn(T) -> real,
        samples: Vec<T>,
        n: int,
        sample_rate: u32,
        path: Seq<char>,
        a: AudioFile<T>,
    )
        requires
            self.exact(val),
            self.exact_seconds(val),
            sample_rate > 0,
            n >= 1,
            samples@.len() <= usize::MAX,
            self.float_loaded(Some(samples), n, sample_rate, path, Ok(a)),
        ensures
            a.records(val, samples@.len() as int, n, sample_rate, path),
            forall|c: int, k: int|
                0 <= c < n && 0 <= k < a.channels@[c]@.len() ==> holds_float(
                    val,
                    samples@,
                    k * n + c,
                    val(#[trigger] a.channels@[c]@[k]),
                ),
    {
        let t = choose|t: Seq<T>|
            {
                &&& #[trigger] self.within(samples@, t)
                &&& a.holds(t, n, sample_rate, path, self.seconds)
            };
        self.held_is_recorded(val, t, n, sample_rate, path, a);
        assert forall|c: int, k: int|
            0 <= c < n && 0 <= k < a.channels@[c]@.len() implies holds_float(
            val,
            samples@,
            k * n + c,
            val(#[trigger] a.channels@[c]@[k]),
        ) by {
            let i = at(n, c, k);
            assert(i >= 0) by (nonlinear_arith)
                requires
                    i == k * n + c,
                    k >= 0,
                    n >= 1,
                    c >= 0,
            ;
            assert(k < a.channels@[c]@.len() <==> at(n, c, k) < t.len());
            assert(a.channels@[c]@[k] == t[i]);
        }
    }

    /// A WAV file loads if and only if its head and its samples can be read and it has a
    /// channel. What is loaded has the path it was loaded from, and the sample rate, the
    /// number of channels and the samples that the file says, whatever their format.
    pub proof fn wav_files_are_what_they_say<F: Fn(&Vec<u8>) -> Option<Vec<T>>>(
        self,
        val: spec_fn(T) -> real,
        bytes: &Vec<u8>,
        path: Seq<char>,
        read_floats: F,
        r: Result<AudioFile<T>, AudioError>,
    )
        requires
            self.exact(val),
            self.exact_seconds(val),
        ensures
            self.wav_loaded(bytes, path, read_floats, r) ==> match wav_header(bytes@) {
                None => r is Err,
                Some(h) => if h.0 == 0 {
                    r is Err
                } else if h.3 {
                    &&& r is Ok || call_ensures(read_floats, (bytes,), None::<Vec<T>>)
                    &&& r matches Ok(a) ==> a.sample_rate == h.1 && a.channels@.len() == h.0
                        && a.path@ == path
                    &&& r matches Ok(a) ==> exists|f: Vec<T>|
                        {
                            &&& #[trigger] call_ensures(read_floats, (bytes,), Some(f))
                            &&& h.1 > 0 ==> a.records(val, f@.len() as int, h.0 as int, h.1, path)
                            &&& h.1 > 0 ==> forall|c: int, k: int|
                                0 <= c < h.0 && 0 <= k < a.channels@[c]@.len() ==> holds_float(
                                    val,
                                    f@,
                                    k * h.0 as int + c,
                                    val(#[trigger] a.channels@[c]@[k]),
                                )
                        }
                } else {
                    &&& r is Ok <==> wav_integers(bytes@) is Some
                    &&& r matches Ok(a) ==> a.sample_rate == h.1 && a.channels@.len() == h.0
                        && a.path@ == path
                    &&& r matches Ok(a) ==> {
                        let v = wav_integers(bytes@)->0;
                        h.1 > 0 && v.len() <= usize::MAX && (v.len() > 0 ==> 1 <= h.2 <= 32) ==> {
                            &&& a.records(val, v.len() as int, h.0 as int, h.1, path)
                            &&& forall|c: int, k: int|
                                0 <= c < h.0 && 0 <= k < a.channels@[c]@.len() ==> holds_integer(
                                    v,
                                    k * h.0 as int + c,
                                    h.2 as nat,
                                    val(#[trigger] a.channels@[c]@[k]),
                                )
                        }
                    }
                },
            },
    {
        if self.wav_loaded(bytes, path, read_floats, r) && r is Ok {
            let a = r->Ok_0;
            let h = wav_header(bytes@)->0;
            if h.3 {
                let f = choose|f: Option<Vec<T>>| #[trigger]
                    call_ensures(read_floats, (bytes,), f) && self.float_loaded(
                        f,
                        h.0 as int,
                        h.1,
                        path,
                        r,
                    );
                let v = f->0;
                assert(f == Some(v));
                assert(v.len() <= usize::MAX);
                if h.1 > 0 {
                    self.floats_are_stored_in_place(val, v, h.0 as int, h.1, path, a);
                }
                assert(call_ensures(read_floats, (bytes,), Some(v)));
            } else {
                let v = wav_integers(bytes@)->0;
                if h.1 > 0 && v.len() <= usize::MAX && (v.len() > 0 ==> 1 <= h.2 <= 32) {
                    self.integers_are_stored_in_place(
                        val,
                        v,
                        h.2 as nat,
                        h.0 as int,
                        h.1,
                        path,
                        a,
                    );
                }
            }
        }
    }

    /// A FLAC file loads if and only if its head and its samples can be read and it has a
    /// channel. What is loaded has the path it was loaded from, and the sample rate, the
    /// number of channels and the samples that the file says.
    pub proof fn flac_files_are_what_they_say(
        self,
        val: spec_fn(T) -> real,
        bytes: Seq<u8>,
        path: Seq<char>,
        r: Result<AudioFile<T>, AudioError>,
    )
        requires
            self.exact(val),
            self.exact_seconds(val),
        ensures
            self.flac_loaded(bytes, path, r) ==> {
                &&& r is Ok <==> (flac_header(bytes) matches Some(h) && h.0 > 0 && flac_integers(
                    bytes,
                ) is Some)
                &&& r matches Ok(a) ==> {
                    let h = flac_header(bytes)->0;
                    let v = flac_integers(bytes)->0;
                    &&& a.sample_rate == h.1
                    &&& a.channels@.len() == h.0
                    &&& a.path@ == path
                    &&& h.1 > 0 && v.len() <= usize::MAX && 1 <= h.2 <= 32 ==> {
                        &&& a.records(val, v.len() as int, h.0 as int, h.1, path)
                        &&& forall|c: int, k: int|
                            0 <= c < h.0 && 0 <= k < a.channels@[c]@.len() ==> holds_integer(
                                    v,
                                    k * h.0 as int + c,
                                    h.2 as nat,
                                    val(#[trigger] a.channels@[c]@[k]),
                                )
                    }
                }
            },
    {
        if self.flac_loaded(bytes, path, r) && r is Ok {
            let h = flac_header(bytes)->0;
            let v = flac_integers(bytes)->0;
            let n = h.0 as int;
            if h.1 > 0 && v.len() <= usize::MAX && 1 <= h.2 <= 32 {
                self.integers_are_stored_in_place(val, v, h.2 as nat, n, h.1, path, r->Ok_0);
            }
        }
    }
}

impl<
    T: Copy + Div<Output = T> + PartialOrd,
    N: Fn(i64) -> T,
    D: Fn(usize, u32) -> T,
> Decoder<T, N, D> {
    /// `r` is the outcome of loading the bytes of an audio file by its extension.
    pub open spec fn opened<F: Fn(&Vec<u8>) -> Option<Vec<T>>>(
        self,
        ext: Seq<char>,
        bytes: &Vec<u8>,
        path: Seq<char>,
        read_floats: F,
        r: Result<AudioFile<T>, AudioError>,
    ) -> bool {
        let low = lowered(ext);
        if low == "wav"@ || low == "wave"@ {
            self.wav_loaded(bytes, path, read_floats, r)
        } else if low == "flac"@ {
            self.flac_loaded(bytes@, path, r)
        } else {
            r matches Err(AudioError::Unsupported(e)) && e@ == low
        }
    }

    /// An error says what failed first: opening the file, then reading its samples, then
    /// finding no channels.
    pub proof fn errors_say_what_failed<F: Fn(&Vec<u8>) -> Option<Vec<T>>>(
        self,
        bytes: &Vec<u8>,
        path: Seq<char>,
        read_floats: F,
        r: Result<AudioFile<T>, AudioError>,
    )
        ensures
            self.wav_loaded(bytes, path, read_floats, r) ==> {
                let h = wav_header(bytes@);
                &&& h is None ==> r == Err::<AudioFile<T>, AudioError>(AudioError::OpenWav)
                &&& h is Some && !(h->0).3 && wav_integers(bytes@) is None ==> r == Err::<
                    AudioFile<T>,
                    AudioError,
                >(AudioError::WavIntegers)
                &&& h is Some && (h->0).3 && (forall|f: Option<Vec<T>>| #[trigger]
                    call_ensures(read_floats, (bytes,), f) ==> f is None) ==> r == Err::<
                    AudioFile<T>,
                    AudioError,
                >(AudioError::WavFloats)
                &&& h is Some && !(h->0).3 && wav_integers(bytes@) is Some && (h->0).0 == 0 ==> r == Err::<
                    AudioFile<T>,
                    AudioError,
                >(AudioError::ZeroChannels)
            },
            self.flac_loaded(bytes@, path, r) ==> {
                let h = flac_header(bytes@);
                &&& h is None ==> r == Err::<AudioFile<T>, AudioError>(AudioError::OpenFlac)
                &&& h is Some && flac_integers(bytes@) is None ==> r == Err::<
                    AudioFile<T>,
                    AudioError,
                >(AudioError::FlacSamples)
            },
    {
    }

    /// A file is read in the format that its extension names, and the case of the extension
    /// makes no difference; where it names none, that is the error, with the extension in it.
    pub proof fn formats_go_by_extension<F: Fn(&Vec<u8>) -> Option<Vec<T>>>(
        self,
        ext: Seq<char>,
        other: Seq<char>,
        bytes: &Vec<u8>,
        path: Seq<char>,
        read_floats: F,
        r: Result<AudioFile<T>, AudioError>,
        f: AudioFormat,
    )
        requires
            self.opened(ext, bytes, path, read_floats, r),
            AudioFormat::named(ext, f),
            ext.len() == other.len(),
            forall|i: int| 0 <= i < ext.len() ==> lower(#[trigger] ext[i]) == lower(other[i]),
        ensures
            self.opened(other, bytes, path, read_floats, r),
            AudioFormat::named(other, f),
            f is Wav ==> self.wav_loaded(bytes, path, read_floats, r),
            f is Flac ==> self.flac_loaded(bytes@, path, r),
            f matches AudioFormat::Other(e) ==> (r matches Err(AudioError::Unsupported(u)) && u@
                == e@ && e@.len() == ext.len()),
            ext == "wav"@ || ext == "wave"@ ==> f is Wav,
            ext == "flac"@ ==> f is Flac,
    {
        assert(lowered(ext) =~= lowered(other));
        reveal_strlit("wav");
        reveal_strlit("wave");
        reveal_strlit("flac");
        assert(lowered("wav"@) =~= "wav"@);
        assert(lowered("wave"@) =~= "wave"@);
        assert(lowered("flac"@) =~= "flac"@);
        assert("flac"@[0] == 'f' && "wave"@[0] == 'w' && "wav"@.len() == 3);
    }
}

impl<T: Copy + Div<Output = T> + PartialOrd> AudioFile<T> {
    /// Loads the bytes of an audio file by its extension, whatever its case.
    pub fn load<N: Fn(i64) -> T, D: Fn(usize, u32) -> T, F: Fn(&Vec<u8>) -> Option<Vec<T>>>(
        ext: &str,
        bytes: &Vec<u8>,
        path: String,
        decoder: &Decoder<T, N, D>,
        read_floats: F,
    ) -> (r: Result<AudioFile<T>, AudioError>)
        requires
            decoder.callable(),
            forall|b: &Vec<u8>| call_requires(read_floats, (b,)),
        ensures
            decoder.opened(ext@, bytes, path@, read_floats, r),
            r matches Ok(a) ==> forall|val: spec_fn(T) -> real| #[trigger]
                decoder.exact(val) ==> a.is_normalised(val),
    {
        match AudioFormat::from_extension(ext) {
            AudioFormat::Wav => decoder.load_wav(bytes, path, read_floats),
            AudioFormat::Flac => decoder.load_flac(bytes, path),
            AudioFormat::Other(e) => Err(AudioError::Unsupported(e)),
        }
    }
}

} // verus!
