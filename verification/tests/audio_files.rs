use wavescope::audio::{full_scale, AudioError, AudioFile, AudioFormat, Decoder};

type F32 = f32;

fn decoder() -> Decoder<F32, impl Fn(i64) -> F32, impl Fn(usize, u32) -> F32> {
    Decoder {
        minus_one: -1.0,
        one: 1.0,
        number: |n: i64| n as f32,
        seconds: |frames: usize, rate: u32| frames as f32 / rate as f32,
    }
}

fn floats(bytes: &Vec<u8>) -> Option<Vec<f32>> {
    let mut r = hound::WavReader::new(bytes.as_slice()).ok()?;
    r.samples::<f32>().collect::<Result<_, _>>().ok()
}

fn load(ext: &str, bytes: &[u8]) -> Result<AudioFile<f32>, AudioError> {
    AudioFile::load(ext, &bytes.to_vec(), format!("x.{ext}"), &decoder(), floats)
}

fn wav(channels: u16, bits: u16, samples: &[i32]) -> Vec<u8> {
    let spec = hound::WavSpec {
        channels,
        sample_rate: 8000,
        bits_per_sample: bits,
        sample_format: hound::SampleFormat::Int,
    };
    let mut cursor = std::io::Cursor::new(Vec::new());
    let mut w = hound::WavWriter::new(&mut cursor, spec).unwrap();
    for s in samples {
        w.write_sample(*s).unwrap();
    }
    w.finalize().unwrap();
    cursor.into_inner()
}

fn float_wav(samples: &[f32]) -> Vec<u8> {
    let spec = hound::WavSpec {
        channels: 2,
        sample_rate: 44100,
        bits_per_sample: 32,
        sample_format: hound::SampleFormat::Float,
    };
    let mut cursor = std::io::Cursor::new(Vec::new());
    let mut w = hound::WavWriter::new(&mut cursor, spec).unwrap();
    for s in samples {
        w.write_sample(*s).unwrap();
    }
    w.finalize().unwrap();
    cursor.into_inner()
}

fn crc(bytes: &[u8], bits: u32, poly: u32) -> u32 {
    let mut c = 0u32;
    for b in bytes {
        c ^= (*b as u32) << (bits - 8);
        for _ in 0..8 {
            let carry = c >> (bits - 1) & 1;
            c = c << 1 & ((1 << bits) - 1);
            if carry == 1 {
                c ^= poly;
            }
        }
    }
    c
}

/// One frame of 16 stereo samples, stored verbatim.
fn flac(left: &[i16; 16], right: &[i16; 16]) -> Vec<u8> {
    let mut out = b"fLaC".to_vec();
    out.extend([0x80, 0, 0, 34]);
    out.extend([0, 16, 0, 16, 0, 0, 0, 0, 0, 0]);
    // 20 bits of rate, 3 of channels - 1, 5 of bits - 1, 36 of length.
    let packed: u64 = 8000 << 44 | 1 << 41 | 15 << 36 | 16;
    out.extend(packed.to_be_bytes());
    out.extend([0; 16]);
    let mut frame = vec![0xff, 0xf8, 0x60, 0x18, 0, 15];
    frame.push(crc(&frame, 8, 0x07) as u8);
    for channel in [left, right] {
        frame.push(0x02);
        for s in channel {
            frame.extend(s.to_be_bytes());
        }
    }
    let end = crc(&frame, 16, 0x8005) as u16;
    frame.extend(end.to_be_bytes());
    out.extend(frame);
    out
}

#[test]
fn integer_wav_is_split_and_normalised() {
    let a = load("wav", &wav(2, 16, &[16384, -32768, 0, 32767, -8192, 1])).unwrap();
    assert_eq!(a.sample_rate, 8000);
    assert_eq!(a.channels, vec![vec![0.5, 0.0, -0.25], vec![-1.0, 32767.0 / 32768.0, 1.0 / 32768.0]]);
    assert_eq!(a.num_samples(), 3);
    assert_eq!(a.duration_secs, 3.0 / 8000.0);
    assert_eq!(a.path, "x.wav");
}

#[test]
fn other_depths_use_their_own_full_scale() {
    let eight = load("WAVE", &wav(1, 8, &[-128, 64])).unwrap();
    assert_eq!(eight.channels, vec![vec![-1.0, 0.5]]);
    let deep = load("Wav", &wav(1, 24, &[1 << 22, -(1 << 23)])).unwrap();
    assert_eq!(deep.channels, vec![vec![0.5, -1.0]]);
    let deepest = load("wav", &wav(1, 32, &[1 << 30, i32::MIN])).unwrap();
    assert_eq!(deepest.channels, vec![vec![0.5, -1.0]]);
}

#[test]
fn float_wav_is_limited_to_full_scale() {
    let a = load("wav", &float_wav(&[0.25, -0.5, 1.5, 0.0, 1.0, -2.0])).unwrap();
    assert_eq!(a.channels, vec![vec![0.25, 1.0, 1.0], vec![-0.5, 0.0, -1.0]]);
}

#[test]
fn integers_beyond_full_scale_are_limited() {
    let a = decoder().from_integers(&vec![200, -200, 64, -128], 8, 1, 1, String::new()).unwrap();
    assert_eq!(a.channels, vec![vec![1.0, -1.0, 0.5, -1.0]]);
}

#[test]
fn an_empty_wav_has_empty_channels() {
    let a = load("wav", &wav(2, 16, &[])).unwrap();
    assert_eq!(a.channels, vec![Vec::<f32>::new(), Vec::new()]);
    assert_eq!(a.num_samples(), 0);
}

#[test]
fn broken_files_say_what_failed() {
    let text = |r: Result<AudioFile<f32>, AudioError>| r.unwrap_err().message();
    assert_eq!(text(load("wav", b"RIFFnonsense")), "Cannot open WAV file");
    let mut cut = wav(1, 16, &[1, 2, 3, 4]);
    cut.truncate(cut.len() - 3);
    assert_eq!(text(load("wav", &cut)), "Reading WAV int samples");
    let mut cut = float_wav(&[0.0, 1.0]);
    cut.truncate(cut.len() - 1);
    assert_eq!(text(load("wav", &cut)), "Reading WAV float samples");
    assert_eq!(text(load("flac", b"fLa")), "Cannot open FLAC file");
    let mut cut = flac(&[1; 16], &[2; 16]);
    cut.truncate(cut.len() - 10);
    assert_eq!(text(load("flac", &cut)), "Reading FLAC samples");
    assert_eq!(text(load("MP3", b"")), "Unsupported audio format: .mp3");
    assert_eq!(text(load("", b"")), "Unsupported audio format: .");
    let none = AudioFile::from_interleaved(&vec![0.0f32], 0, 1, String::new(), |_: usize, _: u32| 0.0);
    assert_eq!(text(none), "Audio file has zero channels");
}

#[test]
fn flac_is_split_and_normalised() {
    let mut left = [0i16; 16];
    let mut right = [0i16; 16];
    left[0] = 16384;
    left[15] = -32768;
    right[1] = -8192;
    let a = load("FLAC", &flac(&left, &right)).unwrap();
    assert_eq!(a.sample_rate, 8000);
    assert_eq!(a.channels.len(), 2);
    assert_eq!(a.num_samples(), 16);
    assert_eq!((a.channels[0][0], a.channels[0][15], a.channels[1][1]), (0.5, -1.0, -0.25));
}

#[test]
fn extensions_ignore_ascii_case_only() {
    assert!(matches!(AudioFormat::from_extension("WaV"), AudioFormat::Wav));
    assert!(matches!(AudioFormat::from_extension("wave"), AudioFormat::Wav));
    assert!(matches!(AudioFormat::from_extension("Flac"), AudioFormat::Flac));
    match AudioFormat::from_extension("ÄWAV") {
        AudioFormat::Other(e) => assert_eq!(e, "Äwav"),
        _ => panic!("not a known format"),
    }
}

#[test]
fn a_partial_last_frame_keeps_its_samples() {
    let a = AudioFile::from_interleaved(&vec![0, 1, 2, 3, 4, 5, 6], 3, 10, "p".to_string(), |n: usize, r: u32| {
        (n * 100) as i32 + r as i32
    })
    .unwrap();
    assert_eq!(a.channels, vec![vec![0, 3, 6], vec![1, 4], vec![2, 5]]);
    assert_eq!(a.duration_secs, 210);
    assert_eq!(a.num_samples(), 3);
}

#[test]
fn full_scales() {
    assert_eq!(full_scale(1), 1);
    assert_eq!(full_scale(16), 32768);
    assert_eq!(full_scale(32), 1 << 31);
    assert_eq!(full_scale(63), 1 << 62);
    assert_eq!(full_scale(64), i64::MIN);
}
