use wavescope::gpu::{
    ceil_div, fft_stages, upload_bytes, workgroups, Bind, ExtractParams, FftBuf, FftParams, FftStage,
    Kernel, MulParams, RcParams, WavParams,
};

#[test]
fn ceil_div_rounds_up() {
    assert_eq!(ceil_div(0, 64), 0);
    assert_eq!(ceil_div(1, 64), 1);
    assert_eq!(ceil_div(64, 64), 1);
    assert_eq!(ceil_div(65, 64), 2);
    assert_eq!(ceil_div(u32::MAX, 1), u32::MAX);
    assert_eq!(ceil_div(u32::MAX, 2), 1 << 31);
    assert_eq!(workgroups(100, 3), (2, 3, 1));
}

#[test]
fn blocks_are_laid_out_word_by_word() {
    assert_eq!(RcParams::new(5).words(), vec![5, 0, 0, 0]);
    assert_eq!(MulParams::new(5, 6).words(), vec![5, 6, 0, 0]);
    let wav = WavParams {
        n: 1,
        num_scales: 2,
        scale_offset: 3,
        kind: 1,
        p1: 20.0f32.to_bits(),
        p2: 3.0f32.to_bits(),
        _pad: [0, 0],
    };
    assert_eq!(wav.words(), vec![1, 2, 3, 1, 0x41a0_0000, 0x4040_0000, 0, 0]);
    let ex = ExtractParams {
        n: 1,
        rows: 2,
        scale_offset: 3,
        width: 4,
        col_start: 5,
        col_count: 6,
        chunk_lo: -1,
        chunk_len: 8,
        valid_end: 9,
        unit_weight: 1,
        _pad: [0, 0],
    };
    assert_eq!(ex.words(), vec![1, 2, 3, 4, 5, 6, u32::MAX, 8, 9, 1, 0, 0]);
    let f = FftParams { n: 8, batch: 2, ns: 4, dir: (-1.0f32).to_bits() };
    assert_eq!(f.words(), vec![8, 2, 4, 0xbf80_0000]);
}

#[test]
fn words_upload_in_machine_order() {
    let words = vec![0x0102_0304u32, 5];
    let mut expected = Vec::new();
    for w in &words {
        expected.extend(w.to_ne_bytes());
    }
    assert_eq!(upload_bytes(&words), expected);
    assert!(upload_bytes(&vec![]).is_empty());
}

#[test]
fn stages_alternate_and_end_in_the_output() {
    assert_eq!(
        fft_stages(8),
        vec![
            FftStage { ns: Some(1), src: FftBuf::Input, dst: FftBuf::Output },
            FftStage { ns: Some(2), src: FftBuf::Output, dst: FftBuf::Scratch },
            FftStage { ns: Some(4), src: FftBuf::Scratch, dst: FftBuf::Output },
        ]
    );
    assert_eq!(
        fft_stages(4),
        vec![
            FftStage { ns: Some(1), src: FftBuf::Input, dst: FftBuf::Scratch },
            FftStage { ns: Some(2), src: FftBuf::Scratch, dst: FftBuf::Output },
        ]
    );
    assert_eq!(
        fft_stages(1),
        vec![FftStage { ns: None, src: FftBuf::Input, dst: FftBuf::Output }]
    );
    assert_eq!(fft_stages(1 << 31).len(), 31);
}

#[test]
fn kernels_bind_their_block_last() {
    let all = [
        (Kernel::RealToComplex, "real_to_complex", 3),
        (Kernel::Wavelet, "wavelet", 4),
        (Kernel::Multiply, "multiply", 4),
        (Kernel::Extract, "extract", 9),
        (Kernel::CrossExtract, "cross_extract", 7),
        (Kernel::Fft, "fft", 3),
    ];
    for (k, label, count) in all {
        let binds = k.binds();
        assert_eq!(k.label(), label);
        assert_eq!(binds.len(), count);
        assert_eq!(binds[count - 1], Bind::Uniform);
        assert_eq!(binds.iter().filter(|b| **b == Bind::Uniform).count(), 1);
    }
    assert_eq!(Kernel::Wavelet.binds()[0], Bind::StorageWrite);
    assert_eq!(Kernel::Extract.binds()[4], Bind::StorageWrite);
    assert_eq!(Kernel::Extract.binds()[5], Bind::StorageRead);
}
