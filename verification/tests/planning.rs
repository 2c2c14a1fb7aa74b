use wavescope::engine::{Buf, BufferSet, GpuOp, RunSetup, CROSS_IMAGES};
use wavescope::gpu::Kernel;
use wavescope::outputs::{assemble, blank, channel_groups, common_len, gather, superlet, superlet_orders, Group};
use wavescope::plan::{decimated, Chunk, CwtPlan, WindowRequest, BIG_BUF_BUDGET, N_FFT_CAP, N_FFT_MAX};
use wavescope::pow2::floor_pow2;

fn request(total: usize, width: usize) -> WindowRequest {
    WindowRequest {
        total,
        t_start: 0,
        t_end: total,
        width,
        num_scales: 64,
        max_d: 2,
        support: 2_000,
        antialias: true,
        max_binding: 1 << 30,
    }
}

#[test]
fn floor_pow2_rounds_down() {
    let cases = [(0, 1), (1, 1), (2, 2), (3, 2), (4, 4), (1000, 512), (1024, 1024)];
    for (x, r) in cases {
        assert_eq!(floor_pow2(x), r);
    }
    assert_eq!(floor_pow2(usize::MAX), 1 << (usize::BITS - 1));
}

#[test]
fn decimated_lengths() {
    assert_eq!(decimated(10, 4, true), 2);
    assert_eq!(decimated(10, 4, false), 3);
    assert_eq!(decimated(10, 1, false), 10);
    assert_eq!(decimated(0, 8, false), 0);
}

#[test]
fn a_short_window_is_one_chunk() {
    let p = CwtPlan::new(request(16_384, 16)).unwrap();
    assert_eq!(p.d, 2);
    assert_eq!((p.seg_start, p.seg_end), (0, 16_384));
    assert_eq!(p.tape_len, 8_192);
    assert_eq!((p.valid_start, p.valid_end), (0, 8_192));
    // 2000 samples of padding are 1000 on the tape, which is also the slack.
    assert_eq!(p.n_fft, 16_384);
    assert_eq!(p.chunks, vec![Chunk { col_start: 0, col_end: 16, lo: 0, len: 8_192 }]);
    assert_eq!(p.bounds.len(), 17);
    assert_eq!((p.bounds[0], p.bounds[1], p.bounds[16]), (0, 512, 8_192));
    assert_eq!(p.batch, 64);
}

#[test]
fn a_window_in_the_middle_is_padded() {
    let req = WindowRequest { t_start: 50_000, t_end: 60_000, ..request(100_000, 100) };
    let p = CwtPlan::new(req).unwrap();
    assert_eq!(p.d, 2);
    assert_eq!((p.seg_start, p.seg_end), (48_000, 62_000));
    assert_eq!(p.tape_len, 7_000);
    assert_eq!((p.valid_start, p.valid_end), (1_000, 6_001));
}

#[test]
fn a_long_window_is_split_without_gaps() {
    let p = CwtPlan::new(request(3_000_000, 32)).unwrap();
    assert_eq!(p.n_fft, N_FFT_CAP);
    assert!(p.chunks.len() > 1);
    let mut next = 0;
    for ch in &p.chunks {
        assert_eq!(ch.col_start, next);
        assert!(ch.col_end > ch.col_start);
        assert!(ch.len <= p.n_fft);
        assert!(ch.lo <= p.bounds[ch.col_start] as usize);
        assert!(ch.lo + ch.len >= p.bounds[ch.col_end] as usize);
        next = ch.col_end;
    }
    assert_eq!(next, 32);
}

#[test]
fn a_long_column_is_computed_in_full() {
    let req = WindowRequest { max_d: 1, ..request(4_000_000, 1) };
    assert!(req.can_plan());
    let p = CwtPlan::new(req).unwrap();
    // The column and its padding do not fit the usual length.
    assert!(p.n_fft > N_FFT_CAP && p.n_fft <= N_FFT_MAX);
    assert!(p.n_fft.is_power_of_two());
    assert_eq!(p.chunks, vec![Chunk { col_start: 0, col_end: 1, lo: 0, len: 4_000_000 }]);
    assert!(p.chunks[0].len <= p.n_fft);
    // Narrower columns are cut into chunks of the usual length.
    let p = CwtPlan::new(WindowRequest { max_d: 1, ..request(4_000_000, 64) }).unwrap();
    assert_eq!(p.n_fft, N_FFT_CAP);
}

#[test]
fn what_no_device_could_hold_is_not_planned() {
    assert!(!WindowRequest { max_d: 1, ..request(4_000_000_000, 1) }.can_plan());
    assert!(!WindowRequest { max_d: 0, ..request(1000, 16) }.can_plan());
    assert!(request(0, 16).can_plan());
    assert!(request(16_384, 16).can_plan());
}

#[test]
fn nothing_to_show_needs_no_plan() {
    assert!(CwtPlan::new(request(0, 16)).is_none());
    assert!(CwtPlan::new(request(1000, 0)).is_none());
    assert!(CwtPlan::new(WindowRequest { num_scales: 0, ..request(1000, 16) }).is_none());
    assert!(CwtPlan::new(WindowRequest { t_start: 900, t_end: 900, ..request(1000, 16) }).is_none());
    assert!(CwtPlan::new(WindowRequest { t_start: 2000, t_end: 3000, ..request(1000, 16) }).is_none());
    assert!(CwtPlan::new(request(3, 1)).is_none());
    assert!(CwtPlan::new(WindowRequest { max_d: 1, ..request(4, 1) }).is_some());
}

#[test]
fn batches_follow_the_budget() {
    let p = CwtPlan::new(request(3_000_000, 32)).unwrap();
    assert_eq!(p.batch as u64, BIG_BUF_BUDGET / (N_FFT_CAP as u64 * 8));
    let small = WindowRequest { max_binding: 1_000, ..request(16_384, 16) };
    assert_eq!(CwtPlan::new(small).unwrap().batch, 1);
}

fn setup(channels: usize) -> RunSetup<u32> {
    RunSetup { channels, kind: 2, p1: 7, p2: 9, unweighted: true }
}

#[test]
fn operations_come_in_order() {
    let mut p = CwtPlan::new(request(16_384, 16)).unwrap();
    p.batch = 40;
    let ops = p.operations(setup(2));
    let names: Vec<&str> = ops
        .iter()
        .map(|op| match op {
            GpuOp::Upload { .. } => "upload",
            GpuOp::RealToComplex { .. } => "complex",
            GpuOp::Fft { inverse: false, .. } => "fft",
            GpuOp::Fft { inverse: true, .. } => "ifft",
            GpuOp::Wavelet { .. } => "wavelet",
            GpuOp::Multiply { .. } => "multiply",
            GpuOp::Extract { .. } => "extract",
            GpuOp::CrossExtract { .. } => "cross",
            GpuOp::Submit => "submit",
        })
        .collect();
    let mut expected = vec!["upload", "upload", "complex", "fft", "complex", "fft"];
    for _ in 0..2 {
        for _ in 0..2 {
            expected.extend(["wavelet", "multiply", "ifft", "extract"]);
        }
        expected.push("cross");
    }
    expected.push("submit");
    assert_eq!(names, expected);

    let offsets: Vec<(u32, u32)> = ops
        .iter()
        .filter_map(|op| match op {
            GpuOp::CrossExtract { params, first, .. } => {
                assert_eq!(*first, CROSS_IMAGES);
                Some((params.scale_offset, params.rows))
            }
            _ => None,
        })
        .collect();
    assert_eq!(offsets, vec![(0, 40), (40, 24)]);
    for op in &ops {
        if let GpuOp::Wavelet { params, .. } = op {
            assert_eq!((params.kind, params.p1, params.p2), (2, 7, 9));
        }
        if let GpuOp::Extract { params, first, rows } = op {
            assert_eq!(params.unit_weight, 1);
            assert_eq!((params.n, params.width, params.col_count), (16_384, 16, 16));
            assert_eq!((params.chunk_lo, params.chunk_len, params.valid_end), (0, 8_192, 8_192));
            assert_eq!(*rows, Buf::Rows(first / 4));
        }
    }
}

#[test]
fn launches_cover_the_work() {
    let p = CwtPlan::new(request(16_384, 16)).unwrap();
    for op in p.operations(setup(1)) {
        let expected = match &op {
            GpuOp::Upload { .. } | GpuOp::Submit => None,
            GpuOp::RealToComplex { .. } => Some((Kernel::RealToComplex, (256, 1, 1))),
            GpuOp::Fft { inverse: false, .. } => Some((Kernel::Fft, (128, 1, 1))),
            GpuOp::Fft { .. } => Some((Kernel::Fft, (128, 64, 1))),
            GpuOp::Wavelet { .. } => Some((Kernel::Wavelet, (256, 64, 1))),
            GpuOp::Multiply { .. } => Some((Kernel::Multiply, (256, 64, 1))),
            GpuOp::Extract { .. } => Some((Kernel::Extract, (1, 64, 1))),
            GpuOp::CrossExtract { .. } => unreachable!(),
        };
        assert_eq!(op.launch(), expected);
    }
}

#[test]
fn buffers_are_sized_by_what_they_hold() {
    let set = BufferSet { n_fft: 64, batch: 3, width: 10, num_scales: 7, channels: 2 };
    assert_eq!(set.bytes(Buf::Real(0)), 256);
    assert_eq!(set.bytes(Buf::Complex), 512);
    assert_eq!(set.bytes(Buf::FftScratch), 512);
    assert_eq!(set.bytes(Buf::Spectrum(1)), 512);
    assert_eq!(set.bytes(Buf::Bank), 1536);
    assert_eq!(set.bytes(Buf::Product), 1536);
    assert_eq!(set.bytes(Buf::Rows(0)), 1536);
    assert_eq!(set.bytes(Buf::Scales), 28);
    assert_eq!(set.bytes(Buf::Eta), 28);
    assert_eq!(set.bytes(Buf::Bounds), 44);
    assert_eq!(set.bytes(Buf::Out(3)), 280);
    assert_eq!(set.images(), 11);
    assert_eq!(set.buffers().len(), 7 + 6 + 11);
    let mono = BufferSet { channels: 1, ..set };
    assert_eq!(mono.images(), 4);
    assert_eq!(mono.buffers().len(), 7 + 3 + 4);
    assert!(BufferSet::stale(None, set));
    assert!(BufferSet::stale(Some(mono), set));
    assert!(!BufferSet::stale(Some(set), set));
}

#[test]
fn channels_are_grouped_in_pairs_then_singles() {
    assert!(channel_groups(0).is_empty());
    assert_eq!(channel_groups(1), vec![Group { first: 0, count: 1 }]);
    assert_eq!(channel_groups(2), vec![Group { first: 0, count: 2 }]);
    assert_eq!(
        channel_groups(4),
        vec![
            Group { first: 0, count: 2 },
            Group { first: 2, count: 1 },
            Group { first: 3, count: 1 },
        ]
    );
}

#[test]
fn images_are_sorted_by_channel() {
    let images: Vec<Vec<i32>> = (0..11).map(|i| vec![i, 10 * i]).collect();
    let (outs, cross) = assemble(&images, 2);
    assert_eq!(outs[0].0, vec![0, 0]);
    assert_eq!(outs[0].3, vec![3, 30]);
    assert_eq!(outs[1].0, vec![4, 40]);
    assert_eq!(outs[1].2, vec![6, 60]);
    let cross = cross.unwrap();
    assert_eq!(cross.phase, vec![8, 80]);
    assert_eq!(cross.coherence, vec![9, 90]);
    assert_eq!(cross.amplitude, vec![10, 100]);

    let parts = vec![assemble(&images, 2), assemble(&images[..4].to_vec(), 1), blank(5, 2, 1)];
    let (outs, cross) = gather(parts);
    assert_eq!(outs.len(), 4);
    assert_eq!(outs[2].1, vec![1, 10]);
    assert_eq!(outs[3].1, vec![5, 5]);
    assert_eq!(cross.unwrap().phase, vec![8, 80]);
}

#[test]
fn the_shortest_signal_counts() {
    assert_eq!(common_len(&vec![]), 0);
    assert_eq!(common_len(&vec![7]), 7);
    assert_eq!(common_len(&vec![9, 4, 6]), 4);
}

#[test]
fn superlet_passes_start_at_two() {
    assert!(superlet_orders(0).is_empty());
    assert!(superlet_orders(1).is_empty());
    assert_eq!(superlet_orders(4), vec![2, 3, 4]);
}

#[test]
fn superlet_amplitude_is_the_root_of_the_product() {
    let plain = || (vec![(vec![2.0f32, 3.0], vec![0.5, 0.5], vec![1.0, 1.0], vec![0.1, 0.2])], None);
    let widen = |v: f32| v as f64;
    let root = |p: f64, order: u32| p.powf(1.0 / order as f64) as f32;
    let same = superlet(plain(), &vec![], widen, root);
    assert_eq!(same.0[0].0, vec![2.0, 3.0]);
    let (outs, _) = superlet(plain(), &vec![vec![vec![8.0, 27.0]], vec![vec![4.0]]], widen, root);
    assert!((outs[0].0[0] - 4.0).abs() < 1e-6);
    assert!((outs[0].0[1] - 81.0f32.powf(1.0 / 3.0)).abs() < 1e-5);
    assert_eq!(outs[0].1, vec![0.5, 0.5]);
    assert_eq!(outs[0].3, vec![0.1, 0.2]);
}
