use wavescope::cuda::{
    cuda_check, cuda_error_string, cufft_check, BatchLayout, CudaBuffer, CudaContext, CudaFunction,
    CudaModule, CufftPlan, Reply, CUFFT_C2C, CUFFT_FORWARD,
};
use wavescope::text::decimal;

fn ok<V>(value: V) -> Reply<V> {
    Reply { result: 0, value, described: None }
}

fn bad<V>(value: V, result: i32, text: &str) -> Reply<V> {
    Reply { result, value, described: Some(text.to_string()) }
}

#[test]
fn decimals() {
    for n in [0i64, 7, 10, 99, 100, -1, -250, i32::MIN as i64, i64::MAX, i64::MIN + 1] {
        assert_eq!(decimal(n), n.to_string());
    }
}

#[test]
fn driver_results_are_checked() {
    assert_eq!(cuda_check(0, "cuInit", None), Ok(()));
    assert_eq!(
        cuda_check(100, "cuInit", Some("no device".to_string())),
        Err("cuInit: no device".to_string())
    );
    assert_eq!(cuda_check(-3, "x", None), Err("x: CUDA error code -3".to_string()));
    assert_eq!(cuda_error_string(2, None), "CUDA error code 2");
    assert_eq!(cuda_error_string(2, Some("out of memory".to_string())), "out of memory");
    assert_eq!(cufft_check(0, "plan"), Ok(()));
    assert_eq!(cufft_check(5, "plan"), Err("plan: cuFFT error 5".to_string()));
}

#[test]
fn a_context_takes_three_calls() {
    let c = CudaContext::init(|| ok(()), |n: i32| ok(n + 7), |d: i32| ok(d as u64 * 10));
    assert_eq!(c.unwrap().ctx, 70);
    let e = CudaContext::init(|| bad((), 1, "a"), |_: i32| ok(0), |_: i32| ok(0));
    assert_eq!(e.unwrap_err(), "cuInit: a");
    let e = CudaContext::init(|| ok(()), |_: i32| bad(0, 1, "b"), |_: i32| ok(0));
    assert_eq!(e.unwrap_err(), "cuDeviceGet: b");
    let e = CudaContext::init(|| ok(()), |_: i32| ok(0), |_: i32| bad(0, 1, "c"));
    assert_eq!(e.unwrap_err(), "cuCtxCreate: c");
}

#[test]
fn modules_and_kernels() {
    let c = CudaContext { ctx: 1 };
    let m = c.load_ptx("code", |s: &str| ok(s.len() as u64)).unwrap();
    assert_eq!(m.module, 4);
    let e = c.load_ptx("a\0b", |_: &str| ok(0));
    assert_eq!(e.unwrap_err(), "PTX contains null byte");
    let e = c.load_ptx("x", |_: &str| bad(0, 9, "bad image"));
    assert_eq!(e.unwrap_err(), "cuModuleLoadData: bad image");
    assert_eq!(c.synchronize(|| ok(())), Ok(()));
    assert_eq!(c.synchronize(|| bad((), 4, "gone")), Err("cuCtxSynchronize: gone".to_string()));

    let f = m.get_function("fft", |m: u64, s: &str| ok(m * 100 + s.len() as u64)).unwrap();
    assert_eq!(f.func, 403);
    let e = CudaModule { module: 0 }.get_function("fft", |_: u64, _: &str| bad(0, 9, "missing"));
    assert_eq!(e.unwrap_err(), "cuModuleGetFunction(fft): missing");
    let start = |f: u64, g: (u32, u32, u32), b: (u32, u32, u32)| {
        if f == 3 && g == (1, 2, 3) && b == (4, 5, 6) {
            ok(())
        } else {
            bad((), 1, "wrong")
        }
    };
    assert_eq!(CudaFunction { func: 3 }.launch((1, 2, 3), (4, 5, 6), start), Ok(()));
    assert_eq!(
        CudaFunction { func: 4 }.launch((1, 2, 3), (4, 5, 6), start),
        Err("cuLaunchKernel: wrong".to_string())
    );
}

#[test]
fn buffers_allocate_copy_and_free() {
    let empty = CudaBuffer::allocate(0, |_: usize| panic!("no call for nothing")).unwrap();
    assert_eq!((empty.ptr(), empty.size), (0, 0));
    assert_eq!(empty.owned_memory(), None);
    let b = CudaBuffer::allocate(16, |n: usize| ok(0x1000 + n as u64)).unwrap();
    assert_eq!((b.ptr(), b.size), (0x1010, 16));
    assert_eq!(b.owned_memory(), Some(0x1010));
    let e = CudaBuffer::allocate(16, |_: usize| bad(0, 2, "out of memory"));
    assert_eq!(e.unwrap_err(), "cuMemAlloc: out of memory");

    assert_eq!(b.upload_raw(&vec![], |_: u64, _: &Vec<u8>| panic!("no call")), Ok(()));
    let copy = |p: u64, d: &Vec<u8>| {
        if p == 0x1010 && d.as_slice() == [1, 2] {
            ok(())
        } else {
            bad((), 1, "wrong")
        }
    };
    assert_eq!(b.upload_raw(&vec![1, 2], copy), Ok(()));
    assert_eq!(b.upload_raw(&vec![3], copy), Err("cuMemcpyHtoD: wrong".to_string()));
    assert_eq!(b.download(0, |_: u64, _: usize| panic!("no call")), Ok(vec![]));
    assert_eq!(b.download(3, |p: u64, n: usize| ok(vec![p as u8; n])), Ok(vec![0x10; 3]));
    assert_eq!(
        b.download(3, |_: u64, _: usize| bad(vec![], 1, "lost")),
        Err("cuMemcpyDtoH: lost".to_string())
    );
}

#[test]
fn fft_plans() {
    let p = CufftPlan::plan_single_c2c(1024, |n: i32, kind: i32, batch: i32| {
        assert_eq!((n, kind, batch), (1024, CUFFT_C2C, 1));
        (0, 42)
    })
    .unwrap();
    assert_eq!(p.handle(), 42);
    let e = CufftPlan::plan_single_c2c(8, |_: i32, _: i32, _: i32| (3, 0));
    assert_eq!(e.unwrap_err(), "cufftPlan1d: cuFFT error 3");
    let p = CufftPlan::plan_batch_c2c(64, 5, |l: BatchLayout| {
        assert_eq!(l, BatchLayout { n: 64, stride: 1, distance: 64, kind: 0x29, batch: 5 });
        (0, 7)
    })
    .unwrap();
    let e = CufftPlan::plan_batch_c2c(64, 5, |_: BatchLayout| (8, 0));
    assert_eq!(e.unwrap_err(), "cufftPlanMany: cuFFT error 8");
    let run = |h: u32, i: u64, o: u64, d: i32| if (h, i, o, d) == (7, 1, 2, -1) { 0 } else { 6 };
    assert_eq!(p.exec_c2c(1, 2, CUFFT_FORWARD, run), Ok(()));
    assert_eq!(p.exec_c2c(1, 2, 1, run), Err("cufftExecC2C: cuFFT error 6".to_string()));
}
