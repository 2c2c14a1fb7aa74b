//! The driver-level backend: how results of driver calls are checked, which calls are made
//! and with what arguments. The calls themselves are passed in.

use vstd::prelude::*;
use vstd::string::StringExecFns;

use crate::text;

verus! {

pub type CUresult = i32;

pub type CUdevice = i32;

pub type CUdeviceptr = u64;

pub type CufftHandle = u32;

pub type CufftResult = i32;

pub const CUDA_SUCCESS: CUresult = 0;

pub const CUFFT_SUCCESS: CufftResult = 0;

/// Complex-to-complex transform.
pub const CUFFT_C2C: i32 = 41;

pub const CUFFT_FORWARD: i32 = -1;

pub const CUFFT_INVERSE: i32 = 1;

/// What the driver says of a result, or the bare code where it says nothing.
pub open spec fn error_text(result: CUresult, described: Option<String>) -> Seq<char> {
    match described {
        Some(s) => s@,
        None => "CUDA error code "@ + text::decimal_of(result as int),
    }
}

pub fn cuda_error_string(result: CUresult, described: Option<String>) -> (s: String)
    ensures
        s@ == error_text(result, described),
{
    match described {
        Some(s) => s,
        None => {
            let code: String = text::decimal(result as i64);
            "CUDA error code ".to_owned().concat(code.as_str())
        },
    }
}

/// `r` is the check of a driver result: success, or a message with the context.
pub open spec fn checked(
    result: CUresult,
    ctx: Seq<char>,
    described: Option<String>,
    r: Result<(), String>,
) -> bool {
    if result == CUDA_SUCCESS {
        r is Ok
    } else {
        r matches Err(e) && e@ == ctx + ": "@ + error_text(result, described)
    }
}

/// Checks the result of a driver call made for `ctx`; `described` is the driver's own text
/// for the result, if it has one.
pub fn cuda_check(result: CUresult, ctx: &str, described: Option<String>) -> (r: Result<(), String>)
    ensures
        checked(result, ctx@, described, r),
{
    if result == CUDA_SUCCESS {
        Ok(())
    } else {
        let why: String = cuda_error_string(result, described);
        Err(ctx.to_owned().concat(": ").concat(why.as_str()))
    }
}

/// `r` is the check of an FFT library result.
pub open spec fn fft_checked(result: CufftResult, ctx: Seq<char>, r: Result<(), String>) -> bool {
    if result == CUFFT_SUCCESS {
        r is Ok
    } else {
        r matches Err(e) && e@ == ctx + ": cuFFT error "@ + text::decimal_of(result as int)
    }
}

/// Checks the result of an FFT library call made for `ctx`.
pub fn cufft_check(result: CufftResult, ctx: &str) -> (r: Result<(), String>)
    ensures
        fft_checked(result, ctx@, r),
{
    if result == CUFFT_SUCCESS {
        Ok(())
    } else {
        let code: String = text::decimal(result as i64);
        Err(ctx.to_owned().concat(": cuFFT error ").concat(code.as_str()))
    }
}

/// Only the code zero passes a check; every other one fails it, with a message that starts
/// with what was being done and, where the driver has no text for it, ends with the code.
pub proof fn only_success_passes(
    code: i32,
    ctx: Seq<char>,
    described: Option<String>,
    r: Result<(), String>,
    f: Result<(), String>,
)
    requires
        checked(code, ctx, described, r),
        fft_checked(code, ctx, f),
    ensures
        r is Ok <==> code == 0,
        f is Ok <==> code == 0,
        r matches Err(e) ==> e@.take(ctx.len() as int) == ctx,
        f matches Err(e) ==> e@.take(ctx.len() as int) == ctx,
        r matches Err(e) ==> (described matches Some(s) ==> e@ == ctx + ": "@ + s@),
        r matches Err(e) ==> (described is None ==> {
            let d = text::decimal_of(code as int);
            d.len() <= e@.len() && e@.skip(e@.len() - d.len()) == d
        }),
        f matches Err(e) ==> {
            let d = text::decimal_of(code as int);
            d.len() <= e@.len() && e@.skip(e@.len() - d.len()) == d
        },
{
    let d = text::decimal_of(code as int);
    if code != 0 {
        let e = r->Err_0@;
        let g = f->Err_0@;
        assert(e.take(ctx.len() as int) =~= ctx);
        assert(g.take(ctx.len() as int) =~= ctx);
        assert(g.skip(g.len() - d.len()) =~= d);
        if described is None {
            assert(e.skip(e.len() - d.len()) =~= d);
        }
    }
}

/// What a driver call gives back: its result, what it produced, and the driver's text for
/// the result.
pub struct Reply<V> {
    pub result: CUresult,
    pub value: V,
    pub described: Option<String>,
}

/// `r` is a driver call's reply, checked: the value on success, else a message.
pub open spec fn answered<V>(reply: Reply<V>, ctx: Seq<char>, r: Result<V, String>) -> bool {
    if reply.result == CUDA_SUCCESS {
        r == Ok::<V, String>(reply.value)
    } else {
        r matches Err(e) && e@ == ctx + ": "@ + error_text(reply.result, reply.described)
    }
}

/// The value of a driver call's reply, or the message of its failure.
pub fn answer<V>(reply: Reply<V>, ctx: &str) -> (r: Result<V, String>)
    ensures
        answered(reply, ctx@, r),
{
    match cuda_check(reply.result, ctx, reply.described) {
        Ok(()) => Ok(reply.value),
        Err(e) => Err(e),
    }
}

/// A driver context.
#[derive(Debug)]
pub struct CudaContext {
    pub ctx: u64,
}

/// A loaded module.
#[derive(Debug)]
pub struct CudaModule {
    pub module: u64,
}

/// A kernel of a module.
#[derive(Debug)]
pub struct CudaFunction {
    pub func: u64,
}

impl CudaContext {
    /// `r` is the outcome of initialising the driver, taking the first device and creating a
    /// context on it.
    pub open spec fn initialised<
        I: Fn() -> Reply<()>,
        G: Fn(i32) -> Reply<CUdevice>,
        C: Fn(CUdevice) -> Reply<u64>,
    >(initialise: I, get_device: G, create: C, r: Result<CudaContext, String>) -> bool {
        exists|a: Reply<()>| #[trigger]
            call_ensures(initialise, (), a) && if a.result != CUDA_SUCCESS {
                r matches Err(e) && e@ == "cuInit"@ + ": "@ + error_text(
                    a.result,
                    a.described,
                )
            } else {
                exists|b: Reply<CUdevice>| #[trigger]
                    call_ensures(get_device, (0i32,), b) && if b.result != CUDA_SUCCESS {
                        r matches Err(e) && e@ == "cuDeviceGet"@ + ": "@ + error_text(
                            b.result,
                            b.described,
                        )
                    } else {
                        exists|c: Reply<u64>| #[trigger]
                            call_ensures(create, (b.value,), c) && if c.result != CUDA_SUCCESS {
                                r matches Err(e) && e@ == "cuCtxCreate"@ + ": "@ + error_text(
                                    c.result,
                                    c.described,
                                )
                            } else {
                                r matches Ok(x) && x.ctx == c.value
                            }
                    }
            }
    }

    /// A context is one that was created on the first device, after the driver was
    /// initialised; where every call succeeds there is one, and where the driver cannot be
    /// initialised or there is no device there is none.
    pub proof fn contexts_are_on_the_first_device<
        I: Fn() -> Reply<()>,
        G: Fn(i32) -> Reply<CUdevice>,
        C: Fn(CUdevice) -> Reply<u64>,
    >(initialise: I, get_device: G, create: C, r: Result<CudaContext, String>)
        requires
            Self::initialised(initialise, get_device, create, r),
        ensures
            r matches Ok(x) ==> exists|d: Reply<CUdevice>, c: Reply<u64>|
                {
                    &&& #[trigger] call_ensures(get_device, (0i32,), d)
                    &&& #[trigger] call_ensures(create, (d.value,), c)
                    &&& d.result == 0 && c.result == 0 && x.ctx == c.value
                },
            (forall|a: Reply<()>| #[trigger] call_ensures(initialise, (), a) ==> a.result == 0) && (
            forall|d: Reply<CUdevice>| #[trigger]
                call_ensures(get_device, (0i32,), d) ==> d.result == 0) && (forall|
                v: CUdevice,
                c: Reply<u64>,
            | #[trigger]
                call_ensures(create, (v,), c) ==> c.result == 0) ==> r is Ok,
            (forall|a: Reply<()>| #[trigger] call_ensures(initialise, (), a) ==> a.result != 0)
                ==> r is Err,
            (forall|d: Reply<CUdevice>| #[trigger]
                call_ensures(get_device, (0i32,), d) ==> d.result != 0) ==> r is Err,
            (forall|v: CUdevice, c: Reply<u64>| #[trigger]
                call_ensures(create, (v,), c) ==> c.result != 0) ==> r is Err,
    {
    }

    /// Initialises the driver, takes the first device and creates a context on it. The
    /// first call that fails ends the sequence.
    pub fn init<I: Fn() -> Reply<()>, G: Fn(i32) -> Reply<CUdevice>, C: Fn(CUdevice) -> Reply<u64>>(
        initialise: I,
        get_device: G,
        create: C,
    ) -> (r: Result<CudaContext, String>)
        requires
            call_requires(initialise, ()),
            forall|n: i32| call_requires(get_device, (n,)),
            forall|d: CUdevice| call_requires(create, (d,)),
        ensures
            Self::initialised(initialise, get_device, create, r),
    {
        let a: Reply<()> = initialise();
        match answer(a, "cuInit") {
            Err(e) => Err(e),
            Ok(()) => {
                let b: Reply<CUdevice> = get_device(0);
                match answer(b, "cuDeviceGet") {
                    Err(e) => Err(e),
                    Ok(device) => {
                        let c: Reply<u64> = create(device);
                        match answer(c, "cuCtxCreate") {
                            Err(e) => Err(e),
                            Ok(ctx) => Ok(CudaContext { ctx }),
                        }
                    },
                }
            },
        }
    }

    /// Loads PTX code, which must hold no null character.
    pub fn load_ptx<L: Fn(&str) -> Reply<u64>>(&self, ptx: &str, load: L) -> (r: Result<
        CudaModule,
        String,
    >)
        requires
            forall|s: &str| call_requires(load, (s,)),
        ensures
            ptx@.contains('\0') ==> (r matches Err(e) && e@ == "PTX contains null byte"@),
            !ptx@.contains('\0') ==> exists|a: Reply<u64>| #[trigger]
                call_ensures(load, (ptx,), a) && if a.result != CUDA_SUCCESS {
                    r matches Err(e) && e@ == "cuModuleLoadData"@ + ": "@ + error_text(
                        a.result,
                        a.described,
                    )
                } else {
                    r matches Ok(m) && m.module == a.value
                },
    {
        if has_null(ptx) {
            return Err("PTX contains null byte".to_owned());
        }
        let a: Reply<u64> = load(ptx);
        match answer(a, "cuModuleLoadData") {
            Err(e) => Err(e),
            Ok(module) => Ok(CudaModule { module }),
        }
    }

    /// Waits for all work of the context.
    pub fn synchronize<S: Fn() -> Reply<()>>(&self, wait: S) -> (r: Result<(), String>)
        requires
            call_requires(wait, ()),
        ensures
            exists|a: Reply<()>| #[trigger]
                call_ensures(wait, (), a) && answered(a, "cuCtxSynchronize"@, r),
    {
        let a: Reply<()> = wait();
        answer(a, "cuCtxSynchronize")
    }
}

fn has_null(s: &str) -> (b: bool)
    ensures
        b <==> s@.contains('\0'),
{
    let n: usize = s.unicode_len();
    let mut i: usize = 0;
    while i < n
        invariant
            i <= n == s@.len(),
            forall|k: int| 0 <= k < i ==> #[trigger] s@[k] != '\0',
        decreases n - i,
    {
        if s.get_char(i) == '\0' {
            return true;
        }
        i = i + 1;
    }
    false
}

impl CudaModule {
    /// Looks a kernel up by name. A name holds no null character.
    pub fn get_function<L: Fn(u64, &str) -> Reply<u64>>(&self, name: &str, look_up: L) -> (r: Result<
        CudaFunction,
        String,
    >)
        requires
            !name@.contains('\0'),
            forall|m: u64, s: &str| call_requires(look_up, (m, s)),
        ensures
            exists|a: Reply<u64>| #[trigger]
                call_ensures(look_up, (self.module, name), a) && if a.result != CUDA_SUCCESS {
                    r matches Err(e) && e@ == "cuModuleGetFunction("@ + name@ + ")"@ + ": "@
                        + error_text(a.result, a.described)
                } else {
                    r matches Ok(f) && f.func == a.value
                },
    {
        let a: Reply<u64> = look_up(self.module, name);
        let ctx: String = "cuModuleGetFunction(".to_owned().concat(name).concat(")");
        match answer(a, ctx.as_str()) {
            Err(e) => Err(e),
            Ok(func) => Ok(CudaFunction { func }),
        }
    }
}

impl CudaFunction {
    /// Launches the kernel on a grid of blocks.
    pub fn launch<L: Fn(u64, (u32, u32, u32), (u32, u32, u32)) -> Reply<()>>(
        &self,
        grid: (u32, u32, u32),
        block: (u32, u32, u32),
        start: L,
    ) -> (r: Result<(), String>)
        requires
            call_requires(start, (self.func, grid, block)),
        ensures
            exists|a: Reply<()>| #[trigger]
                call_ensures(start, (self.func, grid, block), a) && answered(
                    a,
                    "cuLaunchKernel"@,
                    r,
                ),
    {
        let a: Reply<()> = start(self.func, grid, block);
        answer(a, "cuLaunchKernel")
    }
}

/// A device memory allocation: pointer and size in bytes. An empty buffer has no memory and
/// a null pointer.
#[derive(Debug)]
pub struct CudaBuffer {
    pub ptr: CUdeviceptr,
    pub size: usize,
}

impl CudaBuffer {
    /// `r` is the outcome of allocating `size_bytes` of device memory.
    pub open spec fn allocated<A: Fn(usize) -> Reply<CUdeviceptr>>(
        size_bytes: usize,
        reserve: A,
        r: Result<CudaBuffer, String>,
    ) -> bool {
        &&& size_bytes == 0 ==> (r matches Ok(b) && b.ptr == 0 && b.size == 0)
        &&& size_bytes > 0 ==> exists|a: Reply<CUdeviceptr>| #[trigger]
            call_ensures(reserve, (size_bytes,), a) && if a.result != CUDA_SUCCESS {
                r matches Err(e) && e@ == "cuMemAlloc"@ + ": "@ + error_text(
                    a.result,
                    a.described,
                )
            } else {
                r matches Ok(b) && b.ptr == a.value && b.size == size_bytes
            }
    }

    /// The memory of the buffer, if it has any.
    pub open spec fn memory(self) -> Option<CUdeviceptr> {
        if self.ptr == 0 {
            None
        } else {
            Some(self.ptr)
        }
    }

    /// A buffer is as large as was asked for and owns what the driver reserved for it and
    /// nothing else: nothing for no bytes, and for any others what a successful call for just
    /// as many gave, which is never null.
    pub proof fn buffers_own_what_was_reserved<A: Fn(usize) -> Reply<CUdeviceptr>>(
        size_bytes: usize,
        reserve: A,
        r: Result<CudaBuffer, String>,
    )
        requires
            forall|a: Reply<CUdeviceptr>| #[trigger]
                call_ensures(reserve, (size_bytes,), a) && a.result == 0 ==> a.value != 0,
            Self::allocated(size_bytes, reserve, r),
        ensures
            r matches Ok(b) ==> b.size == size_bytes,
            r matches Ok(b) ==> (b.memory() is None <==> size_bytes == 0),
            r matches Ok(b) ==> (b.memory() matches Some(p) ==> exists|a: Reply<CUdeviceptr>|
                #[trigger]
                call_ensures(reserve, (size_bytes,), a) && a.result == 0 && a.value == p),
            size_bytes == 0 ==> r is Ok,
            (forall|a: Reply<CUdeviceptr>| #[trigger]
                call_ensures(reserve, (size_bytes,), a) ==> a.result == 0) ==> r is Ok,
            size_bytes > 0 && (forall|a: Reply<CUdeviceptr>| #[trigger]
                call_ensures(reserve, (size_bytes,), a) ==> a.result != 0) ==> r is Err,
    {
    }

    /// Allocates `size_bytes` of device memory; for zero bytes no call is made.
    pub fn allocate<A: Fn(usize) -> Reply<CUdeviceptr>>(size_bytes: usize, reserve: A) -> (r: Result<
        CudaBuffer,
        String,
    >)
        requires
            forall|n: usize| call_requires(reserve, (n,)),
        ensures
            Self::allocated(size_bytes, reserve, r),
    {
        if size_bytes == 0 {
            return Ok(CudaBuffer { ptr: 0, size: 0 });
        }
        let a: Reply<CUdeviceptr> = reserve(size_bytes);
        match answer(a, "cuMemAlloc") {
            Err(e) => Err(e),
            Ok(ptr) => Ok(CudaBuffer { ptr, size: size_bytes }),
        }
    }

    /// The device pointer.
    pub fn ptr(&self) -> (p: CUdeviceptr)
        ensures
            p == self.ptr,
    {
        self.ptr
    }

    /// Copies bytes to the device; for none no call is made. The data must fit.
    pub fn upload_raw<C: Fn(CUdeviceptr, &Vec<u8>) -> Reply<()>>(&self, data: &Vec<u8>, copy: C) -> (r:
        Result<(), String>)
        requires
            data@.len() <= self.size,
            forall|p: CUdeviceptr, d: &Vec<u8>| call_requires(copy, (p, d)),
        ensures
            data@.len() == 0 ==> r is Ok,
            data@.len() > 0 ==> exists|a: Reply<()>| #[trigger]
                call_ensures(copy, (self.ptr, data), a) && answered(a, "cuMemcpyHtoD"@, r),
    {
        if data.len() == 0 {
            return Ok(());
        }
        let a: Reply<()> = copy(self.ptr, data);
        answer(a, "cuMemcpyHtoD")
    }

    /// Copies `len` bytes from the device; for none no call is made. The buffer must hold
    /// them.
    pub fn download<C: Fn(CUdeviceptr, usize) -> Reply<Vec<u8>>>(&self, len: usize, copy: C) -> (r: Result<
        Vec<u8>,
        String,
    >)
        requires
            len <= self.size,
            forall|p: CUdeviceptr, n: usize| call_requires(copy, (p, n)),
        ensures
            len == 0 ==> (r matches Ok(v) && v@.len() == 0),
            len > 0 ==> exists|a: Reply<Vec<u8>>| #[trigger]
                call_ensures(copy, (self.ptr, len), a) && answered(a, "cuMemcpyDtoH"@, r),
    {
        if len == 0 {
            return Ok(Vec::new());
        }
        let a: Reply<Vec<u8>> = copy(self.ptr, len);
        answer(a, "cuMemcpyDtoH")
    }

    /// The memory that has to be freed with the buffer, if it has any.
    pub fn owned_memory(&self) -> (p: Option<CUdeviceptr>)
        ensures
            p == self.memory(),
    {
        if self.ptr != 0 {
            Some(self.ptr)
        } else {
            None
        }
    }
}

/// The layout of a batch of transforms: how many, how long, and how far apart.
#[derive(Clone, Copy, Debug, PartialEq, Eq, Structural)]
pub struct BatchLayout {
    pub n: i32,
    pub stride: i32,
    pub distance: i32,
    pub kind: i32,
    pub batch: i32,
}

impl BatchLayout {
    /// `batch` transforms of length `n`, one after the other.
    pub open spec fn rows(n: i32, batch: i32) -> BatchLayout {
        BatchLayout { n, stride: 1, distance: n, kind: CUFFT_C2C, batch }
    }

    /// Value `i` of transform `k` lies at `k * distance + i * stride`.
    pub open spec fn place(self, k: int, i: int) -> int {
        k * self.distance + i * self.stride
    }

    /// The transforms of a batch fill `batch * n` values without gaps and without sharing one:
    /// they lie row by row, each value next to the one before.
    pub proof fn batches_lie_row_by_row(n: i32, batch: i32, k: int, i: int, l: int, j: int)
        requires
            0 <= i < n,
            0 <= j < n,
            0 <= k < batch,
            0 <= l < batch,
        ensures
            ({
                let b = Self::rows(n, batch);
                &&& b.n == n && b.batch == batch
                &&& 0 <= b.place(k, i) < batch * n
                &&& b.place(k, 0) == k * n && b.place(k, i) == k * n + i
                &&& b.place(k, i) == b.place(l, j) ==> k == l && i == j
            }),
    {
        let (d, m) = (n as int, batch as int);
        assert(0 <= k * d && k * d + i < m * d) by (nonlinear_arith)
            requires
                0 <= k < m,
                0 <= i < d,
        ;
        vstd::arithmetic::div_mod::lemma_fundamental_div_mod_converse(k * d + i, d, k, i);
        vstd::arithmetic::div_mod::lemma_fundamental_div_mod_converse(l * d + j, d, l, j);
        assert(i * 1 == i);
    }
}

/// An FFT plan.
#[derive(Debug)]
pub struct CufftPlan {
    handle: CufftHandle,
}

/// `r` is an FFT library call's reply, checked.
pub open spec fn planned(
    result: CufftResult,
    handle: CufftHandle,
    ctx: Seq<char>,
    r: Result<CufftPlan, String>,
) -> bool {
    if result == CUFFT_SUCCESS {
        r matches Ok(p) && p.plan() == handle
    } else {
        r matches Err(e) && e@ == ctx + ": cuFFT error "@ + text::decimal_of(result as int)
    }
}

impl CufftPlan {
    pub closed spec fn plan(self) -> CufftHandle {
        self.handle
    }

    /// A plan for one transform of length `n_fft`. `create` takes length, kind and number.
    pub fn plan_single_c2c<C: Fn(i32, i32, i32) -> (CufftResult, CufftHandle)>(
        n_fft: usize,
        create: C,
    ) -> (r: Result<CufftPlan, String>)
        requires
            forall|n: i32, kind: i32, batch: i32| call_requires(create, (n, kind, batch)),
        ensures
            exists|a: (CufftResult, CufftHandle)| #[trigger]
                call_ensures(create, (n_fft as i32, CUFFT_C2C, 1i32), a) && planned(
                    a.0,
                    a.1,
                    "cufftPlan1d"@,
                    r,
                ),
    {
        let a: (CufftResult, CufftHandle) = create(n_fft as i32, CUFFT_C2C, 1);
        match cufft_check(a.0, "cufftPlan1d") {
            Err(e) => Err(e),
            Ok(()) => Ok(CufftPlan { handle: a.1 }),
        }
    }

    /// A plan for `batch` transforms of length `n_fft`, one after the other in memory.
    pub fn plan_batch_c2c<C: Fn(BatchLayout) -> (CufftResult, CufftHandle)>(
        n_fft: usize,
        batch: usize,
        create: C,
    ) -> (r: Result<CufftPlan, String>)
        requires
            forall|l: BatchLayout| call_requires(create, (l,)),
        ensures
            exists|a: (CufftResult, CufftHandle)| #[trigger]
                call_ensures(create, (BatchLayout::rows(n_fft as i32, batch as i32),), a)
                    && planned(a.0, a.1, "cufftPlanMany"@, r),
    {
        let layout = BatchLayout {
            n: n_fft as i32,
            stride: 1,
            distance: n_fft as i32,
            kind: CUFFT_C2C,
            batch: batch as i32,
        };
        assert(layout == BatchLayout::rows(n_fft as i32, batch as i32));
        let a: (CufftResult, CufftHandle) = create(layout);
        match cufft_check(a.0, "cufftPlanMany") {
            Err(e) => Err(e),
            Ok(()) => Ok(CufftPlan { handle: a.1 }),
        }
    }

    /// Runs the plan from one device buffer to another.
    pub fn exec_c2c<X: Fn(CufftHandle, CUdeviceptr, CUdeviceptr, i32) -> CufftResult>(
        &self,
        idata: CUdeviceptr,
        odata: CUdeviceptr,
        direction: i32,
        exec: X,
    ) -> (r: Result<(), String>)
        requires
            forall|h: CufftHandle, i: CUdeviceptr, o: CUdeviceptr, d: i32|
                call_requires(exec, (h, i, o, d)),
        ensures
            exists|a: CufftResult| #[trigger]
                call_ensures(exec, (self.plan(), idata, odata, direction), a) && fft_checked(
                    a,
                    "cufftExecC2C"@,
                    r,
                ),
    {
        let a: CufftResult = exec(self.handle, idata, odata, direction);
        cufft_check(a, "cufftExecC2C")
    }

    /// The handle by which the plan is destroyed.
    pub fn handle(&self) -> (h: CufftHandle)
        ensures
            h == self.plan(),
    {
        self.handle
    }
}

} // verus!
