//! Compute stages: each wraps one compiled kernel together with a fixed
//! dispatch geometry, and encodes exactly one dispatch (followed by a
//! memory barrier) into an open command sequence. Construction is the only
//! fallible path; encoding never fails.

use vstd::prelude::*;
use vstd::arithmetic::power2::pow2;
use vstd::arithmetic::power2::lemma_pow2_unfold;
use vstd::arithmetic::power2::lemma_pow2_strictly_increases;
use vstd::arithmetic::power2::lemma2_to64;
use vstd::arithmetic::power::pow;
use crate::field::Fp;
use crate::field::seq_val;
use crate::field::seq_wf;
use crate::command::CommandSequence;
use crate::command::BufferPool;
use crate::command::Dispatch;

verus! {

/// Smallest supported transform size.
pub const MIN_SIZE: usize = 2048;

/// Largest supported transform size (`2^30`).
pub const MAX_SIZE: usize = 1073741824;

/// Logical lanes per threadgroup of every dispatch.
pub const THREADGROUP_SIZE: usize = 1024;

/// Largest butterfly stride the 2048-element shared-memory tile of the
/// fused kernel can still cover; past it every stage needs device-wide
/// visibility and runs as a single dispatch.
pub const MAX_FUSED_BOXES: usize = 1024;

/// Which FFT kernel a stage runs: the fused multi-stage variant working in
/// a shared-memory tile, or the single-stage variant reading and writing
/// device memory directly.
#[derive(Clone, Copy, Debug, PartialEq, Eq, Structural)]
pub enum Variant {
    Multiple,
    Single,
}

/// The compiled kernel variants a module can offer, one per operation of
/// the engine. An explicit registry, validated at construction, replaces a
/// name-formatting lookup that could only fail at run time.
#[derive(Clone, Copy, Debug, PartialEq, Eq, Structural)]
pub enum KernelName {
    FftMultiple,
    FftSingle,
    BitReverse,
    MulAssign,
    MulPow,
    AddAssign,
}

/// A construction-time fatal error, naming the violated precondition.
#[derive(Clone, Copy, Debug, PartialEq, Eq, Structural)]
pub enum StageError {
    SizeNotPowerOfTwo,
    SizeOutOfRange,
    BoxCountNotPowerOfTwo,
    BoxCountNotBelowSize,
    KernelNotFound,
}

/// Whether `n` is a power of two.
pub open spec fn spec_is_pow2(n: int) -> bool
    decreases n,
{
    if n <= 0 {
        false
    } else if n == 1 {
        true
    } else {
        n % 2 == 0 && spec_is_pow2(n / 2)
    }
}

/// The base-two logarithm of `n`, rounded down.
pub open spec fn lg(n: int) -> nat
    decreases n,
{
    if n <= 1 {
        0
    } else {
        (1 + lg(n / 2)) as nat
    }
}

/// The supported transform sizes: powers of two from `2^11` to `2^30`.
pub open spec fn valid_size(n: int) -> bool {
    spec_is_pow2(n) && MIN_SIZE as int <= n <= MAX_SIZE as int
}

pub proof fn lemma_pow2_lg(n: int)
    requires
        spec_is_pow2(n),
    ensures
        pow2(lg(n)) == n,
    decreases n,
{
    if n == 1 {
        lemma2_to64();
    } else {
        lemma_pow2_lg(n / 2);
        lemma_pow2_unfold(lg(n));
    }
}

pub proof fn lemma_lg_bound(n: int)
    requires
        spec_is_pow2(n),
        n <= MAX_SIZE as int,
    ensures
        lg(n) <= 30,
{
    lemma_pow2_lg(n);
    if lg(n) > 30 {
        lemma_pow2_strictly_increases(30, lg(n));
        lemma2_to64();
    }
}

/// Divisibility facts relating two powers of two `b < n`, used to place
/// butterfly pairs: blocks of `2 * b` tile the buffer exactly.
pub proof fn lemma_pow2_pair(b: int, n: int)
    requires
        spec_is_pow2(b),
        spec_is_pow2(n),
        b < n,
    ensures
        2 * b <= n,
        n % (2 * b) == 0,
        (n / (2 * b)) * (2 * b) == n,
        (n / (2 * b)) * b == n / 2,
        1 <= n / (2 * b),
        n / 2 * 2 == n,
{
    lemma_pow2_lg(b);
    lemma_pow2_lg(n);
    let k = lg(b) as int;
    let m = lg(n) as int;
    if k >= m {
        if k > m {
            lemma_pow2_strictly_increases(m as nat, k as nat);
        }
        assert(false);
    }
    vstd::arithmetic::power2::lemma_pow2_adds((k + 1) as nat, (m - k - 1) as nat);
    lemma_pow2_unfold((k + 1) as nat);
    let s = pow2((m - k - 1) as nat) as int;
    vstd::arithmetic::power2::lemma_pow2_pos((m - k - 1) as nat);
    assert(n == (2 * b) * s);
    assert((2 * b) * s >= (2 * b) * 1) by (nonlinear_arith)
        requires
            s >= 1,
            b >= 1,
    ;
    assert((2 * b) * s == s * (2 * b)) by (nonlinear_arith);
    vstd::arithmetic::div_mod::lemma_mod_multiples_basic(s, 2 * b);
    vstd::arithmetic::div_mod::lemma_div_by_multiple(s, 2 * b);
    assert(n % (2 * b) == 0);
    assert(n / (2 * b) == s);
    assert((2 * b) * s == (b * s) * 2) by (nonlinear_arith);
    assert(n == (b * s) * 2);
    vstd::arithmetic::div_mod::lemma_div_by_multiple(b * s, 2);
    assert(n / 2 == b * s);
    assert(s * b == b * s) by (nonlinear_arith);
    assert((n / (2 * b)) * (2 * b) == n);
    assert((n / (2 * b)) * b == n / 2);
}

/// Runtime power-of-two test.
pub fn is_power_of_two(n: usize) -> (r: bool)
    ensures
        r == spec_is_pow2(n as int),
{
    if n == 0 {
        return false;
    }
    let mut m: usize = n;
    while m > 1 && m % 2 == 0
        invariant
            m >= 1,
            spec_is_pow2(n as int) == spec_is_pow2(m as int),
        decreases m,
    {
        m = m / 2;
    }
    m == 1
}

/// Runtime base-two logarithm of a power of two.
pub fn log2_exec(n: usize) -> (r: u32)
    requires
        spec_is_pow2(n as int),
    ensures
        r as nat == lg(n as int),
        pow2(r as nat) == n,
{
    let mut m: usize = n;
    let mut r: u32 = 0;
    proof {
        lemma2_to64();
    }
    while m > 1
        invariant
            spec_is_pow2(m as int),
            lg(n as int) == r as nat + lg(m as int),
            n as int == m as int * pow2(r as nat),
            m >= 1,
            r <= 63,
        decreases m,
    {
        proof {
            lemma_pow2_unfold((r + 1) as nat);
            assert(m as int / 2 * (2 * pow2(r as nat)) == m as int * pow2(r as nat))
                by (nonlinear_arith)
                requires
                    m as int % 2 == 0,
                    m >= 2,
            ;
            assert(m as int / 2 * pow2((r + 1) as nat) >= pow2((r + 1) as nat))
                by (nonlinear_arith)
                requires
                    m as int / 2 >= 1,
                    pow2((r + 1) as nat) > 0,
            ;
            lemma2_to64();
            if r + 1 >= 64 {
                if r + 1 > 64 {
                    lemma_pow2_strictly_increases(64, (r + 1) as nat);
                }
                assert(false);
            }
        }
        m = m / 2;
        r = r + 1;
    }
    proof {
        lemma_pow2_lg(n as int);
    }
    r
}

/// The spec-level kernel resolution for the two FFT variants.
pub open spec fn spec_fft_kernel_name(variant: Variant) -> KernelName {
    match variant {
        Variant::Multiple => KernelName::FftMultiple,
        Variant::Single => KernelName::FftSingle,
    }
}

/// Maps an FFT variant to the kernel that implements it. The registry is
/// explicit so that a missing kernel is an enumerable construction-time
/// check, not a formatted-name lookup failure.
pub fn fft_kernel_name(variant: Variant) -> (r: KernelName)
    ensures
        r == spec_fft_kernel_name(variant),
{
    match variant {
        Variant::Multiple => KernelName::FftMultiple,
        Variant::Single => KernelName::FftSingle,
    }
}

/// The compiled kernel module for one field: the set of kernel variants it
/// actually offers. Stage construction validates its lookup against this
/// set and fails fatally when a variant is absent.
pub struct KernelModule {
    kernels: Vec<KernelName>,
}

impl View for KernelModule {
    type V = Seq<KernelName>;

    closed spec fn view(&self) -> Seq<KernelName> {
        self.kernels@
    }
}

impl KernelModule {
    /// A module offering every kernel variant of the engine.
    pub fn with_all_kernels() -> (r: KernelModule)
        ensures
            r@ == seq![
                KernelName::FftMultiple,
                KernelName::FftSingle,
                KernelName::BitReverse,
                KernelName::MulAssign,
                KernelName::MulPow,
                KernelName::AddAssign,
            ],
    {
        let mut kernels: Vec<KernelName> = Vec::new();
        kernels.push(KernelName::FftMultiple);
        kernels.push(KernelName::FftSingle);
        kernels.push(KernelName::BitReverse);
        kernels.push(KernelName::MulAssign);
        kernels.push(KernelName::MulPow);
        kernels.push(KernelName::AddAssign);
        proof {
            assert(kernels@ =~= seq![
                KernelName::FftMultiple,
                KernelName::FftSingle,
                KernelName::BitReverse,
                KernelName::MulAssign,
                KernelName::MulPow,
                KernelName::AddAssign,
            ]);
        }
        KernelModule { kernels }
    }

    /// A module offering only the given kernel variants; lets a caller
    /// model a build whose compiled module is missing some kernels.
    pub fn with_kernels(kernels: Vec<KernelName>) -> (r: KernelModule)
        ensures
            r@ == kernels@,
    {
        KernelModule { kernels }
    }

    /// The registry lookup: the compiled function for `name`, or `None`
    /// when the module does not offer it.
    pub fn get_function(&self, name: KernelName) -> (r: Option<KernelName>)
        ensures
            r is Some <==> self@.contains(name),
            r is Some ==> r->0 == name,
    {
        let mut i: usize = 0;
        while i < self.kernels.len()
            invariant
                i <= self.kernels@.len(),
                forall|j: int| 0 <= j < i ==> self.kernels@[j] != name,
            decreases self.kernels@.len() - i,
        {
            if self.kernels[i] == name {
                return Some(name);
            }
            i = i + 1;
        }
        proof {
            assert(!self@.contains(name));
        }
        None
    }
}

// ---------------------------------------------------------------------------
// Concrete stages
// ---------------------------------------------------------------------------

/// Validates a transform size, in the order the errors are reported.
pub open spec fn size_check(n: int) -> Option<StageError> {
    if !spec_is_pow2(n) {
        Some(StageError::SizeNotPowerOfTwo)
    } else if n < MIN_SIZE as int || n > MAX_SIZE as int {
        Some(StageError::SizeOutOfRange)
    } else {
        None
    }
}

pub(crate) fn check_size(n: usize) -> (r: Option<StageError>)
    ensures
        r == size_check(n as int),
        r is None <==> valid_size(n as int),
{
    if !is_power_of_two(n) {
        Some(StageError::SizeNotPowerOfTwo)
    } else if n < MIN_SIZE || n > MAX_SIZE {
        Some(StageError::SizeOutOfRange)
    } else {
        None
    }
}

/// The geometric scale-factor sequence `norm * scale^i` a
/// [`ScaleAndNormalizeGpuStage`] precomputes at construction.
pub open spec fn scale_factor_vals(scale: int, norm: int, n: nat) -> Seq<int> {
    Seq::new(n, |i: int| (norm * pow(scale, i as nat)) % crate::field::modulus())
}

/// Builds the scale-factor sequence by running the geometric recurrence.
fn build_scale_factors(n: usize, scale_factor: Fp, norm_factor: Fp) -> (r: Vec<Fp>)
    requires
        scale_factor.wf(),
        norm_factor.wf(),
    ensures
        r@.len() == n,
        seq_wf(r@),
        seq_val(r@) == scale_factor_vals(scale_factor@, norm_factor@, n as nat),
{
    let mut r: Vec<Fp> = Vec::new();
    let mut f = norm_factor;
    let mut i: usize = 0;
    proof {
        vstd::arithmetic::power::lemma_pow0(scale_factor@);
        vstd::arithmetic::div_mod::lemma_small_mod(norm_factor@ as nat, crate::field::modulus() as nat);
    }
    while i < n
        invariant
            i <= n,
            scale_factor.wf(),
            norm_factor.wf(),
            f.wf(),
            f@ == (norm_factor@ * pow(scale_factor@, i as nat)) % crate::field::modulus(),
            r@.len() == i,
            seq_wf(r@),
            forall|k: int|
                0 <= k < i ==> (#[trigger] r@[k])@ == (norm_factor@ * pow(scale_factor@, k as nat))
                    % crate::field::modulus(),
        decreases n - i,
    {
        r.push(f);
        f = f.mul(scale_factor);
        proof {
            let p = crate::field::modulus();
            let e = pow(scale_factor@, i as nat);
            vstd::arithmetic::div_mod::lemma_mul_mod_noop_left(norm_factor@ * e, scale_factor@, p);
            vstd::arithmetic::power::lemma_pow_adds(scale_factor@, i as nat, 1);
            vstd::arithmetic::power::lemma_pow1(scale_factor@);
            assert((norm_factor@ * e) * scale_factor@ == norm_factor@ * (e * scale_factor@))
                by (nonlinear_arith);
        }
        i = i + 1;
    }
    proof {
        assert(seq_val(r@) =~= scale_factor_vals(scale_factor@, norm_factor@, n as nat));
    }
    r
}

/// One or more butterfly stages of the radix-2 transform: the `Multiple`
/// variant fuses consecutive stages inside the shared-memory tile, the
/// `Single` variant performs exactly one stage against device memory.
#[derive(Clone, Copy, Debug)]
pub struct FftGpuStage {
    pub pipeline: KernelName,
    pub n: usize,
    pub num_boxes: usize,
    pub variant: Variant,
    pub threadgroup_dim: usize,
    pub grid_dim: usize,
}

impl FftGpuStage {
    pub open spec fn wf(self) -> bool {
        &&& valid_size(self.n as int)
        &&& spec_is_pow2(self.num_boxes as int)
        &&& 1 <= self.num_boxes < self.n
        &&& self.pipeline == spec_fft_kernel_name(self.variant)
        &&& self.threadgroup_dim == THREADGROUP_SIZE
        &&& self.grid_dim == self.n / 2
    }

    /// Resolves and compiles the stage's pipeline; fails fatally when a
    /// precondition is violated or the kernel variant is absent.
    pub fn new(library: &KernelModule, n: usize, num_boxes: usize, variant: Variant) -> (r: Result<
        FftGpuStage,
        StageError,
    >)
        ensures
            r is Ok <==> (valid_size(n as int) && spec_is_pow2(num_boxes as int) && num_boxes < n
                && library@.contains(spec_fft_kernel_name(variant))),
            r matches Ok(s) ==> s.n == n && s.num_boxes == num_boxes && s.variant == variant
                && s.wf(),
            r matches Err(e) ==> e == (if size_check(n as int) is Some {
                size_check(n as int)->0
            } else if !spec_is_pow2(num_boxes as int) {
                StageError::BoxCountNotPowerOfTwo
            } else if num_boxes >= n {
                StageError::BoxCountNotBelowSize
            } else {
                StageError::KernelNotFound
            }),
    {
        if let Some(e) = check_size(n) {
            return Err(e);
        }
        if !is_power_of_two(num_boxes) {
            return Err(StageError::BoxCountNotPowerOfTwo);
        }
        if num_boxes >= n {
            return Err(StageError::BoxCountNotBelowSize);
        }
        let name = fft_kernel_name(variant);
        match library.get_function(name) {
            None => Err(StageError::KernelNotFound),
            Some(pipeline) => Ok(
                FftGpuStage {
                    pipeline,
                    n,
                    num_boxes,
                    variant,
                    threadgroup_dim: THREADGROUP_SIZE,
                    grid_dim: n / 2,
                },
            ),
        }
    }

    /// Appends exactly one dispatch, followed by its memory barrier, to
    /// the open command sequence. The twiddle buffer is bound read-only.
    pub fn encode(
        &self,
        command_buffer: &mut CommandSequence,
        input_buffer: usize,
        twiddles_buffer: usize,
    )
        requires
            self.wf(),
            old(command_buffer).wf(),
        ensures
            final(command_buffer).wf(),
            final(command_buffer)@ == old(command_buffer)@.push(
                (Dispatch {
                    kernel: self.pipeline,
                    dst: input_buffer,
                    src: twiddles_buffer,
                    n: self.n,
                    num_boxes: self.num_boxes,
                    base: 0,
                    shift: 0,
                    power: 0,
                    grid_dim: self.grid_dim,
                    threadgroup_dim: self.threadgroup_dim,
                    barrier_after: true,
                }),
            ),
    {
        command_buffer.push_dispatch(
            Dispatch {
                kernel: self.pipeline,
                dst: input_buffer,
                src: twiddles_buffer,
                n: self.n,
                num_boxes: self.num_boxes,
                base: 0,
                shift: 0,
                power: 0,
                grid_dim: self.grid_dim,
                threadgroup_dim: self.threadgroup_dim,
                barrier_after: true,
            },
        );
    }
}

/// Elementwise multiply of a buffer by the precomputed sequence
/// `norm_factor * scale_factor^i`, fusing inverse-transform normalization
/// and a coset shift into one pass.
#[derive(Clone, Copy, Debug)]
pub struct ScaleAndNormalizeGpuStage {
    pub pipeline: KernelName,
    pub n: usize,
    pub scale_factor: Fp,
    pub norm_factor: Fp,
    pub scale_factors_buffer: usize,
    pub threadgroup_dim: usize,
    pub grid_dim: usize,
}

impl ScaleAndNormalizeGpuStage {
    pub open spec fn wf(self) -> bool {
        &&& valid_size(self.n as int)
        &&& self.scale_factor.wf()
        &&& self.norm_factor.wf()
        &&& self.pipeline == KernelName::MulAssign
        &&& self.threadgroup_dim == THREADGROUP_SIZE
        &&& self.grid_dim == self.n
    }

    /// Precomputes the scale-factor sequence, stages it into a fresh
    /// device-private buffer of the pool, and compiles the elementwise
    /// multiply pipeline.
    pub fn new(
        library: &KernelModule,
        command_queue: &mut BufferPool,
        n: usize,
        scale_factor: Fp,
        norm_factor: Fp,
    ) -> (r: Result<ScaleAndNormalizeGpuStage, StageError>)
        requires
            old(command_queue).wf(),
            scale_factor.wf(),
            norm_factor.wf(),
        ensures
            final(command_queue).wf(),
            r is Ok <==> (valid_size(n as int) && library@.contains(KernelName::MulAssign)),
            r matches Ok(s) ==> s.n == n && s.scale_factor == scale_factor && s.norm_factor
                == norm_factor && s.wf() && s.scale_factors_buffer == old(command_queue)@.len()
                && final(command_queue)@ == old(command_queue)@.push(
                scale_factor_vals(scale_factor@, norm_factor@, n as nat),
            ),
            r matches Err(e) ==> final(command_queue)@ == old(command_queue)@ && e == (
            if size_check(n as int) is Some {
                size_check(n as int)->0
            } else {
                StageError::KernelNotFound
            }),
    {
        if let Some(e) = check_size(n) {
            return Err(e);
        }
        match library.get_function(KernelName::MulAssign) {
            None => Err(StageError::KernelNotFound),
            Some(pipeline) => {
                let scale_factors = build_scale_factors(n, scale_factor, norm_factor);
                let scale_factors_buffer = command_queue.copy_to_private_buffer(scale_factors);
                Ok(
                    ScaleAndNormalizeGpuStage {
                        pipeline,
                        n,
                        scale_factor,
                        norm_factor,
                        scale_factors_buffer,
                        threadgroup_dim: THREADGROUP_SIZE,
                        grid_dim: n,
                    },
                )
            },
        }
    }

    /// Appends exactly one dispatch multiplying the buffer elementwise by
    /// the stage's scale factors, followed by its memory barrier.
    pub fn encode(&self, command_buffer: &mut CommandSequence, input_buffer: usize)
        requires
            self.wf(),
            old(command_buffer).wf(),
        ensures
            final(command_buffer).wf(),
            final(command_buffer)@ == old(command_buffer)@.push(
                (Dispatch {
                    kernel: KernelName::MulAssign,
                    dst: input_buffer,
                    src: self.scale_factors_buffer,
                    n: self.n,
                    num_boxes: 0,
                    base: 0,
                    shift: 0,
                    power: 0,
                    grid_dim: self.grid_dim,
                    threadgroup_dim: self.threadgroup_dim,
                    barrier_after: true,
                }),
            ),
    {
        command_buffer.push_dispatch(
            Dispatch {
                kernel: KernelName::MulAssign,
                dst: input_buffer,
                src: self.scale_factors_buffer,
                n: self.n,
                num_boxes: 0,
                base: 0,
                shift: 0,
                power: 0,
                grid_dim: self.grid_dim,
                threadgroup_dim: self.threadgroup_dim,
                barrier_after: true,
            },
        );
    }
}

/// Permutes an `n`-element buffer in place into bit-reversed index order,
/// exchanging elements through a 32-element on-chip tile.
#[derive(Clone, Copy, Debug)]
pub struct BitReverseGpuStage {
    pub pipeline: KernelName,
    pub n: usize,
    pub threadgroup_dim: usize,
    pub grid_dim: usize,
}

/// The local box-count constant baked into the bit-reversal kernel: a
/// 5-bit count selecting the 32-element on-chip exchange tile.
pub const BIT_REVERSE_LOCAL_BITS: usize = 5;

impl BitReverseGpuStage {
    pub open spec fn wf(self) -> bool {
        &&& valid_size(self.n as int)
        &&& self.pipeline == KernelName::BitReverse
        &&& self.threadgroup_dim == THREADGROUP_SIZE
        &&& self.grid_dim == self.n
    }

    pub fn new(library: &KernelModule, n: usize) -> (r: Result<BitReverseGpuStage, StageError>)
        ensures
            r is Ok <==> (valid_size(n as int) && library@.contains(KernelName::BitReverse)),
            r matches Ok(s) ==> s.n == n && s.wf(),
            r matches Err(e) ==> e == (if size_check(n as int) is Some {
                size_check(n as int)->0
            } else {
                StageError::KernelNotFound
            }),
    {
        if let Some(e) = check_size(n) {
            return Err(e);
        }
        match library.get_function(KernelName::BitReverse) {
            None => Err(StageError::KernelNotFound),
            Some(pipeline) => Ok(
                BitReverseGpuStage {
                    pipeline,
                    n,
                    threadgroup_dim: THREADGROUP_SIZE,
                    grid_dim: n,
                },
            ),
        }
    }

    /// Appends exactly one dispatch permuting the buffer into
    /// bit-reversed order, followed by its memory barrier.
    pub fn encode(&self, command_buffer: &mut CommandSequence, input_buffer: usize)
        requires
            self.wf(),
            old(command_buffer).wf(),
        ensures
            final(command_buffer).wf(),
            final(command_buffer)@ == old(command_buffer)@.push(
                (Dispatch {
                    kernel: KernelName::BitReverse,
                    dst: input_buffer,
                    src: input_buffer,
                    n: self.n,
                    num_boxes: BIT_REVERSE_LOCAL_BITS,
                    base: 0,
                    shift: 0,
                    power: 0,
                    grid_dim: self.grid_dim,
                    threadgroup_dim: self.threadgroup_dim,
                    barrier_after: true,
                }),
            ),
    {
        command_buffer.push_dispatch(
            Dispatch {
                kernel: KernelName::BitReverse,
                dst: input_buffer,
                src: input_buffer,
                n: self.n,
                num_boxes: BIT_REVERSE_LOCAL_BITS,
                base: 0,
                shift: 0,
                power: 0,
                grid_dim: self.grid_dim,
                threadgroup_dim: self.threadgroup_dim,
                barrier_after: true,
            },
        );
    }
}

/// Computes `dst[i] = src[i] * base^(shift * i + power)`: the base and
/// the per-stage `shift` are baked in at construction, `power` is a
/// per-invocation parameter passed as inline bytes.
#[derive(Clone, Copy, Debug)]
pub struct MulPowStage {
    pub shift: usize,
    pub base: u64,
    pub pipeline: KernelName,
    pub n: usize,
    pub threadgroup_dim: usize,
    pub grid_dim: usize,
}

impl MulPowStage {
    pub open spec fn wf(self) -> bool {
        &&& valid_size(self.n as int)
        &&& (self.base as int) < crate::field::modulus()
        &&& self.pipeline == KernelName::MulPow
        &&& self.threadgroup_dim == THREADGROUP_SIZE
        &&& self.grid_dim == self.n
    }

    pub fn new(library: &KernelModule, n: usize, shift: usize, base: Fp) -> (r: Result<
        MulPowStage,
        StageError,
    >)
        requires
            base.wf(),
        ensures
            r is Ok <==> (valid_size(n as int) && library@.contains(KernelName::MulPow)),
            r matches Ok(s) ==> s.n == n && s.shift == shift && s.base as int == base@ && s.wf(),
            r matches Err(e) ==> e == (if size_check(n as int) is Some {
                size_check(n as int)->0
            } else {
                StageError::KernelNotFound
            }),
    {
        if let Some(e) = check_size(n) {
            return Err(e);
        }
        match library.get_function(KernelName::MulPow) {
            None => Err(StageError::KernelNotFound),
            Some(pipeline) => Ok(
                MulPowStage {
                    shift,
                    base: base.val(),
                    pipeline,
                    n,
                    threadgroup_dim: THREADGROUP_SIZE,
                    grid_dim: n,
                },
            ),
        }
    }

    /// Appends exactly one dispatch writing
    /// `src[i] * base^(shift * i + power)` into `dst`, followed by its
    /// memory barrier. `dst` and `src` may be the same buffer.
    pub fn encode(
        &self,
        command_buffer: &mut CommandSequence,
        dst_buffer: usize,
        src_buffer: usize,
        power: usize,
    )
        requires
            self.wf(),
            old(command_buffer).wf(),
        ensures
            final(command_buffer).wf(),
            final(command_buffer)@ == old(command_buffer)@.push(
                (Dispatch {
                    kernel: KernelName::MulPow,
                    dst: dst_buffer,
                    src: src_buffer,
                    n: self.n,
                    num_boxes: 0,
                    base: self.base,
                    shift: self.shift,
                    power: power,
                    grid_dim: self.grid_dim,
                    threadgroup_dim: self.threadgroup_dim,
                    barrier_after: true,
                }),
            ),
    {
        command_buffer.push_dispatch(
            Dispatch {
                kernel: KernelName::MulPow,
                dst: dst_buffer,
                src: src_buffer,
                n: self.n,
                num_boxes: 0,
                base: self.base,
                shift: self.shift,
                power: power,
                grid_dim: self.grid_dim,
                threadgroup_dim: self.threadgroup_dim,
                barrier_after: true,
            },
        );
    }
}

/// Elementwise in-place accumulation `dst[i] += src[i]`, combining
/// independently computed evaluation sequences without a host round trip.
#[derive(Clone, Copy, Debug)]
pub struct AddAssignStage {
    pub pipeline: KernelName,
    pub n: usize,
    pub threadgroup_dim: usize,
    pub grid_dim: usize,
}

impl AddAssignStage {
    pub open spec fn wf(self) -> bool {
        &&& valid_size(self.n as int)
        &&& self.pipeline == KernelName::AddAssign
        &&& self.threadgroup_dim == THREADGROUP_SIZE
        &&& self.grid_dim == self.n
    }

    pub fn new(library: &KernelModule, n: usize) -> (r: Result<AddAssignStage, StageError>)
        ensures
            r is Ok <==> (valid_size(n as int) && library@.contains(KernelName::AddAssign)),
            r matches Ok(s) ==> s.n == n && s.wf(),
            r matches Err(e) ==> e == (if size_check(n as int) is Some {
                size_check(n as int)->0
            } else {
                StageError::KernelNotFound
            }),
    {
        if let Some(e) = check_size(n) {
            return Err(e);
        }
        match library.get_function(KernelName::AddAssign) {
            None => Err(StageError::KernelNotFound),
            Some(pipeline) => Ok(
                AddAssignStage { pipeline, n, threadgroup_dim: THREADGROUP_SIZE, grid_dim: n },
            ),
        }
    }

    /// Appends exactly one dispatch accumulating `src` into `dst`,
    /// followed by its memory barrier.
    pub fn encode(&self, command_buffer: &mut CommandSequence, dst_buffer: usize, src_buffer: usize)
        requires
            self.wf(),
            old(command_buffer).wf(),
        ensures
            final(command_buffer).wf(),
            final(command_buffer)@ == old(command_buffer)@.push(
                (Dispatch {
                    kernel: KernelName::AddAssign,
                    dst: dst_buffer,
                    src: src_buffer,
                    n: self.n,
                    num_boxes: 0,
                    base: 0,
                    shift: 0,
                    power: 0,
                    grid_dim: self.grid_dim,
                    threadgroup_dim: self.threadgroup_dim,
                    barrier_after: true,
                }),
            ),
    {
        command_buffer.push_dispatch(
            Dispatch {
                kernel: KernelName::AddAssign,
                dst: dst_buffer,
                src: src_buffer,
                n: self.n,
                num_boxes: 0,
                base: 0,
                shift: 0,
                power: 0,
                grid_dim: self.grid_dim,
                threadgroup_dim: self.threadgroup_dim,
                barrier_after: true,
            },
        );
    }
}

} // verus!
