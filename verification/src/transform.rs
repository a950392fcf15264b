//! The pipeline orchestrator: builds one command sequence per transform,
//! encoding the bit-reversal pass, then the full ladder of butterfly
//! stages (fused while the stride fits the shared-memory tile, single
//! past it), and, for the inverse, the normalization pass; then submits
//! the sequence once. The engine fixes the decimation-in-time convention:
//! bit reversal precedes the ladder, for the forward and the inverse
//! transform alike, and the inverse differs only in its twiddle factors
//! and the final multiplication by `1/n`.

use vstd::prelude::*;
use vstd::arithmetic::power::pow;
use vstd::arithmetic::power::lemma_pow0;
use vstd::arithmetic::power::lemma1_pow;
use vstd::arithmetic::div_mod::lemma_small_mod;
use vstd::arithmetic::div_mod::lemma_mul_mod_noop_left;
use vstd::arithmetic::power::lemma_pow_adds;
use vstd::arithmetic::power::lemma_pow1;
use crate::field::Fp;
use crate::field::FIELD_MODULUS;
use crate::field::GROUP_GENERATOR;
use crate::field::modulus;
use crate::field::seq_val;
use crate::field::seq_wf;
use crate::command::BufferPool;
use crate::command::CommandSequence;
use crate::command::Dispatch;
use crate::command::dispatch_wf;
use crate::command::dispatch_effect;
use crate::command::exec_seq_spec;
use crate::command::lemma_exec_seq_push;
use crate::command::lemma_dispatch_wf_shape;
use crate::command::pool_shape;
use crate::command::bit_reverse_spec;
use crate::command::butterfly_spec;
use crate::command::fft_multiple_spec;
use crate::command::fft_ladder_spec;
use crate::command::mul_assign_spec;
use crate::command::mul_pow_spec;
use crate::command::add_assign_spec;
use crate::stage::BitReverseGpuStage;
use crate::stage::FftGpuStage;
use crate::stage::ScaleAndNormalizeGpuStage;
use crate::stage::KernelModule;
use crate::stage::KernelName;
use crate::stage::StageError;
use crate::stage::Variant;
use crate::stage::scale_factor_vals;
use crate::stage::spec_is_pow2;
use crate::stage::valid_size;
use crate::stage::lemma_pow2_pair;
use crate::stage::lg;
use crate::stage::MAX_FUSED_BOXES;
use crate::stage::BIT_REVERSE_LOCAL_BITS;
use crate::stage::THREADGROUP_SIZE;

verus! {

/// The twiddle factors of an `n`-point transform: the first `n / 2`
/// powers of the supplied root of unity.
pub open spec fn twiddle_vals(root: int, half: nat) -> Seq<int> {
    Seq::new(half, |k: int| pow(root, k as nat) % modulus())
}

/// Precomputes the twiddle-factor buffer contents for an `n`-point
/// transform from the given root; the buffer is read-only afterwards and
/// may be reused across transforms of the same domain.
pub fn precompute_twiddles(root: Fp, n: usize) -> (r: Vec<Fp>)
    requires
        root.wf(),
    ensures
        r@.len() == n / 2,
        seq_wf(r@),
        seq_val(r@) == twiddle_vals(root@, (n / 2) as nat),
{
    let half = n / 2;
    let mut r: Vec<Fp> = Vec::new();
    let mut f = Fp::one();
    let mut i: usize = 0;
    proof {
        lemma_pow0(root@);
        lemma_small_mod(1nat, modulus() as nat);
    }
    while i < half
        invariant
            i <= half,
            root.wf(),
            f.wf(),
            f@ == pow(root@, i as nat) % modulus(),
            r@.len() == i,
            seq_wf(r@),
            forall|k: int|
                0 <= k < i ==> (#[trigger] r@[k])@ == pow(root@, k as nat) % modulus(),
        decreases half - i,
    {
        r.push(f);
        f = f.mul(root);
        proof {
            let p = modulus();
            let e = pow(root@, i as nat);
            lemma_mul_mod_noop_left(e, root@, p);
            lemma_pow_adds(root@, i as nat, 1);
            lemma_pow1(root@);
        }
        i = i + 1;
    }
    proof {
        assert(seq_val(r@) =~= twiddle_vals(root@, (n / 2) as nat));
    }
    r
}

/// `generator^((p - 1) / n)`: a root of unity of order dividing `n`. For
/// the fixed generator of the field's multiplicative group it is a
/// primitive `n`-th root whenever `n` divides `2^32`.
pub fn root_of_unity(n: usize) -> (r: Fp)
    requires
        n >= 1,
    ensures
        r.wf(),
        r@ == pow(GROUP_GENERATOR as int, ((FIELD_MODULUS - 1) as u64 / n as u64) as nat)
            % modulus(),
{
    proof {
        lemma_small_mod(GROUP_GENERATOR as nat, modulus() as nat);
    }
    Fp::new(GROUP_GENERATOR).pow((FIELD_MODULUS - 1) / (n as u64))
}

/// Where the fused kernel leaves the box count when it starts at `b` on
/// an `n`-element buffer.
pub open spec fn fused_end(n: int, b: int) -> int
    decreases 2 * n - b
        when 1 <= b
{
    if b < n && b <= MAX_FUSED_BOXES as int {
        fused_end(n, 2 * b)
    } else {
        b
    }
}

/// The fused dispatch covers exactly the ladder stages from `b` up to
/// `fused_end`: running it and continuing the ladder there computes the
/// same buffer as the plain stage-by-stage ladder.
pub proof fn lemma_fused_ladder(x: Seq<int>, tw: Seq<int>, b: int)
    requires
        1 <= b,
    ensures
        fft_ladder_spec(x, tw, b) == fft_ladder_spec(
            fft_multiple_spec(x, tw, b),
            tw,
            fused_end(x.len() as int, b),
        ),
    decreases 2 * x.len() - b,
{
    if b < x.len() && b <= MAX_FUSED_BOXES as int {
        lemma_fused_ladder(butterfly_spec(x, tw, b), tw, 2 * b);
    }
}

/// The forward transform of the data buffer: bit reversal followed by the
/// complete butterfly ladder, using the supplied twiddle buffer.
pub open spec fn forward_transform_spec(x: Seq<int>, tw: Seq<int>) -> Seq<int> {
    fft_ladder_spec(bit_reverse_spec(x, lg(x.len() as int)), tw, 1)
}

/// The normalization factor `n^(-1)` the inverse transform applies.
pub open spec fn inv_n_val(n: int) -> int {
    pow(n % modulus(), (modulus() - 2) as nat) % modulus()
}

/// The inverse transform: the same bit-reversal-then-ladder pass run with
/// inverse twiddles, then every element multiplied by `1/n`.
pub open spec fn inverse_transform_spec(x: Seq<int>, inv_tw: Seq<int>) -> Seq<int> {
    mul_assign_spec(
        forward_transform_spec(x, inv_tw),
        scale_factor_vals(1, inv_n_val(x.len() as int), x.len()),
    )
}

/// Encodes one full forward transform into a fresh command sequence and
/// submits it: bit reversal, one fused dispatch from box count 1, then
/// one single-stage dispatch per remaining stride. The data buffer is
/// mutated in place; the twiddle buffer is read-only.
pub fn forward_transform(
    library: &KernelModule,
    pool: &mut BufferPool,
    input_buffer: usize,
    twiddles_buffer: usize,
) -> (r: Result<(), StageError>)
    requires
        old(pool).wf(),
        input_buffer < old(pool)@.len(),
        twiddles_buffer < old(pool)@.len(),
        valid_size(old(pool)@[input_buffer as int].len() as int),
        old(pool)@[twiddles_buffer as int].len() == old(pool)@[input_buffer as int].len() / 2,
    ensures
        final(pool).wf(),
        r is Ok <==> (library@.contains(KernelName::BitReverse) && library@.contains(
            KernelName::FftMultiple,
        ) && library@.contains(KernelName::FftSingle)),
        r is Ok ==> final(pool)@ == old(pool)@.update(
            input_buffer as int,
            forward_transform_spec(
                old(pool)@[input_buffer as int],
                old(pool)@[twiddles_buffer as int],
            ),
        ),
        r is Err ==> final(pool)@ == old(pool)@,
    {
    let ghost p0 = pool@;
    let ghost x0 = p0[input_buffer as int];
    let ghost twv = p0[twiddles_buffer as int];
    let n = pool.buffer_len(input_buffer);
    let bitrev = match BitReverseGpuStage::new(library, n) {
        Ok(s) => s,
        Err(e) => {
            return Err(e);
        },
    };
    let multiple = match FftGpuStage::new(library, n, 1, Variant::Multiple) {
        Ok(s) => s,
        Err(e) => {
            return Err(e);
        },
    };
    if library.get_function(fft_kernel_single()).is_none() {
        return Err(StageError::KernelNotFound);
    }
    proof {
        lemma_pow2_pair(1, n as int);
    }
    let mut command_buffer = CommandSequence::new();

    bitrev.encode(&mut command_buffer, input_buffer);
    let ghost d0 = (Dispatch {
        kernel: KernelName::BitReverse,
        dst: input_buffer,
        src: input_buffer,
        n: n,
        num_boxes: BIT_REVERSE_LOCAL_BITS,
        base: 0,
        shift: 0,
        power: 0,
        grid_dim: n,
        threadgroup_dim: THREADGROUP_SIZE,
        barrier_after: true,
    });
    let ghost y0 = bit_reverse_spec(x0, lg(n as int));
    proof {
        lemma_exec_seq_push(Seq::<Dispatch>::empty(), d0, p0);
        assert(command_buffer@ =~= Seq::<Dispatch>::empty().push(d0));
        assert(dispatch_wf(d0, p0));
        assert(exec_seq_spec(command_buffer@, p0) == p0.update(input_buffer as int, y0));
    }

    multiple.encode(&mut command_buffer, input_buffer, twiddles_buffer);
    let ghost d1 = (Dispatch {
        kernel: KernelName::FftMultiple,
        dst: input_buffer,
        src: twiddles_buffer,
        n: n,
        num_boxes: 1,
        base: 0,
        shift: 0,
        power: 0,
        grid_dim: n / 2,
        threadgroup_dim: THREADGROUP_SIZE,
        barrier_after: true,
    });
    let ghost seq1 = Seq::<Dispatch>::empty().push(d0);
    let ghost mut cur = fft_multiple_spec(y0, twv, 1);
    proof {
        assert(command_buffer@ =~= seq1.push(d1));
        lemma_exec_seq_push(seq1, d1, p0);
        assert(dispatch_wf(d1, p0));
        let q = p0.update(input_buffer as int, y0);
        assert(pool_shape(q) =~= pool_shape(p0));
        lemma_dispatch_wf_shape(d1, p0, q);
        assert(input_buffer != twiddles_buffer);
        assert(q[twiddles_buffer as int] == twv);
        assert(dispatch_effect(d1, q) =~= p0.update(input_buffer as int, cur));
        crate::command::lemma_fft_multiple_len(y0, twv, 1);
        lemma_fused_ladder(y0, twv, 1);
    }

    let mut s: usize = 1;
    while s < n && s <= MAX_FUSED_BOXES
        invariant
            1 <= s <= n,
            spec_is_pow2(s as int),
            valid_size(n as int),
            fused_end(n as int, 1) == fused_end(n as int, s as int),
        decreases n - s,
    {
        proof {
            lemma_pow2_pair(s as int, n as int);
        }
        s = s * 2;
    }
    proof {
        assert(fused_end(n as int, 1) == s as int);
        assert(fft_ladder_spec(y0, twv, 1) == fft_ladder_spec(cur, twv, s as int));
    }

    while s < n
        invariant
            1 <= s <= n,
            spec_is_pow2(s as int),
            valid_size(n as int),
            pool@ == p0,
            pool.wf(),
            input_buffer < p0.len(),
            twiddles_buffer < p0.len(),
            input_buffer != twiddles_buffer,
            p0[input_buffer as int].len() == n,
            p0[twiddles_buffer as int].len() == n / 2,
            twv == p0[twiddles_buffer as int],
            library@.contains(KernelName::FftSingle),
            command_buffer.wf(),
            forall|k: int|
                0 <= k < command_buffer@.len() ==> dispatch_wf(
                    #[trigger] command_buffer@[k],
                    p0,
                ),
            cur.len() == n,
            exec_seq_spec(command_buffer@, p0) == p0.update(input_buffer as int, cur),
            fft_ladder_spec(y0, twv, 1) == fft_ladder_spec(cur, twv, s as int),
        decreases n - s,
    {
        let single = match FftGpuStage::new(library, n, s, Variant::Single) {
            Ok(st) => st,
            Err(e) => {
                return Err(e);
            },
        };
        let ghost seq_prev = command_buffer@;
        single.encode(&mut command_buffer, input_buffer, twiddles_buffer);
        let ghost d2 = (Dispatch {
            kernel: KernelName::FftSingle,
            dst: input_buffer,
            src: twiddles_buffer,
            n: n,
            num_boxes: s,
            base: 0,
            shift: 0,
            power: 0,
            grid_dim: n / 2,
            threadgroup_dim: THREADGROUP_SIZE,
            barrier_after: true,
        });
        proof {
            assert(command_buffer@ =~= seq_prev.push(d2));
            lemma_exec_seq_push(seq_prev, d2, p0);
            assert(dispatch_wf(d2, p0));
            let q = p0.update(input_buffer as int, cur);
            assert(pool_shape(q) =~= pool_shape(p0));
            lemma_dispatch_wf_shape(d2, p0, q);
            assert(q[twiddles_buffer as int] == twv);
            assert(dispatch_effect(d2, q) =~= p0.update(
                input_buffer as int,
                butterfly_spec(cur, twv, s as int),
            ));
            lemma_pow2_pair(s as int, n as int);
            cur = butterfly_spec(cur, twv, s as int);
        }
        s = s * 2;
    }
    proof {
        assert(fft_ladder_spec(cur, twv, s as int) == cur);
    }

    command_buffer.execute(pool);
    Ok(())
}

fn fft_kernel_single() -> (r: KernelName)
    ensures
        r == KernelName::FftSingle,
{
    crate::stage::fft_kernel_name(Variant::Single)
}

/// Encodes one full inverse transform and submits it: the same
/// bit-reversal-then-ladder pass run with the supplied inverse twiddles,
/// then one normalization dispatch multiplying every element by `1/n`.
/// The normalization stage stages its factor buffer into the pool, so on
/// success the pool gains one buffer besides the mutated data buffer.
pub fn inverse_transform(
    library: &KernelModule,
    pool: &mut BufferPool,
    input_buffer: usize,
    inv_twiddles_buffer: usize,
) -> (r: Result<(), StageError>)
    requires
        old(pool).wf(),
        input_buffer < old(pool)@.len(),
        inv_twiddles_buffer < old(pool)@.len(),
        valid_size(old(pool)@[input_buffer as int].len() as int),
        old(pool)@[inv_twiddles_buffer as int].len() == old(pool)@[input_buffer as int].len() / 2,
    ensures
        final(pool).wf(),
        r is Ok <==> (library@.contains(KernelName::BitReverse) && library@.contains(
            KernelName::FftMultiple,
        ) && library@.contains(KernelName::FftSingle) && library@.contains(KernelName::MulAssign)),
        r is Ok ==> final(pool)@ == old(pool)@.push(
            scale_factor_vals(
                1,
                inv_n_val(old(pool)@[input_buffer as int].len() as int),
                old(pool)@[input_buffer as int].len(),
            ),
        ).update(
            input_buffer as int,
            inverse_transform_spec(
                old(pool)@[input_buffer as int],
                old(pool)@[inv_twiddles_buffer as int],
            ),
        ),
        r is Err ==> final(pool)@ == old(pool)@,
    {
    let ghost p0 = pool@;
    let ghost x0 = p0[input_buffer as int];
    let ghost twv = p0[inv_twiddles_buffer as int];
    let n = pool.buffer_len(input_buffer);
    let bitrev = match BitReverseGpuStage::new(library, n) {
        Ok(s) => s,
        Err(e) => {
            return Err(e);
        },
    };
    let multiple = match FftGpuStage::new(library, n, 1, Variant::Multiple) {
        Ok(s) => s,
        Err(e) => {
            return Err(e);
        },
    };
    if library.get_function(fft_kernel_single()).is_none() {
        return Err(StageError::KernelNotFound);
    }
    let n_inv = Fp::new(n as u64).inverse();
    let normalize = match ScaleAndNormalizeGpuStage::new(library, pool, n, Fp::one(), n_inv) {
        Ok(s) => s,
        Err(e) => {
            return Err(e);
        },
    };
    let ghost factors = scale_factor_vals(1, inv_n_val(n as int), n as nat);
    let ghost p1 = pool@;
    proof {
        assert(p1 == p0.push(factors));
        lemma_pow2_pair(1, n as int);
    }
    let mut command_buffer = CommandSequence::new();

    bitrev.encode(&mut command_buffer, input_buffer);
    let ghost d0 = (Dispatch {
        kernel: KernelName::BitReverse,
        dst: input_buffer,
        src: input_buffer,
        n: n,
        num_boxes: BIT_REVERSE_LOCAL_BITS,
        base: 0,
        shift: 0,
        power: 0,
        grid_dim: n,
        threadgroup_dim: THREADGROUP_SIZE,
        barrier_after: true,
    });
    let ghost y0 = bit_reverse_spec(x0, lg(n as int));
    proof {
        lemma_exec_seq_push(Seq::<Dispatch>::empty(), d0, p1);
        assert(command_buffer@ =~= Seq::<Dispatch>::empty().push(d0));
        assert(p1[input_buffer as int] == x0);
        assert(dispatch_wf(d0, p1));
        assert(exec_seq_spec(command_buffer@, p1) == p1.update(input_buffer as int, y0));
    }

    multiple.encode(&mut command_buffer, input_buffer, inv_twiddles_buffer);
    let ghost d1 = (Dispatch {
        kernel: KernelName::FftMultiple,
        dst: input_buffer,
        src: inv_twiddles_buffer,
        n: n,
        num_boxes: 1,
        base: 0,
        shift: 0,
        power: 0,
        grid_dim: n / 2,
        threadgroup_dim: THREADGROUP_SIZE,
        barrier_after: true,
    });
    let ghost seq1 = Seq::<Dispatch>::empty().push(d0);
    let ghost mut cur = fft_multiple_spec(y0, twv, 1);
    proof {
        assert(command_buffer@ =~= seq1.push(d1));
        lemma_exec_seq_push(seq1, d1, p1);
        assert(p1[inv_twiddles_buffer as int] == twv);
        assert(dispatch_wf(d1, p1));
        let q = p1.update(input_buffer as int, y0);
        assert(pool_shape(q) =~= pool_shape(p1));
        lemma_dispatch_wf_shape(d1, p1, q);
        assert(input_buffer != inv_twiddles_buffer);
        assert(q[inv_twiddles_buffer as int] == twv);
        assert(dispatch_effect(d1, q) =~= p1.update(input_buffer as int, cur));
        crate::command::lemma_fft_multiple_len(y0, twv, 1);
        lemma_fused_ladder(y0, twv, 1);
    }

    let mut s: usize = 1;
    while s < n && s <= MAX_FUSED_BOXES
        invariant
            1 <= s <= n,
            spec_is_pow2(s as int),
            valid_size(n as int),
            fused_end(n as int, 1) == fused_end(n as int, s as int),
        decreases n - s,
    {
        proof {
            lemma_pow2_pair(s as int, n as int);
        }
        s = s * 2;
    }
    proof {
        assert(fused_end(n as int, 1) == s as int);
        assert(fft_ladder_spec(y0, twv, 1) == fft_ladder_spec(cur, twv, s as int));
    }

    while s < n
        invariant
            1 <= s <= n,
            spec_is_pow2(s as int),
            valid_size(n as int),
            pool@ == p1,
            pool.wf(),
            input_buffer < p0.len(),
            inv_twiddles_buffer < p0.len(),
            input_buffer != inv_twiddles_buffer,
            p1 == p0.push(factors),
            p1[input_buffer as int].len() == n,
            p1[inv_twiddles_buffer as int].len() == n / 2,
            twv == p1[inv_twiddles_buffer as int],
            library@.contains(KernelName::FftSingle),
            command_buffer.wf(),
            forall|k: int|
                0 <= k < command_buffer@.len() ==> dispatch_wf(
                    #[trigger] command_buffer@[k],
                    p1,
                ),
            cur.len() == n,
            exec_seq_spec(command_buffer@, p1) == p1.update(input_buffer as int, cur),
            fft_ladder_spec(y0, twv, 1) == fft_ladder_spec(cur, twv, s as int),
        decreases n - s,
    {
        let single = match FftGpuStage::new(library, n, s, Variant::Single) {
            Ok(st) => st,
            Err(e) => {
                return Err(e);
            },
        };
        let ghost seq_prev = command_buffer@;
        single.encode(&mut command_buffer, input_buffer, inv_twiddles_buffer);
        let ghost d2 = (Dispatch {
            kernel: KernelName::FftSingle,
            dst: input_buffer,
            src: inv_twiddles_buffer,
            n: n,
            num_boxes: s,
            base: 0,
            shift: 0,
            power: 0,
            grid_dim: n / 2,
            threadgroup_dim: THREADGROUP_SIZE,
            barrier_after: true,
        });
        proof {
            assert(command_buffer@ =~= seq_prev.push(d2));
            lemma_exec_seq_push(seq_prev, d2, p1);
            assert(dispatch_wf(d2, p1));
            let q = p1.update(input_buffer as int, cur);
            assert(pool_shape(q) =~= pool_shape(p1));
            lemma_dispatch_wf_shape(d2, p1, q);
            assert(q[inv_twiddles_buffer as int] == twv);
            assert(dispatch_effect(d2, q) =~= p1.update(
                input_buffer as int,
                butterfly_spec(cur, twv, s as int),
            ));
            lemma_pow2_pair(s as int, n as int);
            cur = butterfly_spec(cur, twv, s as int);
        }
        s = s * 2;
    }
    proof {
        assert(fft_ladder_spec(cur, twv, s as int) == cur);
    }

    let ghost seq_prev2 = command_buffer@;
    normalize.encode(&mut command_buffer, input_buffer);
    let ghost d3 = (Dispatch {
        kernel: KernelName::MulAssign,
        dst: input_buffer,
        src: p0.len() as usize,
        n: n,
        num_boxes: 0,
        base: 0,
        shift: 0,
        power: 0,
        grid_dim: n,
        threadgroup_dim: THREADGROUP_SIZE,
        barrier_after: true,
    });
    proof {
        assert(normalize.scale_factors_buffer == p0.len());
        assert(command_buffer@ =~= seq_prev2.push(d3));
        lemma_exec_seq_push(seq_prev2, d3, p1);
        assert(p1[p0.len() as int] == factors);
        assert(factors.len() == n);
        assert(dispatch_wf(d3, p1));
        let q = p1.update(input_buffer as int, cur);
        assert(pool_shape(q) =~= pool_shape(p1));
        lemma_dispatch_wf_shape(d3, p1, q);
        assert(q[p0.len() as int] == factors);
        assert(dispatch_effect(d3, q) =~= p1.update(
            input_buffer as int,
            mul_assign_spec(cur, factors),
        ));
    }

    command_buffer.execute(pool);
    Ok(())
}

// ---------------------------------------------------------------------------
// Stage identities
// ---------------------------------------------------------------------------

/// A ScaleAndNormalize stage built with `scale_factor = 1` and
/// `norm_factor = 1` is the identity operation on every buffer.
pub proof fn lemma_scale_normalize_identity(x: Seq<int>)
    requires
        forall|i: int| 0 <= i < x.len() ==> 0 <= #[trigger] x[i] < modulus(),
    ensures
        mul_assign_spec(x, scale_factor_vals(1, 1, x.len())) == x,
{
    let f = scale_factor_vals(1, 1, x.len());
    assert forall|i: int| 0 <= i < x.len() implies mul_assign_spec(x, f)[i] == x[i] by {
        lemma1_pow(i as nat);
        lemma_small_mod(1nat, modulus() as nat);
        assert(f[i] == 1);
        lemma_small_mod(x[i] as nat, modulus() as nat);
    }
    assert(mul_assign_spec(x, f) =~= x);
}

/// A MulPow dispatch with `power = 0` and `shift = 0` is the identity
/// operation: it multiplies every element by `base^0 = 1`.
pub proof fn lemma_mul_pow_identity(x: Seq<int>, base: int)
    requires
        forall|i: int| 0 <= i < x.len() ==> 0 <= #[trigger] x[i] < modulus(),
    ensures
        mul_pow_spec(x, base, 0, 0) == x,
{
    assert forall|i: int| 0 <= i < x.len() implies mul_pow_spec(x, base, 0, 0)[i] == x[i] by {
        lemma_pow0(base);
        lemma_small_mod(x[i] as nat, modulus() as nat);
    }
    assert(mul_pow_spec(x, base, 0, 0) =~= x);
}

/// Repeated accumulation is order-independent, and accumulating `b` then
/// `c` into `a` equals accumulating their one-pass sum `b + c`: the
/// AddAssign stage is associative and commutative under repetition.
pub proof fn lemma_add_assign_order(a: Seq<int>, b: Seq<int>, c: Seq<int>)
    requires
        b.len() == a.len(),
        c.len() == a.len(),
        forall|i: int| 0 <= i < a.len() ==> 0 <= #[trigger] a[i] < modulus(),
        forall|i: int| 0 <= i < b.len() ==> 0 <= #[trigger] b[i] < modulus(),
        forall|i: int| 0 <= i < c.len() ==> 0 <= #[trigger] c[i] < modulus(),
    ensures
        add_assign_spec(add_assign_spec(a, b), c) == add_assign_spec(a, add_assign_spec(b, c)),
        add_assign_spec(add_assign_spec(a, b), c) == add_assign_spec(add_assign_spec(a, c), b),
{
    let p = modulus();
    let lhs = add_assign_spec(add_assign_spec(a, b), c);
    assert forall|i: int| 0 <= i < a.len() implies lhs[i] == (a[i] + b[i] + c[i]) % p by {
        lemma_small_mod(c[i] as nat, p as nat);
        vstd::arithmetic::div_mod::lemma_add_mod_noop(a[i] + b[i], c[i], p);
    }
    let rhs1 = add_assign_spec(a, add_assign_spec(b, c));
    assert forall|i: int| 0 <= i < a.len() implies rhs1[i] == (a[i] + b[i] + c[i]) % p by {
        lemma_small_mod(a[i] as nat, p as nat);
        vstd::arithmetic::div_mod::lemma_add_mod_noop(a[i], b[i] + c[i], p);
    }
    let rhs2 = add_assign_spec(add_assign_spec(a, c), b);
    assert forall|i: int| 0 <= i < a.len() implies rhs2[i] == (a[i] + b[i] + c[i]) % p by {
        lemma_small_mod(b[i] as nat, p as nat);
        vstd::arithmetic::div_mod::lemma_add_mod_noop(a[i] + c[i], b[i], p);
    }
    assert(lhs =~= rhs1);
    assert(lhs =~= rhs2);
}

} // verus!
