//! The command-sequence and device-buffer model. A stage encodes dispatch
//! descriptors into a [`CommandSequence`]; the sequence is executed once,
//! and the memory barrier recorded after every dispatch guarantees that
//! each dispatch observes all writes of the dispatches encoded before it,
//! so execution is exactly the in-order composition of the per-dispatch
//! effects stated here.

use vstd::prelude::*;
use vstd::arithmetic::power::pow;
use vstd::arithmetic::power2::pow2;
use vstd::arithmetic::power2::lemma_pow2_unfold;
use vstd::arithmetic::power2::lemma2_to64;
use vstd::arithmetic::div_mod::lemma_fundamental_div_mod;
use vstd::arithmetic::div_mod::lemma_fundamental_div_mod_converse;
use vstd::arithmetic::div_mod::lemma_mod_multiples_vanish;
use vstd::arithmetic::div_mod::lemma_hoist_over_denominator;
use vstd::arithmetic::div_mod::lemma_small_mod;
use vstd::arithmetic::div_mod::lemma_mod_bound;
use vstd::arithmetic::div_mod::lemma_add_mod_noop_right;
use vstd::arithmetic::div_mod::lemma_sub_mod_noop_right;
use vstd::arithmetic::div_mod::lemma_mul_mod_noop_right;
use vstd::arithmetic::div_mod::lemma_mul_mod_noop_general;
use vstd::arithmetic::power::lemma_pow_adds;
use crate::stage::log2_exec;
use crate::stage::lemma_pow2_lg;
use crate::stage::lemma_lg_bound;
use crate::stage::lemma_pow2_pair;
use crate::field::Fp;
use crate::field::modulus;
use crate::field::seq_val;
use crate::field::seq_wf;
use crate::stage::KernelName;
use crate::stage::lg;
use crate::stage::spec_is_pow2;
use crate::stage::valid_size;
use crate::stage::MAX_FUSED_BOXES;

verus! {

// ---------------------------------------------------------------------------
// Bit-reversal permutation
// ---------------------------------------------------------------------------

/// The value of `i` with its low `bits` bits reversed.
pub open spec fn rev_bits(i: nat, bits: nat) -> nat
    decreases bits,
{
    if bits == 0 {
        0
    } else {
        rev_bits(i / 2, (bits - 1) as nat) + (i % 2) * pow2((bits - 1) as nat)
    }
}

pub proof fn lemma_rev_bits_bound(i: nat, bits: nat)
    ensures
        rev_bits(i, bits) < pow2(bits),
    decreases bits,
{
    if bits == 0 {
        lemma2_to64();
    } else {
        lemma_rev_bits_bound(i / 2, (bits - 1) as nat);
        lemma_pow2_unfold(bits);
        if i % 2 == 1 {
        } else {
        }
    }
}

/// Reversing `x` in `b` bits, when `x` fits in `b - 1` bits, doubles the
/// reversal of `x` in `b - 1` bits.
proof fn lemma_rev_bits_widen(x: nat, b: nat)
    requires
        b >= 1,
        x < pow2((b - 1) as nat),
    ensures
        rev_bits(x, b) == 2 * rev_bits(x, (b - 1) as nat),
    decreases b,
{
    if b == 1 {
        lemma2_to64();
    } else {
        lemma_pow2_unfold((b - 1) as nat);
        assert(x / 2 < pow2((b - 2) as nat)) by (nonlinear_arith)
            requires
                x < 2 * pow2((b - 2) as nat),
                pow2((b - 2) as nat) > 0,
        ;
        lemma_rev_bits_widen(x / 2, (b - 1) as nat);
        if x % 2 == 1 {
        } else {
        }
    }
}

/// Setting the top bit of the `b`-bit input adds one to the reversal.
proof fn lemma_rev_bits_top_bit(x: nat, b: nat)
    requires
        b >= 1,
        x < pow2((b - 1) as nat),
    ensures
        rev_bits(x + pow2((b - 1) as nat), b) == rev_bits(x, b) + 1,
    decreases b,
{
    let z = x + pow2((b - 1) as nat);
    if b == 1 {
        lemma2_to64();
        assert(rev_bits(1, 1) == rev_bits(0, 0) + 1 * pow2(0));
    } else {
        lemma_pow2_unfold((b - 1) as nat);
        let c = pow2((b - 2) as nat);
        assert(z == x + 2 * c);
        lemma_mod_multiples_vanish(c as int, x as int, 2);
        assert(z % 2 == x % 2);
        lemma_hoist_over_denominator(x as int, c as int, 2);
        assert(z / 2 == x / 2 + c);
        assert(x / 2 < c) by (nonlinear_arith)
            requires
                x < 2 * c,
                c > 0,
        ;
        lemma_rev_bits_top_bit(x / 2, (b - 1) as nat);
    }
}

/// Bit reversal is an involution on `bits`-bit values.
pub proof fn lemma_rev_bits_involution(i: nat, bits: nat)
    requires
        i < pow2(bits),
    ensures
        rev_bits(rev_bits(i, bits), bits) == i,
    decreases bits,
{
    if bits == 0 {
        lemma2_to64();
    } else {
        let a = i / 2;
        let d = i % 2;
        lemma_pow2_unfold(bits);
        assert(i / 2 < pow2((bits - 1) as nat)) by (nonlinear_arith)
            requires
                i < 2 * pow2((bits - 1) as nat),
                pow2((bits - 1) as nat) > 0,
        ;
        lemma_rev_bits_involution(a, (bits - 1) as nat);
        let r = rev_bits(a, (bits - 1) as nat);
        lemma_rev_bits_bound(a, (bits - 1) as nat);
        lemma_fundamental_div_mod(i as int, 2);
        if d == 1 {
            assert(rev_bits(i, bits) == r + pow2((bits - 1) as nat));
            lemma_rev_bits_top_bit(r, bits);
            lemma_rev_bits_widen(r, bits);
        } else {
            assert(rev_bits(i, bits) == r);
            lemma_rev_bits_widen(r, bits);
        }
    }
}

/// The buffer permuted into bit-reversed index order: the element at
/// index `i` of the result comes from index `rev_bits(i, bits)`.
pub open spec fn bit_reverse_spec(x: Seq<int>, bits: nat) -> Seq<int> {
    Seq::new(x.len(), |i: int| x[rev_bits(i as nat, bits) as int])
}

/// Applying the bit-reversal permutation twice restores any buffer whose
/// length matches the permutation's width.
pub proof fn lemma_bit_reverse_involution(x: Seq<int>, bits: nat)
    requires
        x.len() == pow2(bits),
    ensures
        bit_reverse_spec(bit_reverse_spec(x, bits), bits) == x,
{
    let y = bit_reverse_spec(bit_reverse_spec(x, bits), bits);
    assert forall|i: int| 0 <= i < x.len() implies y[i] == x[i] by {
        lemma_rev_bits_bound(i as nat, bits);
        lemma_rev_bits_involution(i as nat, bits);
    }
    assert(y =~= x);
}

// ---------------------------------------------------------------------------
// Per-dispatch effects
// ---------------------------------------------------------------------------

/// One butterfly stage at box count (stride) `b`: elements at distance `b`
/// within blocks of `2 * b` are combined as `(x, y) |-> (x + w * y, x - w * y)`,
/// with the twiddle factor chosen by the pair's position in its block.
pub open spec fn butterfly_spec(x: Seq<int>, tw: Seq<int>, b: int) -> Seq<int> {
    Seq::new(
        x.len(),
        |i: int|
            {
                let pos = i % (2 * b);
                let j = i % b;
                let w = tw[j * (x.len() as int / (2 * b))];
                if pos < b {
                    (x[i] + w * x[i + b]) % modulus()
                } else {
                    (x[i - b] - w * x[i]) % modulus()
                }
            },
    )
}

/// The fused kernel's effect: butterfly stages from box count `b` upward,
/// doubling, for as long as the stride stays within the shared-memory tile
/// and below the buffer length.
pub open spec fn fft_multiple_spec(x: Seq<int>, tw: Seq<int>, b: int) -> Seq<int>
    decreases 2 * x.len() - b
        when 1 <= b
{
    if b < x.len() && b <= MAX_FUSED_BOXES as int {
        fft_multiple_spec(butterfly_spec(x, tw, b), tw, 2 * b)
    } else {
        x
    }
}

pub proof fn lemma_fft_multiple_len(x: Seq<int>, tw: Seq<int>, b: int)
    requires
        1 <= b,
    ensures
        fft_multiple_spec(x, tw, b).len() == x.len(),
    decreases 2 * x.len() - b,
{
    if b < x.len() && b <= MAX_FUSED_BOXES as int {
        lemma_fft_multiple_len(butterfly_spec(x, tw, b), tw, 2 * b);
    }
}

/// The full butterfly ladder from box count `b` up to the buffer length:
/// the complete ladder of a transform starts at `b == 1`.
pub open spec fn fft_ladder_spec(x: Seq<int>, tw: Seq<int>, b: int) -> Seq<int>
    decreases 2 * x.len() - b
        when 1 <= b
{
    if b < x.len() {
        fft_ladder_spec(butterfly_spec(x, tw, b), tw, 2 * b)
    } else {
        x
    }
}

/// Elementwise in-place product with a factor buffer.
pub open spec fn mul_assign_spec(x: Seq<int>, f: Seq<int>) -> Seq<int> {
    Seq::new(x.len(), |i: int| (x[i] * f[i]) % modulus())
}

/// `dst[i] = src[i] * base^(shift * i + power)`.
pub open spec fn mul_pow_spec(src: Seq<int>, base: int, shift: int, power: int) -> Seq<int> {
    Seq::new(src.len(), |i: int| (src[i] * pow(base, (power + shift * i) as nat)) % modulus())
}

/// Elementwise in-place accumulation `dst[i] + src[i]`.
pub open spec fn add_assign_spec(dst: Seq<int>, src: Seq<int>) -> Seq<int> {
    Seq::new(dst.len(), |i: int| (dst[i] + src[i]) % modulus())
}

// ---------------------------------------------------------------------------
// Dispatch descriptors
// ---------------------------------------------------------------------------

/// One encoded dispatch: the kernel, its buffer bindings (indices into the
/// device buffer pool), the constants baked in at stage construction, the
/// dispatch geometry, and whether a memory barrier follows it. Descriptors
/// are immutable once appended.
#[derive(Clone, Copy, Debug)]
pub struct Dispatch {
    pub kernel: KernelName,
    pub dst: usize,
    pub src: usize,
    pub n: usize,
    pub num_boxes: usize,
    pub base: u64,
    pub shift: usize,
    pub power: usize,
    pub grid_dim: usize,
    pub threadgroup_dim: usize,
    pub barrier_after: bool,
}

/// The lengths of the pool's buffers; dispatch well-formedness depends on
/// the pool only through this shape, which no dispatch changes.
pub open spec fn pool_shape(pool: Seq<Seq<int>>) -> Seq<int> {
    Seq::new(pool.len(), |i: int| pool[i].len() as int)
}

/// A dispatch whose bindings and constants fit the pool it runs against.
pub open spec fn dispatch_wf(d: Dispatch, pool: Seq<Seq<int>>) -> bool {
    &&& d.dst < pool.len()
    &&& d.src < pool.len()
    &&& pool[d.dst as int].len() == d.n
    &&& valid_size(d.n as int)
    &&& match d.kernel {
        KernelName::BitReverse => true,
        KernelName::FftMultiple | KernelName::FftSingle => {
            &&& pool[d.src as int].len() == d.n / 2
            &&& 1 <= d.num_boxes < d.n
            &&& spec_is_pow2(d.num_boxes as int)
        },
        KernelName::MulAssign => pool[d.src as int].len() == d.n,
        KernelName::MulPow => {
            &&& pool[d.src as int].len() == d.n
            &&& 0 <= d.base < modulus()
        },
        KernelName::AddAssign => pool[d.src as int].len() == d.n,
    }
}

/// What executing one dispatch does to the pool. A dispatch that does not
/// fit the pool leaves it unchanged; the executor only runs well-formed
/// sequences, so this case never arises there.
pub open spec fn dispatch_effect(d: Dispatch, pool: Seq<Seq<int>>) -> Seq<Seq<int>> {
    if dispatch_wf(d, pool) {
        let dstv = pool[d.dst as int];
        let srcv = pool[d.src as int];
        let newv = match d.kernel {
            KernelName::BitReverse => bit_reverse_spec(dstv, lg(d.n as int)),
            KernelName::FftMultiple => fft_multiple_spec(dstv, srcv, d.num_boxes as int),
            KernelName::FftSingle => butterfly_spec(dstv, srcv, d.num_boxes as int),
            KernelName::MulAssign => mul_assign_spec(dstv, srcv),
            KernelName::MulPow => mul_pow_spec(srcv, d.base as int, d.shift as int, d.power as int),
            KernelName::AddAssign => add_assign_spec(dstv, srcv),
        };
        pool.update(d.dst as int, newv)
    } else {
        pool
    }
}

pub proof fn lemma_dispatch_effect_shape(d: Dispatch, pool: Seq<Seq<int>>)
    ensures
        pool_shape(dispatch_effect(d, pool)) == pool_shape(pool),
{
    if dispatch_wf(d, pool) {
        if d.kernel is FftMultiple {
            lemma_fft_multiple_len(pool[d.dst as int], pool[d.src as int], d.num_boxes as int);
        }
        assert(pool_shape(dispatch_effect(d, pool)) =~= pool_shape(pool));
    } else {
        assert(pool_shape(dispatch_effect(d, pool)) =~= pool_shape(pool));
    }
}

/// A bit-reversal dispatch is an involution: executing it twice against
/// the same pool restores every buffer, for every supported size.
pub proof fn lemma_bit_reverse_dispatch_involution(d: Dispatch, pool: Seq<Seq<int>>)
    requires
        d.kernel is BitReverse,
        dispatch_wf(d, pool),
    ensures
        dispatch_effect(d, dispatch_effect(d, pool)) == pool,
{
    let x = pool[d.dst as int];
    let bits = lg(d.n as int);
    crate::stage::lemma_pow2_lg(d.n as int);
    let once = dispatch_effect(d, pool);
    lemma_dispatch_effect_shape(d, pool);
    lemma_dispatch_wf_shape(d, pool, once);
    assert(once[d.dst as int] == bit_reverse_spec(x, bits));
    lemma_bit_reverse_involution(x, bits);
    assert(dispatch_effect(d, once) =~= pool.update(d.dst as int, x));
    assert(pool.update(d.dst as int, x) =~= pool);
}

/// Dispatch well-formedness depends on the pool only through its shape.
pub proof fn lemma_dispatch_wf_shape(d: Dispatch, p1: Seq<Seq<int>>, p2: Seq<Seq<int>>)
    requires
        pool_shape(p1) == pool_shape(p2),
        dispatch_wf(d, p1),
    ensures
        dispatch_wf(d, p2),
{
    assert(pool_shape(p1).len() == p1.len());
    assert(pool_shape(p2).len() == p2.len());
    assert(p1.len() == p2.len());
    assert(pool_shape(p2)[d.dst as int] == p2[d.dst as int].len() as int);
    assert(pool_shape(p1)[d.dst as int] == p1[d.dst as int].len() as int);
    assert(pool_shape(p2)[d.src as int] == p2[d.src as int].len() as int);
    assert(pool_shape(p1)[d.src as int] == p1[d.src as int].len() as int);
}

/// Executing a sequence of dispatches in encoding order.
pub open spec fn exec_seq_spec(ds: Seq<Dispatch>, pool: Seq<Seq<int>>) -> Seq<Seq<int>>
    decreases ds.len(),
{
    if ds.len() == 0 {
        pool
    } else {
        exec_seq_spec(ds.drop_first(), dispatch_effect(ds[0], pool))
    }
}

pub proof fn lemma_exec_seq_push(ds: Seq<Dispatch>, d: Dispatch, pool: Seq<Seq<int>>)
    ensures
        exec_seq_spec(ds.push(d), pool) == dispatch_effect(d, exec_seq_spec(ds, pool)),
    decreases ds.len(),
{
    reveal_with_fuel(exec_seq_spec, 2);
    if ds.len() == 0 {
        assert(ds.push(d)[0] == d);
        assert(ds.push(d).drop_first() =~= Seq::<Dispatch>::empty());
        assert(exec_seq_spec(ds.push(d), pool) == dispatch_effect(d, pool));
    } else {
        assert(ds.push(d)[0] == ds[0]);
        assert(ds.push(d).drop_first() =~= ds.drop_first().push(d));
        lemma_exec_seq_push(ds.drop_first(), d, dispatch_effect(ds[0], pool));
    }
}

// ---------------------------------------------------------------------------
// Executable kernels: the modelled device-side effect of each dispatch
// ---------------------------------------------------------------------------

/// The pair number a buffer index belongs to in a butterfly stage at box
/// count `b`: execution lane `t` combines the two indices whose pair
/// number is `t`.
spec fn pair_of(i: int, b: int) -> int {
    (i / (2 * b)) * b + i % b
}

fn copy_fp_vec(v: &Vec<Fp>) -> (r: Vec<Fp>)
    ensures
        r@ == v@,
{
    let mut r: Vec<Fp> = Vec::new();
    let mut i: usize = 0;
    while i < v.len()
        invariant
            i <= v@.len(),
            r@ == v@.take(i as int),
        decreases v@.len() - i,
    {
        r.push(v[i]);
        proof {
            assert(v@.take(i as int).push(v@[i as int]) =~= v@.take(i as int + 1));
        }
        i = i + 1;
    }
    proof {
        assert(v@.take(v@.len() as int) =~= v@);
    }
    r
}

fn kernel_bit_reverse(buf: &mut Vec<Fp>, bits: u32)
    requires
        seq_wf(old(buf)@),
        old(buf)@.len() == pow2(bits as nat),
        bits <= 32,
    ensures
        final(buf)@.len() == old(buf)@.len(),
        seq_wf(final(buf)@),
        seq_val(final(buf)@) == bit_reverse_spec(seq_val(old(buf)@), bits as nat),
{
    let ghost orig = buf@;
    let n = buf.len();
    let mut out: Vec<Fp> = Vec::new();
    let mut i: usize = 0;
    while i < n
        invariant
            buf@ == orig,
            orig.len() == n,
            n == pow2(bits as nat),
            bits <= 32,
            seq_wf(orig),
            i <= n,
            out@.len() == i,
            forall|k: int|
                0 <= k < i ==> #[trigger] out@[k] == orig[rev_bits(k as nat, bits as nat) as int],
        decreases n - i,
    {
        proof {
            lemma_rev_bits_bound(i as nat, bits as nat);
            lemma2_to64();
        }
        let ri = rev_index_exec(i, bits);
        let e = buf[ri];
        out.push(e);
        i = i + 1;
    }
    *buf = out;
    proof {
        assert forall|k: int|
            0 <= k < buf@.len() implies seq_val(buf@)[k] == bit_reverse_spec(
                seq_val(orig),
                bits as nat,
            )[k] by {
            lemma_rev_bits_bound(k as nat, bits as nat);
        }
        assert(seq_val(buf@) =~= bit_reverse_spec(seq_val(orig), bits as nat));
        assert forall|k: int| 0 <= k < buf@.len() implies (#[trigger] buf@[k]).wf() by {
            lemma_rev_bits_bound(k as nat, bits as nat);
        }
    }
}

/// Reverses the low `bits` bits of `i`.
fn rev_index_exec(i: usize, bits: u32) -> (r: usize)
    requires
        (i as nat) < pow2(bits as nat),
        bits <= 32,
    ensures
        r as nat == rev_bits(i as nat, bits as nat),
        (r as nat) < pow2(bits as nat),
{
    let mut x = i;
    let mut r: usize = 0;
    let mut j: u32 = 0;
    proof {
        lemma2_to64();
    }
    while j < bits
        invariant
            j <= bits,
            bits <= 32,
            (x as nat) < pow2((bits - j) as nat),
            (r as nat) < pow2(j as nat),
            rev_bits(i as nat, bits as nat) == r as nat * pow2((bits - j) as nat) + rev_bits(
                x as nat,
                (bits - j) as nat,
            ),
        decreases bits - j,
    {
        proof {
            let bj = (bits - j) as nat;
            let c = pow2((bj - 1) as nat);
            lemma_mod_bound(x as int, 2);
            lemma_pow2_unfold(bj);
            lemma_pow2_unfold((j + 1) as nat);
            assert(rev_bits(x as nat, bj) == rev_bits((x as nat) / 2, (bj - 1) as nat) + ((
            x as nat) % 2) * c);
            assert(x as nat / 2 < c) by (nonlinear_arith)
                requires
                    (x as nat) < 2 * c,
                    c > 0,
            ;
            assert((r as int) * (2 * c) == (2 * (r as int)) * c) by (nonlinear_arith);
            assert(pow2(bj) == 2 * c);
            assert((r as nat) * pow2(bj) == (r as int) * (2 * c)) by (nonlinear_arith)
                requires
                    pow2(bj) == 2 * c,
            ;
            if x % 2 == 1 {
                assert((2 * (r as int) + 1) * c == (2 * (r as int)) * c + c) by (nonlinear_arith);
                assert(rev_bits(i as nat, bits as nat) == (2 * (r as int) + 1) * c + rev_bits(
                    (x as nat) / 2,
                    (bj - 1) as nat,
                ));
            } else {
                assert((x as nat) % 2 == 0);
                assert(((x as nat) % 2) * c == 0);
                assert(rev_bits(x as nat, bj) == rev_bits((x as nat) / 2, (bj - 1) as nat));
                assert(rev_bits(i as nat, bits as nat) == (r as nat) * pow2(bj) + rev_bits(
                    x as nat,
                    bj,
                ));
                assert(rev_bits(i as nat, bits as nat) == (2 * (r as int)) * c + rev_bits(
                    (x as nat) / 2,
                    (bj - 1) as nat,
                ));
            }
            assert(((bits - (j + 1)) as nat) == (bj - 1) as nat);
            lemma2_to64();
            if (j + 1) < 33 {
                vstd::arithmetic::power2::lemma_pow2_strictly_increases((j + 1) as nat, 33);
            }
        }
        r = r * 2 + (x % 2);
        x = x / 2;
        j = j + 1;
    }
    proof {
        lemma2_to64();
        assert(rev_bits(x as nat, (bits - j) as nat) == 0);
        assert((bits - j) as nat == 0);
        assert(pow2((bits - j) as nat) == 1);
        assert((r as nat) * pow2((bits - j) as nat) == r as nat) by (nonlinear_arith)
            requires
                pow2((bits - j) as nat) == 1,
        ;
    }
    r
}

fn kernel_butterfly(buf: &mut Vec<Fp>, tw: &Vec<Fp>, b: usize)
    requires
        seq_wf(old(buf)@),
        seq_wf(tw@),
        valid_size(old(buf)@.len() as int),
        tw@.len() == old(buf)@.len() / 2,
        spec_is_pow2(b as int),
        1 <= b < old(buf)@.len(),
    ensures
        final(buf)@.len() == old(buf)@.len(),
        seq_wf(final(buf)@),
        seq_val(final(buf)@) == butterfly_spec(seq_val(old(buf)@), seq_val(tw@), b as int),
{
    let ghost orig = buf@;
    let ghost target = butterfly_spec(seq_val(old(buf)@), seq_val(tw@), b as int);
    proof {
        lemma_pow2_pair(b as int, buf@.len() as int);
    }
    let n = buf.len();
    let b2 = 2 * b;
    let half = n / 2;
    let stride = n / b2;
    let ghost s_count = n as int / (2 * b as int);
    let mut t: usize = 0;
    while t < half
        invariant
            buf@.len() == n,
            orig.len() == n,
            valid_size(n as int),
            spec_is_pow2(b as int),
            1 <= b < n,
            b2 == 2 * b,
            half == n / 2,
            stride == s_count,
            s_count == n as int / (2 * b as int),
            s_count * (2 * b as int) == n as int,
            s_count * (b as int) == half as int,
            half as int * 2 == n as int,
            1 <= s_count,
            tw@.len() == half,
            seq_wf(tw@),
            seq_wf(orig),
            seq_wf(buf@),
            t <= half,
            target == butterfly_spec(seq_val(orig), seq_val(tw@), b as int),
            forall|x: int|
                0 <= x < n && pair_of(x, b as int) < t ==> (#[trigger] buf@[x])@ == target[x],
            forall|x: int|
                0 <= x < n && pair_of(x, b as int) >= t ==> #[trigger] buf@[x] == orig[x],
        decreases half - t,
    {
        let block = t / b;
        let j = t % b;
        proof {
            lemma_fundamental_div_mod(t as int, b as int);
            lemma_mod_bound(t as int, b as int);
            assert((block as int) < s_count) by (nonlinear_arith)
                requires
                    (block as int) * (b as int) <= t as int,
                    (t as int) < s_count * (b as int),
                    (b as int) > 0,
                    s_count >= 0,
            ;
            assert((block as int) * (2 * b as int) <= (s_count - 1) * (2 * b as int))
                by (nonlinear_arith)
                requires
                    (block as int) <= s_count - 1,
                    (b as int) > 0,
            ;
            assert((s_count - 1) * (2 * b as int) == s_count * (2 * b as int) - 2 * b as int)
                by (nonlinear_arith);
            assert((block as int) * (2 * b as int) + (j as int) + (b as int) < (n as int));
        }
        let lo = block * b2 + j;
        let hi = lo + b;
        proof {
            lemma_fundamental_div_mod_converse(lo as int, 2 * b as int, block as int, j as int);
            assert(lo as int == (2 * block as int) * (b as int) + j as int) by (nonlinear_arith)
                requires
                    lo as int == (block as int) * (2 * b as int) + j as int,
            ;
            lemma_fundamental_div_mod_converse(lo as int, b as int, 2 * block as int, j as int);
            lemma_fundamental_div_mod_converse(
                hi as int,
                2 * b as int,
                block as int,
                j as int + b as int,
            );
            assert(hi as int == (2 * block as int + 1) * (b as int) + j as int) by (nonlinear_arith)
                requires
                    hi as int == (block as int) * (2 * b as int) + j as int + b as int,
            ;
            lemma_fundamental_div_mod_converse(hi as int, b as int, 2 * block as int + 1, j as int);
            assert((j as int) * s_count <= (b as int - 1) * s_count) by (nonlinear_arith)
                requires
                    j as int <= b as int - 1,
                    s_count >= 0,
            ;
            assert((b as int - 1) * s_count == (b as int) * s_count - s_count) by (nonlinear_arith);
            assert((b as int) * s_count == s_count * (b as int)) by (nonlinear_arith);
            assert(pair_of(lo as int, b as int) == t as int);
            assert(pair_of(hi as int, b as int) == t as int);
        }
        let widx = j * stride;
        proof {
            assert(tw@[widx as int].wf());
            assert(buf@[lo as int] == orig[lo as int]);
            assert(buf@[hi as int] == orig[hi as int]);
            assert(orig[lo as int].wf());
            assert(orig[hi as int].wf());
        }
        let w = tw[widx];
        let x = buf[lo];
        let y = buf[hi];
        let wy = w.mul(y);
        let nlo = x.add(wy);
        let nhi = x.sub(wy);
        buf.set(lo, nlo);
        buf.set(hi, nhi);
        proof {
            lemma_add_mod_noop_right(x@, w@ * y@, modulus());
            lemma_sub_mod_noop_right(x@, w@ * y@, modulus());
            assert(nlo@ == target[lo as int]);
            assert(nhi@ == target[hi as int]);
            assert forall|i2: int|
                0 <= i2 < n && pair_of(i2, b as int) == t as int implies i2 == lo as int || i2
                == hi as int by {
                lemma_fundamental_div_mod(i2, 2 * b as int);
                lemma_mod_bound(i2, 2 * b as int);
                let q = i2 / (2 * b as int);
                let r = i2 % (2 * b as int);
                if r < b as int {
                    assert(i2 == (2 * q) * (b as int) + r) by (nonlinear_arith)
                        requires
                            i2 == q * (2 * b as int) + r,
                    ;
                    lemma_fundamental_div_mod_converse(i2, b as int, 2 * q, r);
                    let v = q * (b as int) + r;
                    lemma_fundamental_div_mod_converse(v, b as int, q, r);
                    lemma_fundamental_div_mod_converse(v, b as int, block as int, j as int);
                } else {
                    let r2 = r - b as int;
                    assert(i2 == (2 * q + 1) * (b as int) + r2) by (nonlinear_arith)
                        requires
                            i2 == q * (2 * b as int) + r,
                            r2 == r - b as int,
                    ;
                    lemma_fundamental_div_mod_converse(i2, b as int, 2 * q + 1, r2);
                    let v = q * (b as int) + r2;
                    lemma_fundamental_div_mod_converse(v, b as int, q, r2);
                    lemma_fundamental_div_mod_converse(v, b as int, block as int, j as int);
                }
            }
            assert forall|i3: int| 0 <= i3 < n implies (#[trigger] buf@[i3]).wf() by {
                if i3 == lo as int {
                } else if i3 == hi as int {
                } else {
                }
            }
            assert forall|x2: int|
                0 <= x2 < n && pair_of(x2, b as int) < t as int + 1 implies (#[trigger] buf@[x2])@
                == target[x2] by {
                if x2 == lo as int {
                } else if x2 == hi as int {
                } else {
                    assert(pair_of(x2, b as int) != t as int);
                }
            }
        }
        t = t + 1;
    }
    proof {
        assert forall|i: int| 0 <= i < n implies pair_of(i, b as int) < half as int by {
            lemma_fundamental_div_mod(i, 2 * b as int);
            lemma_mod_bound(i, 2 * b as int);
            lemma_mod_bound(i, b as int);
            let q = i / (2 * b as int);
            assert(i == (2 * b as int) * q + i % (2 * b as int));
            assert(q * (2 * b as int) == (2 * b as int) * q) by (nonlinear_arith);
            assert(q * (2 * b as int) <= i);
            assert(q < s_count) by (nonlinear_arith)
                requires
                    q * (2 * b as int) <= i,
                    i < s_count * (2 * b as int),
                    (2 * b as int) > 0,
                    s_count >= 0,
            ;
            assert(q * (b as int) <= (s_count - 1) * (b as int)) by (nonlinear_arith)
                requires
                    q <= s_count - 1,
                    (b as int) > 0,
            ;
            assert((s_count - 1) * (b as int) == s_count * (b as int) - (b as int))
                by (nonlinear_arith);
        }
        assert(seq_val(buf@) =~= target);
    }
}

fn kernel_fft_multiple(buf: &mut Vec<Fp>, tw: &Vec<Fp>, b: usize)
    requires
        seq_wf(old(buf)@),
        seq_wf(tw@),
        valid_size(old(buf)@.len() as int),
        tw@.len() == old(buf)@.len() / 2,
        spec_is_pow2(b as int),
        1 <= b < old(buf)@.len(),
    ensures
        final(buf)@.len() == old(buf)@.len(),
        seq_wf(final(buf)@),
        seq_val(final(buf)@) == fft_multiple_spec(seq_val(old(buf)@), seq_val(tw@), b as int),
{
    let ghost orig = seq_val(buf@);
    let ghost twv = seq_val(tw@);
    let n = buf.len();
    let mut s = b;
    while s < n && s <= MAX_FUSED_BOXES
        invariant
            buf@.len() == n,
            valid_size(n as int),
            tw@.len() == n / 2,
            seq_wf(tw@),
            seq_wf(buf@),
            twv == seq_val(tw@),
            spec_is_pow2(s as int),
            1 <= s,
            fft_multiple_spec(orig, twv, b as int) == fft_multiple_spec(
                seq_val(buf@),
                twv,
                s as int,
            ),
        decreases n - s,
    {
        kernel_butterfly(buf, tw, s);
        s = s * 2;
    }
}

fn kernel_mul_assign(buf: &mut Vec<Fp>, factors: &Vec<Fp>)
    requires
        seq_wf(old(buf)@),
        seq_wf(factors@),
        factors@.len() == old(buf)@.len(),
    ensures
        final(buf)@.len() == old(buf)@.len(),
        seq_wf(final(buf)@),
        seq_val(final(buf)@) == mul_assign_spec(seq_val(old(buf)@), seq_val(factors@)),
{
    let ghost orig = buf@;
    let n = buf.len();
    let mut i: usize = 0;
    while i < n
        invariant
            buf@.len() == n,
            orig.len() == n,
            factors@.len() == n,
            seq_wf(orig),
            seq_wf(factors@),
            seq_wf(buf@),
            i <= n,
            forall|k: int| i <= k < n ==> #[trigger] buf@[k] == orig[k],
            forall|k: int|
                0 <= k < i ==> (#[trigger] buf@[k])@ == (orig[k]@ * factors@[k]@) % modulus(),
        decreases n - i,
    {
        let v = buf[i].mul(factors[i]);
        buf.set(i, v);
        i = i + 1;
    }
    proof {
        assert(seq_val(buf@) =~= mul_assign_spec(seq_val(orig), seq_val(factors@)));
    }
}

fn kernel_mul_pow(dst: &mut Vec<Fp>, src: &Vec<Fp>, base: Fp, shift: usize, power: usize)
    requires
        old(dst)@.len() == src@.len(),
        seq_wf(src@),
        base.wf(),
    ensures
        final(dst)@.len() == old(dst)@.len(),
        seq_wf(final(dst)@),
        seq_val(final(dst)@) == mul_pow_spec(seq_val(src@), base@, shift as int, power as int),
{
    let n = dst.len();
    let step = base.pow(shift as u64);
    let mut f = base.pow(power as u64);
    let mut i: usize = 0;
    while i < n
        invariant
            dst@.len() == n,
            src@.len() == n,
            seq_wf(src@),
            base.wf(),
            step.wf(),
            f.wf(),
            step@ == pow(base@, shift as nat) % modulus(),
            f@ == pow(base@, (power + shift * i) as nat) % modulus(),
            i <= n,
            forall|k: int|
                0 <= k < i ==> (#[trigger] dst@[k]).wf() && dst@[k]@ == (src@[k]@ * pow(
                    base@,
                    (power + shift * k) as nat,
                )) % modulus(),
        decreases n - i,
    {
        let v = src[i].mul(f);
        proof {
            lemma_mul_mod_noop_right(src@[i as int]@, pow(base@, (power + shift * i) as nat), modulus());
        }
        dst.set(i, v);
        let ghost e1 = (power + shift * i) as nat;
        f = f.mul(step);
        proof {
            lemma_mul_mod_noop_general(pow(base@, e1), pow(base@, shift as nat), modulus());
            lemma_pow_adds(base@, e1, shift as nat);
            assert(power + shift * (i + 1) == e1 + shift) by (nonlinear_arith)
                requires
                    e1 == power + shift * i,
            ;
        }
        i = i + 1;
    }
    proof {
        assert(seq_val(dst@) =~= mul_pow_spec(seq_val(src@), base@, shift as int, power as int));
    }
}

fn kernel_add_assign(dst: &mut Vec<Fp>, src: &Vec<Fp>)
    requires
        seq_wf(old(dst)@),
        seq_wf(src@),
        src@.len() == old(dst)@.len(),
    ensures
        final(dst)@.len() == old(dst)@.len(),
        seq_wf(final(dst)@),
        seq_val(final(dst)@) == add_assign_spec(seq_val(old(dst)@), seq_val(src@)),
{
    let ghost orig = dst@;
    let n = dst.len();
    let mut i: usize = 0;
    while i < n
        invariant
            dst@.len() == n,
            orig.len() == n,
            src@.len() == n,
            seq_wf(orig),
            seq_wf(src@),
            seq_wf(dst@),
            i <= n,
            forall|k: int| i <= k < n ==> #[trigger] dst@[k] == orig[k],
            forall|k: int|
                0 <= k < i ==> (#[trigger] dst@[k])@ == (orig[k]@ + src@[k]@) % modulus(),
        decreases n - i,
    {
        let v = dst[i].add(src[i]);
        dst.set(i, v);
        i = i + 1;
    }
    proof {
        assert(seq_val(dst@) =~= add_assign_spec(seq_val(orig), seq_val(src@)));
    }
}

// ---------------------------------------------------------------------------
// Device buffer pool and command sequence
// ---------------------------------------------------------------------------

/// The device-private buffers of one transform invocation. A buffer is
/// created by staging host data once; afterwards it is only mutated in
/// place by executed dispatches.
pub struct BufferPool {
    bufs: Vec<Vec<Fp>>,
}

impl View for BufferPool {
    type V = Seq<Seq<int>>;

    closed spec fn view(&self) -> Seq<Seq<int>> {
        Seq::new(self.bufs@.len(), |i: int| seq_val(self.bufs@[i]@))
    }
}

impl BufferPool {
    /// Every element of every buffer is a reduced residue.
    pub closed spec fn wf(self) -> bool {
        forall|i: int| 0 <= i < self.bufs@.len() ==> seq_wf(#[trigger] self.bufs@[i]@)
    }

    /// An empty pool.
    pub fn new() -> (r: BufferPool)
        ensures
            r@.len() == 0,
            r.wf(),
    {
        BufferPool { bufs: Vec::new() }
    }

    /// The number of allocated buffers.
    pub fn len(&self) -> (r: usize)
        ensures
            r == self@.len(),
    {
        self.bufs.len()
    }

    /// The length of one buffer.
    pub fn buffer_len(&self, id: usize) -> (r: usize)
        requires
            id < self@.len(),
        ensures
            r == self@[id as int].len(),
    {
        self.bufs[id].len()
    }

    /// Stages host data into a new device-private buffer and returns its
    /// binding index; the copy happens once per fresh array, not once per
    /// stage.
    pub fn copy_to_private_buffer(&mut self, data: Vec<Fp>) -> (id: usize)
        requires
            old(self).wf(),
            seq_wf(data@),
        ensures
            final(self).wf(),
            final(self)@ == old(self)@.push(seq_val(data@)),
            id == old(self)@.len(),
    {
        let ghost oldv = self@;
        let id = self.bufs.len();
        self.bufs.push(data);
        proof {
            assert(self@ =~= oldv.push(seq_val(data@)));
        }
        id
    }

    /// Reads a buffer back to the host, once the command sequences that
    /// mutate it have executed.
    pub fn read_buffer(&self, id: usize) -> (r: Vec<Fp>)
        requires
            id < self@.len(),
        ensures
            r@.len() == self@[id as int].len(),
            seq_val(r@) == self@[id as int],
            seq_wf(r@) <== self.wf(),
    {
        copy_fp_vec(&self.bufs[id])
    }
}

/// One command sequence: dispatch descriptors in encoding order, each
/// followed by its memory barrier. Executing the sequence applies each
/// dispatch's effect in order; the barrier after every dispatch is what
/// lets consecutive dispatches behave sequentially even though each runs
/// massively parallel on the device.
pub struct CommandSequence {
    dispatches: Vec<Dispatch>,
}

impl View for CommandSequence {
    type V = Seq<Dispatch>;

    closed spec fn view(&self) -> Seq<Dispatch> {
        self.dispatches@
    }
}

impl CommandSequence {
    /// The builder's class invariant: every encoded dispatch is followed
    /// by a memory barrier, so later dispatches observe earlier writes.
    pub open spec fn wf(self) -> bool {
        forall|i: int| 0 <= i < self@.len() ==> (#[trigger] self@[i]).barrier_after
    }

    /// Opens an empty command sequence.
    pub fn new() -> (r: CommandSequence)
        ensures
            r@.len() == 0,
            r.wf(),
    {
        CommandSequence { dispatches: Vec::new() }
    }

    /// The number of encoded dispatches.
    pub fn len(&self) -> (r: usize)
        ensures
            r == self@.len(),
    {
        self.dispatches.len()
    }

    pub(crate) fn push_dispatch(&mut self, d: Dispatch)
        requires
            old(self).wf(),
            d.barrier_after,
        ensures
            final(self).wf(),
            final(self)@ == old(self)@.push(d),
    {
        self.dispatches.push(d);
    }

    /// Submits the sequence against the pool: dispatches execute in
    /// encoding order, each observing the writes of all previous ones.
    pub fn execute(&self, pool: &mut BufferPool)
        requires
            self.wf(),
            old(pool).wf(),
            forall|k: int| 0 <= k < self@.len() ==> dispatch_wf(#[trigger] self@[k], old(pool)@),
        ensures
            final(pool).wf(),
            final(pool)@ == exec_seq_spec(self@, old(pool)@),
    {
        let ghost p0 = pool@;
        let m = self.dispatches.len();
        let mut k: usize = 0;
        while k < m
            invariant
                k <= m,
                m == self@.len(),
                pool.wf(),
                pool_shape(pool@) == pool_shape(p0),
                forall|j: int| 0 <= j < m ==> dispatch_wf(#[trigger] self@[j], p0),
                pool@ == exec_seq_spec(self@.take(k as int), p0),
            decreases m - k,
        {
            let d = self.dispatches[k];
            let ghost prev = pool@;
            let ghost prev_bufs = pool.bufs@;
            proof {
                assert(dispatch_wf(self@[k as int], p0));
                lemma_dispatch_wf_shape(d, p0, prev);
                assert(pool@[d.dst as int] == seq_val(pool.bufs@[d.dst as int]@));
            }
            match d.kernel {
                KernelName::BitReverse => {
                    proof {
                        lemma_pow2_lg(d.n as int);
                        lemma_lg_bound(d.n as int);
                    }
                    let bits = log2_exec(d.n);
                    kernel_bit_reverse(&mut pool.bufs[d.dst], bits);
                },
                KernelName::FftMultiple => {
                    let twc = copy_fp_vec(&pool.bufs[d.src]);
                    kernel_fft_multiple(&mut pool.bufs[d.dst], &twc, d.num_boxes);
                },
                KernelName::FftSingle => {
                    let twc = copy_fp_vec(&pool.bufs[d.src]);
                    kernel_butterfly(&mut pool.bufs[d.dst], &twc, d.num_boxes);
                },
                KernelName::MulAssign => {
                    let fc = copy_fp_vec(&pool.bufs[d.src]);
                    kernel_mul_assign(&mut pool.bufs[d.dst], &fc);
                },
                KernelName::MulPow => {
                    let sc = copy_fp_vec(&pool.bufs[d.src]);
                    let base = Fp::new(d.base);
                    proof {
                        lemma_small_mod(d.base as nat, modulus() as nat);
                    }
                    kernel_mul_pow(&mut pool.bufs[d.dst], &sc, base, d.shift, d.power);
                },
                KernelName::AddAssign => {
                    let sc = copy_fp_vec(&pool.bufs[d.src]);
                    kernel_add_assign(&mut pool.bufs[d.dst], &sc);
                },
            }
            proof {
                assert forall|t2: int| 0 <= t2 < pool@.len() implies pool@[t2] == dispatch_effect(
                    d,
                    prev,
                )[t2] by {
                    if t2 != d.dst as int {
                        assert(pool.bufs@[t2] == prev_bufs[t2]);
                    }
                }
                assert(pool@ =~= dispatch_effect(d, prev));
                lemma_dispatch_effect_shape(d, prev);
                assert(self@.take(k as int + 1) =~= self@.take(k as int).push(self@[k as int]));
                lemma_exec_seq_push(self@.take(k as int), self@[k as int], p0);
            }
            k = k + 1;
        }
        proof {
            assert(self@.take(m as int) =~= self@);
        }
    }
}

} // verus!
