use fast_poly::command::BufferPool;
use fast_poly::command::CommandSequence;
use fast_poly::field::Fp;
use fast_poly::field::FIELD_MODULUS;
use fast_poly::stage::AddAssignStage;
use fast_poly::stage::BitReverseGpuStage;
use fast_poly::stage::KernelModule;
use fast_poly::stage::MulPowStage;
use fast_poly::stage::ScaleAndNormalizeGpuStage;
use fast_poly::transform::forward_transform;
use fast_poly::transform::inverse_transform;
use fast_poly::transform::precompute_twiddles;
use fast_poly::transform::root_of_unity;

const P: u128 = FIELD_MODULUS as u128;

fn fp(x: u64) -> Fp {
    Fp::new(x)
}

fn lcg_values(seed: u64, n: usize) -> Vec<u64> {
    let mut state = seed;
    let mut out = Vec::with_capacity(n);
    for _ in 0..n {
        state = state.wrapping_mul(6364136223846793005).wrapping_add(1442695040888963407);
        out.push(state);
    }
    out
}

fn to_buffer(vals: &[u64]) -> Vec<Fp> {
    vals.iter().map(|&v| Fp::new(v)).collect()
}

fn read_values(pool: &BufferPool, id: usize) -> Vec<u64> {
    pool.read_buffer(id).iter().map(|f| f.val()).collect()
}

fn run_forward(vals: &[u64]) -> Vec<u64> {
    let n = vals.len();
    let library = KernelModule::with_all_kernels();
    let mut pool = BufferPool::new();
    let data = pool.copy_to_private_buffer(to_buffer(vals));
    let root = root_of_unity(n);
    let tw = pool.copy_to_private_buffer(precompute_twiddles(root, n));
    forward_transform(&library, &mut pool, data, tw).unwrap();
    read_values(&pool, data)
}

fn run_inverse(vals: &[u64]) -> Vec<u64> {
    let n = vals.len();
    let library = KernelModule::with_all_kernels();
    let mut pool = BufferPool::new();
    let data = pool.copy_to_private_buffer(to_buffer(vals));
    let root = root_of_unity(n);
    let itw = pool.copy_to_private_buffer(precompute_twiddles(root.inverse(), n));
    inverse_transform(&library, &mut pool, data, itw).unwrap();
    read_values(&pool, data)
}

#[test]
fn twiddle_buffer_is_read_only_through_a_transform() {
    let n = 2048;
    let vals = lcg_values(99, n);
    let library = KernelModule::with_all_kernels();
    let mut pool = BufferPool::new();
    let data = pool.copy_to_private_buffer(to_buffer(&vals));
    let root = root_of_unity(n);
    let twiddles = precompute_twiddles(root, n);
    let expected: Vec<u64> = twiddles.iter().map(|f| f.val()).collect();
    let tw = pool.copy_to_private_buffer(twiddles);
    forward_transform(&library, &mut pool, data, tw).unwrap();
    assert_eq!(read_values(&pool, tw), expected);
}

#[test]
fn impulse_transform_is_all_ones() {
    let n = 2048;
    let mut vals = vec![0u64; n];
    vals[0] = 1;
    let out = run_forward(&vals);
    assert_eq!(out.len(), n);
    for v in out {
        assert_eq!(v, 1);
    }
}

#[test]
fn forward_matches_direct_dft() {
    let n: usize = 4096;
    let vals = lcg_values(0x5eed, n);
    let out = run_forward(&vals);

    // Direct O(n^2) evaluation at the powers of the same root.
    let w = root_of_unity(n).val() as u128;
    let mut wpow = vec![1u128; n];
    for k in 1..n {
        wpow[k] = wpow[k - 1] * w % P;
    }
    for i in 0..n {
        let mut acc: u128 = 0;
        for j in 0..n {
            let term = (vals[j] as u128 % P) * wpow[i * j % n] % P;
            acc = (acc + term) % P;
        }
        assert_eq!(out[i] as u128, acc, "mismatch at index {}", i);
    }
}

#[test]
fn round_trip_identity() {
    let n = 2048;
    let vals: Vec<u64> = lcg_values(42, n).iter().map(|&v| (v as u128 % P) as u64).collect();
    let freq = run_forward(&vals);
    let back = run_inverse(&freq);
    assert_eq!(back, vals);
}

#[test]
fn round_trip_identity_larger_size() {
    let n = 4096;
    let vals: Vec<u64> = lcg_values(7, n).iter().map(|&v| (v as u128 % P) as u64).collect();
    let back = run_inverse(&run_forward(&vals));
    assert_eq!(back, vals);
}

#[test]
fn bit_reverse_twice_restores_buffer() {
    let n = 2048;
    let vals = lcg_values(3, n);
    let library = KernelModule::with_all_kernels();
    let mut pool = BufferPool::new();
    let data = pool.copy_to_private_buffer(to_buffer(&vals));
    let stage = BitReverseGpuStage::new(&library, n).unwrap();
    let mut cmd = CommandSequence::new();
    stage.encode(&mut cmd, data);
    stage.encode(&mut cmd, data);
    cmd.execute(&mut pool);
    let out = read_values(&pool, data);
    let expected: Vec<u64> = vals.iter().map(|&v| v % FIELD_MODULUS).collect();
    assert_eq!(out, expected);
}

#[test]
fn bit_reverse_once_permutes() {
    let n = 2048;
    let mut vals = vec![0u64; n];
    vals[1] = 9;
    let library = KernelModule::with_all_kernels();
    let mut pool = BufferPool::new();
    let data = pool.copy_to_private_buffer(to_buffer(&vals));
    let stage = BitReverseGpuStage::new(&library, n).unwrap();
    let mut cmd = CommandSequence::new();
    stage.encode(&mut cmd, data);
    cmd.execute(&mut pool);
    let out = read_values(&pool, data);
    // index 1 reversed in 11 bits is 2^10
    assert_eq!(out[1024], 9);
    assert_eq!(out[1], 0);
}

#[test]
fn scale_and_normalize_with_ones_is_identity() {
    let n = 2048;
    let vals: Vec<u64> = lcg_values(11, n).iter().map(|&v| (v as u128 % P) as u64).collect();
    let library = KernelModule::with_all_kernels();
    let mut pool = BufferPool::new();
    let data = pool.copy_to_private_buffer(to_buffer(&vals));
    let stage = ScaleAndNormalizeGpuStage::new(&library, &mut pool, n, fp(1), fp(1)).unwrap();
    let mut cmd = CommandSequence::new();
    stage.encode(&mut cmd, data);
    cmd.execute(&mut pool);
    assert_eq!(read_values(&pool, data), vals);
}

#[test]
fn scale_and_normalize_applies_geometric_sequence() {
    let n = 2048;
    let vals = vec![1u64; n];
    let library = KernelModule::with_all_kernels();
    let mut pool = BufferPool::new();
    let data = pool.copy_to_private_buffer(to_buffer(&vals));
    let stage = ScaleAndNormalizeGpuStage::new(&library, &mut pool, n, fp(3), fp(5)).unwrap();
    let mut cmd = CommandSequence::new();
    stage.encode(&mut cmd, data);
    cmd.execute(&mut pool);
    let out = read_values(&pool, data);
    let mut expected: u128 = 5;
    for i in 0..n {
        assert_eq!(out[i] as u128, expected, "mismatch at {}", i);
        expected = expected * 3 % P;
    }
}

#[test]
fn mul_pow_with_zero_power_and_shift_is_identity() {
    let n = 2048;
    let vals: Vec<u64> = lcg_values(13, n).iter().map(|&v| (v as u128 % P) as u64).collect();
    let library = KernelModule::with_all_kernels();
    let mut pool = BufferPool::new();
    let data = pool.copy_to_private_buffer(to_buffer(&vals));
    let stage = MulPowStage::new(&library, n, 0, fp(12345)).unwrap();
    let mut cmd = CommandSequence::new();
    stage.encode(&mut cmd, data, data, 0);
    cmd.execute(&mut pool);
    assert_eq!(read_values(&pool, data), vals);
}

#[test]
fn mul_pow_applies_powers_of_base() {
    let n = 2048;
    let vals = vec![1u64; n];
    let library = KernelModule::with_all_kernels();
    let mut pool = BufferPool::new();
    let src = pool.copy_to_private_buffer(to_buffer(&vals));
    let dst = pool.copy_to_private_buffer(to_buffer(&vec![0u64; n]));
    let base: u128 = 7;
    let stage = MulPowStage::new(&library, n, 2, fp(base as u64)).unwrap();
    let mut cmd = CommandSequence::new();
    stage.encode(&mut cmd, dst, src, 3);
    cmd.execute(&mut pool);
    let out = read_values(&pool, dst);
    for i in 0..n {
        // expected: base^(2 * i + 3)
        let mut e: u128 = 1;
        for _ in 0..(2 * i + 3) {
            e = e * base % P;
        }
        assert_eq!(out[i] as u128, e, "mismatch at {}", i);
        if i > 16 {
            break;
        }
    }
}

#[test]
fn add_assign_accumulates_in_any_order() {
    let n = 2048;
    let a: Vec<u64> = lcg_values(21, n).iter().map(|&v| (v as u128 % P) as u64).collect();
    let b: Vec<u64> = lcg_values(22, n).iter().map(|&v| (v as u128 % P) as u64).collect();
    let c: Vec<u64> = lcg_values(23, n).iter().map(|&v| (v as u128 % P) as u64).collect();
    let library = KernelModule::with_all_kernels();

    // a += b; a += c
    let mut pool1 = BufferPool::new();
    let da = pool1.copy_to_private_buffer(to_buffer(&a));
    let db = pool1.copy_to_private_buffer(to_buffer(&b));
    let dc = pool1.copy_to_private_buffer(to_buffer(&c));
    let stage = AddAssignStage::new(&library, n).unwrap();
    let mut cmd = CommandSequence::new();
    stage.encode(&mut cmd, da, db);
    stage.encode(&mut cmd, da, dc);
    cmd.execute(&mut pool1);
    let seq_result = read_values(&pool1, da);

    // t = b + c; a += t
    let mut pool2 = BufferPool::new();
    let da2 = pool2.copy_to_private_buffer(to_buffer(&a));
    let db2 = pool2.copy_to_private_buffer(to_buffer(&b));
    let dc2 = pool2.copy_to_private_buffer(to_buffer(&c));
    let mut cmd2 = CommandSequence::new();
    stage.encode(&mut cmd2, db2, dc2);
    stage.encode(&mut cmd2, da2, db2);
    cmd2.execute(&mut pool2);
    let fused_result = read_values(&pool2, da2);

    assert_eq!(seq_result, fused_result);
    for i in 0..n {
        let expected = ((a[i] as u128 + b[i] as u128 + c[i] as u128) % P) as u64;
        assert_eq!(seq_result[i], expected);
    }
}
