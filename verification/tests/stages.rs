use fast_poly::command::BufferPool;
use fast_poly::command::CommandSequence;
use fast_poly::field::Fp;
use fast_poly::stage::AddAssignStage;
use fast_poly::stage::BitReverseGpuStage;
use fast_poly::stage::FftGpuStage;
use fast_poly::stage::KernelModule;
use fast_poly::stage::KernelName;
use fast_poly::stage::MulPowStage;
use fast_poly::stage::ScaleAndNormalizeGpuStage;
use fast_poly::stage::StageError;
use fast_poly::stage::Variant;
use fast_poly::stage::fft_kernel_name;
use fast_poly::stage::is_power_of_two;
use fast_poly::transform::forward_transform;
use fast_poly::transform::precompute_twiddles;
use fast_poly::transform::root_of_unity;

#[test]
fn construction_rejects_sizes_below_minimum() {
    let library = KernelModule::with_all_kernels();
    let mut pool = BufferPool::new();
    assert_eq!(
        FftGpuStage::new(&library, 1024, 1, Variant::Multiple).unwrap_err(),
        StageError::SizeOutOfRange
    );
    assert_eq!(BitReverseGpuStage::new(&library, 1024).unwrap_err(), StageError::SizeOutOfRange);
    assert_eq!(
        ScaleAndNormalizeGpuStage::new(&library, &mut pool, 1024, Fp::one(), Fp::one())
            .unwrap_err(),
        StageError::SizeOutOfRange
    );
    assert_eq!(
        MulPowStage::new(&library, 1024, 0, Fp::one()).unwrap_err(),
        StageError::SizeOutOfRange
    );
    assert_eq!(AddAssignStage::new(&library, 1024).unwrap_err(), StageError::SizeOutOfRange);
}

#[test]
fn construction_rejects_sizes_above_maximum() {
    let library = KernelModule::with_all_kernels();
    let too_big: usize = 2147483648;  // 2^31
    assert_eq!(
        FftGpuStage::new(&library, too_big, 1, Variant::Single).unwrap_err(),
        StageError::SizeOutOfRange
    );
    assert_eq!(BitReverseGpuStage::new(&library, too_big).unwrap_err(), StageError::SizeOutOfRange);
    assert_eq!(AddAssignStage::new(&library, too_big).unwrap_err(), StageError::SizeOutOfRange);
}

#[test]
fn construction_rejects_non_power_of_two_size() {
    let library = KernelModule::with_all_kernels();
    assert_eq!(
        FftGpuStage::new(&library, 3000, 1, Variant::Multiple).unwrap_err(),
        StageError::SizeNotPowerOfTwo
    );
    assert_eq!(
        BitReverseGpuStage::new(&library, 4097).unwrap_err(),
        StageError::SizeNotPowerOfTwo
    );
}

#[test]
fn construction_rejects_bad_box_counts() {
    let library = KernelModule::with_all_kernels();
    assert_eq!(
        FftGpuStage::new(&library, 2048, 3, Variant::Single).unwrap_err(),
        StageError::BoxCountNotPowerOfTwo
    );
    assert_eq!(
        FftGpuStage::new(&library, 2048, 2048, Variant::Single).unwrap_err(),
        StageError::BoxCountNotBelowSize
    );
    assert_eq!(
        FftGpuStage::new(&library, 2048, 4096, Variant::Single).unwrap_err(),
        StageError::BoxCountNotBelowSize
    );
}

#[test]
fn construction_rejects_missing_kernel() {
    let library = KernelModule::with_kernels(vec![KernelName::FftMultiple, KernelName::FftSingle]);
    assert_eq!(BitReverseGpuStage::new(&library, 2048).unwrap_err(), StageError::KernelNotFound);
    assert_eq!(AddAssignStage::new(&library, 2048).unwrap_err(), StageError::KernelNotFound);
    assert!(FftGpuStage::new(&library, 2048, 1, Variant::Multiple).is_ok());
}

#[test]
fn forward_transform_requires_all_fft_kernels() {
    let library = KernelModule::with_kernels(vec![
        KernelName::BitReverse,
        KernelName::FftMultiple,
    ]);
    let n = 2048;
    let mut pool = BufferPool::new();
    let data = pool.copy_to_private_buffer(vec![Fp::zero(); n]);
    let root = root_of_unity(n);
    let tw = pool.copy_to_private_buffer(precompute_twiddles(root, n));
    assert_eq!(
        forward_transform(&library, &mut pool, data, tw).unwrap_err(),
        StageError::KernelNotFound
    );
}

#[test]
fn kernel_name_registry_maps_variants() {
    assert_eq!(fft_kernel_name(Variant::Multiple), KernelName::FftMultiple);
    assert_eq!(fft_kernel_name(Variant::Single), KernelName::FftSingle);
    let library = KernelModule::with_all_kernels();
    assert_eq!(library.get_function(KernelName::MulPow), Some(KernelName::MulPow));
    let partial = KernelModule::with_kernels(vec![KernelName::MulAssign]);
    assert_eq!(partial.get_function(KernelName::BitReverse), None);
}

#[test]
fn encode_appends_exactly_one_dispatch() {
    let library = KernelModule::with_all_kernels();
    let n = 2048;
    let stage = BitReverseGpuStage::new(&library, n).unwrap();
    let fft = FftGpuStage::new(&library, n, 1, Variant::Multiple).unwrap();
    let mut cmd = CommandSequence::new();
    assert_eq!(cmd.len(), 0);
    stage.encode(&mut cmd, 0);
    assert_eq!(cmd.len(), 1);
    fft.encode(&mut cmd, 0, 1);
    assert_eq!(cmd.len(), 2);
}

#[test]
fn power_of_two_checks() {
    assert!(is_power_of_two(1));
    assert!(is_power_of_two(2048));
    assert!(!is_power_of_two(0));
    assert!(!is_power_of_two(3000));
}
