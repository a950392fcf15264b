use fast_poly::field::Fp;
use fast_poly::field::FIELD_MODULUS;
use fast_poly::options::ProofOptions;
use fast_poly::stage::StageError;
use fast_poly::transform::root_of_unity;
use fast_poly::utils::Radix2EvaluationDomain;
use fast_poly::utils::ceil_power_of_two;
use fast_poly::utils::conjectured_security_level;
use fast_poly::utils::evaluate_vanishing_polynomial;
use fast_poly::utils::fill_vanishing_polynomial;
use fast_poly::utils::horner_evaluate;
use fast_poly::utils::interleave;
use fast_poly::utils::synthetic_divide;

const P: u128 = FIELD_MODULUS as u128;

fn fp(x: u64) -> Fp {
    Fp::new(x)
}

#[test]
fn field_arithmetic_basics() {
    let a = fp(FIELD_MODULUS - 1);
    let b = fp(2);
    assert_eq!(a.add(b).val(), 1);
    assert_eq!(b.sub(a).val(), 3);
    assert_eq!(a.mul(a).val(), 1); // (-1) * (-1)
    assert_eq!(fp(3).pow(4).val(), 81);
    let x = fp(123456789);
    assert_eq!(x.mul(x.inverse()).val(), 1);
}

#[test]
fn roots_of_unity_have_expected_order() {
    let w = root_of_unity(2048);
    assert_eq!(w.pow(2048).val(), 1);
    assert_ne!(w.pow(1024).val(), 1);
    let w4 = root_of_unity(4096);
    assert_eq!(w4.mul(w4).val(), root_of_unity(2048).val());
}

#[test]
fn ceil_power_of_two_cases() {
    assert_eq!(ceil_power_of_two(0), 1);
    assert_eq!(ceil_power_of_two(1), 1);
    assert_eq!(ceil_power_of_two(3), 4);
    assert_eq!(ceil_power_of_two(2048), 2048);
    assert_eq!(ceil_power_of_two(2049), 4096);
}

#[test]
fn horner_evaluates_polynomial() {
    // 1 + 2 x + 3 x^2 at x = 2: 17
    let coeffs = vec![fp(1), fp(2), fp(3)];
    assert_eq!(horner_evaluate(&coeffs, &fp(2)).val(), 17);
    let empty: Vec<Fp> = Vec::new();
    assert_eq!(horner_evaluate(&empty, &fp(2)).val(), 0);
}

#[test]
fn synthetic_division_by_linear_factor() {
    // (x - 3)(x + 5) = x^2 + 2x - 15; dividing by (x - 3) leaves x + 5.
    let minus_15 = fp(FIELD_MODULUS - 15);
    let mut coeffs = vec![minus_15, fp(2), fp(1)];
    synthetic_divide(&mut coeffs, 1, fp(3));
    assert_eq!(coeffs[0].val(), 5);
    assert_eq!(coeffs[1].val(), 1);
    assert_eq!(coeffs[2].val(), 0);
}

#[test]
fn vanishing_polynomial_is_zero_on_the_domain() {
    let domain = Radix2EvaluationDomain::new(2048).unwrap();
    let w = root_of_unity(2048);
    assert_eq!(evaluate_vanishing_polynomial(&domain, w).val(), 0);
    assert_eq!(evaluate_vanishing_polynomial(&domain, Fp::one()).val(), 0);
    // off the domain: tau = 2, 2^2048 - 1
    let expected = fp(2).pow(2048).sub(Fp::one());
    assert_eq!(evaluate_vanishing_polynomial(&domain, fp(2)).val(), expected.val());
}

#[test]
fn vanishing_polynomial_respects_coset_offset() {
    let domain = Radix2EvaluationDomain::new(2048).unwrap().with_offset(fp(3));
    // at tau = 3 * w^k the value is 3^n w^(kn) - 3^n = 0; take k = 0.
    assert_eq!(evaluate_vanishing_polynomial(&domain, fp(3)).val(), 0);
    let expected = fp(2).pow(2048).sub(fp(3).pow(2048));
    assert_eq!(evaluate_vanishing_polynomial(&domain, fp(2)).val(), expected.val());
}

#[test]
fn fill_vanishing_polynomial_writes_evaluations() {
    let vanish = Radix2EvaluationDomain::new(2048).unwrap();
    let eval = Radix2EvaluationDomain::new(4096).unwrap().with_offset(fp(3));
    let mut dst = vec![Fp::zero(); 8];
    fill_vanishing_polynomial(&mut dst, &vanish, &eval);
    // dst[i] = 3^2048 * (g^2048)^i - 1, where g generates the 4096-point
    // domain, so g^2048 has order two.
    let so = fp(3).pow(2048);
    let sg = root_of_unity(4096).pow(2048);
    let mut acc = so;
    for i in 0..8 {
        assert_eq!(dst[i].val(), acc.sub(Fp::one()).val(), "mismatch at {}", i);
        acc = acc.mul(sg);
    }
    // the generator power alternates, so the evaluations have period two
    assert_eq!(dst[0].val(), dst[2].val());
    assert_ne!(dst[0].val(), dst[1].val());
}

#[test]
fn interleave_gathers_strided_rows() {
    let source = vec![1u64, 2, 3, 4, 5, 6];
    let rows = interleave::<u64, 2>(&source);
    assert_eq!(rows.len(), 3);
    assert_eq!(rows[0], vec![1, 4]);
    assert_eq!(rows[1], vec![2, 5]);
    assert_eq!(rows[2], vec![3, 6]);
    let odd = vec![1u64, 2, 3, 4, 5];
    let rows2 = interleave::<u64, 2>(&odd);
    assert_eq!(rows2.len(), 2);
    assert_eq!(rows2[0], vec![1, 3]);
    assert_eq!(rows2[1], vec![2, 4]);
}

#[test]
fn security_level_without_grinding_contribution() {
    // blowup 4, trace 1024: trailing zeros 12, field security 112;
    // 2 bits per query * 30 queries = 60 < 80, no grinding;
    // min(112, 60) - 1 = 59, below the hash security 128.
    assert_eq!(conjectured_security_level(124, 128, 4, 1024, 30, 16), 59);
}

#[test]
fn security_level_with_grinding_and_hash_cap() {
    // blowup 16, trace 1024: trailing zeros 14, field security 226;
    // 4 bits per query * 30 queries = 120 >= 80, plus grinding 16 = 136;
    // min(226, 136) - 1 = 135, capped by hash security 128.
    assert_eq!(conjectured_security_level(240, 128, 16, 1024, 30, 16), 128);
}

#[test]
fn domain_construction_validates_size() {
    assert_eq!(Radix2EvaluationDomain::new(1024).unwrap_err(), StageError::SizeOutOfRange);
    assert_eq!(Radix2EvaluationDomain::new(1000).unwrap_err(), StageError::SizeNotPowerOfTwo);
    let d = Radix2EvaluationDomain::new(2048).unwrap();
    assert_eq!(d.size, 2048);
    assert_eq!(d.log_size, 11);
}

#[test]
fn proof_options_round_trip_to_fri_options() {
    let options = ProofOptions::new(27, 4, 16, 8, 64);
    assert_eq!(options.num_queries, 27);
    assert_eq!(options.lde_blowup_factor, 4);
    let fri = options.into_fri_options();
    assert_eq!(fri.blowup_factor, 4);
    assert_eq!(fri.folding_factor, 8);
    assert_eq!(fri.max_remainder_size, 64);
}

#[test]
fn modulus_wraps_at_construction() {
    assert_eq!(Fp::new(FIELD_MODULUS).val(), 0);
    assert_eq!(Fp::new(FIELD_MODULUS.wrapping_add(0)).val(), 0);
    assert_eq!((P - 1) as u64, fp(0).sub(fp(1)).val());
}
