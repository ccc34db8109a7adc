use ceremony_core::field::{
    add_mod, commit_poly, eval_poly, inv_mod, lagrange_combine, mul_mod, sub_mod,
    verify_share_against_commitments, FIELD_MODULUS, GENERATOR,
};

#[test]
fn add_sub_mul_exact_values() {
    assert_eq!(add_mod(200, 100), 49);
    assert_eq!(add_mod(0, 0), 0);
    assert_eq!(add_mod(250, 1), 0);
    assert_eq!(sub_mod(5, 7), 249);
    assert_eq!(sub_mod(7, 5), 2);
    assert_eq!(sub_mod(0, 250), 1);
    assert_eq!(mul_mod(250, 250), 1);
    assert_eq!(mul_mod(41, 97), 212);
    assert_eq!(mul_mod(41, 7), 36);
}

#[test]
fn every_nonzero_scalar_has_an_inverse() {
    for x in 1..FIELD_MODULUS {
        let inv = inv_mod(x);
        assert!(inv >= 1 && inv < FIELD_MODULUS);
        assert_eq!(inv * x % FIELD_MODULUS, 1);
    }
    assert_eq!(inv_mod(1), 1);
    assert_eq!(inv_mod(0), 0);
}

#[test]
fn polynomial_evaluation_exact() {
    let coeffs = vec![5u64, 7, 11];
    assert_eq!(eval_poly(&coeffs, 0), 5);
    assert_eq!(eval_poly(&coeffs, 1), 23);
    assert_eq!(eval_poly(&coeffs, 2), 63);
    assert_eq!(eval_poly(&Vec::new(), 9), 0);
}

#[test]
fn commitments_scale_by_generator() {
    assert_eq!(GENERATOR, 7);
    let coeffs = vec![5u64, 7, 11];
    assert_eq!(commit_poly(&coeffs), vec![35, 49, 77]);
    let big = vec![250u64];
    assert_eq!(commit_poly(&big), vec![250 * 7 % 251]);
}

#[test]
fn lagrange_interpolation_recovers_constant_term() {
    // the polynomial 41 + 53 x + 61 x^2 through x = 1, 2, 3
    let xs = vec![1u64, 2, 3];
    let ys = vec![155u64, 140, 247];
    assert_eq!(lagrange_combine(&xs, &ys), 41);
    // a line through two points
    let xs2 = vec![1u64, 2];
    let ys2 = vec![30u64, 50];
    assert_eq!(lagrange_combine(&xs2, &ys2), 10);
}

#[test]
fn dealt_shares_verify_against_commitments() {
    let coeffs = vec![5u64, 7, 11];
    let commitments = commit_poly(&coeffs);
    for x in 1..=5u64 {
        let share = eval_poly(&coeffs, x);
        assert!(verify_share_against_commitments(share, &commitments, x));
        assert!(!verify_share_against_commitments((share + 1) % 251, &commitments, x));
    }
}
