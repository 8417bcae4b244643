use libra::evaluate::{chi_eval, eval_mle, poly_eval};
use libra::field::{Fr, P};
use libra::transcript::Transcript;

fn frs(xs: &[u64]) -> Vec<Fr> {
    xs.iter().map(|&x| Fr::from_u64(x)).collect()
}

#[test]
fn mle_agrees_on_hypercube_vertices() {
    let values = frs(&[1, 2, 3, 4]);
    let corners = [
        (0u64, 0u64, 1u64),
        (1, 0, 2),
        (0, 1, 3),
        (1, 1, 4),
    ];
    for &(r0, r1, want) in corners.iter() {
        let point = frs(&[r0, r1]);
        assert_eq!(eval_mle(&values, &point), Fr::from_u64(want));
    }
}

#[test]
fn mle_exact_value_off_the_cube() {
    // (1-2)(1-3)*1 + 2(1-3)*2 + (1-2)*3*3 + 2*3*4 = 2 - 8 - 9 + 24 = 9
    let values = frs(&[1, 2, 3, 4]);
    let point = frs(&[2, 3]);
    assert_eq!(eval_mle(&values, &point), Fr::from_u64(9));
}

#[test]
fn mle_pads_short_vectors_with_zeroes() {
    let values = frs(&[5, 6, 7]);
    let point = frs(&[1, 1]);
    assert_eq!(eval_mle(&values, &point), Fr::zero());
}

#[test]
fn horner_evaluation_exact() {
    // 4 + 3x + 2x^2 at x = 5 is 69
    let coeffs = frs(&[4, 3, 2]);
    assert_eq!(poly_eval(&coeffs, Fr::from_u64(5)), Fr::from_u64(69));
    assert_eq!(poly_eval(&coeffs, Fr::zero()), Fr::from_u64(4));
    let empty: Vec<Fr> = Vec::new();
    assert_eq!(poly_eval(&empty, Fr::from_u64(5)), Fr::zero());
}

#[test]
fn chi_is_an_indicator_on_the_cube() {
    let point = frs(&[1, 0, 1]);
    // the vertex with bits (1,0,1) is index 5
    for idx in 0..8usize {
        let want = if idx == 5 { Fr::one() } else { Fr::zero() };
        assert_eq!(chi_eval(&point, idx), want);
    }
}

#[test]
fn transcript_is_deterministic_and_order_sensitive() {
    let mut t1 = Transcript::new();
    let mut t2 = Transcript::new();
    t1.absorb(Fr::from_u64(10));
    t1.absorb(Fr::from_u64(20));
    t2.absorb(Fr::from_u64(10));
    t2.absorb(Fr::from_u64(20));
    assert_eq!(t1.squeeze(), t2.squeeze());
    assert_eq!(t1.squeeze(), t2.squeeze());

    let mut t3 = Transcript::new();
    t3.absorb(Fr::from_u64(20));
    t3.absorb(Fr::from_u64(10));
    let mut t4 = Transcript::new();
    t4.absorb(Fr::from_u64(10));
    t4.absorb(Fr::from_u64(20));
    assert_ne!(t3.squeeze(), t4.squeeze());
}

#[test]
fn field_values_are_reduced() {
    assert_eq!(Fr::from_u64(u64::MAX).v < P, true);
    assert_eq!(Fr::from_u64(P + 3), Fr::from_u64(3));
}
