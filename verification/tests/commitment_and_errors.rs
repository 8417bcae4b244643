use libra::circuit::Circuit;
use libra::commitment::{commit, verify_open};
use libra::field::{Fr, P};
use libra::params::Parameters;
use libra::Error;

#[test]
fn commitment_opens_to_one_vector_only() {
    let params = Parameters::new(99, 8);
    let values: Vec<Fr> = (1u64..=8).map(Fr::from_u64).collect();
    let blind = Fr::from_u64(12345);
    let com = commit(&params.gens, params.h, &values, blind);

    assert!(verify_open(&params.gens, params.h, com, &values, blind));

    let mut other = values.clone();
    other[3] = other[3].add(Fr::one());
    assert!(!verify_open(&params.gens, params.h, com, &other, blind));

    let wrong_blind = blind.add(Fr::one());
    assert!(!verify_open(&params.gens, params.h, com, &values, wrong_blind));
}

#[test]
fn commitment_is_deterministic_and_blinding_matters() {
    let params = Parameters::new(99, 8);
    let values: Vec<Fr> = (1u64..=8).map(Fr::from_u64).collect();
    let c1 = commit(&params.gens, params.h, &values, Fr::from_u64(1));
    let c2 = commit(&params.gens, params.h, &values, Fr::from_u64(1));
    let c3 = commit(&params.gens, params.h, &values, Fr::from_u64(2));
    assert_eq!(c1, c2);
    assert_ne!(c1, c3);
}

#[test]
fn empty_circuit_is_rejected() {
    let layers: Vec<Vec<(u8, usize, usize)>> = Vec::new();
    assert_eq!(Circuit::new(2, 2, &layers), Err(Error::EmptyCircuit));
}

#[test]
fn empty_layer_is_rejected() {
    let layers: Vec<Vec<(u8, usize, usize)>> = vec![vec![(0, 0, 1)], vec![]];
    assert_eq!(Circuit::new(2, 2, &layers), Err(Error::EmptyLayer));
    let layers: Vec<Vec<(u8, usize, usize)>> = vec![vec![(0, 0, 0)]];
    assert_eq!(Circuit::new(0, 0, &layers), Err(Error::EmptyLayer));
}

#[test]
fn invalid_gate_tag_is_rejected() {
    let layers: Vec<Vec<(u8, usize, usize)>> = vec![vec![(2, 0, 1)]];
    assert_eq!(Circuit::new(2, 2, &layers), Err(Error::InvalidGate));
}

#[test]
fn out_of_range_wire_is_rejected() {
    let layers: Vec<Vec<(u8, usize, usize)>> = vec![vec![(0, 0, 4)]];
    assert_eq!(Circuit::new(2, 2, &layers), Err(Error::WireOutOfRange));
    // a second-layer gate may only read the first layer's two outputs
    let layers: Vec<Vec<(u8, usize, usize)>> =
        vec![vec![(0, 0, 1), (1, 2, 3)], vec![(0, 0, 2)]];
    assert_eq!(Circuit::new(2, 2, &layers), Err(Error::WireOutOfRange));
}

#[test]
fn evaluate_checks_vector_lengths() {
    let layers: Vec<Vec<(u8, usize, usize)>> = vec![vec![(0, 0, 1)]];
    let circuit = Circuit::new(1, 1, &layers).unwrap();
    let one = vec![Fr::one()];
    let two = vec![Fr::one(), Fr::one()];
    assert_eq!(circuit.evaluate(&two, &one), Err(Error::LengthMismatch));
    assert_eq!(circuit.evaluate(&one, &two), Err(Error::LengthMismatch));
    let vals = circuit.evaluate(&one, &one).unwrap();
    assert_eq!(vals.len(), 2);
    assert_eq!(vals[1], vec![Fr::from_u64(2)]);
}

#[test]
fn field_arithmetic_matches_modular_integers() {
    let a = Fr::from_u64(P - 1);
    let b = Fr::from_u64(5);
    assert_eq!(a.add(b), Fr::from_u64(4));
    assert_eq!(b.sub(a), Fr::from_u64(6));
    assert_eq!(Fr::from_u64(P), Fr::zero());
    assert_eq!(Fr::from_u64(2).pow(10), Fr::from_u64(1024));
    // (P - 1) * (P - 1) = P^2 - 2P + 1, which is 1 modulo P
    assert_eq!(a.mul(a), Fr::one());
}
