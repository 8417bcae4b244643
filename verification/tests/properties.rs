use libra::circuit::Circuit;
use libra::field::Fr;
use libra::libra_linear_gkr::LinearGKRProof;

fn reference_circuit() -> (Vec<Fr>, Vec<Fr>, Circuit) {
    let mut inputs = Vec::new();
    let mut witnesses = Vec::new();
    let mut value = 0u64;
    for _ in 0..8 {
        value += 1;
        inputs.push(Fr::from_u64(value));
    }
    for _ in 0..8 {
        value += 1;
        witnesses.push(Fr::from_u64(value));
    }
    let layers = vec![
        vec![
            (1, 0, 1),
            (0, 2, 3),
            (0, 4, 5),
            (1, 6, 7),
            (1, 15, 8),
            (1, 9, 10),
            (0, 11, 12),
            (0, 13, 14),
        ],
        vec![(1, 0, 1), (0, 2, 3), (0, 4, 5), (1, 6, 7)],
        vec![(0, 0, 1), (0, 1, 2), (1, 2, 3), (1, 1, 3)],
    ];
    let circuit = Circuit::new(inputs.len(), witnesses.len(), &layers).unwrap();
    (inputs, witnesses, circuit)
}

fn public_vector(inputs: &[Fr], witnesses: &[Fr]) -> Vec<Fr> {
    let mut io = witnesses.to_vec();
    io.extend_from_slice(inputs);
    io
}

#[test]
fn reference_circuit_evaluates_to_fixed_output() {
    let (inputs, witnesses, circuit) = reference_circuit();
    let (_, output) = LinearGKRProof::prover(&circuit, &inputs, &witnesses);
    let expected = vec![
        Fr::from_u64(2337),
        Fr::from_u64(281),
        Fr::from_u64(1638),
        Fr::from_u64(31239),
    ];
    assert_eq!(output, expected);
}

#[test]
fn completeness_on_padded_widths() {
    // widths that are not powers of two exercise the zero padding
    let inputs = vec![Fr::from_u64(3), Fr::from_u64(5)];
    let witnesses = vec![Fr::from_u64(7)];
    let layers = vec![
        vec![(0, 0, 1), (1, 1, 2), (0, 2, 0)],
        vec![(1, 0, 1), (0, 1, 2)],
    ];
    let circuit = Circuit::new(inputs.len(), witnesses.len(), &layers).unwrap();
    let (proof, output) = LinearGKRProof::prover(&circuit, &inputs, &witnesses);
    // base = [7, 3, 5]: layer one = [10, 15, 12], layer two = [150, 27]
    assert_eq!(output, vec![Fr::from_u64(150), Fr::from_u64(27)]);
    let io = public_vector(&inputs, &witnesses);
    assert!(proof.verify(&circuit, &output, &io));
}

#[test]
fn transcript_determinism_of_honest_prover() {
    let (inputs, witnesses, circuit) = reference_circuit();
    let (proof1, output1) = LinearGKRProof::prover(&circuit, &inputs, &witnesses);
    let (proof2, output2) = LinearGKRProof::prover(&circuit, &inputs, &witnesses);
    assert_eq!(output1, output2);
    assert_eq!(proof1, proof2);
}

#[test]
fn flipping_one_output_element_is_rejected() {
    let (inputs, witnesses, circuit) = reference_circuit();
    let (proof, output) = LinearGKRProof::prover(&circuit, &inputs, &witnesses);
    let io = public_vector(&inputs, &witnesses);
    for i in 0..output.len() {
        let mut bad = output.clone();
        bad[i] = bad[i].add(Fr::one());
        assert!(!proof.verify(&circuit, &bad, &io));
    }
}

#[test]
fn mutating_any_round_coefficient_is_rejected() {
    let (inputs, witnesses, circuit) = reference_circuit();
    let (proof, output) = LinearGKRProof::prover(&circuit, &inputs, &witnesses);
    let io = public_vector(&inputs, &witnesses);
    for ci in 0..3 {
        let mut bad = proof.clone();
        bad.layers[1].polys[2][ci] = bad.layers[1].polys[2][ci].add(Fr::one());
        assert!(!bad.verify(&circuit, &output, &io));
    }
}

#[test]
fn mutating_a_terminal_claim_is_rejected() {
    let (inputs, witnesses, circuit) = reference_circuit();
    let (proof, output) = LinearGKRProof::prover(&circuit, &inputs, &witnesses);
    let io = public_vector(&inputs, &witnesses);
    let last = proof.layers.len() - 1;
    let mut bad = proof.clone();
    bad.layers[last].vx = bad.layers[last].vx.add(Fr::one());
    assert!(!bad.verify(&circuit, &output, &io));
    let mut bad = proof.clone();
    bad.layers[last].vy = bad.layers[last].vy.add(Fr::one());
    assert!(!bad.verify(&circuit, &output, &io));
}

#[test]
fn swapped_concatenation_order_is_rejected() {
    let (inputs, witnesses, circuit) = reference_circuit();
    let (proof, output) = LinearGKRProof::prover(&circuit, &inputs, &witnesses);
    let mut swapped = inputs.clone();
    swapped.extend_from_slice(&witnesses);
    assert!(!proof.verify(&circuit, &output, &swapped));
}

#[test]
fn inflated_round_polynomial_is_rejected() {
    let (inputs, witnesses, circuit) = reference_circuit();
    let (proof, output) = LinearGKRProof::prover(&circuit, &inputs, &witnesses);
    let io = public_vector(&inputs, &witnesses);
    let mut bad = proof.clone();
    bad.layers[0].polys[0].push(Fr::from_u64(5));
    assert!(!bad.verify(&circuit, &output, &io));
}
