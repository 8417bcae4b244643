use libra::circuit::Circuit;
use libra::field::Fr;
use libra::libra_linear_gkr::LinearGKRProof;

fn prepare_construct_circuit() -> (Vec<Fr>, Vec<Fr>, Vec<Vec<(u8, usize, usize)>>) {
    let mut inputs = Vec::new();
    let mut witnesses = Vec::new();
    let mut value = 0u64;
    for _ in 0..8 {
        value += 1;
        inputs.push(Fr::from_u64(value));
    }
    for _ in 0..8 {
        value += 1;
        witnesses.push(Fr::from_u64(value));
    }
    let mut layers = Vec::new();
    let mut layer = Vec::new();
    layer.push((1, 0, 1));
    layer.push((0, 2, 3));
    layer.push((0, 4, 5));
    layer.push((1, 6, 7));
    layer.push((1, 15, 8));
    layer.push((1, 9, 10));
    layer.push((0, 11, 12));
    layer.push((0, 13, 14));
    layers.push(layer);
    let mut layer = Vec::new();
    layer.push((1, 0, 1));
    layer.push((0, 2, 3));
    layer.push((0, 4, 5));
    layer.push((1, 6, 7));
    layers.push(layer);
    let mut layer = Vec::new();
    layer.push((0, 0, 1));
    layer.push((0, 1, 2));
    layer.push((1, 2, 3));
    layer.push((1, 1, 3));
    layers.push(layer);

    (inputs, witnesses, layers)
}

#[test]
fn test_libra_linear_gkr_bls12_381() {
    println!("start linear_gkr...");
    let (inputs, witnesses, layers) = prepare_construct_circuit();
    println!("prepare for constructing circuit...ok");

    let circuit = Circuit::new(inputs.len(), witnesses.len(), &layers).unwrap();
    println!("construct circuit...ok");

    let (proof, output) = LinearGKRProof::prover(&circuit, &inputs, &witnesses);
    println!("generate proof...ok");

    let mut inputs2 = witnesses.clone();
    inputs2.extend(&inputs);
    let result = proof.verify(&circuit, &output, &inputs2);
    println!("verifier...{}", result);
    assert!(result);
}
