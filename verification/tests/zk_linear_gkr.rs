use libra::circuit::Circuit;
use libra::field::Fr;
use libra::libra_zk_linear_gkr::ZKLinearGKRProof;
use libra::params::Parameters;

fn prepare_construct_circuit() -> (Vec<Fr>, Vec<Fr>, Vec<Vec<(u8, usize, usize)>>) {
    let mut inputs = Vec::new();
    let mut witnesses = Vec::new();
    let mut value = 0u64;
    for _ in 0..8 {
        value += 1;
        inputs.push(Fr::from_u64(value));
    }
    for _ in 0..8 {
        value += 1;
        witnesses.push(Fr::from_u64(value));
    }
    let mut layers = Vec::new();
    let mut layer = Vec::new();
    layer.push((1, 0, 1));
    layer.push((0, 2, 3));
    layer.push((0, 4, 5));
    layer.push((1, 6, 7));
    layer.push((1, 15, 8));
    layer.push((1, 9, 10));
    layer.push((0, 11, 12));
    layer.push((0, 13, 14));
    layers.push(layer);
    let mut layer = Vec::new();
    layer.push((1, 0, 1));
    layer.push((0, 2, 3));
    layer.push((0, 4, 5));
    layer.push((1, 6, 7));
    layers.push(layer);
    let mut layer = Vec::new();
    layer.push((0, 0, 1));
    layer.push((0, 1, 2));
    layer.push((1, 2, 3));
    layer.push((1, 1, 3));
    layers.push(layer);

    (inputs, witnesses, layers)
}

#[test]
fn test_libra_zk_linear_gkr_bls12_381() {
    println!("start zk linear gkr...");

    let (inputs, witnesses, layers) = prepare_construct_circuit();
    println!("prepare for constructing circuit...ok");

    let params = Parameters::new(42, 8);
    println!("prepare for constructing circuit...ok");

    let circuit = Circuit::new(inputs.len(), witnesses.len(), &layers).unwrap();
    println!("construct circuit...ok");

    let (proof, output) = ZKLinearGKRProof::prover(&params, &circuit, &inputs, &witnesses, 7);
    println!("generate proof...ok");

    let result = proof.verify(&params, &circuit, &output, &inputs);
    println!("verifier...{}", result);
    assert!(result);
}

#[test]
fn zk_proofs_differ_across_runs_but_both_verify() {
    let (inputs, witnesses, layers) = prepare_construct_circuit();
    let params = Parameters::new(42, 8);
    let circuit = Circuit::new(inputs.len(), witnesses.len(), &layers).unwrap();

    let (proof1, output1) = ZKLinearGKRProof::prover(&params, &circuit, &inputs, &witnesses, 1);
    let (proof2, output2) = ZKLinearGKRProof::prover(&params, &circuit, &inputs, &witnesses, 2);

    assert_eq!(output1, output2);
    assert!(proof1 != proof2);
    assert!(proof1.verify(&params, &circuit, &output1, &inputs));
    assert!(proof2.verify(&params, &circuit, &output2, &inputs));
}

#[test]
fn zk_rejects_wrong_output_and_tampered_rounds() {
    let (inputs, witnesses, layers) = prepare_construct_circuit();
    let params = Parameters::new(42, 8);
    let circuit = Circuit::new(inputs.len(), witnesses.len(), &layers).unwrap();

    let (proof, output) = ZKLinearGKRProof::prover(&params, &circuit, &inputs, &witnesses, 7);

    let mut bad_output = output.clone();
    bad_output[0] = bad_output[0].add(Fr::one());
    assert!(!proof.verify(&params, &circuit, &bad_output, &inputs));

    let mut tampered = proof.clone();
    tampered.layers[0].rounds[0].poly[1] = tampered.layers[0].rounds[0].poly[1].add(Fr::one());
    assert!(!tampered.verify(&params, &circuit, &output, &inputs));

    let mut bad_mask = proof.clone();
    bad_mask.layers[0].rounds[0].mask[0] = bad_mask.layers[0].rounds[0].mask[0].add(Fr::one());
    assert!(!bad_mask.verify(&params, &circuit, &output, &inputs));

    let mut bad_open = proof.clone();
    bad_open.open_zr = bad_open.open_zr.add(Fr::one());
    assert!(!bad_open.verify(&params, &circuit, &output, &inputs));
}
