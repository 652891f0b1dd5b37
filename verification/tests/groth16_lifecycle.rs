use bellman::groth16::{create_random_proof, generate_random_parameters};
use bellman::{Circuit, ConstraintSystem, LinearCombination, SynthesisError, Variable};
use bls12_381::{Bls12, Scalar};
use mimc_groth16::circuit::{check_plan, synthesize, CircuitPlan, Term, Var, WitnessState};
use mimc_groth16::field::Fr;
use mimc_groth16::keys::{ProofBytes, ProvingKeyBytes, VerifyingKeyBytes};
use mimc_groth16::mimc::{mimc, random_constants};
use mimc_groth16::snark::{verify, verify_inputs};
use mimc_groth16::ZkError;
use rand::rngs::StdRng;
use rand::SeedableRng;

fn to_scalar(f: &Fr) -> Scalar {
    let b: [u8; 32] = f.to_bytes().try_into().unwrap();
    Scalar::from_bytes(&b).unwrap()
}

struct PlanCircuit {
    plan: CircuitPlan,
}

impl Circuit<Scalar> for PlanCircuit {
    fn synthesize<CS: ConstraintSystem<Scalar>>(self, cs: &mut CS) -> Result<(), SynthesisError> {
        let aux_vals: Option<Vec<Scalar>> = self
            .plan
            .aux_values
            .as_ref()
            .map(|v| v.iter().map(to_scalar).collect());
        let input_vals: Option<Vec<Scalar>> = self
            .plan
            .input_values
            .as_ref()
            .map(|v| v.iter().map(to_scalar).collect());
        let mut aux_vars: Vec<Variable> = Vec::new();
        let mut input_vars: Vec<Variable> = Vec::new();
        for i in 0..self.plan.num_aux {
            let v = cs.alloc(
                || format!("aux {}", i),
                || {
                    aux_vals
                        .as_ref()
                        .map(|a| a[i])
                        .ok_or(SynthesisError::AssignmentMissing)
                },
            )?;
            aux_vars.push(v);
        }
        for j in 0..self.plan.num_inputs {
            let v = cs.alloc_input(
                || format!("input {}", j),
                || {
                    input_vals
                        .as_ref()
                        .map(|a| a[j])
                        .ok_or(SynthesisError::AssignmentMissing)
                },
            )?;
            input_vars.push(v);
        }
        let map_var = |v: &Var| -> Variable {
            match v {
                Var::One => CS::one(),
                Var::Input(j) => input_vars[*j],
                Var::Aux(i) => aux_vars[*i],
            }
        };
        let to_lc = |terms: &Vec<Term>| -> LinearCombination<Scalar> {
            let mut lc = LinearCombination::zero();
            for t in terms.iter() {
                lc = lc + (to_scalar(&t.coeff), map_var(&t.var));
            }
            lc
        };
        for (k, c) in self.plan.constraints.iter().enumerate() {
            cs.enforce(
                || format!("constraint {}", k),
                |_| to_lc(&c.a),
                |_| to_lc(&c.b),
                |_| to_lc(&c.c),
            );
        }
        Ok(())
    }
}

/// Run the full lifecycle: setup for the constants, prove for the witness,
/// and hand back the serialized parameters, verifying key, proof and image.
fn lifecycle(
    constants: &Vec<Fr>,
    xl: Fr,
    xr: Fr,
    seed: u8,
) -> (Vec<u8>, Vec<u8>, Vec<u8>, Vec<u8>) {
    let mut rng = StdRng::from_seed([seed; 32]);
    let image = mimc(&xl, &xr, constants);
    let setup_plan = synthesize(&WitnessState::Absent, constants);
    let params =
        generate_random_parameters::<Bls12, _, _>(PlanCircuit { plan: setup_plan }, &mut rng)
            .unwrap();
    let prove_plan = synthesize(&WitnessState::Present(xl, xr), constants);
    check_plan(&prove_plan).unwrap();
    let proof = create_random_proof(PlanCircuit { plan: prove_plan }, &params, &mut rng).unwrap();
    let mut proof_bytes = vec![];
    proof.write(&mut proof_bytes).unwrap();
    let mut vk_bytes = vec![];
    params.vk.write(&mut vk_bytes).unwrap();
    let mut params_bytes = vec![];
    params.write(&mut params_bytes).unwrap();
    (params_bytes, vk_bytes, proof_bytes, image.to_bytes())
}

#[test]
fn full_scenario_with_322_rounds() {
    // fixed test vector: 322 deterministic constants, witness (1, 2)
    let mut crng = StdRng::from_seed([42u8; 32]);
    let constants = random_constants(322, &mut crng);
    let (_pk, vk_bytes, proof_bytes, image_bytes) =
        lifecycle(&constants, Fr::from_u64(1), Fr::from_u64(2), 9);

    // a fresh proof for the right image verifies
    let r = verify(
        base64::encode(&vk_bytes),
        base64::encode(&proof_bytes),
        base64::encode(&image_bytes),
    );
    assert_eq!(r, Ok(true));

    // one corrupted byte of the proof: still a valid encoding (the flipped
    // bit picks the opposite group element), but verification rejects it
    let mut bad_proof = proof_bytes.clone();
    bad_proof[0] ^= 0x20;
    let r = verify(
        base64::encode(&vk_bytes),
        base64::encode(&bad_proof),
        base64::encode(&image_bytes),
    );
    assert_eq!(r, Ok(false));

    // an image of the wrong byte length is a reported decode failure
    let short_image = vec![1u8; 31];
    let r = verify(
        base64::encode(&vk_bytes),
        base64::encode(&proof_bytes),
        base64::encode(&short_image),
    );
    assert_eq!(r, Err(ZkError::DecodeError));
}

#[test]
fn another_witness_and_constants_verify() {
    let mut crng = StdRng::from_seed([11u8; 32]);
    let constants = random_constants(8, &mut crng);
    let (_pk, vk_bytes, proof_bytes, image_bytes) =
        lifecycle(&constants, Fr::from_u64(5), Fr::from_u64(7), 13);
    let r = verify(
        base64::encode(&vk_bytes),
        base64::encode(&proof_bytes),
        base64::encode(&image_bytes),
    );
    assert_eq!(r, Ok(true));
}

#[test]
fn proofs_with_different_randomness_differ_but_verify() {
    let mut crng = StdRng::from_seed([21u8; 32]);
    let constants = random_constants(8, &mut crng);
    let mut rng = StdRng::from_seed([22u8; 32]);
    let setup_plan = synthesize(&WitnessState::Absent, &constants);
    let params =
        generate_random_parameters::<Bls12, _, _>(PlanCircuit { plan: setup_plan }, &mut rng)
            .unwrap();
    let xl = Fr::from_u64(3);
    let xr = Fr::from_u64(4);
    let image = mimc(&xl, &xr, &constants);

    let plan1 = synthesize(&WitnessState::Present(xl.dup(), xr.dup()), &constants);
    let mut rng1 = StdRng::from_seed([23u8; 32]);
    let proof1 = create_random_proof(PlanCircuit { plan: plan1 }, &params, &mut rng1).unwrap();
    let plan2 = synthesize(&WitnessState::Present(xl, xr), &constants);
    let mut rng2 = StdRng::from_seed([24u8; 32]);
    let proof2 = create_random_proof(PlanCircuit { plan: plan2 }, &params, &mut rng2).unwrap();

    let mut b1 = vec![];
    proof1.write(&mut b1).unwrap();
    let mut b2 = vec![];
    proof2.write(&mut b2).unwrap();
    assert_ne!(b1, b2);

    let mut vk_bytes = vec![];
    params.vk.write(&mut vk_bytes).unwrap();
    let vk = VerifyingKeyBytes::deserialize(&vk_bytes).unwrap();
    let p1 = ProofBytes::deserialize(&b1).unwrap();
    let p2 = ProofBytes::deserialize(&b2).unwrap();
    let inputs = vec![image.dup()];
    assert_eq!(verify_inputs(&vk, &p1, &inputs), Ok(true));
    assert_eq!(verify_inputs(&vk, &p2, &inputs), Ok(true));
}

#[test]
fn input_count_mismatch_is_a_topology_error() {
    let mut crng = StdRng::from_seed([31u8; 32]);
    let constants = random_constants(8, &mut crng);
    let (_pk, vk_bytes, proof_bytes, image_bytes) =
        lifecycle(&constants, Fr::from_u64(1), Fr::from_u64(2), 33);
    let vk = VerifyingKeyBytes::deserialize(&vk_bytes).unwrap();
    let proof = ProofBytes::deserialize(&proof_bytes).unwrap();
    let image = Fr::from_bytes(&image_bytes).unwrap();

    let none: Vec<Fr> = vec![];
    assert_eq!(
        verify_inputs(&vk, &proof, &none),
        Err(ZkError::KeyTopologyMismatch)
    );
    let two = vec![image.dup(), image.dup()];
    assert_eq!(
        verify_inputs(&vk, &proof, &two),
        Err(ZkError::KeyTopologyMismatch)
    );
    // the right count with the wrong value is a plain rejection
    let wrong = vec![Fr::from_u64(123)];
    assert_eq!(verify_inputs(&vk, &proof, &wrong), Ok(false));
}

#[test]
fn corrupting_image_or_key_rejects() {
    let mut crng = StdRng::from_seed([51u8; 32]);
    let constants = random_constants(8, &mut crng);
    let (_pk, vk_bytes, proof_bytes, image_bytes) =
        lifecycle(&constants, Fr::from_u64(1), Fr::from_u64(2), 53);

    // flip a byte of the image: either a rejection or, past the field
    // order, a decode failure -- never an accept
    let mut bad_image = image_bytes.clone();
    bad_image[0] ^= 0x01;
    let r = verify(
        base64::encode(&vk_bytes),
        base64::encode(&proof_bytes),
        base64::encode(&bad_image),
    );
    assert_ne!(r, Ok(true));

    // flip a byte inside the verifying key
    let mut bad_vk = vk_bytes.clone();
    bad_vk[100] ^= 0x01;
    let r = verify(
        base64::encode(&bad_vk),
        base64::encode(&proof_bytes),
        base64::encode(&image_bytes),
    );
    assert_ne!(r, Ok(true));

    // flip a byte in the middle of the proof
    let mut bad_proof = proof_bytes.clone();
    bad_proof[100] ^= 0x01;
    let r = verify(
        base64::encode(&vk_bytes),
        base64::encode(&bad_proof),
        base64::encode(&image_bytes),
    );
    assert_ne!(r, Ok(true));
}

#[test]
fn codecs_round_trip_byte_exact() {
    let mut crng = StdRng::from_seed([61u8; 32]);
    let constants = random_constants(8, &mut crng);
    let (pk_bytes, vk_bytes, proof_bytes, _image) =
        lifecycle(&constants, Fr::from_u64(1), Fr::from_u64(2), 63);

    let vk = VerifyingKeyBytes::deserialize(&vk_bytes).unwrap();
    assert_eq!(vk.serialize(), vk_bytes);
    assert_eq!(vk.num_public_inputs(), 1);

    let proof = ProofBytes::deserialize(&proof_bytes).unwrap();
    assert_eq!(proof.serialize(), proof_bytes);

    let pk = ProvingKeyBytes::deserialize(&pk_bytes).unwrap();
    assert_eq!(pk.serialize(), pk_bytes);

    // trailing bytes make the buffer the wrong length: a decode failure
    let mut vk_long = vk_bytes.clone();
    vk_long.push(0);
    assert_eq!(
        VerifyingKeyBytes::deserialize(&vk_long).unwrap_err(),
        ZkError::DecodeError
    );
    let mut pk_long = pk_bytes.clone();
    pk_long.push(0);
    assert_eq!(
        ProvingKeyBytes::deserialize(&pk_long).unwrap_err(),
        ZkError::DecodeError
    );
    let mut proof_long = proof_bytes.clone();
    proof_long.push(0);
    assert_eq!(
        ProofBytes::deserialize(&proof_long).unwrap_err(),
        ZkError::DecodeError
    );
}

#[test]
fn malformed_encodings_are_decode_errors() {
    assert_eq!(
        verify(
            "!!not base64!!".to_string(),
            "AAAA".to_string(),
            "AAAA".to_string()
        ),
        Err(ZkError::DecodeError)
    );
    assert_eq!(
        VerifyingKeyBytes::deserialize(&vec![0u8; 10]).unwrap_err(),
        ZkError::DecodeError
    );
    assert_eq!(
        ProofBytes::deserialize(&vec![0u8; 192]).unwrap_err(),
        ZkError::DecodeError
    );
    assert_eq!(
        ProofBytes::deserialize(&vec![0u8; 7]).unwrap_err(),
        ZkError::DecodeError
    );
    assert_eq!(
        ProvingKeyBytes::deserialize(&vec![9u8; 40]).unwrap_err(),
        ZkError::DecodeError
    );
}
