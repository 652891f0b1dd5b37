use mimc_groth16::circuit::{check_plan, synthesize, Var, WitnessState};
use mimc_groth16::field::Fr;
use mimc_groth16::mimc::{mimc, random_constants};
use mimc_groth16::ZkError;
use rand::rngs::StdRng;
use rand::SeedableRng;

fn vars_equal(a: &Var, b: &Var) -> bool {
    a == b
}

#[test]
fn plan_shape_is_witness_independent() {
    let mut rng = StdRng::from_seed([2u8; 32]);
    let constants = random_constants(6, &mut rng);
    let absent = synthesize(&WitnessState::Absent, &constants);
    let present = synthesize(
        &WitnessState::Present(Fr::from_u64(4), Fr::from_u64(9)),
        &constants,
    );
    assert_eq!(absent.num_inputs, present.num_inputs);
    assert_eq!(absent.num_aux, present.num_aux);
    assert_eq!(absent.constraints.len(), present.constraints.len());
    for (ca, cp) in absent.constraints.iter().zip(present.constraints.iter()) {
        for (la, lp) in [(&ca.a, &cp.a), (&ca.b, &cp.b), (&ca.c, &cp.c)] {
            assert_eq!(la.len(), lp.len());
            for (ta, tp) in la.iter().zip(lp.iter()) {
                assert!(vars_equal(&ta.var, &tp.var));
                assert_eq!(ta.coeff.to_bytes(), tp.coeff.to_bytes());
            }
        }
    }
    assert!(absent.input_values.is_none());
    assert!(absent.aux_values.is_none());
    assert!(present.input_values.is_some());
    assert!(present.aux_values.is_some());
}

#[test]
fn plan_dimensions_match_round_count() {
    let mut rng = StdRng::from_seed([3u8; 32]);
    let constants = random_constants(5, &mut rng);
    let plan = synthesize(&WitnessState::Absent, &constants);
    assert_eq!(plan.constraints.len(), 10);
    assert_eq!(plan.num_aux, 11);
    assert_eq!(plan.num_inputs, 1);
}

#[test]
fn plan_public_input_is_the_mimc_image() {
    let mut rng = StdRng::from_seed([4u8; 32]);
    let constants = random_constants(7, &mut rng);
    let xl = Fr::from_u64(21);
    let xr = Fr::from_u64(22);
    let image = mimc(&xl, &xr, &constants);
    let plan = synthesize(&WitnessState::Present(xl, xr), &constants);
    let inputs = plan.input_values.as_ref().unwrap();
    assert_eq!(inputs.len(), 1);
    assert_eq!(inputs[0].to_bytes(), image.to_bytes());
}

#[test]
fn check_plan_accepts_honest_witness() {
    let mut rng = StdRng::from_seed([6u8; 32]);
    let constants = random_constants(8, &mut rng);
    let plan = synthesize(
        &WitnessState::Present(Fr::from_u64(1), Fr::from_u64(2)),
        &constants,
    );
    assert!(check_plan(&plan).is_ok());
}

#[test]
fn check_plan_reports_witness_mismatch() {
    let mut rng = StdRng::from_seed([7u8; 32]);
    let constants = random_constants(8, &mut rng);
    let mut plan = synthesize(
        &WitnessState::Present(Fr::from_u64(1), Fr::from_u64(2)),
        &constants,
    );
    // tamper with one intermediate value: the plan no longer satisfies its
    // own constraints
    plan.aux_values.as_mut().unwrap()[3] = Fr::from_u64(987654321);
    assert_eq!(check_plan(&plan).unwrap_err(), ZkError::WitnessMismatch);
}
