use ark_bn254::{Bn254, Fr};
use ark_ff::Field;
use ark_relations::r1cs::{
    ConstraintSynthesizer, ConstraintSystemRef, LinearCombination as ArkLC, SynthesisError,
    Variable,
};
use ark_snark::SNARK;
use ark_std::rand::rngs::StdRng;
use ark_std::rand::SeedableRng;
use inventory_zk::field::Fe;
use inventory_zk::verify::{
    deposit_public_inputs, item_exists_public_inputs, transfer_public_inputs,
    withdraw_public_inputs,
};

/// The cubic relation `x^3 + x + 5 = y` with `y` public: small enough to
/// run the proving stack end to end inside a test.
struct CubicCircuit {
    x: Option<Fr>,
    y: Option<Fr>,
}

impl ConstraintSynthesizer<Fr> for CubicCircuit {
    fn generate_constraints(self, cs: ConstraintSystemRef<Fr>) -> Result<(), SynthesisError> {
        let x = cs.new_witness_variable(|| self.x.ok_or(SynthesisError::AssignmentMissing))?;
        let x_squared = cs.new_witness_variable(|| {
            let x_val = self.x.ok_or(SynthesisError::AssignmentMissing)?;
            Ok(x_val.square())
        })?;
        let x_cubed = cs.new_witness_variable(|| {
            let x_val = self.x.ok_or(SynthesisError::AssignmentMissing)?;
            Ok(x_val.square() * x_val)
        })?;
        let y = cs.new_input_variable(|| self.y.ok_or(SynthesisError::AssignmentMissing))?;

        cs.enforce_constraint(ArkLC::from(x), ArkLC::from(x), ArkLC::from(x_squared))?;
        cs.enforce_constraint(ArkLC::from(x_squared), ArkLC::from(x), ArkLC::from(x_cubed))?;
        cs.enforce_constraint(
            ArkLC::from(Variable::One),
            ArkLC::from(x_cubed) + ArkLC::from(x) + (Fr::from(5u64), Variable::One),
            ArkLC::from(y),
        )?;
        Ok(())
    }
}

#[test]
fn proof_verifies_and_tampered_input_fails() {
    let mut rng = StdRng::seed_from_u64(42);
    let setup_circuit = CubicCircuit { x: None, y: None };
    let (pk, vk) = ark_groth16::Groth16::<Bn254>::circuit_specific_setup(setup_circuit, &mut rng)
        .unwrap();

    let x = Fr::from(3u64);
    let y = x * x * x + x + Fr::from(5u64);
    let circuit = CubicCircuit {
        x: Some(x),
        y: Some(y),
    };
    let proof = ark_groth16::Groth16::<Bn254>::prove(&pk, circuit, &mut rng).unwrap();

    // The honest public input verifies.
    let valid = ark_groth16::Groth16::<Bn254>::verify(&vk, &[y], &proof).unwrap();
    assert!(valid);

    // Any altered public input is rejected.
    let tampered = ark_groth16::Groth16::<Bn254>::verify(&vk, &[y + Fr::from(1u64)], &proof)
        .unwrap();
    assert!(!tampered);
}

#[test]
fn public_input_builders_follow_the_normative_order() {
    let c1 = Fe::from_u64(101);
    let c2 = Fe::from_u64(102);
    let c3 = Fe::from_u64(103);
    let c4 = Fe::from_u64(104);

    let ie = item_exists_public_inputs(c1, 7, 50);
    assert_eq!(ie.len(), 3);
    assert_eq!(ie[0], c1);
    assert_eq!(ie[1], Fe::from_u64(7));
    assert_eq!(ie[2], Fe::from_u64(50));

    let w = withdraw_public_inputs(c1, c2, 7, 30);
    assert_eq!(w.len(), 4);
    assert_eq!(w[0], c1);
    assert_eq!(w[1], c2);
    assert_eq!(w[2], Fe::from_u64(7));
    assert_eq!(w[3], Fe::from_u64(30));

    let d = deposit_public_inputs(c1, c2, 7, 30);
    assert_eq!(d.len(), 4);
    assert_eq!(d[0], c1);
    assert_eq!(d[1], c2);

    let t = transfer_public_inputs(c1, c2, c3, c4, 7, 30);
    assert_eq!(t.len(), 6);
    assert_eq!(t[0], c1);
    assert_eq!(t[1], c2);
    assert_eq!(t[2], c3);
    assert_eq!(t[3], c4);
    assert_eq!(t[4], Fe::from_u64(7));
    assert_eq!(t[5], Fe::from_u64(30));
}
