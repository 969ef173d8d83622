use ark_bls12_381::{Bls12_381, Fr};
use ark_ff::PrimeField;
use ark_groth16::{prepare_verifying_key, Groth16};
use ark_relations::gr1cs::{
    ConstraintSynthesizer, ConstraintSystem as ArkConstraintSystem, ConstraintSystemRef,
    LinearCombination, SynthesisError, Variable,
};
use ark_snark::{CircuitSpecificSetupSNARK, SNARK};
use ark_std::rand::rngs::StdRng;
use ark_std::rand::SeedableRng;

use zkmatmul::builder::build;
use zkmatmul::cs::{ConstraintSystem, LinComb, VarKind};
use zkmatmul::field::FieldElement;
use zkmatmul::matrix::Matrix;

fn to_fr(e: &FieldElement) -> Fr {
    Fr::from_bigint(ark_ff::BigInt([e.l0, e.l1, e.l2, e.l3])).unwrap()
}

fn lc_to_ark(lc: &LinComb, vars: &[Variable]) -> LinearCombination<Fr> {
    let mut terms = vec![(to_fr(&lc.constant), Variable::one())];
    for t in &lc.terms {
        terms.push((to_fr(&t.coeff), vars[t.var]));
    }
    LinearCombination(terms)
}

/// Replays a populated constraint system of the library into an arkworks
/// constraint system, preserving allocation order and variable visibility.
#[derive(Clone)]
struct Replay {
    cs: ConstraintSystem,
}

impl ConstraintSynthesizer<Fr> for Replay {
    fn generate_constraints(self, cs: ConstraintSystemRef<Fr>) -> Result<(), SynthesisError> {
        let mut vars: Vec<Variable> = Vec::new();
        for v in &self.cs.vars {
            let val = to_fr(&v.value);
            let var = match v.kind {
                VarKind::Public => cs.new_input_variable(|| Ok(val))?,
                VarKind::Private => cs.new_witness_variable(|| Ok(val))?,
            };
            vars.push(var);
        }
        for con in &self.cs.constraints {
            let a = lc_to_ark(&con.lhs, &vars);
            let c = lc_to_ark(&con.rhs, &vars);
            let b = LinearCombination(vec![(Fr::from(1u64), Variable::one())]);
            cs.enforce_r1cs_constraint(|| a, || b, || c)?;
        }
        Ok(())
    }
}

fn scenario(y22: i64) -> ConstraintSystem {
    let x = Matrix::from_i64(&vec![vec![-1; 4]; 5]);
    let w = Matrix::from_i64(&vec![vec![2; 3]; 4]);
    let mut rows = vec![vec![-8i64; 3]; 5];
    rows[2][2] = y22;
    let y = Matrix::from_i64(&rows);
    let mut cs = ConstraintSystem::new();
    assert!(build(&mut cs, &x, &w, &y).is_ok());
    cs
}

fn statement_of(cs: &ConstraintSystem) -> Vec<Fr> {
    cs.public_inputs().iter().map(to_fr).collect()
}

#[test]
fn backend_reports_true_product_satisfied() {
    let ark_cs = ArkConstraintSystem::<Fr>::new_ref();
    Replay { cs: scenario(-8) }.generate_constraints(ark_cs.clone()).unwrap();
    assert!(ark_cs.is_satisfied().unwrap());
}

#[test]
fn backend_reports_altered_product_unsatisfied() {
    let ark_cs = ArkConstraintSystem::<Fr>::new_ref();
    Replay { cs: scenario(-7) }.generate_constraints(ark_cs.clone()).unwrap();
    assert!(!ark_cs.is_satisfied().unwrap());
}

#[test]
fn groth16_proves_and_verifies_the_scenario() {
    let mut rng = StdRng::seed_from_u64(0u64);
    let cs = scenario(-8);
    let circuit = Replay { cs: cs.clone() };
    let (pk, vk) = Groth16::<Bls12_381>::setup(circuit.clone(), &mut rng).unwrap();
    let pvk = prepare_verifying_key(&vk);
    let proof = Groth16::<Bls12_381>::prove(&pk, circuit, &mut rng).unwrap();

    let statement = statement_of(&cs);
    assert_eq!(statement.len(), 20 + 15);
    assert!(Groth16::<Bls12_381>::verify_with_processed_vk(&pvk, &statement, &proof).unwrap());

    // Changing a single Y entry of the claimed statement must defeat
    // verification.
    let altered = statement_of(&scenario(-7));
    assert!(!Groth16::<Bls12_381>::verify_with_processed_vk(&pvk, &altered, &proof).unwrap());
}

#[test]
fn groth16_rejects_statement_substitution() {
    let mut rng = StdRng::seed_from_u64(0u64);
    let cs = scenario(-8);
    let circuit = Replay { cs: cs.clone() };
    let (pk, vk) = Groth16::<Bls12_381>::setup(circuit.clone(), &mut rng).unwrap();
    let pvk = prepare_verifying_key(&vk);
    let proof = Groth16::<Bls12_381>::prove(&pk, circuit, &mut rng).unwrap();

    let statement = statement_of(&cs);
    // Replace the Y-derived suffix with copies of the X-derived prefix.
    let mut substituted = statement.clone();
    for q in 20..35 {
        substituted[q] = statement[q - 20];
    }
    assert_ne!(substituted, statement);
    assert!(!Groth16::<Bls12_381>::verify_with_processed_vk(&pvk, &substituted, &proof).unwrap());

    // Reversing the whole statement is another forbidden permutation.
    let mut reversed = statement.clone();
    reversed.reverse();
    assert_ne!(reversed, statement);
    assert!(!Groth16::<Bls12_381>::verify_with_processed_vk(&pvk, &reversed, &proof).unwrap());
}
