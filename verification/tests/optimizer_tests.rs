use ark_bn254::Fr;
use ark_ff::{Field, PrimeField};
use ark_relations::r1cs::{
    ConstraintSynthesizer, ConstraintSystem, ConstraintSystemRef,
    LinearCombination as ArkLC, SynthesisError, Variable,
};
use inventory_zk::constraint::{ConstraintMatrix, LinearCombination, Term};
use inventory_zk::field::Fe;
use inventory_zk::optimizer::{Optimizer, OptimizerConfig};
use inventory_zk::passes::constant_folding::ConstantFoldingPass;
use inventory_zk::passes::common_subexpression::CommonSubexpressionPass;
use inventory_zk::passes::dead_variable::DeadVariablePass;
use inventory_zk::passes::deduplication::DeduplicationPass;
use inventory_zk::passes::linear_substitution::LinearSubstitutionPass;

fn fe_of(fr: Fr) -> Fe {
    let l = fr.into_bigint().0;
    Fe {
        l0: l[0],
        l1: l[1],
        l2: l[2],
        l3: l[3],
    }
}

fn convert_rows(m: &[Vec<(Fr, usize)>]) -> Vec<Vec<(Fe, usize)>> {
    m.iter()
        .map(|row| row.iter().map(|(c, v)| (fe_of(*c), *v)).collect())
        .collect()
}

fn matrix_from_cs(cs: ConstraintSystemRef<Fr>) -> ConstraintMatrix {
    let ms = cs.to_matrices().expect("finalized constraint system");
    ConstraintMatrix::from_rows(
        &convert_rows(&ms.a),
        &convert_rows(&ms.b),
        &convert_rows(&ms.c),
        cs.num_instance_variables(),
        cs.num_witness_variables(),
    )
}

fn optimizer_from_cs(cs: ConstraintSystemRef<Fr>) -> Optimizer {
    Optimizer::from_matrix(matrix_from_cs(cs))
}

struct TestCircuit;

impl ConstraintSynthesizer<Fr> for TestCircuit {
    fn generate_constraints(self, cs: ConstraintSystemRef<Fr>) -> Result<(), SynthesisError> {
        let x = cs.new_witness_variable(|| Ok(Fr::from(3u64)))?;
        let y = cs.new_witness_variable(|| Ok(Fr::from(5u64)))?;
        let z = cs.new_witness_variable(|| Ok(Fr::from(15u64)))?;

        // Regular constraint
        cs.enforce_constraint(ArkLC::from(x), ArkLC::from(y), ArkLC::from(z))?;

        // Duplicate
        cs.enforce_constraint(ArkLC::from(x), ArkLC::from(y), ArkLC::from(z))?;

        // Constant constraint
        cs.enforce_constraint(
            ArkLC::zero() + (Fr::from(2u64), Variable::One),
            ArkLC::zero() + (Fr::from(3u64), Variable::One),
            ArkLC::zero() + (Fr::from(6u64), Variable::One),
        )?;

        Ok(())
    }
}

#[test]
fn test_optimizer_default() {
    let cs = ConstraintSystem::<Fr>::new_ref();
    TestCircuit.generate_constraints(cs.clone()).unwrap();
    cs.finalize();

    let optimizer = optimizer_from_cs(cs);
    let result = optimizer.optimize();

    assert!(
        result.final_constraints < result.original_constraints,
        "Should reduce constraints"
    );
}

#[test]
fn test_optimizer_analyze() {
    let cs = ConstraintSystem::<Fr>::new_ref();
    TestCircuit.generate_constraints(cs.clone()).unwrap();
    cs.finalize();

    let optimizer = optimizer_from_cs(cs);
    let reports = optimizer.analyze();

    assert!(!reports.is_empty(), "Should produce reports");
}

#[test]
fn test_optimizer_stats() {
    let cs = ConstraintSystem::<Fr>::new_ref();
    TestCircuit.generate_constraints(cs.clone()).unwrap();
    cs.finalize();

    let optimizer = optimizer_from_cs(cs);
    let stats = optimizer.stats();

    assert_eq!(stats.num_constraints, 3);
}

#[test]
fn test_linear_combination_is_one() {
    let lc = LinearCombination::new(vec![Term::new(0, Fe::from_u64(1))]);
    assert!(lc.is_one());
    assert!(lc.is_constant());
}

#[test]
fn test_linear_combination_structural_hash() {
    let lc1 = LinearCombination::new(vec![
        Term::new(1, Fe::from_u64(5)),
        Term::new(2, Fe::from_u64(3)),
    ]);
    let lc2 = LinearCombination::new(vec![
        Term::new(2, Fe::from_u64(3)),
        Term::new(1, Fe::from_u64(5)),
    ]);
    // Same variables, different order - should have same structural hash
    assert_eq!(lc1.structural_hash(), lc2.structural_hash());
}

struct DuplicateTestCircuit;

impl ConstraintSynthesizer<Fr> for DuplicateTestCircuit {
    fn generate_constraints(self, cs: ConstraintSystemRef<Fr>) -> Result<(), SynthesisError> {
        let x = cs.new_witness_variable(|| Ok(Fr::from(5u64)))?;
        let y = cs.new_witness_variable(|| Ok(Fr::from(3u64)))?;
        let z = cs.new_witness_variable(|| Ok(Fr::from(15u64)))?;

        // Original
        cs.enforce_constraint(ArkLC::from(x), ArkLC::from(y), ArkLC::from(z))?;
        // Duplicate 1
        cs.enforce_constraint(ArkLC::from(x), ArkLC::from(y), ArkLC::from(z))?;
        // Duplicate 2
        cs.enforce_constraint(ArkLC::from(x), ArkLC::from(y), ArkLC::from(z))?;
        // Different constraint
        let w = cs.new_witness_variable(|| Ok(Fr::from(25u64)))?;
        cs.enforce_constraint(ArkLC::from(x), ArkLC::from(x), ArkLC::from(w))?;

        Ok(())
    }
}

#[test]
fn test_deduplication_scan() {
    let cs = ConstraintSystem::<Fr>::new_ref();
    DuplicateTestCircuit.generate_constraints(cs.clone()).unwrap();
    cs.finalize();

    let matrix = matrix_from_cs(cs);
    let pass = DeduplicationPass::new();
    let matches = pass.scan(&matrix);

    assert_eq!(matches.len(), 1, "Should find 1 duplicate group");
    assert_eq!(matches[0].estimated_reduction, 2, "Should save 2 constraints");
}

#[test]
fn test_deduplication_reduce() {
    let cs = ConstraintSystem::<Fr>::new_ref();
    DuplicateTestCircuit.generate_constraints(cs.clone()).unwrap();
    cs.finalize();

    let matrix = matrix_from_cs(cs);
    assert_eq!(matrix.num_constraints(), 4);

    let pass = DeduplicationPass::new();
    let (reduced, report) = pass.optimize(matrix);

    assert_eq!(reduced.num_constraints(), 2, "Should have 2 constraints after dedup");
    assert_eq!(report.estimated_savings, 2);
}

struct ConstantTestCircuit;

impl ConstraintSynthesizer<Fr> for ConstantTestCircuit {
    fn generate_constraints(self, cs: ConstraintSystemRef<Fr>) -> Result<(), SynthesisError> {
        let one = Variable::One;

        // Constant constraint: 5 * 3 = 15
        cs.enforce_constraint(
            ArkLC::zero() + (Fr::from(5u64), one),
            ArkLC::zero() + (Fr::from(3u64), one),
            ArkLC::zero() + (Fr::from(15u64), one),
        )?;

        // Non-constant constraint
        let x = cs.new_witness_variable(|| Ok(Fr::from(2u64)))?;
        let y = cs.new_witness_variable(|| Ok(Fr::from(4u64)))?;
        cs.enforce_constraint(ArkLC::from(x), ArkLC::from(x), ArkLC::from(y))?;

        Ok(())
    }
}

#[test]
fn test_constant_folding_scan() {
    let cs = ConstraintSystem::<Fr>::new_ref();
    ConstantTestCircuit.generate_constraints(cs.clone()).unwrap();
    cs.finalize();

    let matrix = matrix_from_cs(cs);
    let pass = ConstantFoldingPass::new();
    let matches = pass.scan(&matrix);

    assert_eq!(matches.len(), 1, "Should find 1 constant constraint");
    assert_eq!(matches[0].estimated_reduction, 1);
}

#[test]
fn test_constant_folding_reduce() {
    let cs = ConstraintSystem::<Fr>::new_ref();
    ConstantTestCircuit.generate_constraints(cs.clone()).unwrap();
    cs.finalize();

    let matrix = matrix_from_cs(cs);
    assert_eq!(matrix.num_constraints(), 2);

    let pass = ConstantFoldingPass::new();
    let (reduced, _) = pass.optimize(matrix);

    assert_eq!(reduced.num_constraints(), 1, "Should have 1 constraint after folding");
}

#[test]
fn constant_folding_reports_unsatisfiable_and_retains() {
    // 5 * 3 = 15 is removed; 5 * 3 = 16 is reported with no saving and
    // kept in place.
    let mut matrix = ConstraintMatrix::empty(1, 0);
    let five = LinearCombination::new(vec![Term::new(0, Fe::from_u64(5))]);
    let three = LinearCombination::new(vec![Term::new(0, Fe::from_u64(3))]);
    let fifteen = LinearCombination::new(vec![Term::new(0, Fe::from_u64(15))]);
    let sixteen = LinearCombination::new(vec![Term::new(0, Fe::from_u64(16))]);
    matrix.add_constraint(five.duplicate(), three.duplicate(), fifteen);
    matrix.add_constraint(five, three, sixteen);

    let pass = ConstantFoldingPass::new();
    let matches = pass.scan(&matrix);
    assert_eq!(matches.len(), 2);
    assert_eq!(matches[0].estimated_reduction, 1);
    assert_eq!(matches[1].estimated_reduction, 0);

    let (reduced, _) = pass.optimize(matrix);
    assert_eq!(reduced.num_constraints(), 1, "The unsatisfiable row stays");
}

struct LinearSubstTestCircuit;

impl ConstraintSynthesizer<Fr> for LinearSubstTestCircuit {
    fn generate_constraints(self, cs: ConstraintSystemRef<Fr>) -> Result<(), SynthesisError> {
        let a = cs.new_witness_variable(|| Ok(Fr::from(2u64)))?;
        let b = cs.new_witness_variable(|| Ok(Fr::from(3u64)))?;
        let sum = cs.new_witness_variable(|| Ok(Fr::from(5u64)))?;
        let result = cs.new_witness_variable(|| Ok(Fr::from(10u64)))?;

        // Linear: 1 * (a + b) = sum
        cs.enforce_constraint(
            ArkLC::from(Variable::One),
            ArkLC::from(a) + ArkLC::from(b),
            ArkLC::from(sum),
        )?;

        // Use sum: sum * 2 = result
        cs.enforce_constraint(
            ArkLC::from(sum),
            ArkLC::zero() + (Fr::from(2u64), Variable::One),
            ArkLC::from(result),
        )?;

        Ok(())
    }
}

#[test]
fn test_linear_substitution_scan() {
    let cs = ConstraintSystem::<Fr>::new_ref();
    LinearSubstTestCircuit.generate_constraints(cs.clone()).unwrap();
    cs.finalize();

    let matrix = matrix_from_cs(cs);
    let pass = LinearSubstitutionPass::new();
    let matches = pass.scan(&matrix);

    assert!(!matches.is_empty(), "Should find substitution opportunity");
}

#[test]
fn test_linear_substitution_reduce() {
    let cs = ConstraintSystem::<Fr>::new_ref();
    LinearSubstTestCircuit.generate_constraints(cs.clone()).unwrap();
    cs.finalize();

    let matrix = matrix_from_cs(cs);
    assert_eq!(matrix.num_constraints(), 2);

    let pass = LinearSubstitutionPass::new();
    let (reduced, report) = pass.optimize(matrix);

    assert_eq!(reduced.num_constraints(), 1, "Should have 1 constraint after substitution");
    assert_eq!(report.estimated_savings, 1);
}

struct DeadVarTestCircuit;

impl ConstraintSynthesizer<Fr> for DeadVarTestCircuit {
    fn generate_constraints(self, cs: ConstraintSystemRef<Fr>) -> Result<(), SynthesisError> {
        let a = cs.new_witness_variable(|| Ok(Fr::from(2u64)))?;
        let b = cs.new_witness_variable(|| Ok(Fr::from(3u64)))?;
        let dead = cs.new_witness_variable(|| Ok(Fr::from(6u64)))?;
        let used = cs.new_witness_variable(|| Ok(Fr::from(5u64)))?;
        let output = cs.new_input_variable(|| Ok(Fr::from(10u64)))?;

        // Dead: a * b = dead (dead is never used)
        cs.enforce_constraint(ArkLC::from(a), ArkLC::from(b), ArkLC::from(dead))?;

        // Used: a + b = used
        cs.enforce_constraint(
            ArkLC::from(Variable::One),
            ArkLC::from(a) + ArkLC::from(b),
            ArkLC::from(used),
        )?;

        // Output: used * 2 = output
        cs.enforce_constraint(
            ArkLC::from(used),
            ArkLC::zero() + (Fr::from(2u64), Variable::One),
            ArkLC::from(output),
        )?;

        Ok(())
    }
}

#[test]
fn test_dead_variable_scan() {
    let cs = ConstraintSystem::<Fr>::new_ref();
    DeadVarTestCircuit.generate_constraints(cs.clone()).unwrap();
    cs.finalize();

    let matrix = matrix_from_cs(cs);
    let pass = DeadVariablePass::new();
    let matches = pass.scan(&matrix);

    // Should find 'dead' variable
    assert!(!matches.is_empty(), "Should find dead variable");
}

#[test]
fn test_dead_variable_reduce() {
    let cs = ConstraintSystem::<Fr>::new_ref();
    DeadVarTestCircuit.generate_constraints(cs.clone()).unwrap();
    cs.finalize();

    let matrix = matrix_from_cs(cs);
    assert_eq!(matrix.num_constraints(), 3);

    let pass = DeadVariablePass::new();
    let (reduced, report) = pass.optimize(matrix);

    // Should remove the constraint defining 'dead'
    assert!(reduced.num_constraints() < 3, "Should remove dead constraint");
    assert!(report.estimated_savings > 0);
}

struct CSETestCircuit;

impl ConstraintSynthesizer<Fr> for CSETestCircuit {
    fn generate_constraints(self, cs: ConstraintSystemRef<Fr>) -> Result<(), SynthesisError> {
        let a = cs.new_witness_variable(|| Ok(Fr::from(1u64)))?;
        let b = cs.new_witness_variable(|| Ok(Fr::from(2u64)))?;
        let x = cs.new_witness_variable(|| Ok(Fr::from(3u64)))?;
        let y = cs.new_witness_variable(|| Ok(Fr::from(4u64)))?;
        let z = cs.new_witness_variable(|| Ok(Fr::from(5u64)))?;
        let r1 = cs.new_witness_variable(|| Ok(Fr::from(9u64)))?;
        let r2 = cs.new_witness_variable(|| Ok(Fr::from(12u64)))?;
        let r3 = cs.new_witness_variable(|| Ok(Fr::from(15u64)))?;

        // Common expression (a + b) appears 3 times
        let common = ArkLC::from(a) + ArkLC::from(b);

        cs.enforce_constraint(common.clone(), ArkLC::from(x), ArkLC::from(r1))?;
        cs.enforce_constraint(common.clone(), ArkLC::from(y), ArkLC::from(r2))?;
        cs.enforce_constraint(common, ArkLC::from(z), ArkLC::from(r3))?;

        Ok(())
    }
}

#[test]
fn test_cse_scan() {
    let cs = ConstraintSystem::<Fr>::new_ref();
    CSETestCircuit.generate_constraints(cs.clone()).unwrap();
    cs.finalize();

    let matrix = matrix_from_cs(cs);
    let pass = CommonSubexpressionPass::new();
    let matches = pass.scan(&matrix);

    assert!(!matches.is_empty(), "Should find common subexpression");
}

/// A simple example circuit for testing: x^3 + x + 5 = y
struct CubicCircuit {
    x: Option<Fr>,
    y: Option<Fr>,
}

impl ConstraintSynthesizer<Fr> for CubicCircuit {
    fn generate_constraints(self, cs: ConstraintSystemRef<Fr>) -> Result<(), SynthesisError> {
        let x = cs.new_witness_variable(|| self.x.ok_or(SynthesisError::AssignmentMissing))?;

        let x_squared = cs.new_witness_variable(|| {
            let x_val = self.x.ok_or(SynthesisError::AssignmentMissing)?;
            Ok(x_val.square())
        })?;

        let x_cubed = cs.new_witness_variable(|| {
            let x_val = self.x.ok_or(SynthesisError::AssignmentMissing)?;
            Ok(x_val.square() * x_val)
        })?;

        let y = cs.new_input_variable(|| self.y.ok_or(SynthesisError::AssignmentMissing))?;

        // x * x = x^2
        cs.enforce_constraint(
            ArkLC::from(x),
            ArkLC::from(x),
            ArkLC::from(x_squared),
        )?;

        // x^2 * x = x^3
        cs.enforce_constraint(
            ArkLC::from(x_squared),
            ArkLC::from(x),
            ArkLC::from(x_cubed),
        )?;

        // 1 * (x^3 + x + 5) = y
        let one = Variable::One;
        let five = Fr::from(5u64);
        cs.enforce_constraint(
            ArkLC::from(one),
            ArkLC::from(x_cubed) + ArkLC::from(x) + (five, one),
            ArkLC::from(y),
        )?;

        Ok(())
    }
}

struct BooleanCircuit {
    bits: Vec<Option<bool>>,
}

impl ConstraintSynthesizer<Fr> for BooleanCircuit {
    fn generate_constraints(self, cs: ConstraintSystemRef<Fr>) -> Result<(), SynthesisError> {
        for bit_opt in &self.bits {
            let b = cs.new_witness_variable(|| {
                bit_opt
                    .map(|b| if b { Fr::from(1u64) } else { Fr::from(0u64) })
                    .ok_or(SynthesisError::AssignmentMissing)
            })?;

            // Boolean constraint: b * b = b
            cs.enforce_constraint(ArkLC::from(b), ArkLC::from(b), ArkLC::from(b))?;
        }

        Ok(())
    }
}

#[test]
fn test_optimizer_cubic_circuit() {
    let x = Fr::from(3u64);
    let y = x * x * x + x + Fr::from(5u64);

    let circuit = CubicCircuit {
        x: Some(x),
        y: Some(y),
    };

    let cs = ConstraintSystem::<Fr>::new_ref();
    circuit.generate_constraints(cs.clone()).unwrap();
    cs.finalize();

    let optimizer = optimizer_from_cs(cs);
    let stats = optimizer.stats();

    assert_eq!(stats.num_constraints, 3);
    assert!(stats.linear_constraints > 0);
}

#[test]
fn test_optimize_duplicates() {
    let x = Fr::from(5u64);
    let circuit = DuplicateCircuitWithPublicOutput {
        x: Some(x),
        x_squared: Some(x * x),
    };

    let cs = ConstraintSystem::<Fr>::new_ref();
    circuit.generate_constraints(cs.clone()).unwrap();
    cs.finalize();

    let optimizer = optimizer_from_cs(cs);
    let result = optimizer.optimize();

    // Should reduce from 3 to 1
    assert_eq!(result.original_constraints, 3);
    assert_eq!(result.final_constraints, 1);
    let percentage = 100.0 * (result.original_constraints - result.final_constraints) as f64
        / result.original_constraints as f64;
    assert!(percentage > 60.0);
}

/// Circuit with duplicate constraints; the squared value is a public
/// input so that nothing eliminates it as dead.
struct DuplicateCircuitWithPublicOutput {
    x: Option<Fr>,
    x_squared: Option<Fr>,
}

impl ConstraintSynthesizer<Fr> for DuplicateCircuitWithPublicOutput {
    fn generate_constraints(self, cs: ConstraintSystemRef<Fr>) -> Result<(), SynthesisError> {
        let x = cs.new_witness_variable(|| self.x.ok_or(SynthesisError::AssignmentMissing))?;
        let x_squared =
            cs.new_input_variable(|| self.x_squared.ok_or(SynthesisError::AssignmentMissing))?;

        // Same constraint repeated 3 times
        for _ in 0..3 {
            cs.enforce_constraint(
                ArkLC::from(x),
                ArkLC::from(x),
                ArkLC::from(x_squared),
            )?;
        }

        Ok(())
    }
}

#[test]
fn test_boolean_constraints() {
    let circuit = BooleanCircuit {
        bits: vec![Some(true), Some(false), Some(true)],
    };

    let cs = ConstraintSystem::<Fr>::new_ref();
    circuit.generate_constraints(cs.clone()).unwrap();
    cs.finalize();

    let optimizer = optimizer_from_cs(cs);
    let stats = optimizer.stats();

    assert_eq!(stats.num_constraints, 3);
    assert_eq!(stats.boolean_constraints, 3);
}

#[test]
fn test_safe_config() {
    let circuit = CubicCircuit {
        x: Some(Fr::from(2u64)),
        y: Some(Fr::from(15u64)),
    };

    let cs = ConstraintSystem::<Fr>::new_ref();
    circuit.generate_constraints(cs.clone()).unwrap();
    cs.finalize();

    let optimizer = optimizer_from_cs(cs).with_config(OptimizerConfig::safe());

    let result = optimizer.optimize();
    // Safe config should still work
    assert!(result.original_constraints > 0);
}

#[test]
fn test_empty_circuit() {
    let cs = ConstraintSystem::<Fr>::new_ref();
    cs.finalize();

    let optimizer = optimizer_from_cs(cs);
    let result = optimizer.optimize();

    assert_eq!(result.original_constraints, 0);
    assert_eq!(result.final_constraints, 0);
}

#[test]
fn test_analyze_only() {
    let x = Fr::from(5u64);
    let circuit = DuplicateCircuitWithPublicOutput {
        x: Some(x),
        x_squared: Some(x * x),
    };

    let cs = ConstraintSystem::<Fr>::new_ref();
    circuit.generate_constraints(cs.clone()).unwrap();
    cs.finalize();

    let optimizer = optimizer_from_cs(cs);
    let reports = optimizer.analyze();

    // Should produce reports about duplicates
    assert!(!reports.is_empty());
}

/// Circuit with exactly 3 duplicate constraints.
struct KnownDuplicatesCircuit;

impl ConstraintSynthesizer<Fr> for KnownDuplicatesCircuit {
    fn generate_constraints(self, cs: ConstraintSystemRef<Fr>) -> Result<(), SynthesisError> {
        let x = cs.new_witness_variable(|| Ok(Fr::from(5u64)))?;
        let y = cs.new_witness_variable(|| Ok(Fr::from(3u64)))?;
        // Make z a public input so it's not eliminated as dead
        let z = cs.new_input_variable(|| Ok(Fr::from(15u64)))?;

        // Original + 2 duplicates
        for _ in 0..3 {
            cs.enforce_constraint(ArkLC::from(x), ArkLC::from(y), ArkLC::from(z))?;
        }

        // Different constraint - w is also public to avoid elimination
        let w = cs.new_input_variable(|| Ok(Fr::from(25u64)))?;
        cs.enforce_constraint(ArkLC::from(x), ArkLC::from(x), ArkLC::from(w))?;

        Ok(())
    }
}

/// Circuit with exactly 2 constant constraints.
struct KnownConstantsCircuit;

impl ConstraintSynthesizer<Fr> for KnownConstantsCircuit {
    fn generate_constraints(self, cs: ConstraintSystemRef<Fr>) -> Result<(), SynthesisError> {
        let one = Variable::One;

        // Constant: 5 * 3 = 15
        cs.enforce_constraint(
            ArkLC::zero() + (Fr::from(5u64), one),
            ArkLC::zero() + (Fr::from(3u64), one),
            ArkLC::zero() + (Fr::from(15u64), one),
        )?;

        // Constant: 1 * 7 = 7
        cs.enforce_constraint(
            ArkLC::from(one),
            ArkLC::zero() + (Fr::from(7u64), one),
            ArkLC::zero() + (Fr::from(7u64), one),
        )?;

        // Non-constant - make y a public input so it's not eliminated
        let x = cs.new_witness_variable(|| Ok(Fr::from(2u64)))?;
        let y = cs.new_input_variable(|| Ok(Fr::from(4u64)))?;
        cs.enforce_constraint(ArkLC::from(x), ArkLC::from(x), ArkLC::from(y))?;

        Ok(())
    }
}

/// Circuit with exactly 3 boolean constraints.
struct KnownBooleansCircuit;

impl ConstraintSynthesizer<Fr> for KnownBooleansCircuit {
    fn generate_constraints(self, cs: ConstraintSystemRef<Fr>) -> Result<(), SynthesisError> {
        for val in [1u64, 0, 1] {
            let b = cs.new_witness_variable(|| Ok(Fr::from(val)))?;
            cs.enforce_constraint(ArkLC::from(b), ArkLC::from(b), ArkLC::from(b))?;
        }

        // Non-boolean
        let x = cs.new_witness_variable(|| Ok(Fr::from(3u64)))?;
        let y = cs.new_witness_variable(|| Ok(Fr::from(9u64)))?;
        cs.enforce_constraint(ArkLC::from(x), ArkLC::from(x), ArkLC::from(y))?;

        Ok(())
    }
}

#[test]
fn validate_duplicate_detection_and_reduction() {
    let cs = ConstraintSystem::<Fr>::new_ref();
    KnownDuplicatesCircuit.generate_constraints(cs.clone()).unwrap();
    cs.finalize();

    // Before: 4 constraints (3 duplicates + 1 unique)
    let optimizer = optimizer_from_cs(cs);
    assert_eq!(optimizer.stats().num_constraints, 4);

    let result = optimizer.optimize();

    // After: 2 constraints (1 from duplicate group + 1 unique)
    assert_eq!(result.final_constraints, 2);
    assert_eq!(result.constraints_reduced(), 2);
}

#[test]
fn validate_constant_folding() {
    let cs = ConstraintSystem::<Fr>::new_ref();
    KnownConstantsCircuit.generate_constraints(cs.clone()).unwrap();
    cs.finalize();

    let optimizer = optimizer_from_cs(cs);
    let stats = optimizer.stats();

    assert_eq!(stats.num_constraints, 3);
    assert_eq!(stats.constant_constraints, 2);

    let result = optimizer.optimize();

    // Both constant constraints should be removed
    assert_eq!(result.final_constraints, 1);
}

#[test]
fn validate_boolean_detection() {
    let cs = ConstraintSystem::<Fr>::new_ref();
    KnownBooleansCircuit.generate_constraints(cs.clone()).unwrap();
    cs.finalize();

    let optimizer = optimizer_from_cs(cs);
    let stats = optimizer.stats();

    assert_eq!(stats.num_constraints, 4);
    assert_eq!(stats.boolean_constraints, 3);
}

#[test]
fn validate_no_false_positives() {
    // Clean circuit with no optimization opportunities
    let cs = ConstraintSystem::<Fr>::new_ref();

    let a = cs.new_witness_variable(|| Ok(Fr::from(2u64))).unwrap();
    let b = cs.new_witness_variable(|| Ok(Fr::from(3u64))).unwrap();
    let c = cs.new_witness_variable(|| Ok(Fr::from(6u64))).unwrap();

    cs.enforce_constraint(ArkLC::from(a), ArkLC::from(b), ArkLC::from(c))
        .unwrap();

    cs.finalize();

    let optimizer = optimizer_from_cs(cs);
    let result = optimizer.with_config(OptimizerConfig::safe()).optimize();

    // No reductions should occur on clean circuit
    assert_eq!(result.original_constraints, result.final_constraints);
}

#[test]
fn validate_reduction_pass_directly() {
    let cs = ConstraintSystem::<Fr>::new_ref();
    KnownDuplicatesCircuit.generate_constraints(cs.clone()).unwrap();
    cs.finalize();

    let matrix = matrix_from_cs(cs);
    let pass = DeduplicationPass::new();

    // Scan
    let matches = pass.scan(&matrix);
    assert!(!matches.is_empty());

    // Reduce
    let reduced = pass.reduce(matrix.clone(), &matches);
    assert!(reduced.num_constraints() < matrix.num_constraints());
}
