//! Optimizer orchestration: run reduction passes to a fixed point.
//!
//! The optimizer runs the configured passes in a fixed order —
//! deduplication, constant folding, linear substitution, dead-variable
//! elimination — and repeats the sweep until no sweep removes a
//! constraint or the iteration bound is reached. Common-subexpression
//! detection, which never rewrites, runs once at the end when enabled.

use vstd::prelude::*;

use crate::constraint::{lc_constant, lc_is_one, row_of, Constraint, ConstraintMatrix};
use crate::passes::constant_folding::ConstantFoldingPass;
use crate::passes::dead_variable::DeadVariablePass;
use crate::passes::deduplication::DeduplicationPass;
use crate::passes::linear_substitution::LinearSubstitutionPass;
use crate::reduction::{OptimizationResult, ReductionReport};
use crate::passes::common_subexpression::{cse_rows, CommonSubexpressionPass};
use crate::passes::constant_folding::{cf_kept, const_foldable, const_pattern, lemma_cf_fixed_point};
use crate::passes::dead_variable::{dead_row, dv_kept, revived_assignment};
use crate::passes::deduplication::{dedup_match_ok, lemma_dedup_fixed_point, listed_as_dup};
use crate::passes::linear_substitution::{
    ls_kept, ls_revived, ls_sub_model, subst_candidate, subst_lcmap,
};
use crate::semantics::{
    dup_kept, dup_removable, indices_satisfying, lc_map, lemma_indices_satisfying_props,
    matrix_satisfied, rows_equiv,
};

verus! {

/// Which passes to run, and how many sweeps at most.
#[derive(Clone, Copy, Debug, PartialEq, Eq, Structural)]
pub struct OptimizerConfig {
    /// Run the deduplication pass.
    pub deduplicate: bool,
    /// Run the constant folding pass.
    pub fold_constants: bool,
    /// Run the linear substitution pass.
    pub substitute_linear: bool,
    /// Run the dead-variable elimination pass.
    pub eliminate_dead: bool,
    /// Run common-subexpression detection (informational only).
    pub detect_cse: bool,
    /// Bound on full pipeline sweeps.
    pub max_iterations: usize,
}

impl Default for OptimizerConfig {
    /// All passes on, ten sweeps.
    fn default() -> (r: Self)
        ensures
            r == (OptimizerConfig {
                deduplicate: true,
                fold_constants: true,
                substitute_linear: true,
                eliminate_dead: true,
                detect_cse: true,
                max_iterations: 10,
            }),
    {
        OptimizerConfig {
            deduplicate: true,
            fold_constants: true,
            substitute_linear: true,
            eliminate_dead: true,
            detect_cse: true,
            max_iterations: 10,
        }
    }
}

impl OptimizerConfig {
    /// Only the reductions that preserve the solution set without any
    /// variable management: deduplication and constant folding, three
    /// sweeps.
    pub fn safe() -> (r: Self)
        ensures
            r == (OptimizerConfig {
                deduplicate: true,
                fold_constants: true,
                substitute_linear: false,
                eliminate_dead: false,
                detect_cse: true,
                max_iterations: 3,
            }),
    {
        OptimizerConfig {
            deduplicate: true,
            fold_constants: true,
            substitute_linear: false,
            eliminate_dead: false,
            detect_cse: true,
            max_iterations: 3,
        }
    }

    /// Every pass on, twenty sweeps.
    pub fn aggressive() -> (r: Self)
        ensures
            r == (OptimizerConfig {
                deduplicate: true,
                fold_constants: true,
                substitute_linear: true,
                eliminate_dead: true,
                detect_cse: true,
                max_iterations: 20,
            }),
    {
        OptimizerConfig {
            deduplicate: true,
            fold_constants: true,
            substitute_linear: true,
            eliminate_dead: true,
            detect_cse: true,
            max_iterations: 20,
        }
    }

    /// Scans only, no transformation.
    pub fn analyze_only() -> (r: Self)
        ensures
            r == (OptimizerConfig {
                deduplicate: false,
                fold_constants: false,
                substitute_linear: false,
                eliminate_dead: false,
                detect_cse: true,
                max_iterations: 1,
            }),
    {
        OptimizerConfig {
            deduplicate: false,
            fold_constants: false,
            substitute_linear: false,
            eliminate_dead: false,
            detect_cse: true,
            max_iterations: 1,
        }
    }
}

/// No row with an earlier identical row, and no row that folds away: one
/// sweep of the solution-preserving passes finds nothing.
pub open spec fn sweep_clean(cs: Seq<Constraint>) -> bool {
    &&& forall|i: int| 0 <= i < cs.len() ==> !(#[trigger] dup_removable(cs, i))
    &&& forall|i: int| 0 <= i < cs.len() ==> !const_foldable(#[trigger] cs[i])
}

/// A linear row: one factor is the constant `1`.
pub open spec fn con_is_linear(c: Constraint) -> bool {
    lc_is_one(c.a@) || lc_is_one(c.b@)
}

/// The booleanity shape `v * v = v`.
pub open spec fn con_is_boolean(c: Constraint) -> bool {
    &&& c.a@.len() == 1 && c.a@[0].variable != 0
    &&& c.b@.len() == 1 && c.b@[0].variable != 0
    &&& c.c@.len() == 1 && c.c@[0].variable != 0
    &&& c.a@[0].variable == c.b@[0].variable
    &&& c.b@[0].variable == c.c@[0].variable
}

/// A row whose two factors are constant.
pub open spec fn con_is_constant(c: Constraint) -> bool {
    lc_constant(c.a@) && lc_constant(c.b@)
}

/// How many rows satisfy `pred`.
pub open spec fn count_rows(cs: Seq<Constraint>, pred: spec_fn(Constraint) -> bool) -> nat
    decreases cs.len(),
{
    if cs.len() == 0 {
        0
    } else {
        count_rows(cs.drop_last(), pred) + if pred(cs.last()) {
            1nat
        } else {
            0nat
        }
    }
}

/// One deduplication application: dimensions kept, rows exactly the
/// first copies, and the satisfying assignments unchanged.
pub open spec fn dedup_step(m: ConstraintMatrix, r: ConstraintMatrix) -> bool {
    &&& r.num_public_inputs == m.num_public_inputs
    &&& r.num_private_witnesses == m.num_private_witnesses
    &&& r.num_variables == m.num_variables
    &&& r.constraints@.len() == dup_kept(m.constraints@).len()
    &&& forall|k: int| 0 <= k < r.constraints@.len() ==> (#[trigger] r.constraints@[k]).index == k
        && row_of(r.constraints@[k]) == row_of(
        m.constraints@[dup_kept(m.constraints@)[k] as int],
    )
    &&& forall|asg: Seq<nat>| matrix_satisfied(m, asg) <==> matrix_satisfied(r, asg)
}

/// One constant-folding application: dimensions kept, rows exactly those
/// without a removable constant pattern, and the satisfying assignments
/// unchanged.
pub open spec fn fold_step(m: ConstraintMatrix, r: ConstraintMatrix) -> bool {
    &&& r.num_public_inputs == m.num_public_inputs
    &&& r.num_private_witnesses == m.num_private_witnesses
    &&& r.num_variables == m.num_variables
    &&& r.constraints@.len() == cf_kept(m.constraints@).len()
    &&& forall|k: int| 0 <= k < r.constraints@.len() ==> (#[trigger] r.constraints@[k]).index == k
        && row_of(r.constraints@[k]) == row_of(
        m.constraints@[cf_kept(m.constraints@)[k] as int],
    )
    &&& forall|asg: Seq<nat>| matrix_satisfied(m, asg) <==> matrix_satisfied(r, asg)
}

/// One linear-substitution application with the default expression
/// width: the defining rows removed, every surviving row's coefficient
/// map rewritten under the substitution, assignments carried forward, and
/// every assignment of the result extended back over the substituted
/// variables.
pub open spec fn subst_step(m: ConstraintMatrix, r: ConstraintMatrix) -> bool {
    let npub = m.num_public_inputs as nat;
    &&& r.num_public_inputs == m.num_public_inputs
    &&& r.num_private_witnesses == m.num_private_witnesses
    &&& r.num_variables == m.num_variables
    &&& r.constraints@.len() == ls_kept(m.constraints@, npub, 4).len()
    &&& forall|k: int| 0 <= k < r.constraints@.len() ==> {
        let i = ls_kept(m.constraints@, npub, 4)[k] as int;
        let sub = ls_sub_model(m.constraints@, npub, 4);
        &&& (#[trigger] r.constraints@[k]).index == k
        &&& lc_map(r.constraints@[k].a@) == subst_lcmap(m.constraints@[i].a@, sub)
        &&& lc_map(r.constraints@[k].b@) == subst_lcmap(m.constraints@[i].b@, sub)
        &&& lc_map(r.constraints@[k].c@) == subst_lcmap(m.constraints@[i].c@, sub)
    }
    &&& forall|asg: Seq<nat>| matrix_satisfied(m, asg) ==> matrix_satisfied(r, asg)
    &&& forall|asg: Seq<nat>| matrix_satisfied(r, asg) ==> matrix_satisfied(
        m,
        ls_revived(m.constraints@, npub, 4, asg),
    )
}

/// One dead-variable application: the dead claims removed, the rest
/// kept, assignments carried forward, and every assignment of the result
/// extended back over the revived variables.
pub open spec fn dead_step(m: ConstraintMatrix, r: ConstraintMatrix) -> bool {
    let npub = m.num_public_inputs as nat;
    &&& r.num_public_inputs == m.num_public_inputs
    &&& r.num_private_witnesses == m.num_private_witnesses
    &&& r.num_variables == m.num_variables
    &&& r.constraints@.len() == dv_kept(m.constraints@, npub).len()
    &&& forall|k: int| 0 <= k < r.constraints@.len() ==> (#[trigger] r.constraints@[k]).index == k
        && row_of(r.constraints@[k]) == row_of(
        m.constraints@[dv_kept(m.constraints@, npub)[k] as int],
    )
    &&& forall|asg: Seq<nat>| matrix_satisfied(m, asg) ==> matrix_satisfied(r, asg)
    &&& forall|asg: Seq<nat>| matrix_satisfied(r, asg) ==> matrix_satisfied(
        m,
        revived_assignment(m.constraints@, npub, asg),
    )
}

/// A pass application when enabled, the identity otherwise.
pub open spec fn dedup_opt(on: bool, m: ConstraintMatrix, r: ConstraintMatrix) -> bool {
    if on {
        dedup_step(m, r)
    } else {
        r == m
    }
}

/// A pass application when enabled, the identity otherwise.
pub open spec fn fold_opt(on: bool, m: ConstraintMatrix, r: ConstraintMatrix) -> bool {
    if on {
        fold_step(m, r)
    } else {
        r == m
    }
}

/// A pass application when enabled, the identity otherwise.
pub open spec fn subst_opt(on: bool, m: ConstraintMatrix, r: ConstraintMatrix) -> bool {
    if on {
        subst_step(m, r)
    } else {
        r == m
    }
}

/// A pass application when enabled, the identity otherwise.
pub open spec fn dead_opt(on: bool, m: ConstraintMatrix, r: ConstraintMatrix) -> bool {
    if on {
        dead_step(m, r)
    } else {
        r == m
    }
}

/// One sweep: the enabled passes applied once each, in pipeline order.
pub open spec fn sweep_step(cfg: OptimizerConfig, m: ConstraintMatrix, r: ConstraintMatrix)
    -> bool {
    exists|m1: ConstraintMatrix, m2: ConstraintMatrix|
        #![trigger dedup_opt(cfg.deduplicate, m, m1), fold_opt(cfg.fold_constants, m1, m2)]
        dedup_opt(cfg.deduplicate, m, m1) && fold_opt(cfg.fold_constants, m1, m2) && exists|
            m3: ConstraintMatrix,
        |
            #![trigger subst_opt(cfg.substitute_linear, m2, m3)]
            subst_opt(cfg.substitute_linear, m2, m3) && dead_opt(cfg.eliminate_dead, m3, r)
}

/// The optimizer's whole run as a chain of sweeps: the first matrix is
/// the input, each later one the result of one sweep on its predecessor,
/// every sweep but possibly the last removed a row, and the chain ends at
/// the iteration bound or at the first sweep that removed nothing, with
/// the result as its last matrix.
pub open spec fn pipeline_trace(
    cfg: OptimizerConfig,
    input: ConstraintMatrix,
    result: ConstraintMatrix,
    steps: Seq<ConstraintMatrix>,
) -> bool {
    &&& steps.len() >= 1
    &&& steps[0] == input
    &&& steps.last() == result
    &&& steps.len() - 1 <= cfg.max_iterations as int
    &&& forall|j: int| 0 < j < steps.len() ==> sweep_step(cfg, steps[j - 1], #[trigger] steps[j])
    &&& forall|j: int| 1 <= j < steps.len() - 1 ==> (#[trigger] steps[j]).constraints@.len()
        < steps[j - 1].constraints@.len()
    &&& (steps.len() - 1 == cfg.max_iterations as int || (steps.len() >= 2
        && steps.last().constraints@.len() >= steps[steps.len() - 2].constraints@.len()))
}

/// Statistics about a constraint matrix's shape.
#[derive(Clone, Debug)]
pub struct MatrixStats {
    pub num_constraints: usize,
    pub num_variables: usize,
    pub num_public_inputs: usize,
    pub num_private_witnesses: usize,
    pub linear_constraints: usize,
    pub boolean_constraints: usize,
    pub constant_constraints: usize,
}

/// The R1CS optimizer: a matrix together with a pass configuration.
#[derive(Clone, Debug)]
pub struct Optimizer {
    matrix: ConstraintMatrix,
    config: OptimizerConfig,
}

impl Optimizer {
    /// Create an optimizer over a matrix with the default configuration.
    pub fn from_matrix(matrix: ConstraintMatrix) -> (r: Self)
        ensures
            r.matrix_view() == matrix,
            r.config_view() == (OptimizerConfig {
                deduplicate: true,
                fold_constants: true,
                substitute_linear: true,
                eliminate_dead: true,
                detect_cse: true,
                max_iterations: 10,
            }),
    {
        Optimizer { matrix, config: Default::default() }
    }

    /// The held matrix, for contracts.
    pub closed spec fn matrix_view(self) -> ConstraintMatrix {
        self.matrix
    }

    /// The held configuration, for contracts.
    pub closed spec fn config_view(self) -> OptimizerConfig {
        self.config
    }

    /// Replace the configuration.
    pub fn with_config(self, config: OptimizerConfig) -> (r: Self)
        ensures
            r.matrix_view() == self.matrix_view(),
            r.config_view() == config,
    {
        Optimizer { matrix: self.matrix, config }
    }

    /// Borrow the current matrix.
    pub fn matrix(&self) -> (r: &ConstraintMatrix)
        ensures
            *r == self.matrix_view(),
    {
        &self.matrix
    }

    /// Run the configured passes under the fixed-point loop. The variable
    /// space is never touched, rows are only removed or rewritten, and
    /// with only deduplication and constant folding enabled the
    /// satisfying assignments are exactly preserved. The whole run is
    /// pinned as a chain of sweeps: each applies the enabled passes once
    /// in pipeline order, every sweep but possibly the last removes a
    /// row, and the chain ends at the iteration bound or at the first
    /// sweep that removes nothing.
    pub fn optimize(self) -> (res: OptimizationResult)
        requires
            self.matrix_view().wf(),
        ensures
            res.matrix.wf(),
            res.matrix.num_public_inputs == self.matrix_view().num_public_inputs,
            res.matrix.num_private_witnesses == self.matrix_view().num_private_witnesses,
            res.matrix.num_variables == self.matrix_view().num_variables,
            res.original_constraints == self.matrix_view().constraints@.len(),
            res.final_constraints == res.matrix.constraints@.len(),
            res.final_constraints <= res.original_constraints,
            forall|asg: Seq<nat>| matrix_satisfied(self.matrix_view(), asg) ==> matrix_satisfied(
                res.matrix,
                asg,
            ),
            !self.config_view().substitute_linear && !self.config_view().eliminate_dead
                ==> forall|asg: Seq<nat>| matrix_satisfied(self.matrix_view(), asg)
                    <==> matrix_satisfied(res.matrix, asg),
            self.config_view().deduplicate && self.config_view().max_iterations > 0
                ==> res.final_constraints <= dup_kept(self.matrix_view().constraints@).len(),
            self.config_view().deduplicate && self.config_view().fold_constants
                && !self.config_view().substitute_linear && !self.config_view().eliminate_dead
                && self.config_view().max_iterations > 0 ==> sweep_clean(
                res.matrix.constraints@,
            ),
            self.config_view().deduplicate && self.config_view().fold_constants
                && !self.config_view().substitute_linear && !self.config_view().eliminate_dead
                && sweep_clean(self.matrix_view().constraints@) ==> res.final_constraints
                == res.original_constraints,
            exists|steps: Seq<ConstraintMatrix>| #[trigger] pipeline_trace(
                self.config_view(),
                self.matrix_view(),
                res.matrix,
                steps,
            ),
    {
        let ghost m0 = self.matrix;
        let config = self.config;
        let original_constraints = self.matrix.num_constraints();
        let mut matrix = self.matrix;
        let mut all_reports: Vec<ReductionReport> = Vec::new();
        let ghost safe_shape = config.deduplicate && config.fold_constants
            && !config.substitute_linear && !config.eliminate_dead;
        let ghost mut swept = false;
        let ghost mut first_swept = false;
        let ghost mut steps: Seq<ConstraintMatrix> = seq![self.matrix];
        let mut done = false;
        let mut iteration: usize = 0;
        while !done && iteration < config.max_iterations
            invariant
                matrix.wf(),
                matrix.num_public_inputs == m0.num_public_inputs,
                matrix.num_private_witnesses == m0.num_private_witnesses,
                matrix.num_variables == m0.num_variables,
                matrix.constraints@.len() <= m0.constraints@.len(),
                m0.constraints@.len() <= usize::MAX,
                original_constraints == m0.constraints@.len(),
                safe_shape == (config.deduplicate && config.fold_constants
                    && !config.substitute_linear && !config.eliminate_dead),
                forall|asg: Seq<nat>| matrix_satisfied(m0, asg) ==> matrix_satisfied(matrix, asg),
                !config.substitute_linear && !config.eliminate_dead ==> forall|asg: Seq<nat>|
                    matrix_satisfied(m0, asg) <==> matrix_satisfied(matrix, asg),
                safe_shape && swept ==> sweep_clean(matrix.constraints@),
                safe_shape && iteration > 0 ==> swept,
                safe_shape && done ==> swept,
                config.deduplicate && !first_swept ==> matrix == m0,
                config.deduplicate && first_swept ==> matrix.constraints@.len() <= dup_kept(
                    m0.constraints@,
                ).len(),
                config.deduplicate && (done || iteration > 0) ==> first_swept,
                safe_shape && sweep_clean(m0.constraints@) ==> matrix.constraints@.len()
                    == m0.constraints@.len() && sweep_clean(matrix.constraints@),
                iteration <= config.max_iterations,
                done ==> iteration < config.max_iterations,
                steps.len() >= 1,
                steps[0] == m0,
                steps.last() == matrix,
                steps.len() - 1 == iteration + (if done {
                    1int
                } else {
                    0int
                }),
                forall|j: int| 0 < j < steps.len() ==> sweep_step(
                    config,
                    steps[j - 1],
                    #[trigger] steps[j],
                ),
                forall|j: int| 1 <= j < steps.len() - 1 ==> (#[trigger] steps[j]).constraints@.len()
                    < steps[j - 1].constraints@.len(),
                !done && steps.len() >= 2 ==> steps.last().constraints@.len()
                    < steps[steps.len() - 2].constraints@.len(),
                done ==> steps.len() >= 2 && steps.last().constraints@.len()
                    >= steps[steps.len() - 2].constraints@.len(),
            decreases config.max_iterations - iteration, (if done {
                0int
            } else {
                1int
            }),
        {
            let before = matrix.num_constraints();
            let ghost sweep_start = matrix;
            let ghost mut m_after_dedup = matrix;
            if config.deduplicate {
                let pass = DeduplicationPass::new();
                let (new_matrix, report) = pass.optimize(matrix);
                if report.estimated_savings > 0 && all_reports.len() < usize::MAX {
                    all_reports.push(report);
                }
                matrix = new_matrix;
                proof {
                    m_after_dedup = matrix;
                    first_swept = true;
                }
            }
            if config.fold_constants {
                let pass = ConstantFoldingPass::new();
                let (new_matrix, report) = pass.optimize(matrix);
                if report.estimated_savings > 0 && all_reports.len() < usize::MAX {
                    all_reports.push(report);
                }
                matrix = new_matrix;
            }
            proof {
                if safe_shape {
                    lemma_safe_sweep_fixed_point(sweep_start, m_after_dedup, matrix);
                    swept = true;
                    if sweep_clean(sweep_start.constraints@) {
                        lemma_clean_sweep_identity(sweep_start, m_after_dedup, matrix);
                    }
                }
            }
            let ghost m_after_fold = matrix;
            if config.substitute_linear {
                let pass = LinearSubstitutionPass::new();
                let (new_matrix, report) = pass.optimize(matrix);
                if report.estimated_savings > 0 && all_reports.len() < usize::MAX {
                    all_reports.push(report);
                }
                matrix = new_matrix;
            }
            let ghost m_after_subst = matrix;
            if config.eliminate_dead {
                let pass = DeadVariablePass::new();
                let (new_matrix, report) = pass.optimize(matrix);
                if report.estimated_savings > 0 && all_reports.len() < usize::MAX {
                    all_reports.push(report);
                }
                matrix = new_matrix;
            }
            proof {
                assert(dedup_opt(config.deduplicate, sweep_start, m_after_dedup));
                assert(fold_opt(config.fold_constants, m_after_dedup, m_after_fold));
                assert(subst_opt(config.substitute_linear, m_after_fold, m_after_subst));
                assert(dead_opt(config.eliminate_dead, m_after_subst, matrix));
                assert(sweep_step(config, sweep_start, matrix));
                steps = steps.push(matrix);
            }
            let after = matrix.num_constraints();
            if after >= before {
                done = true;
            } else {
                iteration = iteration + 1;
            }
        }
        if config.detect_cse {
            let pass = CommonSubexpressionPass::new();
            let matches = pass.scan(&matrix);
            if matches.len() > 0 && all_reports.len() < usize::MAX {
                all_reports.push(pass.report(&matches));
            }
        }
        proof {
            assert(pipeline_trace(config, m0, matrix, steps));
        }
        let final_constraints = matrix.num_constraints();
        OptimizationResult {
            matrix,
            original_constraints,
            final_constraints,
            pass_reports: all_reports,
        }
    }

    /// Run every scan without transforming, and collect the non-empty
    /// reports in pass order: one report appears exactly for each pass
    /// whose scan finds something, carrying its finding count.
    pub fn analyze(&self) -> (r: Vec<ReductionReport>)
        requires
            self.matrix_view().wf(),
        ensures
            ({
                let cs = self.matrix_view().constraints@;
                let npub = self.matrix_view().num_public_inputs as nat;
                let has_dup = exists|i: int| 0 <= i < cs.len() && #[trigger] dup_removable(cs, i);
                let n_cf = indices_satisfying(cs.len(), |i: int| const_pattern(cs[i])).len();
                let n_ls = indices_satisfying(
                    cs.len(),
                    |i: int| subst_candidate(cs, i, npub, 4),
                ).len();
                let n_dv = indices_satisfying(cs.len(), |i: int| dead_row(cs, i, npub)).len();
                let has_cse = exists|h: u64| #[trigger] cse_rows(cs, h).len() >= 3;
                let p_dup: int = if has_dup { 1 } else { 0 };
                let p_cf: int = if n_cf > 0 { 1 } else { 0 };
                let p_ls: int = if n_ls > 0 { 1 } else { 0 };
                let p_dv: int = if n_dv > 0 { 1 } else { 0 };
                let p_cse: int = if has_cse { 1 } else { 0 };
                &&& r@.len() == p_dup + p_cf + p_ls + p_dv + p_cse
                &&& has_dup ==> r@[0].patterns_found >= 1
                &&& n_cf > 0 ==> r@[p_dup].patterns_found == n_cf
                &&& n_ls > 0 ==> r@[p_dup + p_cf].patterns_found == n_ls
                &&& n_dv > 0 ==> r@[p_dup + p_cf + p_ls].patterns_found == n_dv
                &&& has_cse ==> r@[p_dup + p_cf + p_ls + p_dv].patterns_found >= 1
            }),
    {
        let ghost cs = self.matrix_view().constraints@;
        let ghost npub = self.matrix_view().num_public_inputs as nat;
        let mut reports: Vec<ReductionReport> = Vec::new();
        let dedup = DeduplicationPass::new();
        let dedup_matches = dedup.scan(&self.matrix);
        proof {
            if dedup_matches@.len() > 0 {
                assert(dedup_match_ok(cs, dedup_matches@[0]));
                assert(dup_removable(cs, dedup_matches@[0].constraint_indices@[1] as int));
            }
            if exists|i: int| 0 <= i < cs.len() && #[trigger] dup_removable(cs, i) {
                let i = choose|i: int| 0 <= i < cs.len() && #[trigger] dup_removable(cs, i);
                assert(listed_as_dup(dedup_matches@, i));
                let (mi, kk) = choose|mi: int, kk: int|
                    0 <= mi < dedup_matches@.len() && 1 <= kk
                        < dedup_matches@[mi].constraint_indices@.len()
                        && #[trigger] dedup_matches@[mi].constraint_indices@[kk] == i;
                assert(dedup_matches@.len() > 0);
            }
        }
        if dedup_matches.len() > 0 {
            reports.push(dedup.report(&dedup_matches));
        }
        let ghost len_after_dup = reports@.len();
        let const_fold = ConstantFoldingPass::new();
        let const_matches = const_fold.scan(&self.matrix);
        if const_matches.len() > 0 {
            reports.push(const_fold.report(&const_matches));
        }
        let ghost len_after_cf = reports@.len();
        let linear = LinearSubstitutionPass::new();
        let linear_matches = linear.scan(&self.matrix);
        if linear_matches.len() > 0 {
            reports.push(linear.report(&linear_matches));
        }
        let ghost len_after_ls = reports@.len();
        let dead = DeadVariablePass::new();
        let dead_matches = dead.scan(&self.matrix);
        if dead_matches.len() > 0 {
            reports.push(dead.report(&dead_matches));
        }
        let ghost len_after_dv = reports@.len();
        let cse = CommonSubexpressionPass::new();
        let cse_matches = cse.scan(&self.matrix);
        proof {
            if cse_matches@.len() > 0 {
                assert(crate::passes::common_subexpression::cse_match_ok(
                    cs,
                    3nat,
                    cse_matches@[0],
                ));
                let h = cse_matches@[0].metadata.expression_hash->Some_0;
                assert(cse_rows(cs, h).len() >= 3);
            }
            if exists|h: u64| #[trigger] cse_rows(cs, h).len() >= 3 {
                let h = choose|h: u64| #[trigger] cse_rows(cs, h).len() >= 3;
                let mi = choose|mi: int|
                    0 <= mi < cse_matches@.len()
                        && (#[trigger] cse_matches@[mi]).metadata.expression_hash == Some(h);
                assert(cse_matches@.len() > 0);
            }
        }
        if cse_matches.len() > 0 {
            reports.push(cse.report(&cse_matches));
        }
        reports
    }

    /// Count the rows of each recognized shape.
    pub fn stats(&self) -> (r: MatrixStats)
        requires
            self.matrix_view().wf(),
        ensures
            r.num_constraints == self.matrix_view().constraints@.len(),
            r.num_variables == self.matrix_view().num_variables,
            r.num_public_inputs == self.matrix_view().num_public_inputs,
            r.num_private_witnesses == self.matrix_view().num_private_witnesses,
            r.linear_constraints == count_rows(
                self.matrix_view().constraints@,
                |c: Constraint| con_is_linear(c),
            ),
            r.boolean_constraints == count_rows(
                self.matrix_view().constraints@,
                |c: Constraint| con_is_boolean(c),
            ),
            r.constant_constraints == count_rows(
                self.matrix_view().constraints@,
                |c: Constraint| con_is_constant(c),
            ),
    {
        let ghost cs = self.matrix.constraints@;
        let mut linear_count: usize = 0;
        let mut boolean_count: usize = 0;
        let mut constant_count: usize = 0;
        let mut i: usize = 0;
        while i < self.matrix.constraints.len()
            invariant
                cs == self.matrix.constraints@,
                i <= cs.len(),
                linear_count <= i,
                boolean_count <= i,
                constant_count <= i,
                linear_count == count_rows(cs.take(i as int), |c: Constraint| con_is_linear(c)),
                boolean_count == count_rows(cs.take(i as int), |c: Constraint| con_is_boolean(c)),
                constant_count == count_rows(
                    cs.take(i as int),
                    |c: Constraint| con_is_constant(c),
                ),
            decreases cs.len() - i,
        {
            proof {
                assert(cs.take(i + 1).drop_last() =~= cs.take(i as int));
                assert(cs.take(i + 1).last() == cs[i as int]);
            }
            let c = &self.matrix.constraints[i];
            if c.is_linear() {
                linear_count = linear_count + 1;
            }
            if c.is_boolean() {
                boolean_count = boolean_count + 1;
            }
            if c.is_constant() {
                constant_count = constant_count + 1;
            }
            i = i + 1;
        }
        proof {
            assert(cs.take(cs.len() as int) =~= cs);
        }
        MatrixStats {
            num_constraints: self.matrix.num_constraints(),
            num_variables: self.matrix.num_variables,
            num_public_inputs: self.matrix.num_public_inputs,
            num_private_witnesses: self.matrix.num_private_witnesses,
            linear_constraints: linear_count,
            boolean_constraints: boolean_count,
            constant_constraints: constant_count,
        }
    }
}


/// One sweep of the solution-preserving passes reaches a fixed point:
/// after deduplication and constant folding, neither pass finds anything
/// to remove, so a further sweep keeps every row.
pub proof fn lemma_safe_sweep_fixed_point(
    m0: ConstraintMatrix,
    m1: ConstraintMatrix,
    m2: ConstraintMatrix,
)
    requires
        m0.constraints@.len() <= usize::MAX,
        // `m1` is `m0` deduplicated.
        m1.constraints@.len() == dup_kept(m0.constraints@).len(),
        forall|k: int| 0 <= k < dup_kept(m0.constraints@).len() ==> row_of(
            #[trigger] m1.constraints@[k],
        ) == row_of(m0.constraints@[dup_kept(m0.constraints@)[k] as int]),
        // `m2` is `m1` constant-folded.
        m2.constraints@.len() == cf_kept(m1.constraints@).len(),
        forall|k: int| 0 <= k < cf_kept(m1.constraints@).len() ==> row_of(
            #[trigger] m2.constraints@[k],
        ) == row_of(m1.constraints@[cf_kept(m1.constraints@)[k] as int]),
    ensures
        dup_kept(m2.constraints@).len() == m2.constraints@.len(),
        cf_kept(m2.constraints@).len() == m2.constraints@.len(),
        sweep_clean(m2.constraints@),
{
    lemma_dedup_fixed_point(m0, m1);
    lemma_indices_satisfying_props(
        m0.constraints@.len(),
        |i: int| !dup_removable(m0.constraints@, i),
    );
    assert(m1.constraints@.len() <= usize::MAX);
    lemma_cf_fixed_point(m1, m2);
    // Folding removed rows from a duplicate-free system; what remains is
    // still duplicate-free.
    let r1 = m1.constraints@;
    let r2 = m2.constraints@;
    let kept = cf_kept(r1);
    let pred = |i: int| !const_foldable(r1[i]);
    lemma_indices_satisfying_props(r1.len(), pred);
    assert forall|i: int| 0 <= i < r2.len() implies !dup_removable(r2, i) by {
        if dup_removable(r2, i) {
            let j = choose|j: int| 0 <= j < i && rows_equiv(#[trigger] r2[j], r2[i]);
            let oj = kept[j] as int;
            let oi = kept[i] as int;
            assert(kept[j] < kept[i]);
            assert(r2[j].a@ == r1[oj].a@ && r2[j].b@ == r1[oj].b@ && r2[j].c@ == r1[oj].c@);
            assert(r2[i].a@ == r1[oi].a@ && r2[i].b@ == r1[oi].b@ && r2[i].c@ == r1[oi].c@);
            assert(rows_equiv(r1[oj], r1[oi]));
            assert(dup_removable(r1, oi));
            assert(false);
        }
    }
    assert(r2.len() <= usize::MAX);
    crate::semantics::lemma_indices_satisfying_all(r2.len(), |i: int| !dup_removable(r2, i));
}


/// A clean matrix passes through the solution-preserving sweep with its
/// row count intact: deduplication and constant folding keep every row.
pub proof fn lemma_clean_sweep_identity(
    m0: ConstraintMatrix,
    m1: ConstraintMatrix,
    m2: ConstraintMatrix,
)
    requires
        m0.constraints@.len() <= usize::MAX,
        sweep_clean(m0.constraints@),
        m1.constraints@.len() == dup_kept(m0.constraints@).len(),
        forall|k: int| 0 <= k < dup_kept(m0.constraints@).len() ==> row_of(
            #[trigger] m1.constraints@[k],
        ) == row_of(m0.constraints@[dup_kept(m0.constraints@)[k] as int]),
        m2.constraints@.len() == cf_kept(m1.constraints@).len(),
        forall|k: int| 0 <= k < cf_kept(m1.constraints@).len() ==> row_of(
            #[trigger] m2.constraints@[k],
        ) == row_of(m1.constraints@[cf_kept(m1.constraints@)[k] as int]),
    ensures
        m2.constraints@.len() == m0.constraints@.len(),
{
    let cs0 = m0.constraints@;
    let cs1 = m1.constraints@;
    crate::semantics::lemma_indices_satisfying_all(cs0.len(), |i: int| !dup_removable(cs0, i));
    assert(cs1.len() == cs0.len());
    assert forall|i: int| 0 <= i < cs1.len() implies !const_foldable(#[trigger] cs1[i]) by {
        assert(dup_kept(cs0)[i] == i as usize);
        assert(row_of(cs1[i]) == row_of(cs0[i]));
        assert(cs1[i].a@ == cs0[i].a@ && cs1[i].b@ == cs0[i].b@ && cs1[i].c@ == cs0[i].c@);
        assert(!const_foldable(cs0[i]));
    }
    crate::semantics::lemma_indices_satisfying_all(cs1.len(), |i: int| !const_foldable(cs1[i]));
}

} // verus!
