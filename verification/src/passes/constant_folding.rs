//! Constant-folding pass: remove rows that hold by arithmetic alone.
//!
//! A row whose three sides involve only the constant variable is decided
//! at rewrite time: when the product of the two constant factors equals
//! the constant claim, the row is satisfied by every valid assignment and
//! can go; when it differs, the system is unsatisfiable and the row is
//! reported and retained, never silently dropped. A row whose factors are
//! constant but whose claim still involves variables pins those variables
//! and is likewise retained.

use vstd::prelude::*;

use crate::constraint::{
    complement, lc_constant, row_of, terms_wf, Constraint, ConstraintMatrix, LinearCombination,
};
use crate::field::{fe_mul, fe_p, fe_add, lemma_fe_val_injective, Fe};
use crate::reduction::{
    clamp_usize, total_estimated, MatchMetadata, PatternMatch, PatternType, ReductionReport,
};
use crate::semantics::{
    con_satisfied, const_sum, indices_satisfying, lemma_complement_matches,
    lemma_constant_row_satisfied, lemma_indices_satisfying_props, matrix_satisfied,
    valid_assignment,
};

verus! {

/// A row whose two factors are constant.
pub open spec fn const_pattern(c: Constraint) -> bool {
    lc_constant(c.a@) && lc_constant(c.b@)
}

/// A row that folds away: all three sides constant and the arithmetic
/// true modulo the field order.
pub open spec fn const_foldable(c: Constraint) -> bool {
    &&& lc_constant(c.a@)
    &&& lc_constant(c.b@)
    &&& lc_constant(c.c@)
    &&& (const_sum(c.a@) * const_sum(c.b@)) % fe_p() == const_sum(c.c@) % fe_p()
}

/// The row indices constant folding keeps.
pub open spec fn cf_kept(cs: Seq<Constraint>) -> Seq<usize> {
    indices_satisfying(cs.len(), |i: int| !const_foldable(cs[i]))
}

/// The scan's full account: one finding per constant-factor row, in row
/// order, marked removable exactly when the row folds away.
pub open spec fn cf_matches_exact(cs: Seq<Constraint>, ms: Seq<PatternMatch>) -> bool {
    let found = indices_satisfying(cs.len(), |i: int| const_pattern(cs[i]));
    &&& ms.len() == found.len()
    &&& forall|mi: int| 0 <= mi < ms.len() ==> {
        &&& (#[trigger] ms[mi]).pattern_type == PatternType::Constant
        &&& ms[mi].constraint_indices@.len() == 1
        &&& ms[mi].constraint_indices@[0] == found[mi]
        &&& (found[mi] as int) < cs.len()
        &&& ms[mi].estimated_reduction == if const_foldable(cs[found[mi] as int]) {
            1int
        } else {
            0int
        }
        &&& ms[mi].description@ == (if const_foldable(cs[found[mi] as int]) {
            "constant constraint holds and can be removed"@
        } else if lc_constant(cs[found[mi] as int].c@) {
            "constant constraint is unsatisfiable: no assignment meets it"@
        } else {
            "constant factors with a variable claim; not removable"@
        })
    }
}

/// Sum of a constant combination's coefficients, reduced modulo the field
/// order.
fn compute_constant_value(lc: &LinearCombination) -> (r: Fe)
    requires
        terms_wf(lc@),
    ensures
        r.wf(),
        r.val() == const_sum(lc@) % fe_p(),
{
    let mut acc = Fe::zero();
    let mut k: usize = 0;
    while k < lc.terms.len()
        invariant
            k <= lc@.len(),
            terms_wf(lc@),
            acc.wf(),
            acc.val() == const_sum(lc@.take(k as int)) % fe_p(),
        decreases lc@.len() - k,
    {
        proof {
            assert(lc@.take(k + 1).drop_last() =~= lc@.take(k as int));
            assert(lc@.take(k + 1).last() == lc@[k as int]);
        }
        let t = lc.terms[k];
        if t.variable == 0 {
            let ghost s0 = const_sum(lc@.take(k as int));
            acc = fe_add(&acc, &t.coefficient);
            proof {
                vstd::arithmetic::div_mod::lemma_add_mod_noop(
                    s0 as int,
                    t.coefficient.val() as int,
                    fe_p() as int,
                );
                vstd::arithmetic::div_mod::lemma_small_mod(t.coefficient.val(), fe_p());
            }
        }
        k = k + 1;
    }
    proof {
        assert(lc@.take(lc@.len() as int) =~= lc@);
    }
    acc
}

/// Whether a constant row's arithmetic holds modulo the field order.
fn constant_row_holds(c: &Constraint) -> (r: bool)
    requires
        terms_wf(c.a@) && terms_wf(c.b@) && terms_wf(c.c@),
        lc_constant(c.a@) && lc_constant(c.b@) && lc_constant(c.c@),
    ensures
        r <==> const_foldable(*c),
{
    let a_val = compute_constant_value(&c.a);
    let b_val = compute_constant_value(&c.b);
    let c_val = compute_constant_value(&c.c);
    let product = fe_mul(&a_val, &b_val);
    let eq = product == c_val;
    proof {
        let sa = const_sum(c.a@) as int;
        let sb = const_sum(c.b@) as int;
        let p = fe_p() as int;
        vstd::arithmetic::div_mod::lemma_mul_mod_noop_general(sa, sb, p);
        if product.val() == c_val.val() {
            assert(eq || product.val() != c_val.val()) by {
                if !eq {
                    lemma_fe_val_injective(product, c_val);
                }
            }
        }
        if eq {
            assert(product.val() == c_val.val());
        }
    }
    eq
}

/// Constant folding pass: removes constraints that hold by arithmetic
/// alone.
pub struct ConstantFoldingPass;

impl ConstantFoldingPass {
    pub fn new() -> (r: Self)
        ensures
            true,
    {
        ConstantFoldingPass
    }

    /// Short name of the pass.
    pub fn name(&self) -> &'static str {
        "Constant Folding"
    }

    /// One-line account of what the pass does.
    pub fn description(&self) -> &'static str {
        "Removes constraints where all terms are constants (compile-time verifiable)"
    }

    /// One finding per row with constant factors, in row order, marked
    /// removable exactly when the whole row folds away.
    pub fn scan(&self, matrix: &ConstraintMatrix) -> (r: Vec<PatternMatch>)
        requires
            matrix.wf(),
        ensures
            cf_matches_exact(matrix.constraints@, r@),
    {
        let ghost cs = matrix.constraints@;
        let ghost pat = |i: int| const_pattern(cs[i]);
        let n = matrix.constraints.len();
        let mut matches: Vec<PatternMatch> = Vec::new();
        let mut match_id: usize = 0;
        let mut i: usize = 0;
        while i < n
            invariant
                matrix.wf(),
                cs == matrix.constraints@,
                pat == (|i: int| const_pattern(cs[i])),
                n == cs.len(),
                i <= n,
                ({
                    let found = indices_satisfying(i as nat, pat);
                    &&& matches@.len() == found.len()
                    &&& forall|mi: int| 0 <= mi < matches@.len() ==> {
                        &&& (#[trigger] matches@[mi]).pattern_type == PatternType::Constant
                        &&& matches@[mi].constraint_indices@.len() == 1
                        &&& matches@[mi].constraint_indices@[0] == found[mi]
                        &&& (found[mi] as int) < cs.len()
                        &&& matches@[mi].estimated_reduction == if const_foldable(
                            cs[found[mi] as int],
                        ) {
                            1int
                        } else {
                            0int
                        }
                        &&& matches@[mi].description@ == (if const_foldable(
                            cs[found[mi] as int],
                        ) {
                            "constant constraint holds and can be removed"@
                        } else if lc_constant(cs[found[mi] as int].c@) {
                            "constant constraint is unsatisfiable: no assignment meets it"@
                        } else {
                            "constant factors with a variable claim; not removable"@
                        })
                    }
                }),
            decreases n - i,
        {
            let c = &matrix.constraints[i];
            if c.is_constant() {
                let (removable, description) = if c.c.is_constant() {
                    if constant_row_holds(c) {
                        (1, "constant constraint holds and can be removed".to_string())
                    } else {
                        (
                            0,
                            "constant constraint is unsatisfiable: no assignment meets it"
                                .to_string(),
                        )
                    }
                } else {
                    (0, "constant factors with a variable claim; not removable".to_string())
                };
                let m = PatternMatch {
                    id: match_id,
                    pattern_type: PatternType::Constant,
                    constraint_indices: {
                        let mut v: Vec<usize> = Vec::new();
                        v.push(i);
                        v
                    },
                    variable_indices: Vec::new(),
                    estimated_reduction: removable,
                    description,
                    metadata: MatchMetadata {
                        canonical_index: None,
                        expression_hash: None,
                        substitute_variable: None,
                    },
                };
                matches.push(m);
                if match_id < usize::MAX {
                    match_id = match_id + 1;
                }
                proof {
                    if !const_foldable(cs[i as int]) {
                    } else {
                        assert(lc_constant(cs[i as int].c@));
                    }
                }
            }
            i = i + 1;
        }
        matches
    }

    /// Drop exactly the rows that fold away. The result is satisfied by
    /// exactly the same assignments as the input: a folded row holds
    /// under every valid assignment.
    pub fn reduce(&self, matrix: ConstraintMatrix, matches: &Vec<PatternMatch>) -> (r:
        ConstraintMatrix)
        requires
            matrix.wf(),
            cf_matches_exact(matrix.constraints@, matches@),
        ensures
            r.wf(),
            r.num_public_inputs == matrix.num_public_inputs,
            r.num_private_witnesses == matrix.num_private_witnesses,
            r.num_variables == matrix.num_variables,
            r.constraints@.len() == cf_kept(matrix.constraints@).len(),
            forall|k: int| 0 <= k < cf_kept(matrix.constraints@).len() ==> {
                &&& (#[trigger] r.constraints@[k]).index == k
                &&& row_of(r.constraints@[k]) == row_of(
                    matrix.constraints@[cf_kept(matrix.constraints@)[k] as int],
                )
            },
            forall|asg: Seq<nat>| matrix_satisfied(matrix, asg) <==> matrix_satisfied(r, asg),
    {
        let ghost cs = matrix.constraints@;
        let ghost pat = |i: int| const_pattern(cs[i]);
        let n = matrix.constraints.len();
        let mut to_remove: Vec<usize> = Vec::new();
        let mut mi: usize = 0;
        while mi < matches.len()
            invariant
                cf_matches_exact(cs, matches@),
                pat == (|i: int| const_pattern(cs[i])),
                mi <= matches@.len(),
                forall|v: usize| #[trigger] to_remove@.contains(v) ==> (v as int) < cs.len()
                    && const_foldable(cs[v as int]),
                forall|i: int| 0 <= i < cs.len() && const_foldable(cs[i])
                    && indices_satisfying(cs.len(), pat).contains(i as usize)
                    && (exists|m2: int|
                    0 <= m2 < mi && (#[trigger] indices_satisfying(cs.len(), pat)[m2] as int) == i)
                    ==> to_remove@.contains(i as usize),
            decreases matches@.len() - mi,
        {
            let ghost prev = to_remove@;
            let m = &matches[mi];
            if m.pattern_type == PatternType::Constant && m.estimated_reduction > 0 {
                to_remove.push(m.constraint_indices[0]);
            }
            proof {
                let found = indices_satisfying(cs.len(), pat);
                assert forall|v: usize| #[trigger] to_remove@.contains(v) implies (v as int)
                    < cs.len() && const_foldable(cs[v as int]) by {
                    let p = choose|p: int| 0 <= p < to_remove@.len() && to_remove@[p] == v;
                    if p < prev.len() {
                        assert(prev[p] == v);
                        assert(prev.contains(v));
                    } else {
                        assert(v == matches@[mi as int].constraint_indices@[0]);
                        assert(v == found[mi as int]);
                    }
                }
                assert forall|i: int|
                    0 <= i < cs.len() && const_foldable(cs[i]) && found.contains(i as usize) && (
                    exists|m2: int| 0 <= m2 < mi + 1 && (#[trigger] found[m2] as int) == i)
                    implies to_remove@.contains(i as usize) by {
                    let m2 = choose|m2: int| 0 <= m2 < mi + 1 && (#[trigger] found[m2] as int)
                        == i;
                    if m2 < mi {
                        assert(prev.contains(i as usize));
                        let p = choose|p: int| 0 <= p < prev.len() && prev[p] == i as usize;
                        assert(to_remove@[p] == i as usize);
                    } else {
                        assert(matches@[mi as int].estimated_reduction == 1);
                        assert(to_remove@[to_remove@.len() - 1] == i as usize);
                    }
                }
            }
            mi = mi + 1;
        }
        proof {
            let found = indices_satisfying(cs.len(), pat);
            assert(cs.len() <= usize::MAX);
            lemma_indices_satisfying_props(cs.len(), pat);
            assert forall|i: int| 0 <= i < cs.len()
                implies (#[trigger] to_remove@.contains(i as usize) <==> !(!const_foldable(
                cs[i],
            ))) by {
                if to_remove@.contains(i as usize) {
                    assert(const_foldable(cs[i]));
                }
                if const_foldable(cs[i]) {
                    assert(pat(i));
                    assert(found.contains(i as usize));
                    let m2 = choose|m2: int| 0 <= m2 < found.len() && found[m2] == i as usize;
                    assert(0 <= m2 < matches@.len() && found[m2] as int == i);
                }
            }
            lemma_complement_matches(cs.len(), to_remove@, |i: int| !const_foldable(cs[i]));
        }
        let r = matrix.without_constraints(&to_remove);
        proof {
            assert(complement(cs.len(), to_remove@) == cf_kept(cs));
            lemma_cf_preserves(matrix, r);
        }
        r
    }

    /// Scan, apply, and report in one step.
    pub fn optimize(&self, matrix: ConstraintMatrix) -> (res: (ConstraintMatrix, ReductionReport))
        requires
            matrix.wf(),
        ensures
            res.0.wf(),
            res.0.num_public_inputs == matrix.num_public_inputs,
            res.0.num_private_witnesses == matrix.num_private_witnesses,
            res.0.num_variables == matrix.num_variables,
            res.0.constraints@.len() == cf_kept(matrix.constraints@).len(),
            forall|k: int| 0 <= k < cf_kept(matrix.constraints@).len() ==> {
                &&& (#[trigger] res.0.constraints@[k]).index == k
                &&& row_of(res.0.constraints@[k]) == row_of(
                    matrix.constraints@[cf_kept(matrix.constraints@)[k] as int],
                )
            },
            res.0.constraints@.len() <= matrix.constraints@.len(),
            forall|asg: Seq<nat>| matrix_satisfied(matrix, asg) <==> matrix_satisfied(res.0, asg),
    {
        let matches = self.scan(&matrix);
        let report = self.report(&matches);
        let ghost cs0 = matrix.constraints@;
        let n = matrix.num_constraints();
        let reduced = self.reduce(matrix, &matches);
        proof {
            lemma_indices_satisfying_props(cs0.len(), |i: int| !const_foldable(cs0[i]));
        }
        (reduced, report)
    }

    /// Summarize the findings: their count, the rows they list, and the
    /// total estimated saving, clamped to the machine word.
    pub fn report(&self, matches: &Vec<PatternMatch>) -> (r: ReductionReport)
        ensures
            r.patterns_found == matches@.len(),
            r.reducible_constraints == matches@.len(),
            r.estimated_savings == clamp_usize(total_estimated(matches@)),
    {
        let mut report = ReductionReport::new("Constant Folding");
        report.patterns_found = matches.len();
        report.reducible_constraints = matches.len();
        let mut mi: usize = 0;
        while mi < matches.len()
            invariant
                mi <= matches@.len(),
                report.patterns_found == matches@.len(),
                report.reducible_constraints == matches@.len(),
                report.estimated_savings == clamp_usize(
                    total_estimated(matches@.take(mi as int)),
                ),
            decreases matches@.len() - mi,
        {
            proof {
                assert(matches@.take(mi + 1).drop_last() =~= matches@.take(mi as int));
                assert(matches@.take(mi + 1).last() == matches@[mi as int]);
            }
            let m = &matches[mi];
            if report.estimated_savings <= usize::MAX - m.estimated_reduction {
                report.estimated_savings = report.estimated_savings + m.estimated_reduction;
            } else {
                report.estimated_savings = usize::MAX;
            }
            mi = mi + 1;
        }
        proof {
            assert(matches@.take(matches@.len() as int) =~= matches@);
        }
        report
    }
}

/// Dropping rows that hold by arithmetic alone leaves the satisfying
/// assignments unchanged.
proof fn lemma_cf_preserves(m: ConstraintMatrix, r: ConstraintMatrix)
    requires
        m.wf(),
        m.constraints@.len() <= usize::MAX,
        r.num_variables == m.num_variables,
        r.constraints@.len() == cf_kept(m.constraints@).len(),
        forall|k: int| 0 <= k < cf_kept(m.constraints@).len()
            ==> row_of(#[trigger] r.constraints@[k]) == row_of(
                m.constraints@[cf_kept(m.constraints@)[k] as int],
            ),
    ensures
        forall|asg: Seq<nat>| matrix_satisfied(m, asg) <==> matrix_satisfied(r, asg),
{
    let cs = m.constraints@;
    let kept = cf_kept(cs);
    let pred = |i: int| !const_foldable(cs[i]);
    lemma_indices_satisfying_props(cs.len(), pred);
    assert forall|asg: Seq<nat>| matrix_satisfied(m, asg) <==> matrix_satisfied(r, asg) by {
        if matrix_satisfied(m, asg) {
            assert forall|k: int| 0 <= k < r.constraints@.len() implies con_satisfied(
                #[trigger] r.constraints@[k],
                asg,
            ) by {
                let i = kept[k] as int;
                assert(con_satisfied(cs[i], asg));
                assert(r.constraints@[k].a@ == cs[i].a@ && r.constraints@[k].b@ == cs[i].b@
                    && r.constraints@[k].c@ == cs[i].c@);
            }
            assert(matrix_satisfied(r, asg));
        }
        if matrix_satisfied(r, asg) {
            assert(valid_assignment(asg, m.num_variables as nat));
            assert forall|i: int| 0 <= i < cs.len() implies con_satisfied(
                #[trigger] cs[i],
                asg,
            ) by {
                if const_foldable(cs[i]) {
                    lemma_constant_row_satisfied(cs[i], asg);
                    crate::semantics::lemma_lc_value_constant(cs[i].a@, asg);
                    crate::semantics::lemma_lc_value_constant(cs[i].b@, asg);
                    crate::semantics::lemma_lc_value_constant(cs[i].c@, asg);
                } else {
                    assert(kept.contains(i as usize));
                    let k = choose|k: int| 0 <= k < kept.len() && kept[k] == i as usize;
                    assert(con_satisfied(r.constraints@[k], asg));
                    assert(r.constraints@[k].a@ == cs[i].a@ && r.constraints@[k].b@ == cs[i].b@
                        && r.constraints@[k].c@ == cs[i].c@);
                }
            }
            assert(matrix_satisfied(m, asg));
        }
    }
}


/// A folded matrix is a fixed point: no surviving row folds away, so a
/// second run keeps every row.
pub proof fn lemma_cf_fixed_point(m: ConstraintMatrix, r: ConstraintMatrix)
    requires
        m.constraints@.len() <= usize::MAX,
        r.constraints@.len() == cf_kept(m.constraints@).len(),
        forall|k: int| 0 <= k < cf_kept(m.constraints@).len() ==> row_of(
            #[trigger] r.constraints@[k],
        ) == row_of(m.constraints@[cf_kept(m.constraints@)[k] as int]),
    ensures
        forall|i: int| 0 <= i < r.constraints@.len() ==> !const_foldable(
            #[trigger] r.constraints@[i],
        ),
        cf_kept(r.constraints@).len() == r.constraints@.len(),
{
    let cs = m.constraints@;
    let rs = r.constraints@;
    let kept = cf_kept(cs);
    let pred = |i: int| !const_foldable(cs[i]);
    lemma_indices_satisfying_props(cs.len(), pred);
    assert forall|i: int| 0 <= i < rs.len() implies !const_foldable(#[trigger] rs[i]) by {
        let oi = kept[i] as int;
        assert(rs[i].a@ == cs[oi].a@ && rs[i].b@ == cs[oi].b@ && rs[i].c@ == cs[oi].c@);
        assert(pred(oi));
    }
    assert(rs.len() <= usize::MAX);
    crate::semantics::lemma_indices_satisfying_all(rs.len(), |i: int| !const_foldable(rs[i]));
}

} // verus!
