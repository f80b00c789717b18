//! Dead-variable pass: drop definitions nothing reads.
//!
//! A private variable that stands alone, with coefficient one, on the
//! claim side of exactly one row and is read by no other side anywhere
//! is observed by nothing; the one row defining it may be removed. A
//! variable defined inside a wider claim, under another coefficient, or
//! read elsewhere is conservatively left in place. The contract of
//! [`DeadVariablePass::reduce`] carries both directions of solution-set
//! preservation: every assignment satisfying the input satisfies the
//! result, and every assignment satisfying the result extends to the
//! input by giving each dead variable the value its removed definition
//! computes.

use vstd::prelude::*;

use crate::constraint::{
    complement, lemma_vars_of_contains, row_of, vars_of, Constraint, ConstraintMatrix,
    LinearCombination,
};
use crate::reduction::{
    clamp_usize, total_estimated, MatchMetadata, PatternMatch, PatternType, ReductionReport,
};
use crate::semantics::{
    con_satisfied, indices_satisfying, lemma_complement_matches, lemma_indices_satisfying_props,
    matrix_satisfied,
};

verus! {

/// A row whose claim side is one single non-constant variable.
pub open spec fn defines_var(c: Constraint) -> bool {
    c.c@.len() == 1 && c.c@[0].variable != 0
}

/// The variable such a row defines.
pub open spec fn defined_var(c: Constraint) -> usize {
    c.c@[0].variable
}

/// How many rows define `v` as their single claim variable.
pub open spec fn def_count(cs: Seq<Constraint>, v: usize) -> nat
    decreases cs.len(),
{
    if cs.len() == 0 {
        0
    } else {
        def_count(cs.drop_last(), v) + if defines_var(cs.last()) && defined_var(cs.last()) == v {
            1nat
        } else {
            0nat
        }
    }
}

/// Whether any row reads `v` in one of its factors.
pub open spec fn uses_in_factors(cs: Seq<Constraint>, v: usize) -> bool {
    exists|i: int|
        0 <= i < cs.len() && (vars_of((#[trigger] cs[i]).a@).contains(v) || vars_of(
            cs[i].b@,
        ).contains(v))
}

/// A removable row: it alone defines, with coefficient one, a private
/// variable that no factor and no other claim side reads. The unit
/// coefficient and the absence from other claims are what let a
/// satisfying assignment of the reduced system be extended back.
pub open spec fn dead_row(cs: Seq<Constraint>, i: int, num_public: nat) -> bool {
    &&& 0 <= i < cs.len()
    &&& defines_var(cs[i])
    &&& cs[i].c@[0].coefficient.val() == 1
    &&& defined_var(cs[i]) >= num_public
    &&& !uses_in_factors(cs, defined_var(cs[i]))
    &&& def_count(cs, defined_var(cs[i])) == 1
    &&& forall|j: int| 0 <= j < cs.len() && j != i ==> !vars_of((#[trigger] cs[j]).c@).contains(
        defined_var(cs[i]),
    )
}

/// The row indices dead-variable elimination keeps.
pub open spec fn dv_kept(cs: Seq<Constraint>, num_public: nat) -> Seq<usize> {
    indices_satisfying(cs.len(), |i: int| !dead_row(cs, i, num_public))
}

/// The scan's full account: one finding per dead row, in row order.
pub open spec fn dv_matches_exact(
    cs: Seq<Constraint>,
    num_public: nat,
    ms: Seq<PatternMatch>,
) -> bool {
    let found = indices_satisfying(cs.len(), |i: int| dead_row(cs, i, num_public));
    &&& ms.len() == found.len()
    &&& forall|mi: int| 0 <= mi < ms.len() ==> {
        &&& (#[trigger] ms[mi]).pattern_type == PatternType::DeadVariable
        &&& ms[mi].constraint_indices@.len() == 1
        &&& ms[mi].constraint_indices@[0] == found[mi]
        &&& (found[mi] as int) < cs.len()
        &&& ms[mi].estimated_reduction == 1
    }
}

/// Whether a combination reads `v`.
pub(crate) fn lc_contains_var(lc: &LinearCombination, v: usize) -> (r: bool)
    ensures
        r <==> vars_of(lc@).contains(v),
{
    proof {
        lemma_vars_of_contains(lc@, v);
    }
    let mut k: usize = 0;
    while k < lc.terms.len()
        invariant
            k <= lc@.len(),
            forall|i: int| 0 <= i < k ==> !((#[trigger] lc@[i]).variable == v && lc@[i].variable
                != 0 && lc@[i].coefficient.val() != 0),
        decreases lc@.len() - k,
    {
        let t = lc.terms[k];
        if t.variable == v && t.variable != 0 && !t.coefficient.is_zero() {
            proof {
                lemma_vars_of_contains(lc@, v);
            }
            return true;
        }
        k = k + 1;
    }
    false
}

/// Whether any row reads `v` in a factor.
fn any_factor_usage(matrix: &ConstraintMatrix, v: usize) -> (r: bool)
    ensures
        r <==> uses_in_factors(matrix.constraints@, v),
{
    let ghost cs = matrix.constraints@;
    let mut i: usize = 0;
    while i < matrix.constraints.len()
        invariant
            cs == matrix.constraints@,
            i <= cs.len(),
            forall|j: int| 0 <= j < i ==> !(vars_of((#[trigger] cs[j]).a@).contains(v) || vars_of(
                cs[j].b@,
            ).contains(v)),
        decreases cs.len() - i,
    {
        let c = &matrix.constraints[i];
        if lc_contains_var(&c.a, v) || lc_contains_var(&c.b, v) {
            return true;
        }
        i = i + 1;
    }
    false
}

/// How many rows define `v` as their single claim variable.
fn count_definitions(matrix: &ConstraintMatrix, v: usize) -> (r: usize)
    ensures
        r == def_count(matrix.constraints@, v),
{
    let ghost cs = matrix.constraints@;
    let mut count: usize = 0;
    let mut i: usize = 0;
    while i < matrix.constraints.len()
        invariant
            cs == matrix.constraints@,
            i <= cs.len(),
            count == def_count(cs.take(i as int), v),
            count <= i,
        decreases cs.len() - i,
    {
        proof {
            assert(cs.take(i + 1).drop_last() =~= cs.take(i as int));
            assert(cs.take(i + 1).last() == cs[i as int]);
        }
        let c = &matrix.constraints[i];
        if c.c.is_single_variable() && c.c.terms[0].variable == v {
            count = count + 1;
        }
        i = i + 1;
    }
    proof {
        assert(cs.take(cs.len() as int) =~= cs);
    }
    count
}

/// Whether some other row reads `v` on its claim side.
fn claimed_elsewhere(matrix: &ConstraintMatrix, i: usize, v: usize) -> (r: bool)
    requires
        (i as int) < matrix.constraints@.len(),
    ensures
        r <==> exists|j: int|
            0 <= j < matrix.constraints@.len() && j != i && vars_of(
                (#[trigger] matrix.constraints@[j]).c@,
            ).contains(v),
{
    let ghost cs = matrix.constraints@;
    let mut j: usize = 0;
    while j < matrix.constraints.len()
        invariant
            cs == matrix.constraints@,
            (i as int) < cs.len(),
            j <= cs.len(),
            forall|j2: int| 0 <= j2 < j && j2 != i ==> !vars_of(
                (#[trigger] cs[j2]).c@,
            ).contains(v),
        decreases cs.len() - j,
    {
        if j != i {
            if lc_contains_var(&matrix.constraints[j].c, v) {
                return true;
            }
        }
        j = j + 1;
    }
    false
}

/// Dead-variable elimination pass.
pub struct DeadVariablePass;

impl DeadVariablePass {
    pub fn new() -> (r: Self)
        ensures
            true,
    {
        DeadVariablePass
    }

    /// Short name of the pass.
    pub fn name(&self) -> &'static str {
        "Dead Variable Elimination"
    }

    /// One-line account of what the pass does.
    pub fn description(&self) -> &'static str {
        "Removes constraints that define variables never used in outputs"
    }

    /// One finding per dead row, in row order.
    pub fn scan(&self, matrix: &ConstraintMatrix) -> (r: Vec<PatternMatch>)
        requires
            matrix.wf(),
        ensures
            dv_matches_exact(matrix.constraints@, matrix.num_public_inputs as nat, r@),
    {
        let ghost cs = matrix.constraints@;
        let ghost npub = matrix.num_public_inputs as nat;
        let ghost pred = |i: int| dead_row(cs, i, npub);
        let n = matrix.constraints.len();
        let mut matches: Vec<PatternMatch> = Vec::new();
        let mut match_id: usize = 0;
        let mut i: usize = 0;
        while i < n
            invariant
                matrix.wf(),
                cs == matrix.constraints@,
                npub == matrix.num_public_inputs as nat,
                pred == (|i: int| dead_row(cs, i, npub)),
                n == cs.len(),
                i <= n,
                ({
                    let found = indices_satisfying(i as nat, pred);
                    &&& matches@.len() == found.len()
                    &&& forall|mi: int| 0 <= mi < matches@.len() ==> {
                        &&& (#[trigger] matches@[mi]).pattern_type == PatternType::DeadVariable
                        &&& matches@[mi].constraint_indices@.len() == 1
                        &&& matches@[mi].constraint_indices@[0] == found[mi]
                        &&& (found[mi] as int) < cs.len()
                        &&& matches@[mi].estimated_reduction == 1
                    }
                }),
            decreases n - i,
        {
            let c = &matrix.constraints[i];
            let mut is_dead = false;
            if c.c.is_single_variable() && crate::passes::linear_substitution::unit_coefficient(
                &c.c,
            ) {
                let v = c.c.terms[0].variable;
                if v >= matrix.num_public_inputs {
                    if count_definitions(matrix, v) == 1 && !any_factor_usage(matrix, v)
                        && !claimed_elsewhere(matrix, i, v) {
                        is_dead = true;
                        let m = PatternMatch {
                            id: match_id,
                            pattern_type: PatternType::DeadVariable,
                            constraint_indices: {
                                let mut iv: Vec<usize> = Vec::new();
                                iv.push(i);
                                iv
                            },
                            variable_indices: {
                                let mut vv: Vec<usize> = Vec::new();
                                vv.push(v);
                                vv
                            },
                            estimated_reduction: 1,
                            description: "variable defined but never used".to_string(),
                            metadata: MatchMetadata {
                                canonical_index: None,
                                expression_hash: None,
                                substitute_variable: None,
                            },
                        };
                        matches.push(m);
                        if match_id < usize::MAX {
                            match_id = match_id + 1;
                        }
                    }
                }
            }
            proof {
                assert(is_dead <==> dead_row(cs, i as int, npub));
            }
            i = i + 1;
        }
        matches
    }

    /// Drop every dead row. The solution set is preserved in both
    /// directions: every assignment satisfying the input satisfies the
    /// result, and every assignment satisfying the result satisfies the
    /// input after each dead variable takes the value its removed
    /// definition computes.
    pub fn reduce(&self, matrix: ConstraintMatrix, matches: &Vec<PatternMatch>) -> (r:
        ConstraintMatrix)
        requires
            matrix.wf(),
            dv_matches_exact(matrix.constraints@, matrix.num_public_inputs as nat, matches@),
        ensures
            r.wf(),
            r.num_public_inputs == matrix.num_public_inputs,
            r.num_private_witnesses == matrix.num_private_witnesses,
            r.num_variables == matrix.num_variables,
            r.constraints@.len() == dv_kept(
                matrix.constraints@,
                matrix.num_public_inputs as nat,
            ).len(),
            forall|k: int| 0 <= k < dv_kept(
                matrix.constraints@,
                matrix.num_public_inputs as nat,
            ).len() ==> {
                &&& (#[trigger] r.constraints@[k]).index == k
                &&& row_of(r.constraints@[k]) == row_of(
                    matrix.constraints@[dv_kept(
                        matrix.constraints@,
                        matrix.num_public_inputs as nat,
                    )[k] as int],
                )
            },
            forall|asg: Seq<nat>| matrix_satisfied(matrix, asg) ==> matrix_satisfied(r, asg),
            forall|asg: Seq<nat>| matrix_satisfied(r, asg) ==> matrix_satisfied(
                matrix,
                revived_assignment(matrix.constraints@, matrix.num_public_inputs as nat, asg),
            ),
    {
        let ghost cs = matrix.constraints@;
        let ghost npub = matrix.num_public_inputs as nat;
        let ghost pred = |i: int| dead_row(cs, i, npub);
        let n = matrix.constraints.len();
        let mut to_remove: Vec<usize> = Vec::new();
        let mut mi: usize = 0;
        while mi < matches.len()
            invariant
                dv_matches_exact(cs, npub, matches@),
                pred == (|i: int| dead_row(cs, i, npub)),
                cs.len() <= usize::MAX,
                mi <= matches@.len(),
                forall|v: usize| #[trigger] to_remove@.contains(v) ==> (v as int) < cs.len()
                    && dead_row(cs, v as int, npub),
                forall|m2: int| 0 <= m2 < mi ==> to_remove@.contains(
                    #[trigger] indices_satisfying(cs.len(), pred)[m2],
                ),
            decreases matches@.len() - mi,
        {
            let ghost prev = to_remove@;
            let m = &matches[mi];
            if m.pattern_type == PatternType::DeadVariable {
                to_remove.push(m.constraint_indices[0]);
            }
            proof {
                let found = indices_satisfying(cs.len(), pred);
                lemma_indices_satisfying_props(cs.len(), pred);
                assert forall|v: usize| #[trigger] to_remove@.contains(v) implies (v as int)
                    < cs.len() && dead_row(cs, v as int, npub) by {
                    let p = choose|p: int| 0 <= p < to_remove@.len() && to_remove@[p] == v;
                    if p < prev.len() {
                        assert(prev[p] == v);
                        assert(prev.contains(v));
                    } else {
                        assert(v == found[mi as int]);
                    }
                }
                assert forall|m2: int| 0 <= m2 < mi + 1 implies to_remove@.contains(
                    #[trigger] found[m2],
                ) by {
                    if m2 < mi {
                        assert(prev.contains(found[m2]));
                        let p = choose|p: int| 0 <= p < prev.len() && prev[p] == found[m2];
                        assert(to_remove@[p] == found[m2]);
                    } else {
                        assert(to_remove@[to_remove@.len() - 1] == found[m2]);
                    }
                }
            }
            mi = mi + 1;
        }
        proof {
            let found = indices_satisfying(cs.len(), pred);
            assert(cs.len() <= usize::MAX);
            lemma_indices_satisfying_props(cs.len(), pred);
            assert forall|i: int| 0 <= i < cs.len()
                implies (#[trigger] to_remove@.contains(i as usize) <==> !(!dead_row(
                cs,
                i,
                npub,
            ))) by {
                if to_remove@.contains(i as usize) {
                    assert(dead_row(cs, i, npub));
                }
                if dead_row(cs, i, npub) {
                    assert(found.contains(i as usize));
                    let m2 = choose|m2: int| 0 <= m2 < found.len() && found[m2] == i as usize;
                    assert(to_remove@.contains(found[m2]));
                }
            }
            lemma_complement_matches(cs.len(), to_remove@, |i: int| !dead_row(cs, i, npub));
        }
        let r = matrix.without_constraints(&to_remove);
        proof {
            assert(complement(cs.len(), to_remove@) == dv_kept(cs, npub));
            lemma_indices_satisfying_props(cs.len(), |i: int| !dead_row(cs, i, npub));
            assert forall|asg: Seq<nat>| matrix_satisfied(matrix, asg) implies matrix_satisfied(
                r,
                asg,
            ) by {
                let kept = dv_kept(cs, npub);
                assert forall|k: int| 0 <= k < r.constraints@.len() implies con_satisfied(
                    #[trigger] r.constraints@[k],
                    asg,
                ) by {
                    let i = kept[k] as int;
                    assert(con_satisfied(cs[i], asg));
                    assert(r.constraints@[k].a@ == cs[i].a@ && r.constraints@[k].b@ == cs[i].b@
                        && r.constraints@[k].c@ == cs[i].c@);
                }
            }
            assert forall|asg: Seq<nat>| matrix_satisfied(r, asg) implies matrix_satisfied(
                matrix,
                revived_assignment(cs, npub, asg),
            ) by {
                assert forall|i2: int| 0 <= i2 < cs.len() && dead_row(cs, i2, npub)
                    implies (#[trigger] cs[i2]).c@[0].coefficient.val() == 1 by {}
                lemma_dead_variable_extension(matrix, r, asg);
            }
        }
        r
    }

    /// Scan, apply, and report in one step.
    pub fn optimize(&self, matrix: ConstraintMatrix) -> (res: (ConstraintMatrix, ReductionReport))
        requires
            matrix.wf(),
        ensures
            res.0.wf(),
            res.0.num_public_inputs == matrix.num_public_inputs,
            res.0.num_private_witnesses == matrix.num_private_witnesses,
            res.0.num_variables == matrix.num_variables,
            res.0.constraints@.len() == dv_kept(
                matrix.constraints@,
                matrix.num_public_inputs as nat,
            ).len(),
            res.0.constraints@.len() <= matrix.constraints@.len(),
            forall|k: int| 0 <= k < dv_kept(
                matrix.constraints@,
                matrix.num_public_inputs as nat,
            ).len() ==> {
                &&& (#[trigger] res.0.constraints@[k]).index == k
                &&& row_of(res.0.constraints@[k]) == row_of(
                    matrix.constraints@[dv_kept(
                        matrix.constraints@,
                        matrix.num_public_inputs as nat,
                    )[k] as int],
                )
            },
            forall|asg: Seq<nat>| matrix_satisfied(matrix, asg) ==> matrix_satisfied(res.0, asg),
            forall|asg: Seq<nat>| matrix_satisfied(res.0, asg) ==> matrix_satisfied(
                matrix,
                revived_assignment(matrix.constraints@, matrix.num_public_inputs as nat, asg),
            ),
    {
        let matches = self.scan(&matrix);
        let report = self.report(&matches);
        let n = matrix.num_constraints();
        proof {
            assert(matrix.constraints@.len() <= usize::MAX);
            lemma_indices_satisfying_props(
                matrix.constraints@.len(),
                |i: int| !dead_row(matrix.constraints@, i, matrix.num_public_inputs as nat),
            );
        }
        let reduced = self.reduce(matrix, &matches);
        (reduced, report)
    }

    /// Summarize the findings: their count, the rows they list, and the
    /// total estimated saving, clamped to the machine word.
    pub fn report(&self, matches: &Vec<PatternMatch>) -> (r: ReductionReport)
        ensures
            r.patterns_found == matches@.len(),
            r.reducible_constraints == matches@.len(),
            r.estimated_savings == clamp_usize(total_estimated(matches@)),
    {
        let mut report = ReductionReport::new("Dead Variable Elimination");
        report.patterns_found = matches.len();
        report.reducible_constraints = matches.len();
        let mut mi: usize = 0;
        while mi < matches.len()
            invariant
                mi <= matches@.len(),
                report.patterns_found == matches@.len(),
                report.reducible_constraints == matches@.len(),
                report.estimated_savings == clamp_usize(
                    total_estimated(matches@.take(mi as int)),
                ),
            decreases matches@.len() - mi,
        {
            proof {
                assert(matches@.take(mi + 1).drop_last() =~= matches@.take(mi as int));
                assert(matches@.take(mi + 1).last() == matches@[mi as int]);
            }
            let m = &matches[mi];
            if report.estimated_savings <= usize::MAX - m.estimated_reduction {
                report.estimated_savings = report.estimated_savings + m.estimated_reduction;
            } else {
                report.estimated_savings = usize::MAX;
            }
            mi = mi + 1;
        }
        proof {
            assert(matches@.take(matches@.len() as int) =~= matches@);
        }
        report
    }
}


/// Whether assignment slot `j` belongs to a dead variable.
pub open spec fn is_dead_var(cs: Seq<Constraint>, num_public: nat, j: int) -> bool {
    exists|i: int| #[trigger] dead_row(cs, i, num_public) && defined_var(cs[i]) as int == j
}

/// The assignment extended over the dead variables: each dead variable
/// takes the value its removed defining row computes; everything else is
/// untouched.
pub open spec fn revived_assignment(
    cs: Seq<Constraint>,
    num_public: nat,
    asg: Seq<nat>,
) -> Seq<nat> {
    Seq::new(
        asg.len(),
        |j: int|
            if is_dead_var(cs, num_public, j) {
                let i = choose|i: int| #[trigger] dead_row(cs, i, num_public) && defined_var(
                    cs[i],
                ) as int == j;
                (crate::semantics::lc_value(cs[i].a@, asg) * crate::semantics::lc_value(
                    cs[i].b@,
                    asg,
                )) % crate::field::fe_p()
            } else {
                asg[j]
            },
    )
}

/// A row defining `v` makes the definition count positive.
proof fn lemma_def_count_pos(cs: Seq<Constraint>, v: usize, i: int)
    requires
        0 <= i < cs.len(),
        defines_var(cs[i]),
        defined_var(cs[i]) == v,
    ensures
        def_count(cs, v) >= 1,
    decreases cs.len(),
{
    if i < cs.len() - 1 {
        let d = cs.drop_last();
        assert(d[i] == cs[i]);
        lemma_def_count_pos(d, v, i);
    }
}

/// Two distinct rows defining `v` make the definition count at least two.
proof fn lemma_two_definitions(cs: Seq<Constraint>, v: usize, i: int, j: int)
    requires
        0 <= i < cs.len(),
        0 <= j < cs.len(),
        i != j,
        defines_var(cs[i]) && defined_var(cs[i]) == v,
        defines_var(cs[j]) && defined_var(cs[j]) == v,
    ensures
        def_count(cs, v) >= 2,
    decreases cs.len(),
{
    let d = cs.drop_last();
    if j == cs.len() - 1 {
        assert(d[i] == cs[i]);
        lemma_def_count_pos(d, v, i);
    } else if i == cs.len() - 1 {
        assert(d[j] == cs[j]);
        lemma_def_count_pos(d, v, j);
    } else {
        assert(d[i] == cs[i] && d[j] == cs[j]);
        lemma_two_definitions(d, v, i, j);
    }
}

/// The other direction of solution-set preservation for this pass. The
/// two hypotheses it rests on — a unit claim coefficient on each dead
/// row, and the dead variable standing in no other row's claim side —
/// are part of what makes a row dead. Any assignment satisfying the
/// reduced system extends, by giving each dead variable the value its
/// removed definition computes, to one satisfying the whole system.
pub proof fn lemma_dead_variable_extension(m: ConstraintMatrix, r: ConstraintMatrix, asg: Seq<nat>)
    requires
        m.wf(),
        m.constraints@.len() <= usize::MAX,
        r.num_variables == m.num_variables,
        r.constraints@.len() == dv_kept(m.constraints@, m.num_public_inputs as nat).len(),
        forall|k: int| 0 <= k < r.constraints@.len() ==> row_of(#[trigger] r.constraints@[k])
            == row_of(
            m.constraints@[dv_kept(m.constraints@, m.num_public_inputs as nat)[k] as int],
        ),
        matrix_satisfied(r, asg),
        forall|i: int| 0 <= i < m.constraints@.len() && dead_row(
            m.constraints@,
            i,
            m.num_public_inputs as nat,
        ) ==> (#[trigger] m.constraints@[i]).c@[0].coefficient.val() == 1,
        forall|i: int, j: int|
            0 <= i < m.constraints@.len() && 0 <= j < m.constraints@.len() && #[trigger] dead_row(
                m.constraints@,
                i,
                m.num_public_inputs as nat,
            ) && j != i ==> !vars_of((#[trigger] m.constraints@[j]).c@).contains(
                defined_var(m.constraints@[i]),
            ),
    ensures
        matrix_satisfied(
            m,
            revived_assignment(m.constraints@, m.num_public_inputs as nat, asg),
        ),
{
    let cs = m.constraints@;
    let npub = m.num_public_inputs as nat;
    let asg2 = revived_assignment(cs, npub, asg);
    let p = crate::field::fe_p();
    let pred = |i: int| !dead_row(cs, i, npub);
    let kept = dv_kept(cs, npub);
    lemma_indices_satisfying_props(cs.len(), pred);
    // The untouched slots, and the value each dead slot takes.
    assert forall|j: int| 0 <= j < asg.len() && !is_dead_var(cs, npub, j)
        implies asg2[j] == asg[j] by {}
    // No combination in any factor reads a dead variable with a non-zero
    // coefficient, so factors keep their values.
    assert forall|j: int, k: int|
        0 <= j < cs.len() && 0 <= k < cs[j].a@.len() && (#[trigger] cs[j].a@[k]).coefficient.val()
            != 0 implies asg2[cs[j].a@[k].variable as int] == asg[cs[j].a@[k].variable as int] by {
        let w = cs[j].a@[k].variable;
        if (w as int) < asg.len() && is_dead_var(cs, npub, w as int) {
            let i2 = choose|i2: int| #[trigger] dead_row(cs, i2, npub) && defined_var(
                cs[i2],
            ) as int == w as int;
            lemma_vars_of_contains(cs[j].a@, w);
            if w != 0 {
                assert(vars_of(cs[j].a@).contains(w));
                assert(false);
            }
        }
    }
    assert forall|j: int, k: int|
        0 <= j < cs.len() && 0 <= k < cs[j].b@.len() && (#[trigger] cs[j].b@[k]).coefficient.val()
            != 0 implies asg2[cs[j].b@[k].variable as int] == asg[cs[j].b@[k].variable as int] by {
        let w = cs[j].b@[k].variable;
        if (w as int) < asg.len() && is_dead_var(cs, npub, w as int) {
            let i2 = choose|i2: int| #[trigger] dead_row(cs, i2, npub) && defined_var(
                cs[i2],
            ) as int == w as int;
            lemma_vars_of_contains(cs[j].b@, w);
            if w != 0 {
                assert(vars_of(cs[j].b@).contains(w));
                assert(false);
            }
        }
    }
    assert(asg2.len() == asg.len());
    assert(!is_dead_var(cs, npub, 0));
    assert(asg2[0] == 1);
    assert(forall|j: int| 0 <= j < asg2.len() ==> asg2[j] < p);
    assert forall|i: int| 0 <= i < cs.len() implies con_satisfied(#[trigger] cs[i], asg2) by {
        crate::semantics::lemma_lc_value_agrees(cs[i].a@, asg2, asg);
        crate::semantics::lemma_lc_value_agrees(cs[i].b@, asg2, asg);
        let va = crate::semantics::lc_value(cs[i].a@, asg);
        let vb = crate::semantics::lc_value(cs[i].b@, asg);
        if dead_row(cs, i, npub) {
            let v = defined_var(cs[i]);
            assert(is_dead_var(cs, npub, v as int));
            let i2 = choose|i2: int| #[trigger] dead_row(cs, i2, npub) && defined_var(
                cs[i2],
            ) as int == v as int;
            if i2 != i {
                lemma_two_definitions(cs, v, i, i2);
                assert(false);
            }
            assert((v as nat) < m.num_variables as nat) by {
                assert(crate::constraint::con_wf(cs[i], m.num_variables as nat));
            }
            assert(asg2[v as int] == (va * vb) % p);
            assert(cs[i].c@[0].coefficient.val() == 1);
            assert(cs[i].c@.len() == 1 && cs[i].c@.last() == cs[i].c@[0]);
            assert(crate::semantics::lc_value(cs[i].c@.drop_last(), asg2) == 0);
            assert(crate::semantics::lc_value(cs[i].c@, asg2) == 1 * asg2[v as int]);
            assert(1 * asg2[v as int] == asg2[v as int]) by (nonlinear_arith);
            assert(con_satisfied(cs[i], asg2));
        } else {
            assert(kept.contains(i as usize));
            let k = choose|k: int| 0 <= k < kept.len() && kept[k] == i as usize;
            assert(con_satisfied(r.constraints@[k], asg));
            assert(r.constraints@[k].a@ == cs[i].a@ && r.constraints@[k].b@ == cs[i].b@
                && r.constraints@[k].c@ == cs[i].c@);
            assert forall|k2: int|
                0 <= k2 < cs[i].c@.len() && (#[trigger] cs[i].c@[k2]).coefficient.val() != 0
                implies asg2[cs[i].c@[k2].variable as int] == asg[cs[i].c@[k2].variable as int] by {
                let w = cs[i].c@[k2].variable;
                if (w as int) < asg.len() && is_dead_var(cs, npub, w as int) {
                    let i3 = choose|i3: int| #[trigger] dead_row(cs, i3, npub) && defined_var(
                        cs[i3],
                    ) as int == w as int;
                    assert(i3 != i);
                    lemma_vars_of_contains(cs[i].c@, w);
                    if w != 0 {
                        assert(vars_of(cs[i].c@).contains(w));
                        assert(false);
                    }
                }
            }
            crate::semantics::lemma_lc_value_agrees(cs[i].c@, asg2, asg);
        }
    }
}

} // verus!
