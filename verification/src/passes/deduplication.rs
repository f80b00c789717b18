//! Deduplication pass: drop repeated constraint rows.
//!
//! Rows are grouped by content; the lowest-indexed copy of each group is
//! kept and the later copies are removed. Removing an exact copy leaves
//! the satisfying assignments of the system unchanged, and that is proved
//! in the contract of [`DeduplicationPass::reduce`].

use vstd::prelude::*;

use crate::constraint::{
    complement, row_of, terms_distinct, Constraint, ConstraintMatrix, LinearCombination,
};
use crate::field::lemma_fe_val_injective;
use crate::reduction::{
    clamp_usize, total_estimated, total_listed, MatchMetadata, PatternMatch, PatternType,
    ReductionReport,
};
use crate::semantics::{
    dup_kept, dup_removable, lc_map, lemma_complement_matches, lemma_dedup_preserves,
    lemma_indices_satisfying_props, lemma_lc_map_at, lemma_lc_map_dom, matrix_satisfied,
    rows_equiv,
};

verus! {

/// Whether every non-zero term of `a` appears in `b`'s coefficient map
/// with the same coefficient.
fn lc_submap(a: &LinearCombination, b: &LinearCombination) -> (r: bool)
    requires
        terms_distinct(a@),
        terms_distinct(b@),
    ensures
        r <==> forall|v: usize| #[trigger] lc_map(a@).dom().contains(v)
            ==> lc_map(b@).dom().contains(v) && lc_map(b@)[v] == lc_map(a@)[v],
{
    proof {
        lemma_lc_map_dom(a@);
        lemma_lc_map_dom(b@);
    }
    let mut i: usize = 0;
    while i < a.terms.len()
        invariant
            i <= a@.len(),
            terms_distinct(a@),
            terms_distinct(b@),
            forall|ii: int| 0 <= ii < i && (#[trigger] a@[ii]).coefficient.val() != 0
                ==> lc_map(b@).dom().contains(a@[ii].variable) && lc_map(b@)[a@[ii].variable]
                    == a@[ii].coefficient.val(),
        decreases a@.len() - i,
    {
        let t = a.terms[i];
        if !t.coefficient.is_zero() {
            let mut found = false;
            let mut j: usize = 0;
            while !found && j < b.terms.len()
                invariant
                    j <= b@.len(),
                    !found ==> forall|jj: int| 0 <= jj < j
                        ==> !((#[trigger] b@[jj]).variable == t.variable && b@[jj].coefficient
                            == t.coefficient),
                    found ==> exists|jj: int| 0 <= jj < b@.len()
                        && (#[trigger] b@[jj]).variable == t.variable && b@[jj].coefficient
                        == t.coefficient,
                decreases b@.len() - j, (if found { 0int } else { 1int }),
            {
                if b.terms[j].variable == t.variable && b.terms[j].coefficient == t.coefficient {
                    found = true;
                } else {
                    j = j + 1;
                }
            }
            if !found {
                proof {
                    lemma_lc_map_dom(b@);
                    lemma_lc_map_at(a@, i as int);
                    let v = t.variable;
                    if lc_map(b@).dom().contains(v) && lc_map(b@)[v] == t.coefficient.val() {
                        let jj = choose|jj: int|
                            0 <= jj < b@.len() && (#[trigger] b@[jj]).variable == v
                                && b@[jj].coefficient.val() != 0;
                        lemma_lc_map_at(b@, jj);
                        assert(b@[jj].coefficient.val() == t.coefficient.val());
                        lemma_fe_val_injective(b@[jj].coefficient, t.coefficient);
                        assert(b@[jj].variable == t.variable
                            && b@[jj].coefficient == t.coefficient);
                        assert(j == b@.len());
                        assert(false);
                    }
                    assert(lc_map(a@).dom().contains(v));
                    assert(lc_map(a@)[v] == t.coefficient.val());
                    assert(!(lc_map(b@).dom().contains(v) && lc_map(b@)[v] == lc_map(a@)[v]));
                }
                return false;
            }
            proof {
                let jj = choose|jj: int|
                    0 <= jj < b@.len() && (#[trigger] b@[jj]).variable == t.variable
                        && b@[jj].coefficient == t.coefficient;
                lemma_lc_map_at(b@, jj);
            }
        }
        i = i + 1;
    }
    proof {
        assert forall|v: usize| #[trigger] lc_map(a@).dom().contains(v)
            implies lc_map(b@).dom().contains(v) && lc_map(b@)[v] == lc_map(a@)[v] by {
            let ii = choose|ii: int|
                0 <= ii < a@.len() && (#[trigger] a@[ii]).variable == v && a@[ii].coefficient.val()
                    != 0;
            lemma_lc_map_at(a@, ii);
        }
    }
    true
}

/// Whether two linear combinations carry the same coefficient map.
fn lc_equal(a: &LinearCombination, b: &LinearCombination) -> (r: bool)
    requires
        terms_distinct(a@),
        terms_distinct(b@),
    ensures
        r <==> lc_map(a@) == lc_map(b@),
{
    let r = lc_submap(a, b) && lc_submap(b, a);
    proof {
        if r {
            assert(lc_map(a@) =~= lc_map(b@));
        }
    }
    r
}

/// Whether two rows carry the same equation on all three sides.
fn constraints_equal(a: &Constraint, b: &Constraint) -> (r: bool)
    requires
        terms_distinct(a.a@) && terms_distinct(a.b@) && terms_distinct(a.c@),
        terms_distinct(b.a@) && terms_distinct(b.b@) && terms_distinct(b.c@),
    ensures
        r <==> rows_equiv(*a, *b),
{
    lc_equal(&a.a, &b.a) && lc_equal(&a.b, &b.b) && lc_equal(&a.c, &b.c)
}

/// One sound finding of the deduplication scan: a group led by its
/// earliest copy, every later entry a higher-indexed row carrying the
/// same equation as the canonical one.
pub open spec fn dedup_match_ok(cs: Seq<Constraint>, m: PatternMatch) -> bool {
    &&& m.pattern_type == PatternType::Duplicate
    &&& m.constraint_indices@.len() >= 2
    &&& (m.constraint_indices@[0] as int) < cs.len()
    &&& m.metadata.canonical_index == Some(m.constraint_indices@[0])
    &&& !dup_removable(cs, m.constraint_indices@[0] as int)
    &&& m.estimated_reduction == m.constraint_indices@.len() - 1
    &&& forall|k: int| 1 <= k < m.constraint_indices@.len() ==> {
        &&& (#[trigger] m.constraint_indices@[k] as int) < cs.len()
        &&& m.constraint_indices@[0] < m.constraint_indices@[k]
        &&& rows_equiv(
            cs[m.constraint_indices@[0] as int],
            cs[m.constraint_indices@[k] as int],
        )
        &&& dup_removable(cs, m.constraint_indices@[k] as int)
    }
}

/// Whether row `i` is listed as a removable duplicate in some finding.
pub open spec fn listed_as_dup(ms: Seq<PatternMatch>, i: int) -> bool {
    exists|mi: int, k: int|
        0 <= mi < ms.len() && 1 <= k < ms[mi].constraint_indices@.len()
            && #[trigger] ms[mi].constraint_indices@[k] == i
}

/// The scan's full account: every finding is sound, and a row is listed
/// as a duplicate exactly when an earlier identical row exists.
pub open spec fn dedup_matches_exact(cs: Seq<Constraint>, ms: Seq<PatternMatch>) -> bool {
    &&& forall|mi: int| 0 <= mi < ms.len() ==> dedup_match_ok(cs, #[trigger] ms[mi])
    &&& forall|i: int| 0 <= i < cs.len() ==> (dup_removable(cs, i) <==> listed_as_dup(ms, i))
}

/// A removable row has an earliest copy that is itself not removable.
proof fn lemma_canon_exists(cs: Seq<Constraint>, i: int)
    requires
        0 <= i < cs.len(),
        dup_removable(cs, i),
    ensures
        exists|j: int| 0 <= j < i && rows_equiv(#[trigger] cs[j], cs[i]) && !dup_removable(cs, j),
    decreases i,
{
    let j = choose|j: int| 0 <= j < i && rows_equiv(#[trigger] cs[j], cs[i]);
    if dup_removable(cs, j) {
        lemma_canon_exists(cs, j);
        let j2 = choose|j2: int|
            0 <= j2 < j && rows_equiv(#[trigger] cs[j2], cs[j]) && !dup_removable(cs, j2);
        assert(rows_equiv(cs[j2], cs[i]));
    }
}

/// Whether some earlier row carries the same equation as row `i`.
fn has_earlier_equiv(matrix: &ConstraintMatrix, i: usize) -> (r: bool)
    requires
        matrix.wf(),
        (i as int) < matrix.constraints@.len(),
    ensures
        r <==> dup_removable(matrix.constraints@, i as int),
{
    let ghost cs = matrix.constraints@;
    let mut j: usize = 0;
    while j < i
        invariant
            matrix.wf(),
            cs == matrix.constraints@,
            (i as int) < cs.len(),
            j <= i,
            forall|jj: int| 0 <= jj < j ==> !rows_equiv(#[trigger] cs[jj], cs[i as int]),
        decreases i - j,
    {
        if constraints_equal(&matrix.constraints[j], &matrix.constraints[i]) {
            return true;
        }
        j = j + 1;
    }
    false
}

/// The rows at or after `i` carrying row `i`'s equation: row `i` first,
/// then every later copy, ascending and complete.
fn collect_group(matrix: &ConstraintMatrix, i: usize) -> (group: Vec<usize>)
    requires
        matrix.wf(),
        (i as int) < matrix.constraints@.len(),
    ensures
        group@.len() >= 1,
        group@[0] == i,
        forall|g: int| 1 <= g < group@.len() ==> i < (#[trigger] group@[g]) && (group@[g] as int)
            < matrix.constraints@.len() && rows_equiv(
            matrix.constraints@[i as int],
            matrix.constraints@[group@[g] as int],
        ),
        forall|kk: int| (i as int) < kk < matrix.constraints@.len() && rows_equiv(
            matrix.constraints@[i as int],
            #[trigger] matrix.constraints@[kk],
        ) ==> exists|g: int| 1 <= g < group@.len() && (#[trigger] group@[g] as int) == kk,
{
    let ghost cs = matrix.constraints@;
    let n = matrix.constraints.len();
    let mut group: Vec<usize> = Vec::new();
    group.push(i);
    let mut k: usize = i + 1;
    while k < n
        invariant
            matrix.wf(),
            cs == matrix.constraints@,
            n == cs.len(),
            (i as int) < cs.len(),
            i < k,
            k <= n,
            group@.len() >= 1,
            group@[0] == i,
            forall|g: int| 1 <= g < group@.len() ==> i < (#[trigger] group@[g]) && (
            group@[g] as int) < k && rows_equiv(cs[i as int], cs[group@[g] as int]),
            forall|kk: int| (i as int) < kk < k && rows_equiv(cs[i as int], #[trigger] cs[kk])
                ==> exists|g: int| 1 <= g < group@.len() && (#[trigger] group@[g] as int) == kk,
        decreases n - k,
    {
        let ghost prevg = group@;
        if constraints_equal(&matrix.constraints[i], &matrix.constraints[k]) {
            group.push(k);
        }
        proof {
            assert forall|kk: int|
                (i as int) < kk < k + 1 && rows_equiv(cs[i as int], #[trigger] cs[kk])
                implies exists|g: int|
                    1 <= g < group@.len() && (#[trigger] group@[g] as int) == kk by {
                if kk < k {
                    let g = choose|g: int|
                        1 <= g < prevg.len() && (#[trigger] prevg[g] as int) == kk;
                    assert(group@[g] as int == kk);
                } else {
                    assert(group@[group@.len() - 1] as int == kk);
                }
            }
        }
        k = k + 1;
    }
    group
}

/// After appending the complete group led by a non-removable row `i`, the
/// listing covers exactly the duplicates whose earliest copy is at or
/// before `i`.
proof fn lemma_scan_step_push(
    cs: Seq<Constraint>,
    prevms: Seq<PatternMatch>,
    m: PatternMatch,
    i: int,
)
    requires
        0 <= i < cs.len(),
        !dup_removable(cs, i),
        forall|ii: int| 0 <= ii < cs.len() ==> (listed_as_dup(prevms, ii) <==> exists|j: int|
            0 <= j < i && j < ii && rows_equiv(#[trigger] cs[j], cs[ii]) && !dup_removable(cs, j)),
        m.constraint_indices@.len() >= 2,
        m.constraint_indices@[0] == i,
        forall|g: int| 1 <= g < m.constraint_indices@.len() ==> i
            < (#[trigger] m.constraint_indices@[g]) && (m.constraint_indices@[g] as int) < cs.len()
            && rows_equiv(cs[i], cs[m.constraint_indices@[g] as int]),
        forall|kk: int| i < kk < cs.len() && rows_equiv(cs[i], #[trigger] cs[kk]) ==> exists|
            g: int,
        | 1 <= g < m.constraint_indices@.len() && (#[trigger] m.constraint_indices@[g] as int)
            == kk,
    ensures
        forall|ii: int| 0 <= ii < cs.len() ==> (listed_as_dup(prevms.push(m), ii) <==> exists|
            j: int,
        |
            0 <= j < i + 1 && j < ii && rows_equiv(#[trigger] cs[j], cs[ii]) && !dup_removable(
                cs,
                j,
            )),
{
    let ms = prevms.push(m);
    assert forall|ii: int| 0 <= ii < cs.len() implies (listed_as_dup(ms, ii) <==> exists|j: int|
        0 <= j < i + 1 && j < ii && rows_equiv(#[trigger] cs[j], cs[ii]) && !dup_removable(
            cs,
            j,
        )) by {
        if listed_as_dup(ms, ii) {
            let (mi, kk) = choose|mi: int, kk: int|
                0 <= mi < ms.len() && 1 <= kk < ms[mi].constraint_indices@.len()
                    && #[trigger] ms[mi].constraint_indices@[kk] == ii;
            if mi < prevms.len() {
                assert(ms[mi] == prevms[mi]);
                assert(prevms[mi].constraint_indices@[kk] == ii);
                assert(listed_as_dup(prevms, ii));
            } else {
                assert(ms[mi] == m);
                assert(rows_equiv(cs[i], cs[ii]) && i < ii);
            }
        }
        if exists|j: int|
            0 <= j < i + 1 && j < ii && rows_equiv(#[trigger] cs[j], cs[ii]) && !dup_removable(
                cs,
                j,
            ) {
            let j = choose|j: int|
                0 <= j < i + 1 && j < ii && rows_equiv(#[trigger] cs[j], cs[ii]) && !dup_removable(
                    cs,
                    j,
                );
            if j < i {
                assert(listed_as_dup(prevms, ii));
                let (mi, kk) = choose|mi: int, kk: int|
                    0 <= mi < prevms.len() && 1 <= kk < prevms[mi].constraint_indices@.len()
                        && #[trigger] prevms[mi].constraint_indices@[kk] == ii;
                assert(ms[mi] == prevms[mi]);
                assert(ms[mi].constraint_indices@[kk] == ii);
                assert(listed_as_dup(ms, ii));
            } else {
                assert(j == i && rows_equiv(cs[i], cs[ii]) && i < ii);
                let g = choose|g: int|
                    1 <= g < m.constraint_indices@.len()
                        && (#[trigger] m.constraint_indices@[g] as int) == ii;
                assert(ms[ms.len() - 1] == m);
                assert(ms[ms.len() - 1].constraint_indices@[g] == ii);
                assert(listed_as_dup(ms, ii));
            }
        }
    }
}

/// A non-removable row with no later copies adds nothing to the listing.
proof fn lemma_scan_step_lone(
    cs: Seq<Constraint>,
    ms: Seq<PatternMatch>,
    group: Seq<usize>,
    i: int,
)
    requires
        0 <= i < cs.len(),
        !dup_removable(cs, i),
        group.len() == 1,
        forall|kk: int| i < kk < cs.len() && rows_equiv(cs[i], #[trigger] cs[kk]) ==> exists|
            g: int,
        | 1 <= g < group.len() && (#[trigger] group[g] as int) == kk,
        forall|ii: int| 0 <= ii < cs.len() ==> (listed_as_dup(ms, ii) <==> exists|j: int|
            0 <= j < i && j < ii && rows_equiv(#[trigger] cs[j], cs[ii]) && !dup_removable(cs, j)),
    ensures
        forall|ii: int| 0 <= ii < cs.len() ==> (listed_as_dup(ms, ii) <==> exists|j: int|
            0 <= j < i + 1 && j < ii && rows_equiv(#[trigger] cs[j], cs[ii]) && !dup_removable(
                cs,
                j,
            )),
{
    assert forall|ii: int| 0 <= ii < cs.len() implies (listed_as_dup(ms, ii) <==> exists|j: int|
        0 <= j < i + 1 && j < ii && rows_equiv(#[trigger] cs[j], cs[ii]) && !dup_removable(
            cs,
            j,
        )) by {
        if exists|j: int|
            0 <= j < i + 1 && j < ii && rows_equiv(#[trigger] cs[j], cs[ii]) && !dup_removable(
                cs,
                j,
            ) {
            let j = choose|j: int|
                0 <= j < i + 1 && j < ii && rows_equiv(#[trigger] cs[j], cs[ii]) && !dup_removable(
                    cs,
                    j,
                );
            if j == i {
                assert(i < ii < cs.len() && rows_equiv(cs[i], cs[ii]));
                assert(false);
            }
        }
    }
}

/// A removable row leads no group; the listing is unchanged by it.
proof fn lemma_scan_step_skip(cs: Seq<Constraint>, ms: Seq<PatternMatch>, i: int)
    requires
        0 <= i < cs.len(),
        dup_removable(cs, i),
        forall|ii: int| 0 <= ii < cs.len() ==> (listed_as_dup(ms, ii) <==> exists|j: int|
            0 <= j < i && j < ii && rows_equiv(#[trigger] cs[j], cs[ii]) && !dup_removable(cs, j)),
    ensures
        forall|ii: int| 0 <= ii < cs.len() ==> (listed_as_dup(ms, ii) <==> exists|j: int|
            0 <= j < i + 1 && j < ii && rows_equiv(#[trigger] cs[j], cs[ii]) && !dup_removable(
                cs,
                j,
            )),
{
    assert forall|ii: int| 0 <= ii < cs.len() implies (listed_as_dup(ms, ii) <==> exists|j: int|
        0 <= j < i + 1 && j < ii && rows_equiv(#[trigger] cs[j], cs[ii]) && !dup_removable(
            cs,
            j,
        )) by {
        if exists|j: int|
            0 <= j < i + 1 && j < ii && rows_equiv(#[trigger] cs[j], cs[ii]) && !dup_removable(
                cs,
                j,
            ) {
            let j = choose|j: int|
                0 <= j < i + 1 && j < ii && rows_equiv(#[trigger] cs[j], cs[ii]) && !dup_removable(
                    cs,
                    j,
                );
            assert(j != i);
        }
    }
}

/// Deduplication pass: removes duplicate constraints.
pub struct DeduplicationPass;

impl DeduplicationPass {
    pub fn new() -> (r: Self)
        ensures
            true,
    {
        DeduplicationPass
    }

    /// Short name of the pass.
    pub fn name(&self) -> &'static str {
        "Deduplication"
    }

    /// One-line account of what the pass does.
    pub fn description(&self) -> &'static str {
        "Removes duplicate constraints that are structurally identical"
    }

    /// Find every group of identical rows: one finding per group, led by
    /// the earliest copy, listing exactly the rows with an earlier
    /// identical row as removable.
    pub fn scan(&self, matrix: &ConstraintMatrix) -> (r: Vec<PatternMatch>)
        requires
            matrix.wf(),
        ensures
            dedup_matches_exact(matrix.constraints@, r@),
    {
        let ghost cs = matrix.constraints@;
        let n = matrix.constraints.len();
        let mut matches: Vec<PatternMatch> = Vec::new();
        let mut match_id: usize = 0;
        let mut i: usize = 0;
        while i < n
            invariant
                matrix.wf(),
                cs == matrix.constraints@,
                n == cs.len(),
                i <= n,
                forall|mi: int| 0 <= mi < matches@.len() ==> dedup_match_ok(
                    cs,
                    #[trigger] matches@[mi],
                ),
                forall|ii: int| 0 <= ii < cs.len() ==> (listed_as_dup(matches@, ii) <==> exists|
                    j: int,
                |
                    0 <= j < i && j < ii && rows_equiv(#[trigger] cs[j], cs[ii]) && !dup_removable(
                        cs,
                        j,
                    )),
            decreases n - i,
        {
            let ghost prevms = matches@;
            let earlier = has_earlier_equiv(matrix, i);
            if !earlier {
                let group = collect_group(matrix, i);
                if group.len() > 1 {
                    let hash = matrix.constraints[i].constraint_hash();
                    let removable = group.len() - 1;
                    let m = PatternMatch {
                        id: match_id,
                        pattern_type: PatternType::Duplicate,
                        constraint_indices: group,
                        variable_indices: Vec::new(),
                        estimated_reduction: removable,
                        description: "duplicate constraint group".to_string(),
                        metadata: MatchMetadata {
                            canonical_index: Some(i),
                            expression_hash: Some(hash),
                            substitute_variable: None,
                        },
                    };
                    matches.push(m);
                    if match_id < usize::MAX {
                        match_id = match_id + 1;
                    }
                    proof {
                        lemma_scan_step_push(cs, prevms, m, i as int);
                    }
                } else {
                    proof {
                        lemma_scan_step_lone(cs, prevms, group@, i as int);
                    }
                }
            } else {
                proof {
                    lemma_scan_step_skip(cs, prevms, i as int);
                }
            }
            i = i + 1;
        }
        proof {
            assert forall|ii: int| 0 <= ii < cs.len() implies (dup_removable(cs, ii)
                <==> listed_as_dup(matches@, ii)) by {
                if dup_removable(cs, ii) {
                    lemma_canon_exists(cs, ii);
                }
            }
        }
        matches
    }

    /// Drop every row listed as a duplicate. The result keeps exactly the
    /// first copy of each row, and is satisfied by exactly the same
    /// assignments as the input.
    pub fn reduce(&self, matrix: ConstraintMatrix, matches: &Vec<PatternMatch>) -> (r:
        ConstraintMatrix)
        requires
            matrix.wf(),
            dedup_matches_exact(matrix.constraints@, matches@),
        ensures
            r.wf(),
            r.num_public_inputs == matrix.num_public_inputs,
            r.num_private_witnesses == matrix.num_private_witnesses,
            r.num_variables == matrix.num_variables,
            r.constraints@.len() == dup_kept(matrix.constraints@).len(),
            forall|k: int| 0 <= k < dup_kept(matrix.constraints@).len() ==> {
                &&& (#[trigger] r.constraints@[k]).index == k
                &&& row_of(r.constraints@[k]) == row_of(
                    matrix.constraints@[dup_kept(matrix.constraints@)[k] as int],
                )
            },
            forall|asg: Seq<nat>| matrix_satisfied(matrix, asg) <==> matrix_satisfied(r, asg),
    {
        let ghost cs = matrix.constraints@;
        let n = matrix.constraints.len();
        let mut to_remove: Vec<usize> = Vec::new();
        let mut mi: usize = 0;
        while mi < matches.len()
            invariant
                dedup_matches_exact(cs, matches@),
                mi <= matches@.len(),
                forall|v: usize| #[trigger] to_remove@.contains(v) ==> (v as int) < cs.len()
                    && dup_removable(cs, v as int),
                forall|ii: int| 0 <= ii < cs.len() && listed_as_dup(matches@.take(mi as int), ii)
                    ==> to_remove@.contains(ii as usize),
            decreases matches@.len() - mi,
        {
            let m = &matches[mi];
            if m.pattern_type == PatternType::Duplicate {
                let mut k: usize = 1;
                while k < m.constraint_indices.len()
                    invariant
                        dedup_matches_exact(cs, matches@),
                        mi < matches@.len(),
                        matches@[mi as int] == *m,
                        1 <= k <= m.constraint_indices@.len(),
                        forall|v: usize| #[trigger] to_remove@.contains(v) ==> (v as int)
                            < cs.len() && dup_removable(cs, v as int),
                        forall|ii: int| 0 <= ii < cs.len() && listed_as_dup(
                            matches@.take(mi as int),
                            ii,
                        ) ==> to_remove@.contains(ii as usize),
                        forall|kk: int| 1 <= kk < k ==> to_remove@.contains(
                            #[trigger] m.constraint_indices@[kk],
                        ),
                    decreases m.constraint_indices@.len() - k,
                {
                    let ghost prev = to_remove@;
                    let x = m.constraint_indices[k];
                    to_remove.push(x);
                    proof {
                        assert(dedup_match_ok(cs, matches@[mi as int]));
                        assert(to_remove@ == prev.push(x));
                        assert forall|v: usize| #[trigger] to_remove@.contains(v) implies (
                        v as int) < cs.len() && dup_removable(cs, v as int) by {
                            let p = choose|p: int|
                                0 <= p < to_remove@.len() && to_remove@[p] == v;
                            if p < prev.len() {
                                assert(prev[p] == v);
                                assert(prev.contains(v));
                            } else {
                                assert(v == x);
                            }
                        }
                        assert forall|ii: int| 0 <= ii < cs.len() && listed_as_dup(
                            matches@.take(mi as int),
                            ii,
                        ) implies to_remove@.contains(ii as usize) by {
                            assert(prev.contains(ii as usize));
                            let p = choose|p: int| 0 <= p < prev.len() && prev[p] == ii as usize;
                            assert(to_remove@[p] == ii as usize);
                        }
                        assert forall|kk: int| 1 <= kk < k + 1 implies to_remove@.contains(
                            #[trigger] m.constraint_indices@[kk],
                        ) by {
                            if kk < k {
                                assert(prev.contains(m.constraint_indices@[kk]));
                                let p = choose|p: int|
                                    0 <= p < prev.len() && prev[p] == m.constraint_indices@[kk];
                                assert(to_remove@[p] == m.constraint_indices@[kk]);
                            } else {
                                assert(to_remove@[to_remove@.len() - 1]
                                    == m.constraint_indices@[kk]);
                            }
                        }
                    }
                    k = k + 1;
                }
            }
            mi = mi + 1;
            proof {
                assert forall|ii: int|
                    0 <= ii < cs.len() && listed_as_dup(matches@.take(mi as int), ii)
                    implies to_remove@.contains(ii as usize) by {
                    let t1 = matches@.take(mi as int);
                    let t0 = matches@.take(mi - 1);
                    let (m2, kk) = choose|m2: int, kk: int|
                        0 <= m2 < t1.len() && 1 <= kk < t1[m2].constraint_indices@.len()
                            && #[trigger] t1[m2].constraint_indices@[kk] == ii;
                    if m2 < mi - 1 {
                        assert(t0[m2] == t1[m2]);
                        assert(t0[m2].constraint_indices@[kk] == ii);
                        assert(listed_as_dup(t0, ii));
                    } else {
                        assert(t1[m2] == matches@[mi - 1]);
                    }
                }
            }
        }
        proof {
            assert(matches@.take(matches@.len() as int) =~= matches@);
            assert(cs.len() <= usize::MAX);
            assert forall|i: int| 0 <= i < cs.len()
                implies (#[trigger] to_remove@.contains(i as usize) <==> !(!dup_removable(
                cs,
                i,
            ))) by {
                if to_remove@.contains(i as usize) {
                    assert(dup_removable(cs, i));
                }
                if dup_removable(cs, i) {
                    assert(listed_as_dup(matches@, i));
                }
            }
            lemma_complement_matches(cs.len(), to_remove@, |i: int| !dup_removable(cs, i));
        }
        let r = matrix.without_constraints(&to_remove);
        proof {
            assert(complement(cs.len(), to_remove@) == dup_kept(cs));
            lemma_dedup_preserves(matrix, r);
        }
        r
    }

    /// Scan, apply, and report in one step.
    pub fn optimize(&self, matrix: ConstraintMatrix) -> (res: (ConstraintMatrix, ReductionReport))
        requires
            matrix.wf(),
        ensures
            res.0.wf(),
            res.0.num_public_inputs == matrix.num_public_inputs,
            res.0.num_private_witnesses == matrix.num_private_witnesses,
            res.0.num_variables == matrix.num_variables,
            res.0.constraints@.len() == dup_kept(matrix.constraints@).len(),
            forall|k: int| 0 <= k < dup_kept(matrix.constraints@).len() ==> {
                &&& (#[trigger] res.0.constraints@[k]).index == k
                &&& row_of(res.0.constraints@[k]) == row_of(
                    matrix.constraints@[dup_kept(matrix.constraints@)[k] as int],
                )
            },
            res.0.constraints@.len() <= matrix.constraints@.len(),
            forall|asg: Seq<nat>| matrix_satisfied(matrix, asg) <==> matrix_satisfied(res.0, asg),
    {
        let matches = self.scan(&matrix);
        let report = self.report(&matches);
        let ghost cs0 = matrix.constraints@;
        let n = matrix.num_constraints();
        let reduced = self.reduce(matrix, &matches);
        proof {
            lemma_indices_satisfying_props(cs0.len(), |i: int| !dup_removable(cs0, i));
        }
        (reduced, report)
    }

    /// Summarize the findings: their count, the rows they list, and the
    /// total estimated saving, clamped to the machine word.
    pub fn report(&self, matches: &Vec<PatternMatch>) -> (r: ReductionReport)
        ensures
            r.patterns_found == matches@.len(),
            r.reducible_constraints == clamp_usize(total_listed(matches@)),
            r.estimated_savings == clamp_usize(total_estimated(matches@)),
    {
        let mut report = ReductionReport::new("Deduplication");
        report.patterns_found = matches.len();
        let mut mi: usize = 0;
        while mi < matches.len()
            invariant
                mi <= matches@.len(),
                report.patterns_found == matches@.len(),
                report.reducible_constraints == clamp_usize(
                    total_listed(matches@.take(mi as int)),
                ),
                report.estimated_savings == clamp_usize(
                    total_estimated(matches@.take(mi as int)),
                ),
            decreases matches@.len() - mi,
        {
            proof {
                assert(matches@.take(mi + 1).drop_last() =~= matches@.take(mi as int));
                assert(matches@.take(mi + 1).last() == matches@[mi as int]);
            }
            let m = &matches[mi];
            let listed = m.constraint_indices.len();
            if report.reducible_constraints <= usize::MAX - listed {
                report.reducible_constraints = report.reducible_constraints + listed;
            } else {
                report.reducible_constraints = usize::MAX;
            }
            if report.estimated_savings <= usize::MAX - m.estimated_reduction {
                report.estimated_savings = report.estimated_savings + m.estimated_reduction;
            } else {
                report.estimated_savings = usize::MAX;
            }
            mi = mi + 1;
        }
        proof {
            assert(matches@.take(matches@.len() as int) =~= matches@);
        }
        report
    }
}


/// A deduplicated matrix is a fixed point: no row of the result has an
/// earlier identical row, so a second run keeps every row.
pub proof fn lemma_dedup_fixed_point(m: ConstraintMatrix, r: ConstraintMatrix)
    requires
        m.constraints@.len() <= usize::MAX,
        r.constraints@.len() == dup_kept(m.constraints@).len(),
        forall|k: int| 0 <= k < dup_kept(m.constraints@).len() ==> row_of(
            #[trigger] r.constraints@[k],
        ) == row_of(m.constraints@[dup_kept(m.constraints@)[k] as int]),
    ensures
        forall|i: int| 0 <= i < r.constraints@.len() ==> !dup_removable(r.constraints@, i),
        dup_kept(r.constraints@).len() == r.constraints@.len(),
{
    let cs = m.constraints@;
    let rs = r.constraints@;
    let kept = dup_kept(cs);
    let pred = |i: int| !dup_removable(cs, i);
    lemma_indices_satisfying_props(cs.len(), pred);
    assert forall|i: int| 0 <= i < rs.len() implies !dup_removable(rs, i) by {
        if dup_removable(rs, i) {
            let j = choose|j: int| 0 <= j < i && rows_equiv(#[trigger] rs[j], rs[i]);
            let oj = kept[j] as int;
            let oi = kept[i] as int;
            assert(kept[j] < kept[i]);
            assert(rs[j].a@ == cs[oj].a@ && rs[j].b@ == cs[oj].b@ && rs[j].c@ == cs[oj].c@);
            assert(rs[i].a@ == cs[oi].a@ && rs[i].b@ == cs[oi].b@ && rs[i].c@ == cs[oi].c@);
            assert(rows_equiv(cs[oj], cs[oi]));
            assert(dup_removable(cs, oi));
            assert(pred(oi));
            assert(false);
        }
    }
    assert(rs.len() <= usize::MAX);
    crate::semantics::lemma_indices_satisfying_all(rs.len(), |i: int| !dup_removable(rs, i));
}

} // verus!
