//! Common-subexpression detection: report repeated combinations.
//!
//! Factor sides with the same structural hash appearing often enough are
//! reported as candidates for manual factoring; claim sides are outputs
//! and stay out of the grouping. The pass never rewrites the matrix:
//! introducing a shared intermediate needs a fresh witness variable and a
//! defining row, which only the circuit author can add.

use vstd::prelude::*;

use crate::constraint::{num_nonzero, structural_hash_spec, Constraint, ConstraintMatrix};
use crate::reduction::{
    clamp_usize, total_estimated, total_listed, MatchMetadata, PatternMatch, PatternType,
    ReductionReport,
};

verus! {

/// The structural hashes of the wide factor sides with their rows, in row
/// order: one entry per `A` or `B` side carrying at least two non-zero
/// terms.
pub open spec fn cse_pairs(cs: Seq<Constraint>) -> Seq<(u64, usize)>
    decreases cs.len(),
{
    if cs.len() == 0 {
        Seq::empty()
    } else {
        cse_pairs(cs.drop_last()) + (if num_nonzero(cs.last().a@) >= 2 {
            seq![(structural_hash_spec(cs.last().a@), ((cs.len() - 1) as usize))]
        } else {
            Seq::empty()
        }) + (if num_nonzero(cs.last().b@) >= 2 {
            seq![(structural_hash_spec(cs.last().b@), ((cs.len() - 1) as usize))]
        } else {
            Seq::empty()
        })
    }
}

/// The rows listed for one hash, in occurrence order.
pub open spec fn rows_of_pairs(ps: Seq<(u64, usize)>, h: u64) -> Seq<usize>
    decreases ps.len(),
{
    if ps.len() == 0 {
        Seq::empty()
    } else {
        rows_of_pairs(ps.drop_last(), h) + if ps.last().0 == h {
            seq![ps.last().1]
        } else {
            Seq::empty()
        }
    }
}

/// The rows whose wide factor sides carry structural hash `h`.
pub open spec fn cse_rows(cs: Seq<Constraint>, h: u64) -> Seq<usize> {
    rows_of_pairs(cse_pairs(cs), h)
}

/// A listed hash occurs somewhere.
proof fn lemma_rows_of_pairs_nonempty(ps: Seq<(u64, usize)>, h: u64)
    requires
        rows_of_pairs(ps, h).len() > 0,
    ensures
        exists|k: int| 0 <= k < ps.len() && (#[trigger] ps[k]).0 == h,
    decreases ps.len(),
{
    if ps.last().0 == h {
        assert(ps[ps.len() - 1].0 == h);
    } else {
        lemma_rows_of_pairs_nonempty(ps.drop_last(), h);
        let k = choose|k: int|
            0 <= k < ps.drop_last().len() && (#[trigger] ps.drop_last()[k]).0 == h;
        assert(ps[k].0 == h);
    }
}

/// An exact finding: the complete row group of one hash, with the saving
/// estimate derived from the group size.
pub open spec fn cse_match_ok(cs: Seq<Constraint>, min_occ: nat, m: PatternMatch) -> bool {
    &&& m.pattern_type == PatternType::CommonSubexpression
    &&& m.metadata.expression_hash is Some
    &&& m.constraint_indices@ == cse_rows(cs, m.metadata.expression_hash->Some_0)
    &&& m.constraint_indices@.len() >= min_occ
    &&& m.estimated_reduction == if m.constraint_indices@.len() >= 2 {
        m.constraint_indices@.len() - 2
    } else {
        0int
    }
}

/// Common-subexpression detection pass.
pub struct CommonSubexpressionPass {
    min_occurrences: usize,
}

impl CommonSubexpressionPass {
    /// How many occurrences a group needs before it is reported.
    pub closed spec fn min_occurrences_view(self) -> usize {
        self.min_occurrences
    }

    /// Report groups of three or more occurrences.
    pub fn new() -> (r: Self)
        ensures
            r.min_occurrences_view() == 3,
    {
        CommonSubexpressionPass { min_occurrences: 3 }
    }

    /// Set the occurrence threshold.
    pub fn with_min_occurrences(self, min: usize) -> (r: Self)
        ensures
            r.min_occurrences_view() == min,
    {
        CommonSubexpressionPass { min_occurrences: min }
    }

    /// Short name of the pass.
    pub fn name(&self) -> &'static str {
        "Common Subexpression"
    }

    /// One-line account of what the pass does.
    pub fn description(&self) -> &'static str {
        "Identifies repeated linear combinations that could be factored out"
    }

    /// Group the factor sides with two or more terms by structural hash
    /// and report each group reaching the threshold, largest saving
    /// first: every finding is one hash's complete row group, and every
    /// hash occurring often enough is found.
    pub fn scan(&self, matrix: &ConstraintMatrix) -> (r: Vec<PatternMatch>)
        requires
            matrix.wf(),
        ensures
            forall|mi: int| 0 <= mi < r@.len() ==> cse_match_ok(
                matrix.constraints@,
                self.min_occurrences_view() as nat,
                #[trigger] r@[mi],
            ),
            forall|k1: int, k2: int| 0 <= k1 < k2 < r@.len() ==> r@[k1].estimated_reduction
                >= r@[k2].estimated_reduction,
            forall|h: u64| #![trigger cse_rows(matrix.constraints@, h)]
                cse_rows(matrix.constraints@, h).len() >= self.min_occurrences_view() as nat
                    && cse_rows(matrix.constraints@, h).len() > 0 ==> exists|mi: int|
                    0 <= mi < r@.len() && (#[trigger] r@[mi]).metadata.expression_hash == Some(h),
    {
        let ghost cs = matrix.constraints@;
        let n = matrix.constraints.len();
        // Occurrences of wide factor sides: (structural hash, row).
        let mut occ: Vec<(u64, usize)> = Vec::new();
        let mut i: usize = 0;
        while i < n
            invariant
                matrix.wf(),
                cs == matrix.constraints@,
                n == cs.len(),
                i <= n,
                occ@ == cse_pairs(cs.take(i as int)),
            decreases n - i,
        {
            proof {
                assert(cs.take(i + 1).drop_last() =~= cs.take(i as int));
                assert(cs.take(i + 1).last() == cs[i as int]);
            }
            let c = &matrix.constraints[i];
            if c.a.num_terms() >= 2 {
                let h = c.a.structural_hash();
                occ.push((h, i));
            }
            if c.b.num_terms() >= 2 {
                let h = c.b.structural_hash();
                occ.push((h, i));
            }
            proof {
                assert(occ@ =~= cse_pairs(cs.take(i + 1)));
            }
            i = i + 1;
        }
        proof {
            assert(cs.take(cs.len() as int) =~= cs);
        }
        // One finding per distinct hash reaching the threshold.
        let mut found: Vec<PatternMatch> = Vec::new();
        let mut match_id: usize = 0;
        let mut k: usize = 0;
        while k < occ.len()
            invariant
                cs == matrix.constraints@,
                occ@ == cse_pairs(cs),
                k <= occ@.len(),
                forall|mi: int| 0 <= mi < found@.len() ==> cse_match_ok(
                    cs,
                    self.min_occurrences_view() as nat,
                    #[trigger] found@[mi],
                ),
                forall|h: u64| #![trigger cse_rows(cs, h)]
                    (exists|k2: int| 0 <= k2 < k && (#[trigger] occ@[k2]).0 == h) && cse_rows(
                        cs,
                        h,
                    ).len() >= self.min_occurrences_view() as nat ==> exists|mi: int|
                        0 <= mi < found@.len() && (#[trigger] found@[mi]).metadata.expression_hash
                            == Some(h),
            decreases occ@.len() - k,
        {
            let (hash, _row) = occ[k];
            let mut seen_before = false;
            let mut k2: usize = 0;
            while k2 < k
                invariant
                    k <= occ@.len(),
                    k2 <= k,
                    seen_before <==> exists|j: int| 0 <= j < k2 && (#[trigger] occ@[j]).0 == hash,
                decreases k - k2,
            {
                if occ[k2].0 == hash {
                    proof {
                        assert(occ@[k2 as int].0 == hash);
                    }
                    seen_before = true;
                }
                k2 = k2 + 1;
            }
            if !seen_before {
                let mut group: Vec<usize> = Vec::new();
                let mut k3: usize = 0;
                while k3 < occ.len()
                    invariant
                        k3 <= occ@.len(),
                        group@ == rows_of_pairs(occ@.take(k3 as int), hash),
                    decreases occ@.len() - k3,
                {
                    proof {
                        assert(occ@.take(k3 + 1).drop_last() =~= occ@.take(k3 as int));
                        assert(occ@.take(k3 + 1).last() == occ@[k3 as int]);
                    }
                    if occ[k3].0 == hash {
                        group.push(occ[k3].1);
                    }
                    proof {
                        assert(group@ =~= rows_of_pairs(occ@.take(k3 + 1), hash));
                    }
                    k3 = k3 + 1;
                }
                proof {
                    assert(occ@.take(occ@.len() as int) =~= occ@);
                    assert(group@ == cse_rows(cs, hash));
                }
                if group.len() >= self.min_occurrences {
                    let est = if group.len() >= 2 {
                        group.len() - 2
                    } else {
                        0
                    };
                    let m = PatternMatch {
                        id: match_id,
                        pattern_type: PatternType::CommonSubexpression,
                        constraint_indices: group,
                        variable_indices: Vec::new(),
                        estimated_reduction: est,
                        description: "repeated linear combination".to_string(),
                        metadata: MatchMetadata {
                            canonical_index: None,
                            expression_hash: Some(hash),
                            substitute_variable: None,
                        },
                    };
                    let ghost prevfound = found@;
                    found.push(m);
                    if match_id < usize::MAX {
                        match_id = match_id + 1;
                    }
                    proof {
                        assert(found@[found@.len() - 1].metadata.expression_hash == Some(hash));
                        assert forall|h: u64| #![trigger cse_rows(cs, h)]
                            (exists|j: int| 0 <= j < k + 1 && (#[trigger] occ@[j]).0 == h)
                                && cse_rows(cs, h).len() >= self.min_occurrences_view() as nat
                            implies exists|mi: int|
                                0 <= mi < found@.len()
                                    && (#[trigger] found@[mi]).metadata.expression_hash == Some(
                                h,
                                ) by {
                            if h != hash {
                                let j = choose|j: int|
                                    0 <= j < k + 1 && (#[trigger] occ@[j]).0 == h;
                                assert(j < k);
                                let mi = choose|mi: int|
                                    0 <= mi < prevfound.len()
                                        && (#[trigger] prevfound[mi]).metadata.expression_hash
                                        == Some(h);
                                assert(found@[mi].metadata.expression_hash == Some(h));
                            }
                        }
                    }
                } else {
                    proof {
                        assert forall|h: u64| #![trigger cse_rows(cs, h)]
                            (exists|j: int| 0 <= j < k + 1 && (#[trigger] occ@[j]).0 == h)
                                && cse_rows(cs, h).len() >= self.min_occurrences_view() as nat
                            implies exists|mi: int|
                                0 <= mi < found@.len()
                                    && (#[trigger] found@[mi]).metadata.expression_hash == Some(
                                h,
                                ) by {
                            if h == hash {
                                assert(cse_rows(cs, h).len()
                                    < self.min_occurrences_view() as nat);
                            } else {
                                let j = choose|j: int|
                                    0 <= j < k + 1 && (#[trigger] occ@[j]).0 == h;
                                assert(j < k);
                            }
                        }
                    }
                }
            } else {
                proof {
                    assert forall|h: u64| #![trigger cse_rows(cs, h)]
                        (exists|j: int| 0 <= j < k + 1 && (#[trigger] occ@[j]).0 == h) && cse_rows(
                            cs,
                            h,
                        ).len() >= self.min_occurrences_view() as nat implies exists|mi: int|
                            0 <= mi < found@.len()
                                && (#[trigger] found@[mi]).metadata.expression_hash == Some(h) by {
                        let j = choose|j: int| 0 <= j < k + 1 && (#[trigger] occ@[j]).0 == h;
                        if j == k {
                            let j2 = choose|j2: int| 0 <= j2 < k && (#[trigger] occ@[j2]).0
                                == hash;
                            assert(occ@[j2].0 == h);
                        }
                    }
                }
            }
            k = k + 1;
        }
        proof {
            assert forall|h: u64| #![trigger cse_rows(cs, h)]
                cse_rows(cs, h).len() >= self.min_occurrences_view() as nat && cse_rows(
                    cs,
                    h,
                ).len() > 0 implies exists|mi: int|
                    0 <= mi < found@.len() && (#[trigger] found@[mi]).metadata.expression_hash
                        == Some(h) by {
                lemma_rows_of_pairs_nonempty(occ@, h);
            }
        }
        // Order the findings by estimated saving, largest first.
        let mut out: Vec<PatternMatch> = Vec::new();
        let mut rest = found;
        while rest.len() > 0
            invariant
                cs == matrix.constraints@,
                forall|mi: int| 0 <= mi < rest@.len() ==> cse_match_ok(
                    cs,
                    self.min_occurrences_view() as nat,
                    #[trigger] rest@[mi],
                ),
                forall|mi: int| 0 <= mi < out@.len() ==> cse_match_ok(
                    cs,
                    self.min_occurrences_view() as nat,
                    #[trigger] out@[mi],
                ),
                forall|k1: int, k2: int| 0 <= k1 < k2 < out@.len()
                    ==> out@[k1].estimated_reduction >= out@[k2].estimated_reduction,
                forall|h: u64| #![trigger cse_rows(cs, h)]
                    cse_rows(cs, h).len() >= self.min_occurrences_view() as nat && cse_rows(
                        cs,
                        h,
                    ).len() > 0 ==> (exists|mi: int|
                        0 <= mi < out@.len() && (#[trigger] out@[mi]).metadata.expression_hash
                            == Some(h)) || (exists|mi: int|
                        0 <= mi < rest@.len() && (#[trigger] rest@[mi]).metadata.expression_hash
                            == Some(h)),
            decreases rest@.len(),
        {
            let ghost prevrest = rest@;
            let m_opt = rest.pop();
            if let Some(m) = m_opt {
                let ghost prevout = out@;
                let est = m.estimated_reduction;
                let mut pos: usize = 0;
                while pos < out.len() && out[pos].estimated_reduction >= est
                    invariant
                        out@ == prevout,
                        pos <= out@.len(),
                        forall|q: int| 0 <= q < pos ==> (#[trigger] out@[q]).estimated_reduction
                            >= est,
                    decreases out@.len() - pos,
                {
                    pos = pos + 1;
                }
                proof {
                    if pos < out@.len() {
                        assert(out@[pos as int].estimated_reduction < est);
                    }
                }
                out.insert(pos, m);
                proof {
                    let t = out@;
                    assert(t[pos as int].estimated_reduction == est);
                    assert(t[pos as int] == prevrest[prevrest.len() - 1]);
                    assert forall|k1: int, k2: int| 0 <= k1 < k2 < t.len()
                        implies t[k1].estimated_reduction >= t[k2].estimated_reduction by {
                        if k1 < pos {
                            assert(t[k1] == prevout[k1]);
                        }
                        if k2 > pos {
                            assert(t[k2] == prevout[k2 - 1]);
                        }
                        if k1 == pos && k2 > pos {
                            if pos < prevout.len() {
                                assert(prevout[pos as int].estimated_reduction < est);
                                if k2 - 1 > pos {
                                    assert(prevout[pos as int].estimated_reduction
                                        >= prevout[k2 - 1].estimated_reduction);
                                }
                            }
                        }
                        if k1 < pos && k2 == pos {
                            assert(prevout[k1].estimated_reduction >= est);
                        }
                    }
                    assert forall|mi: int| 0 <= mi < t.len() implies cse_match_ok(
                        cs,
                        self.min_occurrences_view() as nat,
                        #[trigger] t[mi],
                    ) by {
                        if mi < pos {
                            assert(t[mi] == prevout[mi]);
                        } else if mi > pos {
                            assert(t[mi] == prevout[mi - 1]);
                        }
                    }
                    assert forall|h: u64| #![trigger cse_rows(cs, h)]
                        cse_rows(cs, h).len() >= self.min_occurrences_view() as nat && cse_rows(
                            cs,
                            h,
                        ).len() > 0 implies (exists|mi: int|
                            0 <= mi < out@.len() && (#[trigger] out@[mi]).metadata.expression_hash
                                == Some(h)) || (exists|mi: int|
                            0 <= mi < rest@.len()
                                && (#[trigger] rest@[mi]).metadata.expression_hash == Some(
                            h,
                            )) by {
                        if exists|mi: int|
                            0 <= mi < prevout.len()
                                && (#[trigger] prevout[mi]).metadata.expression_hash == Some(h) {
                            let mi = choose|mi: int|
                                0 <= mi < prevout.len()
                                    && (#[trigger] prevout[mi]).metadata.expression_hash == Some(
                                h,
                                );
                            if mi < pos {
                                assert(out@[mi].metadata.expression_hash == Some(h));
                            } else {
                                assert(out@[mi + 1].metadata.expression_hash == Some(h));
                            }
                        } else {
                            let mi = choose|mi: int|
                                0 <= mi < prevrest.len()
                                    && (#[trigger] prevrest[mi]).metadata.expression_hash == Some(
                                h,
                                );
                            if mi < prevrest.len() - 1 {
                                assert(rest@[mi].metadata.expression_hash == Some(h));
                            } else {
                                assert(out@[pos as int].metadata.expression_hash == Some(h));
                            }
                        }
                    }
                }
            }
        }
        out
    }

    /// Detection never rewrites: the matrix comes back as it went in.
    pub fn reduce(&self, matrix: ConstraintMatrix, _matches: &Vec<PatternMatch>) -> (r:
        ConstraintMatrix)
        ensures
            r == matrix,
    {
        matrix
    }

    /// Summarize the findings: their count, the rows they list, and the
    /// total estimated saving, clamped to the machine word.
    pub fn report(&self, matches: &Vec<PatternMatch>) -> (r: ReductionReport)
        ensures
            r.patterns_found == matches@.len(),
            r.reducible_constraints == clamp_usize(total_listed(matches@)),
            r.estimated_savings == clamp_usize(total_estimated(matches@)),
    {
        let mut report = ReductionReport::new("Common Subexpression");
        report.patterns_found = matches.len();
        let mut mi: usize = 0;
        while mi < matches.len()
            invariant
                mi <= matches@.len(),
                report.patterns_found == matches@.len(),
                report.reducible_constraints == clamp_usize(
                    total_listed(matches@.take(mi as int)),
                ),
                report.estimated_savings == clamp_usize(
                    total_estimated(matches@.take(mi as int)),
                ),
            decreases matches@.len() - mi,
        {
            proof {
                assert(matches@.take(mi + 1).drop_last() =~= matches@.take(mi as int));
                assert(matches@.take(mi + 1).last() == matches@[mi as int]);
            }
            let m = &matches[mi];
            let listed = m.constraint_indices.len();
            if report.reducible_constraints <= usize::MAX - listed {
                report.reducible_constraints = report.reducible_constraints + listed;
            } else {
                report.reducible_constraints = usize::MAX;
            }
            if report.estimated_savings <= usize::MAX - m.estimated_reduction {
                report.estimated_savings = report.estimated_savings + m.estimated_reduction;
            } else {
                report.estimated_savings = usize::MAX;
            }
            if report.findings.len() < usize::MAX {
                report.add_finding(
                    "factoring this group needs a manual circuit change".to_string(),
                );
            }
            mi = mi + 1;
        }
        proof {
            assert(matches@.take(matches@.len() as int) =~= matches@);
        }
        report
    }
}

} // verus!
