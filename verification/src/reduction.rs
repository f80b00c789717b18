//! Shared vocabulary of the reduction passes: findings, reports, results.

use vstd::prelude::*;

use crate::constraint::ConstraintMatrix;

verus! {

/// What kind of pattern a finding describes.
#[derive(Clone, Copy, Debug, PartialEq, Eq, Structural)]
pub enum PatternType {
    /// Structurally identical constraints.
    Duplicate,
    /// A constraint over constants only.
    Constant,
    /// A linear definition that can be inlined.
    LinearSubstitution,
    /// A variable defined but never used.
    DeadVariable,
    /// A repeated linear combination worth factoring out.
    CommonSubexpression,
}

/// Extra data attached to a finding.
#[derive(Clone, Copy, Debug, PartialEq, Eq, Structural)]
pub struct MatchMetadata {
    /// The representative kept for a duplicate group.
    pub canonical_index: Option<usize>,
    /// Hash of the expression behind the finding.
    pub expression_hash: Option<u64>,
    /// The variable a substitution would eliminate.
    pub substitute_variable: Option<usize>,
}

impl Default for MatchMetadata {
    /// No extra data.
    fn default() -> (r: Self)
        ensures
            r == (MatchMetadata {
                canonical_index: None,
                expression_hash: None,
                substitute_variable: None,
            }),
    {
        MatchMetadata { canonical_index: None, expression_hash: None, substitute_variable: None }
    }
}

/// Total estimated saving over a list of findings.
pub open spec fn total_estimated(ms: Seq<PatternMatch>) -> nat
    decreases ms.len(),
{
    if ms.len() == 0 {
        0
    } else {
        total_estimated(ms.drop_last()) + ms.last().estimated_reduction as nat
    }
}

/// Total constraint rows listed over a list of findings.
pub open spec fn total_listed(ms: Seq<PatternMatch>) -> nat
    decreases ms.len(),
{
    if ms.len() == 0 {
        0
    } else {
        total_listed(ms.drop_last()) + ms.last().constraint_indices@.len()
    }
}

/// A total clamped to the machine word.
pub open spec fn clamp_usize(n: nat) -> usize {
    if n <= usize::MAX {
        n as usize
    } else {
        usize::MAX
    }
}

/// One finding of a scan.
#[derive(Clone, Debug)]
pub struct PatternMatch {
    /// Position of this finding in the scan's output.
    pub id: usize,
    /// What kind of pattern was found.
    pub pattern_type: PatternType,
    /// The constraint rows involved.
    pub constraint_indices: Vec<usize>,
    /// The variables involved.
    pub variable_indices: Vec<usize>,
    /// How many constraints applying this finding saves.
    pub estimated_reduction: usize,
    /// A short human-readable account.
    pub description: String,
    /// Extra data attached to the finding.
    pub metadata: MatchMetadata,
}

/// Summary a pass hands back about its findings.
#[derive(Clone, Debug)]
pub struct ReductionReport {
    /// Name of the pass that produced the report.
    pub pass_name: String,
    /// Number of findings.
    pub patterns_found: usize,
    /// Number of constraint rows the findings touch.
    pub reducible_constraints: usize,
    /// Total estimated saving, in constraints.
    pub estimated_savings: usize,
    /// Free-form notes about the findings.
    pub findings: Vec<String>,
}

impl ReductionReport {
    /// An empty report for the named pass.
    pub fn new(pass_name: &str) -> (r: Self)
        ensures
            r.pass_name@ == pass_name@,
            r.patterns_found == 0,
            r.reducible_constraints == 0,
            r.estimated_savings == 0,
            r.findings@.len() == 0,
    {
        ReductionReport {
            pass_name: pass_name.to_string(),
            patterns_found: 0,
            reducible_constraints: 0,
            estimated_savings: 0,
            findings: Vec::new(),
        }
    }

    /// Append one note.
    pub fn add_finding(&mut self, finding: String)
        requires
            old(self).findings@.len() < usize::MAX,
        ensures
            final(self).findings@ == old(self).findings@.push(finding),
            final(self).pass_name == old(self).pass_name,
            final(self).patterns_found == old(self).patterns_found,
            final(self).reducible_constraints == old(self).reducible_constraints,
            final(self).estimated_savings == old(self).estimated_savings,
    {
        self.findings.push(finding);
    }
}

/// What a full optimization run returns.
#[derive(Clone, Debug)]
pub struct OptimizationResult {
    /// The reduced matrix.
    pub matrix: ConstraintMatrix,
    /// Rows before any pass ran.
    pub original_constraints: usize,
    /// Rows after the last pass.
    pub final_constraints: usize,
    /// Reports of the passes that reduced something, in run order.
    pub pass_reports: Vec<ReductionReport>,
}

impl OptimizationResult {
    /// How many constraint rows the run removed.
    pub fn constraints_reduced(&self) -> (r: usize)
        requires
            self.final_constraints <= self.original_constraints,
        ensures
            r == self.original_constraints - self.final_constraints,
    {
        self.original_constraints - self.final_constraints
    }
}

} // verus!
