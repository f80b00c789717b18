//! Import of finalized constraint systems as plain rows.
//!
//! A circuit synthesized through the proving stack ends as a finalized
//! constraint system whose three matrices are row-aligned lists of
//! `(coefficient, variable)` pairs. The caller reads those lists out of
//! the stack's own type and hands them over here as plain values;
//! [`ConstraintMatrix::from_rows`] rebuilds them as the crate's own
//! matrix, on which the optimizer works.

use vstd::prelude::*;

use crate::constraint::{con_wf, row_of, Constraint, ConstraintMatrix, LinearCombination, Term};
use crate::field::Fe;
use crate::optimizer::Optimizer;

verus! {

/// Plain matrix rows as a finalized system yields them: canonical
/// coefficients and distinct, in-range variable indices in every row.
pub open spec fn rows_ok(rows: Seq<Vec<(Fe, usize)>>, n: nat) -> bool {
    forall|i: int| 0 <= i < rows.len() ==> {
        &&& forall|j: int| 0 <= j < (#[trigger] rows[i])@.len()
            ==> (#[trigger] rows[i]@[j]).0.wf() && (rows[i]@[j].1 as nat) < n
        &&& forall|j: int, k: int|
            0 <= j < rows[i]@.len() && 0 <= k < rows[i]@.len() && j != k ==> rows[i]@[j].1
                != rows[i]@[k].1
    }
}

/// The terms a plain row stands for.
pub open spec fn terms_of_pairs(s: Seq<(Fe, usize)>) -> Seq<Term> {
    s.map_values(|p: (Fe, usize)| Term { variable: p.1, coefficient: p.0 })
}

/// Turn one plain row into a linear combination.
fn row_to_lc(row: &Vec<(Fe, usize)>) -> (r: LinearCombination)
    ensures
        r@ == terms_of_pairs(row@),
{
    let mut terms: Vec<Term> = Vec::new();
    let mut k: usize = 0;
    while k < row.len()
        invariant
            k <= row@.len(),
            terms@ == terms_of_pairs(row@.take(k as int)),
        decreases row@.len() - k,
    {
        let (coefficient, variable) = row[k];
        terms.push(Term { variable, coefficient });
        proof {
            assert(terms@ =~= terms_of_pairs(row@.take(k + 1)));
        }
        k = k + 1;
    }
    proof {
        assert(row@.take(row@.len() as int) =~= row@);
    }
    LinearCombination { terms }
}

impl ConstraintMatrix {
    /// Build a matrix from the row-aligned plain rows of a finalized
    /// constraint system: `A`, `B`, `C` entry lists plus the instance and
    /// witness variable counts.
    pub fn from_rows(
        a: &Vec<Vec<(Fe, usize)>>,
        b: &Vec<Vec<(Fe, usize)>>,
        c: &Vec<Vec<(Fe, usize)>>,
        num_instance: usize,
        num_witness: usize,
    ) -> (r: ConstraintMatrix)
        requires
            a@.len() == b@.len() && b@.len() == c@.len(),
            num_instance + num_witness <= usize::MAX,
            rows_ok(a@, (num_instance + num_witness) as nat),
            rows_ok(b@, (num_instance + num_witness) as nat),
            rows_ok(c@, (num_instance + num_witness) as nat),
        ensures
            r.wf(),
            r.num_public_inputs == num_instance,
            r.num_private_witnesses == num_witness,
            r.num_variables == num_instance + num_witness,
            r.constraints@.len() == a@.len(),
            forall|i: int| 0 <= i < a@.len() ==> row_of(#[trigger] r.constraints@[i]) == (
            terms_of_pairs(a@[i]@), terms_of_pairs(b@[i]@), terms_of_pairs(c@[i]@)),
    {
        let ghost nv = (num_instance + num_witness) as nat;
        let n = a.len();
        let mut constraints: Vec<Constraint> = Vec::new();
        let mut i: usize = 0;
        while i < n
            invariant
                a@.len() == b@.len() && b@.len() == c@.len(),
                n == a@.len(),
                num_instance + num_witness <= usize::MAX,
                nv == (num_instance + num_witness) as nat,
                rows_ok(a@, nv),
                rows_ok(b@, nv),
                rows_ok(c@, nv),
                i <= n,
                constraints@.len() == i,
                forall|k: int| 0 <= k < i ==> {
                    &&& (#[trigger] constraints@[k]).index == k
                    &&& con_wf(constraints@[k], nv)
                    &&& row_of(constraints@[k]) == (terms_of_pairs(a@[k]@), terms_of_pairs(
                        b@[k]@,
                    ), terms_of_pairs(c@[k]@))
                },
            decreases n - i,
        {
            let la = row_to_lc(&a[i]);
            let lb = row_to_lc(&b[i]);
            let lc = row_to_lc(&c[i]);
            constraints.push(Constraint { index: i, a: la, b: lb, c: lc });
            i = i + 1;
        }
        ConstraintMatrix {
            constraints,
            num_public_inputs: num_instance,
            num_private_witnesses: num_witness,
            num_variables: num_instance + num_witness,
        }
    }
}

impl Optimizer {
    /// Create an optimizer over the plain rows of a finalized constraint
    /// system, with the default configuration.
    pub fn from_rows(
        a: &Vec<Vec<(Fe, usize)>>,
        b: &Vec<Vec<(Fe, usize)>>,
        c: &Vec<Vec<(Fe, usize)>>,
        num_instance: usize,
        num_witness: usize,
    ) -> (r: Optimizer)
        requires
            a@.len() == b@.len() && b@.len() == c@.len(),
            num_instance + num_witness <= usize::MAX,
            rows_ok(a@, (num_instance + num_witness) as nat),
            rows_ok(b@, (num_instance + num_witness) as nat),
            rows_ok(c@, (num_instance + num_witness) as nat),
        ensures
            r.matrix_view().wf(),
            r.matrix_view().num_public_inputs == num_instance,
            r.matrix_view().num_private_witnesses == num_witness,
            r.matrix_view().num_variables == num_instance + num_witness,
            r.matrix_view().constraints@.len() == a@.len(),
            forall|i: int| 0 <= i < a@.len() ==> row_of(
                #[trigger] r.matrix_view().constraints@[i],
            ) == (terms_of_pairs(a@[i]@), terms_of_pairs(b@[i]@), terms_of_pairs(c@[i]@)),
            r.config_view() == (crate::optimizer::OptimizerConfig {
                deduplicate: true,
                fold_constants: true,
                substitute_linear: true,
                eliminate_dead: true,
                detect_cse: true,
                max_iterations: 10,
            }),
    {
        Optimizer::from_matrix(ConstraintMatrix::from_rows(a, b, c, num_instance, num_witness))
    }
}

} // verus!
