//! Solution-set semantics of constraint matrices.
//!
//! An assignment gives every variable a field value, with the constant
//! slot fixed at `1`. A row `A * B = C` is satisfied when the products of
//! its evaluated sides agree modulo the field order; a matrix is satisfied
//! when every row is. Each reduction pass is held to this measure: what it
//! removes or rewrites must leave the satisfying assignments unchanged.

use vstd::prelude::*;

use crate::constraint::{lc_constant, terms_distinct, Constraint, ConstraintMatrix, Term};
use crate::field::fe_p;

verus! {

/// Value of a linear combination under an assignment, as an unbounded sum
/// of `coefficient * value` over all terms.
pub open spec fn lc_value(s: Seq<Term>, asg: Seq<nat>) -> nat
    decreases s.len(),
{
    if s.len() == 0 {
        0
    } else {
        lc_value(s.drop_last(), asg) + s.last().coefficient.val() * asg[s.last().variable as int]
    }
}

/// Sum of all coefficients, regardless of variables.
pub open spec fn coeff_sum(s: Seq<Term>) -> nat
    decreases s.len(),
{
    if s.len() == 0 {
        0
    } else {
        coeff_sum(s.drop_last()) + s.last().coefficient.val()
    }
}

/// Sum of the constant-side coefficients: those on variable `0`.
pub open spec fn const_sum(s: Seq<Term>) -> nat
    decreases s.len(),
{
    if s.len() == 0 {
        0
    } else {
        const_sum(s.drop_last()) + if s.last().variable == 0 {
            s.last().coefficient.val()
        } else {
            0nat
        }
    }
}

/// The combination as a map from variable to coefficient value, non-zero
/// terms only; on repeated variables the later term wins.
pub open spec fn lc_map(s: Seq<Term>) -> Map<usize, nat>
    decreases s.len(),
{
    if s.len() == 0 {
        Map::empty()
    } else {
        let m = lc_map(s.drop_last());
        if s.last().coefficient.val() != 0 {
            m.insert(s.last().variable, s.last().coefficient.val())
        } else {
            m
        }
    }
}

/// Two rows carry the same equation: equal coefficient maps on all three
/// sides.
pub open spec fn rows_equiv(c: Constraint, d: Constraint) -> bool {
    &&& lc_map(c.a@) == lc_map(d.a@)
    &&& lc_map(c.b@) == lc_map(d.b@)
    &&& lc_map(c.c@) == lc_map(d.c@)
}

/// A full assignment of field values with the constant slot at `1`.
pub open spec fn valid_assignment(asg: Seq<nat>, num_variables: nat) -> bool {
    &&& asg.len() == num_variables
    &&& num_variables > 0
    &&& asg[0] == 1
    &&& forall|i: int| 0 <= i < asg.len() ==> asg[i] < fe_p()
}

/// One row is satisfied when `<A,v> * <B,v>` and `<C,v>` agree modulo the
/// field order.
pub open spec fn con_satisfied(c: Constraint, asg: Seq<nat>) -> bool {
    (lc_value(c.a@, asg) * lc_value(c.b@, asg)) % fe_p() == lc_value(c.c@, asg) % fe_p()
}

/// A matrix is satisfied by an assignment when the assignment is valid for
/// its variable space and every row is satisfied.
pub open spec fn matrix_satisfied(m: ConstraintMatrix, asg: Seq<nat>) -> bool {
    &&& valid_assignment(asg, m.num_variables as nat)
    &&& forall|i: int| 0 <= i < m.constraints@.len() ==> con_satisfied(
        #[trigger] m.constraints@[i],
        asg,
    )
}

/// A combination of zero coefficients evaluates to zero.
pub proof fn lemma_lc_value_zero(s: Seq<Term>, asg: Seq<nat>)
    requires
        forall|i: int| 0 <= i < s.len() ==> (#[trigger] s[i]).coefficient.val() == 0,
    ensures
        lc_value(s, asg) == 0,
    decreases s.len(),
{
    if s.len() > 0 {
        lemma_lc_value_zero(s.drop_last(), asg);
    }
}

/// A constant combination evaluates to the sum of its coefficients.
pub proof fn lemma_lc_value_constant(s: Seq<Term>, asg: Seq<nat>)
    requires
        lc_constant(s),
        0 < asg.len(),
        asg[0] == 1,
    ensures
        lc_value(s, asg) == coeff_sum(s),
        const_sum(s) == coeff_sum(s),
    decreases s.len(),
{
    if s.len() > 0 {
        let d = s.drop_last();
        assert(forall|i: int| 0 <= i < d.len() ==> (#[trigger] d[i]).variable == 0);
        lemma_lc_value_constant(d, asg);
        assert(s[s.len() - 1].variable == 0);
        assert(asg[s.last().variable as int] == 1);
        assert(s.last().coefficient.val() * 1 == s.last().coefficient.val());
    }
}

/// Removing one term removes exactly its contribution from the value.
pub proof fn lemma_lc_value_remove(s: Seq<Term>, i: int, asg: Seq<nat>)
    requires
        0 <= i < s.len(),
    ensures
        lc_value(s, asg) == lc_value(s.remove(i), asg) + s[i].coefficient.val() * asg[s[i].variable as int],
    decreases s.len(),
{
    if i == s.len() - 1 {
        assert(s.remove(i) =~= s.drop_last());
    } else {
        let d = s.drop_last();
        assert(s.remove(i).drop_last() =~= d.remove(i));
        assert(s.remove(i).last() == s.last());
        lemma_lc_value_remove(d, i, asg);
    }
}

/// Rewriting one term in place trades exactly the two terms'
/// contributions.
pub proof fn lemma_lc_value_update(s: Seq<Term>, i: int, t: Term, asg: Seq<nat>)
    requires
        0 <= i < s.len(),
    ensures
        lc_value(s.update(i, t), asg) + s[i].coefficient.val() * asg[s[i].variable as int]
            == lc_value(s, asg) + t.coefficient.val() * asg[t.variable as int],
    decreases s.len(),
{
    if i == s.len() - 1 {
        assert(s.update(i, t).drop_last() =~= s.drop_last());
        assert(s.update(i, t).last() == t);
    } else {
        let d = s.drop_last();
        assert(s.update(i, t).drop_last() =~= d.update(i, t));
        assert(s.update(i, t).last() == s.last());
        assert(d[i] == s[i]);
        lemma_lc_value_update(d, i, t, asg);
    }
}

/// Two assignments agreeing on every variable a combination reads with a
/// non-zero coefficient give it the same value.
pub proof fn lemma_lc_value_agrees(s: Seq<Term>, a1: Seq<nat>, a2: Seq<nat>)
    requires
        forall|k: int| 0 <= k < s.len() ==> ((#[trigger] s[k]).coefficient.val() == 0 || a1[
            s[k].variable as int] == a2[s[k].variable as int]),
    ensures
        lc_value(s, a1) == lc_value(s, a2),
    decreases s.len(),
{
    if s.len() > 0 {
        let d = s.drop_last();
        assert(forall|k: int| 0 <= k < d.len() ==> #[trigger] d[k] == s[k]);
        lemma_lc_value_agrees(d, a1, a2);
        let t = s.last();
        if t.coefficient.val() == 0 {
            assert(t.coefficient.val() * a1[t.variable as int] == 0) by (nonlinear_arith)
                requires
                    t.coefficient.val() == 0,
            ;
            assert(t.coefficient.val() * a2[t.variable as int] == 0) by (nonlinear_arith)
                requires
                    t.coefficient.val() == 0,
            ;
        }
    }
}

/// The map's domain lists exactly the variables of non-zero terms.
pub proof fn lemma_lc_map_dom(s: Seq<Term>)
    ensures
        forall|v: usize| #[trigger] lc_map(s).dom().contains(v) <==> exists|i: int|
            0 <= i < s.len() && (#[trigger] s[i]).variable == v && s[i].coefficient.val() != 0,
    decreases s.len(),
{
    if s.len() > 0 {
        let d = s.drop_last();
        lemma_lc_map_dom(d);
        assert forall|v: usize| #[trigger] lc_map(s).dom().contains(v) implies exists|i: int|
            0 <= i < s.len() && (#[trigger] s[i]).variable == v && s[i].coefficient.val() != 0 by {
            if s.last().coefficient.val() != 0 && s.last().variable == v {
                assert(s[s.len() - 1].variable == v && s[s.len() - 1].coefficient.val() != 0);
            } else {
                assert(lc_map(d).dom().contains(v));
                let i = choose|i: int|
                    0 <= i < d.len() && (#[trigger] d[i]).variable == v && d[i].coefficient.val()
                        != 0;
                assert(s[i].variable == v && s[i].coefficient.val() != 0);
            }
        }
        assert forall|v: usize|
            exists|i: int| 0 <= i < s.len() && (#[trigger] s[i]).variable == v
                && s[i].coefficient.val() != 0 implies #[trigger] lc_map(s).dom().contains(v) by {
            let i = choose|i: int|
                0 <= i < s.len() && (#[trigger] s[i]).variable == v && s[i].coefficient.val() != 0;
            if i == s.len() - 1 {
                assert(lc_map(s).dom().contains(v));
            } else {
                assert(d[i].variable == v && d[i].coefficient.val() != 0);
                assert(lc_map(d).dom().contains(v));
            }
        }
    }
}

/// In a duplicate-free combination the map returns each non-zero term's
/// coefficient.
pub proof fn lemma_lc_map_at(s: Seq<Term>, i: int)
    requires
        terms_distinct(s),
        0 <= i < s.len(),
        s[i].coefficient.val() != 0,
    ensures
        lc_map(s).dom().contains(s[i].variable),
        lc_map(s)[s[i].variable] == s[i].coefficient.val(),
    decreases s.len(),
{
    let d = s.drop_last();
    assert(terms_distinct(d));
    if i == s.len() - 1 {
        lemma_lc_map_dom(d);
        assert(!lc_map(d).dom().contains(s[i].variable));
    } else {
        assert(d[i] == s[i]);
        lemma_lc_map_at(d, i);
        if s.last().coefficient.val() != 0 {
            assert(s.last().variable != s[i].variable);
        }
    }
}

/// Removing a non-zero term removes exactly its variable from the map of a
/// duplicate-free combination.
pub proof fn lemma_lc_map_remove(s: Seq<Term>, i: int)
    requires
        terms_distinct(s),
        0 <= i < s.len(),
        s[i].coefficient.val() != 0,
    ensures
        terms_distinct(s.remove(i)),
        lc_map(s.remove(i)) == lc_map(s).remove(s[i].variable),
    decreases s.len(),
{
    let v = s[i].variable;
    assert forall|x: int, y: int|
        0 <= x < s.remove(i).len() && 0 <= y < s.remove(i).len() && x != y
        implies s.remove(i)[x].variable != s.remove(i)[y].variable by {
        let x0: int = if x < i { x } else { x + 1 };
        let y0: int = if y < i { y } else { y + 1 };
        assert(s.remove(i)[x] == s[x0] && s.remove(i)[y] == s[y0]);
    }
    if i == s.len() - 1 {
        assert(s.remove(i) =~= s.drop_last());
        lemma_lc_map_dom(s.drop_last());
        assert(!lc_map(s.drop_last()).dom().contains(v));
        assert(lc_map(s.drop_last()).insert(v, s[i].coefficient.val()).remove(v) =~= lc_map(
            s.drop_last(),
        ));
    } else {
        let d = s.drop_last();
        assert(terms_distinct(d));
        assert(d[i] == s[i]);
        lemma_lc_map_remove(d, i);
        assert(s.remove(i).drop_last() =~= d.remove(i));
        assert(s.remove(i).last() == s.last());
        if s.last().coefficient.val() != 0 {
            let w = s.last().variable;
            assert(w != v);
            assert(lc_map(d).remove(v).insert(w, s.last().coefficient.val()) =~= lc_map(d).insert(
                w,
                s.last().coefficient.val(),
            ).remove(v));
        }
    }
}

/// Rewriting one term in place, keeping its variable, updates the map at
/// exactly that variable: to the new coefficient, or by removal when the
/// new coefficient is zero.
pub proof fn lemma_lc_map_update(s: Seq<Term>, i: int, t: Term)
    requires
        terms_distinct(s),
        0 <= i < s.len(),
        s[i].variable == t.variable,
    ensures
        terms_distinct(s.update(i, t)),
        lc_map(s.update(i, t)) == if t.coefficient.val() == 0 {
            lc_map(s).remove(t.variable)
        } else {
            lc_map(s).insert(t.variable, t.coefficient.val())
        },
    decreases s.len(),
{
    let u = s.update(i, t);
    let v = t.variable;
    assert(forall|x: int| 0 <= x < u.len() ==> (#[trigger] u[x]).variable == s[x].variable);
    if i == s.len() - 1 {
        let d = s.drop_last();
        assert(u.drop_last() =~= d);
        assert(u.last() == t);
        lemma_lc_map_dom(d);
        assert forall|j: int| 0 <= j < d.len() implies (#[trigger] d[j]).variable != v by {
            assert(s[j].variable != s[i].variable);
        }
        assert(!lc_map(d).dom().contains(v));
        if t.coefficient.val() == 0 {
            if s[i].coefficient.val() != 0 {
                assert(lc_map(d).insert(v, s[i].coefficient.val()).remove(v) =~= lc_map(d));
            } else {
                assert(lc_map(s).remove(v) =~= lc_map(d));
            }
        } else {
            if s[i].coefficient.val() != 0 {
                assert(lc_map(d).insert(v, s[i].coefficient.val()).insert(
                    v,
                    t.coefficient.val(),
                ) =~= lc_map(d).insert(v, t.coefficient.val()));
            }
        }
    } else {
        let d = s.drop_last();
        assert(terms_distinct(d));
        assert(d[i] == s[i]);
        lemma_lc_map_update(d, i, t);
        assert(u.drop_last() =~= d.update(i, t));
        assert(u.last() == s.last());
        let w = s.last().variable;
        assert(w != v);
        if s.last().coefficient.val() != 0 {
            let lw = s.last().coefficient.val();
            if t.coefficient.val() == 0 {
                assert(lc_map(d).remove(v).insert(w, lw) =~= lc_map(d).insert(w, lw).remove(v));
            } else {
                assert(lc_map(d).insert(v, t.coefficient.val()).insert(w, lw) =~= lc_map(
                    d,
                ).insert(w, lw).insert(v, t.coefficient.val()));
            }
        }
    }
}

/// Two duplicate-free combinations with the same coefficient map evaluate
/// equally under every assignment.
pub proof fn lemma_lc_value_of_map(s1: Seq<Term>, s2: Seq<Term>, asg: Seq<nat>)
    requires
        terms_distinct(s1),
        terms_distinct(s2),
        lc_map(s1) == lc_map(s2),
    ensures
        lc_value(s1, asg) == lc_value(s2, asg),
    decreases s1.len(),
{
    if s1.len() == 0 {
        assert forall|i: int| 0 <= i < s2.len() implies (#[trigger] s2[i]).coefficient.val()
            == 0 by {
            if s2[i].coefficient.val() != 0 {
                lemma_lc_map_at(s2, i);
                lemma_lc_map_dom(s1);
            }
        }
        lemma_lc_value_zero(s2, asg);
    } else {
        let t = s1.last();
        let d1 = s1.drop_last();
        assert(terms_distinct(d1));
        if t.coefficient.val() == 0 {
            assert(lc_map(s1) == lc_map(d1));
            lemma_lc_value_of_map(d1, s2, asg);
            assert(t.coefficient.val() * asg[t.variable as int] == 0) by (nonlinear_arith)
                requires
                    t.coefficient.val() == 0,
            ;
        } else {
            let v = t.variable;
            let c = t.coefficient.val();
            lemma_lc_map_at(s1, s1.len() - 1);
            assert(lc_map(s2).dom().contains(v));
            lemma_lc_map_dom(s2);
            let j = choose|j: int|
                0 <= j < s2.len() && (#[trigger] s2[j]).variable == v && s2[j].coefficient.val()
                    != 0;
            lemma_lc_map_at(s2, j);
            assert(s2[j].coefficient.val() == c);
            lemma_lc_value_remove(s2, j, asg);
            lemma_lc_map_remove(s2, j);
            lemma_lc_map_dom(d1);
            assert forall|i: int| 0 <= i < d1.len() implies (#[trigger] d1[i]).variable != v by {
                assert(d1[i] == s1[i]);
                assert(s1[i].variable != s1[s1.len() - 1].variable);
            }
            assert(!lc_map(d1).dom().contains(v));
            assert(lc_map(d1) =~= lc_map(s1).remove(v));
            assert(lc_map(s2.remove(j)) == lc_map(s2).remove(v));
            assert(lc_map(d1) == lc_map(s2.remove(j)));
            lemma_lc_value_of_map(d1, s2.remove(j), asg);
            assert(lc_value(d1, asg) == lc_value(s2.remove(j), asg));
            assert(lc_value(s1, asg) == lc_value(d1, asg) + c * asg[v as int]);
            assert(lc_value(s2, asg) == lc_value(s2.remove(j), asg) + c * asg[v as int]);
        }
    }
}

/// Equivalent duplicate-free rows are satisfied by exactly the same
/// assignments.
pub proof fn lemma_rows_equiv_satisfied(c: Constraint, d: Constraint, asg: Seq<nat>)
    requires
        rows_equiv(c, d),
        terms_distinct(c.a@) && terms_distinct(c.b@) && terms_distinct(c.c@),
        terms_distinct(d.a@) && terms_distinct(d.b@) && terms_distinct(d.c@),
    ensures
        con_satisfied(c, asg) == con_satisfied(d, asg),
{
    lemma_lc_value_of_map(c.a@, d.a@, asg);
    lemma_lc_value_of_map(c.b@, d.b@, asg);
    lemma_lc_value_of_map(c.c@, d.c@, asg);
}

/// Whether row `i` has an identical row earlier in the system.
pub open spec fn dup_removable(cs: Seq<Constraint>, i: int) -> bool {
    exists|j: int| 0 <= j < i && rows_equiv(#[trigger] cs[j], cs[i])
}

/// The indices in `0..len` satisfying `pred`, ascending.
pub open spec fn indices_satisfying(len: nat, pred: spec_fn(int) -> bool) -> Seq<usize>
    decreases len,
{
    if len == 0 {
        Seq::empty()
    } else {
        indices_satisfying((len - 1) as nat, pred) + if pred(len - 1) {
            seq![((len - 1) as usize)]
        } else {
            Seq::empty()
        }
    }
}

/// The row indices deduplication keeps: those with no earlier identical
/// row.
pub open spec fn dup_kept(cs: Seq<Constraint>) -> Seq<usize> {
    indices_satisfying(cs.len(), |i: int| !dup_removable(cs, i))
}

/// The selected indices are exactly those below `len` satisfying `pred`,
/// ascending.
pub proof fn lemma_indices_satisfying_props(len: nat, pred: spec_fn(int) -> bool)
    requires
        len <= usize::MAX,
    ensures
        forall|k: int| 0 <= k < indices_satisfying(len, pred).len()
            ==> (#[trigger] indices_satisfying(len, pred)[k]) < len && pred(
                indices_satisfying(len, pred)[k] as int,
            ),
        forall|v: usize| v < len && pred(v as int) ==> indices_satisfying(len, pred).contains(v),
        indices_satisfying(len, pred).len() <= len,
        crate::constraint::sorted_strict(indices_satisfying(len, pred)),
    decreases len,
{
    if len > 0 {
        let l1 = (len - 1) as nat;
        lemma_indices_satisfying_props(l1, pred);
        let prev = indices_satisfying(l1, pred);
        let cur = indices_satisfying(len, pred);
        assert forall|k: int| 0 <= k < cur.len() implies (#[trigger] cur[k]) < len && pred(
            cur[k] as int,
        ) by {
            if k < prev.len() {
                assert(cur[k] == prev[k]);
            } else {
                assert(cur[k] == (l1 as usize));
            }
        }
        assert forall|v: usize| v < len && pred(v as int) implies cur.contains(v) by {
            if v < l1 {
                assert(prev.contains(v));
                let i = choose|i: int| 0 <= i < prev.len() && prev[i] == v;
                assert(cur[i] == v);
            } else {
                assert(cur[cur.len() - 1] == v);
            }
        }
        assert forall|i: int, j: int| 0 <= i < j < cur.len() implies cur[i] < cur[j] by {
            if j < prev.len() {
                assert(cur[i] == prev[i] && cur[j] == prev[j]);
            } else {
                assert(cur[i] == prev[i] && cur[j] == l1 as usize);
                assert(prev[i] < l1);
            }
        }
    }
}

/// When every index qualifies, the selection is the identity sequence.
pub proof fn lemma_indices_satisfying_all(len: nat, pred: spec_fn(int) -> bool)
    requires
        len <= usize::MAX,
        forall|i: int| 0 <= i < len ==> #[trigger] pred(i),
    ensures
        indices_satisfying(len, pred).len() == len,
        forall|k: int| 0 <= k < len ==> (#[trigger] indices_satisfying(len, pred)[k]) == k
            as usize,
    decreases len,
{
    if len > 0 {
        lemma_indices_satisfying_all((len - 1) as nat, pred);
    }
}

/// A listed-removal set that matches `pred` pointwise makes the complement
/// the `!pred` selection.
pub proof fn lemma_complement_matches(len: nat, remove: Seq<usize>, pred: spec_fn(int) -> bool)
    requires
        len <= usize::MAX,
        forall|i: int| 0 <= i < len ==> (#[trigger] remove.contains(i as usize) <==> !pred(i)),
    ensures
        crate::constraint::complement(len, remove) == indices_satisfying(len, pred),
    decreases len,
{
    if len > 0 {
        lemma_complement_matches((len - 1) as nat, remove, pred);
        assert(crate::constraint::complement(len, remove) =~= indices_satisfying(len, pred));
    }
}

/// If every row without an earlier duplicate is satisfied, every row is:
/// a duplicate inherits satisfaction from its earliest copy.
pub proof fn lemma_satisfied_through_duplicates(
    cs: Seq<Constraint>,
    n: nat,
    asg: Seq<nat>,
    i: int,
)
    requires
        forall|j: int| 0 <= j < cs.len() ==> crate::constraint::con_wf(#[trigger] cs[j], n),
        0 <= i < cs.len(),
        forall|j: int| 0 <= j < cs.len() && !dup_removable(cs, j) ==> con_satisfied(
            #[trigger] cs[j],
            asg,
        ),
    ensures
        con_satisfied(cs[i], asg),
    decreases i,
{
    if dup_removable(cs, i) {
        let j = choose|j: int| 0 <= j < i && rows_equiv(#[trigger] cs[j], cs[i]);
        lemma_satisfied_through_duplicates(cs, n, asg, j);
        lemma_rows_equiv_satisfied(cs[j], cs[i], asg);
    }
}

/// Keeping the first copy of every row and dropping later identical
/// copies leaves the satisfying assignments unchanged.
pub proof fn lemma_dedup_preserves(m: ConstraintMatrix, r: ConstraintMatrix)
    requires
        m.wf(),
        m.constraints@.len() <= usize::MAX,
        r.num_variables == m.num_variables,
        r.constraints@.len() == dup_kept(m.constraints@).len(),
        forall|k: int| 0 <= k < dup_kept(m.constraints@).len()
            ==> crate::constraint::row_of(#[trigger] r.constraints@[k])
                == crate::constraint::row_of(
                m.constraints@[dup_kept(m.constraints@)[k] as int],
            ),
    ensures
        forall|asg: Seq<nat>| matrix_satisfied(m, asg) <==> matrix_satisfied(r, asg),
{
    let cs = m.constraints@;
    let kept = dup_kept(cs);
    let pred = |i: int| !dup_removable(cs, i);
    lemma_indices_satisfying_props(cs.len(), pred);
    assert forall|asg: Seq<nat>| matrix_satisfied(m, asg) <==> matrix_satisfied(r, asg) by {
        if matrix_satisfied(m, asg) {
            assert forall|k: int| 0 <= k < r.constraints@.len() implies con_satisfied(
                #[trigger] r.constraints@[k],
                asg,
            ) by {
                let i = kept[k] as int;
                assert(con_satisfied(cs[i], asg));
                assert(crate::constraint::row_of(r.constraints@[k])
                    == crate::constraint::row_of(cs[i]));
                assert(r.constraints@[k].a@ == cs[i].a@ && r.constraints@[k].b@ == cs[i].b@
                    && r.constraints@[k].c@ == cs[i].c@);
            }
            assert(matrix_satisfied(r, asg));
        }
        if matrix_satisfied(r, asg) {
            assert forall|j: int| 0 <= j < cs.len() && !dup_removable(cs, j) implies con_satisfied(
                #[trigger] cs[j],
                asg,
            ) by {
                assert(kept.contains(j as usize));
                let k = choose|k: int| 0 <= k < kept.len() && kept[k] == j as usize;
                assert(con_satisfied(r.constraints@[k], asg));
                assert(r.constraints@[k].a@ == cs[j].a@ && r.constraints@[k].b@ == cs[j].b@
                    && r.constraints@[k].c@ == cs[j].c@);
            }
            assert forall|i: int| 0 <= i < cs.len() implies con_satisfied(
                #[trigger] cs[i],
                asg,
            ) by {
                lemma_satisfied_through_duplicates(cs, m.num_variables as nat, asg, i);
            }
            assert(matrix_satisfied(m, asg));
        }
    }
}

/// A row whose three sides are constant is satisfied by a valid assignment
/// exactly when its arithmetic holds outright: the assignment plays no
/// part.
pub proof fn lemma_constant_row_satisfied(c: Constraint, asg: Seq<nat>)
    requires
        lc_constant(c.a@),
        lc_constant(c.b@),
        lc_constant(c.c@),
        0 < asg.len(),
        asg[0] == 1,
    ensures
        con_satisfied(c, asg) <==> (coeff_sum(c.a@) * coeff_sum(c.b@)) % fe_p() == coeff_sum(c.c@)
            % fe_p(),
{
    lemma_lc_value_constant(c.a@, asg);
    lemma_lc_value_constant(c.b@, asg);
    lemma_lc_value_constant(c.c@, asg);
}

} // verus!
