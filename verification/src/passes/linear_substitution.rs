//! Linear-substitution pass: inline simple variable definitions.
//!
//! A row of the form `1 * expr = v`, where `v` is one private variable
//! defined by no other such row, read somewhere else, and `expr` is small
//! enough not to widen the system, defines `v`. The pass replaces `v` by
//! `expr` throughout the other rows, merging coefficients and dropping
//! cancelled terms, then removes the defining row. The scan is exact; the
//! rewrite pins each surviving combination's coefficient map; every
//! assignment satisfying the input system satisfies the rewritten one, and
//! every assignment satisfying the rewritten one, extended by giving each
//! substituted variable its expression's value, satisfies the input.

use vstd::prelude::*;

use crate::constraint::{
    contains_usize, lc_is_one, lemma_vars_of_contains, num_nonzero, terms_distinct, terms_in_range,
    terms_wf, vars_of, Constraint, ConstraintMatrix, LinearCombination, Term,
};
use crate::field::{fe_add, fe_mul, fe_p, Fe};
use crate::passes::dead_variable::lc_contains_var;
use crate::reduction::{
    clamp_usize, total_estimated, MatchMetadata, PatternMatch, PatternType, ReductionReport,
};
use crate::semantics::{
    indices_satisfying, lc_map, lemma_indices_satisfying_props, lemma_lc_map_at, lemma_lc_map_dom,
    lemma_lc_map_update,
};

verus! {

/// A row that linearly defines `v`: one factor is the constant `1` and
/// the claim side is exactly the single non-constant variable `v`, with
/// coefficient one.
pub open spec fn defines_linear(c: Constraint, v: usize) -> bool {
    &&& lc_is_one(c.a@) || lc_is_one(c.b@)
    &&& c.c@.len() == 1
    &&& c.c@[0].variable == v
    &&& c.c@[0].coefficient.val() == 1
    &&& v != 0
}

/// The defining row's expression: the factor that is not the constant.
pub open spec fn expr_of(c: Constraint) -> Seq<Term> {
    if lc_is_one(c.a@) {
        c.b@
    } else {
        c.a@
    }
}

/// Whether a row reads `v` on any side.
pub open spec fn con_uses_any(c: Constraint, v: usize) -> bool {
    vars_of(c.a@).contains(v) || vars_of(c.b@).contains(v) || vars_of(c.c@).contains(v)
}

/// Whether any row linearly defines `v`.
pub open spec fn linearly_defined(cs: Seq<Constraint>, v: usize) -> bool {
    exists|j: int| 0 <= j < cs.len() && defines_linear(#[trigger] cs[j], v)
}

/// A row worth inlining: a linear definition of one private variable,
/// defined nowhere else, with a small expression that is read by some
/// other row and itself reads no linearly defined variable. The last
/// condition keeps definitions from chaining into one another, which is
/// what lets an assignment of the reduced system extend back to the
/// input.
pub open spec fn subst_candidate(cs: Seq<Constraint>, i: int, num_public: nat, max_terms: nat)
    -> bool {
    &&& 0 <= i < cs.len()
    &&& defines_linear(cs[i], cs[i].c@[0].variable)
    &&& num_nonzero(expr_of(cs[i])) <= max_terms
    &&& cs[i].c@[0].variable >= num_public
    &&& exists|j: int| 0 <= j < cs.len() && j != i && con_uses_any(
        #[trigger] cs[j],
        cs[i].c@[0].variable,
    )
    &&& forall|j: int| 0 <= j < cs.len() && j != i ==> !defines_linear(
        #[trigger] cs[j],
        cs[i].c@[0].variable,
    )
    &&& forall|v: usize| #[trigger] vars_of(expr_of(cs[i])).contains(v) ==> !linearly_defined(
        cs,
        v,
    )
}

/// The row indices the pass keeps: everything but the inlined
/// definitions.
pub open spec fn ls_kept(cs: Seq<Constraint>, num_public: nat, max_terms: nat) -> Seq<usize> {
    indices_satisfying(cs.len(), |i: int| !subst_candidate(cs, i, num_public, max_terms))
}

/// The scan's full account: one finding per inlinable definition, in row
/// order.
pub open spec fn ls_matches_exact(
    cs: Seq<Constraint>,
    num_public: nat,
    max_terms: nat,
    ms: Seq<PatternMatch>,
) -> bool {
    let found = indices_satisfying(
        cs.len(),
        |i: int| subst_candidate(cs, i, num_public, max_terms),
    );
    &&& ms.len() == found.len()
    &&& forall|mi: int| 0 <= mi < ms.len() ==> {
        &&& (#[trigger] ms[mi]).pattern_type == PatternType::LinearSubstitution
        &&& ms[mi].constraint_indices@.len() == 1
        &&& ms[mi].constraint_indices@[0] == found[mi]
        &&& (found[mi] as int) < cs.len()
        &&& ms[mi].estimated_reduction == 1
        &&& ms[mi].metadata.substitute_variable == Some(cs[found[mi] as int].c@[0].variable)
    }
}

/// Whether a one-term combination's coefficient is exactly one.
pub(crate) fn unit_coefficient(lc: &LinearCombination) -> (r: bool)
    requires
        lc@.len() == 1,
    ensures
        r <==> lc@[0].coefficient.val() == 1,
{
    let one = crate::field::Fe::one();
    let eq = lc.terms[0].coefficient == one;
    proof {
        if lc@[0].coefficient.val() == 1 {
            crate::field::lemma_fe_val_injective(lc@[0].coefficient, one);
        }
    }
    eq
}

/// One coefficient added into a combination's map: the two amounts merge
/// modulo the field order, and a cancelled variable leaves the map.
pub open spec fn map_add(m: Map<usize, nat>, v: usize, c: nat) -> Map<usize, nat> {
    let base: nat = if m.dom().contains(v) {
        m[v]
    } else {
        0
    };
    let s = (base + c) % fe_p();
    if s == 0 {
        m.remove(v)
    } else {
        m.insert(v, s)
    }
}

/// An expression, scaled by `c`, added term by term into a map.
pub open spec fn add_scaled(m: Map<usize, nat>, c: nat, e: Seq<Term>) -> Map<usize, nat>
    decreases e.len(),
{
    if e.len() == 0 {
        m
    } else {
        map_add(
            add_scaled(m, c, e.drop_last()),
            e.last().variable,
            (c * e.last().coefficient.val()) % fe_p(),
        )
    }
}

/// The coefficient map of a combination after substitution: each term on
/// a substituted variable becomes its expression scaled by the term's
/// coefficient; all other terms merge in unchanged.
pub open spec fn subst_lcmap(s: Seq<Term>, sub: Map<usize, Seq<Term>>) -> Map<usize, nat>
    decreases s.len(),
{
    if s.len() == 0 {
        Map::empty()
    } else {
        let m = subst_lcmap(s.drop_last(), sub);
        if sub.dom().contains(s.last().variable) {
            add_scaled(m, s.last().coefficient.val(), sub[s.last().variable])
        } else {
            map_add(m, s.last().variable, s.last().coefficient.val())
        }
    }
}

/// The substitution pairs as a map from variable to expression.
pub open spec fn pairs_model(ps: Seq<(usize, LinearCombination)>) -> Map<usize, Seq<Term>>
    decreases ps.len(),
{
    if ps.len() == 0 {
        Map::empty()
    } else {
        pairs_model(ps.drop_last()).insert(ps.last().0, ps.last().1@)
    }
}

/// No variable listed twice among the substitution pairs.
pub open spec fn pairs_distinct(ps: Seq<(usize, LinearCombination)>) -> bool {
    forall|i: int, j: int| 0 <= i < ps.len() && 0 <= j < ps.len() && i != j ==> ps[i].0 != ps[j].0
}

/// The pair model's domain lists exactly the paired variables, and each
/// maps to its own expression.
proof fn lemma_pairs_model(ps: Seq<(usize, LinearCombination)>)
    requires
        pairs_distinct(ps),
    ensures
        forall|v: usize| #[trigger] pairs_model(ps).dom().contains(v) <==> exists|i: int|
            0 <= i < ps.len() && (#[trigger] ps[i]).0 == v,
        forall|i: int| 0 <= i < ps.len() ==> pairs_model(ps).dom().contains((#[trigger] ps[i]).0)
            && pairs_model(ps)[ps[i].0] == ps[i].1@,
    decreases ps.len(),
{
    if ps.len() > 0 {
        let d = ps.drop_last();
        assert(pairs_distinct(d));
        lemma_pairs_model(d);
        assert forall|v: usize| #[trigger] pairs_model(ps).dom().contains(v) implies exists|
            i: int,
        | 0 <= i < ps.len() && (#[trigger] ps[i]).0 == v by {
            if v != ps.last().0 {
                assert(pairs_model(d).dom().contains(v));
                let i = choose|i: int| 0 <= i < d.len() && (#[trigger] d[i]).0 == v;
                assert(ps[i].0 == v);
            } else {
                assert(ps[ps.len() - 1].0 == v);
            }
        }
        assert forall|v: usize|
            exists|i: int| 0 <= i < ps.len() && (#[trigger] ps[i]).0 == v
            implies #[trigger] pairs_model(ps).dom().contains(v) by {
            let i = choose|i: int| 0 <= i < ps.len() && (#[trigger] ps[i]).0 == v;
            if i < ps.len() - 1 {
                assert(d[i].0 == v);
            }
        }
        assert forall|i: int| 0 <= i < ps.len() implies pairs_model(ps).dom().contains(
            (#[trigger] ps[i]).0,
        ) && pairs_model(ps)[ps[i].0] == ps[i].1@ by {
            if i < ps.len() - 1 {
                assert(d[i] == ps[i]);
                assert(ps[i].0 != ps.last().0);
            }
        }
    }
}

/// The substitution the pass applies, as a map from each candidate's
/// variable to its defining expression.
pub open spec fn ls_sub_model(cs: Seq<Constraint>, num_public: nat, max_terms: nat) -> Map<
    usize,
    Seq<Term>,
> {
    Map::new(
        |v: usize|
            exists|i: int|
                subst_candidate(cs, i, num_public, max_terms) && #[trigger] cs[i].c@[0].variable
                    == v,
        |v: usize|
            expr_of(
                cs[choose|i: int|
                    subst_candidate(cs, i, num_public, max_terms) && #[trigger] cs[i].c@[0].variable
                        == v],
            ),
    )
}

/// At most one candidate row defines any one variable.
proof fn lemma_candidate_var_unique(
    cs: Seq<Constraint>,
    num_public: nat,
    max_terms: nat,
    i1: int,
    i2: int,
)
    requires
        subst_candidate(cs, i1, num_public, max_terms),
        subst_candidate(cs, i2, num_public, max_terms),
        cs[i1].c@[0].variable == cs[i2].c@[0].variable,
    ensures
        i1 == i2,
{
    if i1 != i2 {
        assert(!defines_linear(cs[i2], cs[i1].c@[0].variable));
        assert(defines_linear(cs[i2], cs[i2].c@[0].variable));
    }
}

/// Merge one scaled term into an accumulating combination, keeping
/// variables unique.
fn merge_term(acc: Vec<Term>, v: usize, c: Fe, Ghost(nv): Ghost<nat>) -> (r: Vec<Term>)
    requires
        terms_distinct(acc@),
        terms_wf(acc@),
        terms_in_range(acc@, nv),
        c.wf(),
        (v as nat) < nv,
    ensures
        terms_distinct(r@),
        terms_wf(r@),
        terms_in_range(r@, nv),
        lc_map(r@) == map_add(lc_map(acc@), v, c.val()),
        forall|asg: Seq<nat>| crate::semantics::lc_value(r@, asg) % fe_p() == (
        crate::semantics::lc_value(acc@, asg) + c.val() * asg[v as int]) % fe_p(),
{
    let mut out = acc;
    let ghost orig = out@;
    let mut k: usize = 0;
    while k < out.len()
        invariant
            out@ == orig,
            orig == acc@,
            terms_distinct(orig),
            terms_wf(orig),
            terms_in_range(orig, nv),
            c.wf(),
            (v as nat) < nv,
            k <= out@.len(),
            forall|i: int| 0 <= i < k ==> (#[trigger] out@[i]).variable != v,
        decreases out@.len() - k,
    {
        if out[k].variable == v {
            let old_coeff = out[k].coefficient;
            let merged = fe_add(&out[k].coefficient, &c);
            out[k] = Term { variable: v, coefficient: merged };
            proof {
                lemma_lc_map_update(orig, k as int, Term { variable: v, coefficient: merged });
                lemma_lc_map_dom(orig);
                assert(merged.val() == (old_coeff.val() + c.val()) % fe_p());
                if old_coeff.val() != 0 {
                    lemma_lc_map_at(orig, k as int);
                    assert(lc_map(orig).dom().contains(v) && lc_map(orig)[v]
                        == old_coeff.val());
                } else {
                    assert forall|j: int| 0 <= j < orig.len()
                        implies !((#[trigger] orig[j]).variable == v && orig[j].coefficient.val()
                            != 0) by {
                        if j != k {
                            assert(orig[j].variable != orig[k as int].variable);
                        }
                    }
                    assert(!lc_map(orig).dom().contains(v));
                }
                assert(lc_map(out@) =~= map_add(lc_map(orig), v, c.val()));
                let p = fe_p() as int;
                let o = old_coeff.val() as int;
                let cv = c.val() as int;
                let mv = merged.val() as int;
                assert forall|asg: Seq<nat>|
                    crate::semantics::lc_value(out@, asg) % fe_p() == (crate::semantics::lc_value(
                        orig,
                        asg,
                    ) + c.val() * asg[v as int]) % fe_p() by {
                    crate::semantics::lemma_lc_value_update(
                        orig,
                        k as int,
                        Term { variable: v, coefficient: merged },
                        asg,
                    );
                    let x = asg[v as int] as int;
                    let a0 = crate::semantics::lc_value(orig, asg) as int;
                    let vo = crate::semantics::lc_value(out@, asg) as int;
                    assert(vo + o * x == a0 + mv * x);
                    assert(vo == a0 + (mv - o) * x) by (nonlinear_arith)
                        requires
                            vo + o * x == a0 + mv * x,
                    ;
                    vstd::arithmetic::div_mod::lemma_small_mod(old_coeff.val(), fe_p());
                    vstd::arithmetic::div_mod::lemma_small_mod(c.val(), fe_p());
                    vstd::arithmetic::div_mod::lemma_sub_mod_noop(o + cv, o, p);
                    assert((mv - o) % p == cv % p);
                    vstd::arithmetic::div_mod::lemma_mul_mod_noop_left(mv - o, x, p);
                    vstd::arithmetic::div_mod::lemma_mul_mod_noop_left(cv, x, p);
                    assert(((mv - o) * x) % p == (cv * x) % p);
                    vstd::arithmetic::div_mod::lemma_add_mod_noop_right(a0, (mv - o) * x, p);
                    vstd::arithmetic::div_mod::lemma_add_mod_noop_right(a0, cv * x, p);
                }
            }
            return out;
        }
        k = k + 1;
    }
    out.push(Term { variable: v, coefficient: c });
    proof {
        assert forall|i: int, j: int| 0 <= i < out@.len() && 0 <= j < out@.len() && i != j
            implies out@[i].variable != out@[j].variable by {
            if i < orig.len() && j < orig.len() {
                assert(out@[i] == orig[i] && out@[j] == orig[j]);
            } else if i == orig.len() {
                assert(out@[j] == orig[j] && out@[i].variable == v);
            } else {
                assert(out@[i] == orig[i] && out@[j].variable == v);
            }
        }
        lemma_lc_map_dom(orig);
        assert(!lc_map(orig).dom().contains(v));
        assert(out@.drop_last() =~= orig);
        vstd::arithmetic::div_mod::lemma_small_mod(c.val(), fe_p());
        if c.val() == 0 {
            assert(lc_map(out@) =~= map_add(lc_map(orig), v, c.val()));
        } else {
            assert(lc_map(out@) =~= map_add(lc_map(orig), v, c.val()));
        }
        assert forall|asg: Seq<nat>|
            crate::semantics::lc_value(out@, asg) % fe_p() == (crate::semantics::lc_value(
                orig,
                asg,
            ) + c.val() * asg[v as int]) % fe_p() by {
            assert(out@.last() == (Term { variable: v, coefficient: c }));
        }
    }
    out
}

/// Adding one coefficient introduces no variable but its own.
proof fn lemma_map_add_dom(m: Map<usize, nat>, v: usize, c: nat)
    ensures
        forall|w: usize| #[trigger] map_add(m, v, c).dom().contains(w) ==> m.dom().contains(w)
            || w == v,
{
}

/// Folding in a scaled expression introduces no variable outside the
/// constant and the expression's own.
proof fn lemma_add_scaled_dom(m: Map<usize, nat>, c: nat, e: Seq<Term>)
    ensures
        forall|w: usize| #[trigger] add_scaled(m, c, e).dom().contains(w) ==> m.dom().contains(w)
            || w == 0 || vars_of(e).contains(w),
    decreases e.len(),
{
    if e.len() > 0 {
        let d = e.drop_last();
        lemma_add_scaled_dom(m, c, d);
        let m2 = add_scaled(m, c, d);
        let lv = e.last().variable;
        let sc = (c * e.last().coefficient.val()) % fe_p();
        lemma_map_add_dom(m2, lv, sc);
        assert forall|w: usize| #[trigger] add_scaled(m, c, e).dom().contains(w)
            implies m.dom().contains(w) || w == 0 || vars_of(e).contains(w) by {
            if m2.dom().contains(w) {
                if !m.dom().contains(w) && w != 0 {
                    lemma_vars_of_contains(d, w);
                    lemma_vars_of_contains(e, w);
                    let t = choose|t: int|
                        0 <= t < d.len() && (#[trigger] d[t]).variable == w && d[t].variable != 0
                            && d[t].coefficient.val() != 0;
                    assert(e[t].variable == w && e[t].coefficient.val() != 0);
                }
            } else {
                assert(w == lv);
                if w != 0 && !m2.dom().contains(w) {
                    // A fresh variable enters only with a non-zero scaled
                    // coefficient, so the term itself is non-zero.
                    assert(sc != 0);
                    assert(e.last().coefficient.val() != 0) by {
                        if e.last().coefficient.val() == 0 {
                            assert(c * e.last().coefficient.val() == 0) by (nonlinear_arith)
                                requires
                                    e.last().coefficient.val() == 0,
                            ;
                        }
                    }
                    lemma_vars_of_contains(e, w);
                    assert(e[e.len() - 1].variable == w);
                }
            }
        }
    }
}

/// When no substituted expression reads a substituted variable, the
/// rewritten map holds no substituted variable either.
proof fn lemma_subst_lcmap_dom(s: Seq<Term>, sub: Map<usize, Seq<Term>>)
    requires
        !sub.dom().contains(0usize),
        forall|v: usize, w: usize| sub.dom().contains(v) && #[trigger] vars_of(
            sub[v],
        ).contains(w) ==> !sub.dom().contains(w),
    ensures
        forall|w: usize| #[trigger] subst_lcmap(s, sub).dom().contains(w) ==> !sub.dom().contains(
            w,
        ),
    decreases s.len(),
{
    if s.len() > 0 {
        let d = s.drop_last();
        lemma_subst_lcmap_dom(d, sub);
        let m = subst_lcmap(d, sub);
        let lv = s.last().variable;
        if sub.dom().contains(lv) {
            lemma_add_scaled_dom(m, s.last().coefficient.val(), sub[lv]);
        } else {
            lemma_map_add_dom(m, lv, s.last().coefficient.val());
        }
    }
}

/// Whether assignment slot `j` belongs to a substituted variable.
pub open spec fn is_substituted_var(
    cs: Seq<Constraint>,
    num_public: nat,
    max_terms: nat,
    j: int,
) -> bool {
    exists|i: int|
        #[trigger] subst_candidate(cs, i, num_public, max_terms) && cs[i].c@[0].variable as int
            == j
}

/// The assignment extended back over the substituted variables: each one
/// takes its defining expression's value; everything else is untouched.
pub open spec fn ls_revived(
    cs: Seq<Constraint>,
    num_public: nat,
    max_terms: nat,
    asg: Seq<nat>,
) -> Seq<nat> {
    Seq::new(
        asg.len(),
        |j: int|
            if is_substituted_var(cs, num_public, max_terms, j) {
                let i = choose|i: int|
                    #[trigger] subst_candidate(cs, i, num_public, max_terms)
                        && cs[i].c@[0].variable as int == j;
                crate::semantics::lc_value(expr_of(cs[i]), asg) % fe_p()
            } else {
                asg[j]
            },
    )
}

/// A combination reading no substituted variable keeps its value under
/// the revived assignment.
proof fn lemma_value_unchanged_when_unsubstituted(
    s: Seq<Term>,
    cs: Seq<Constraint>,
    num_public: nat,
    max_terms: nat,
    asg: Seq<nat>,
)
    requires
        asg.len() > 0,
        terms_in_range(s, asg.len() as nat),
        forall|k: int| 0 <= k < s.len() ==> ((#[trigger] s[k]).coefficient.val() == 0
            || s[k].variable == 0 || !is_substituted_var(
            cs,
            num_public,
            max_terms,
            s[k].variable as int,
        )),
    ensures
        crate::semantics::lc_value(s, ls_revived(cs, num_public, max_terms, asg))
            == crate::semantics::lc_value(s, asg),
{
    let asg2 = ls_revived(cs, num_public, max_terms, asg);
    assert(!is_substituted_var(cs, num_public, max_terms, 0));
    assert(asg2[0] == asg[0]);
    assert forall|k: int| 0 <= k < s.len() implies ((#[trigger] s[k]).coefficient.val() == 0
        || asg2[s[k].variable as int] == asg[s[k].variable as int]) by {
        if s[k].coefficient.val() != 0 && s[k].variable != 0 {
            assert(!is_substituted_var(cs, num_public, max_terms, s[k].variable as int));
        }
    }
    crate::semantics::lemma_lc_value_agrees(s, asg2, asg);
}

/// The constant slot belongs to no substituted variable.
proof fn lemma_zero_unsubstituted(cs: Seq<Constraint>, num_public: nat, max_terms: nat)
    ensures
        !is_substituted_var(cs, num_public, max_terms, 0),
{
    if is_substituted_var(cs, num_public, max_terms, 0) {
        let i0 = choose|i: int|
            #[trigger] subst_candidate(cs, i, num_public, max_terms) && cs[i].c@[0].variable as int
                == 0;
        assert(defines_linear(cs[i0], cs[i0].c@[0].variable));
        assert(false);
    }
}

/// A candidate's expression reads no substituted variable.
proof fn lemma_expr_unsubstituted(cs: Seq<Constraint>, num_public: nat, max_terms: nat, i: int)
    requires
        subst_candidate(cs, i, num_public, max_terms),
    ensures
        forall|k: int| 0 <= k < expr_of(cs[i]).len() ==> ((#[trigger] expr_of(
            cs[i],
        )[k]).coefficient.val() == 0 || expr_of(cs[i])[k].variable == 0 || !is_substituted_var(
            cs,
            num_public,
            max_terms,
            expr_of(cs[i])[k].variable as int,
        )),
{
    let e = expr_of(cs[i]);
    assert forall|k: int| 0 <= k < e.len() && (#[trigger] e[k]).coefficient.val() != 0
        && e[k].variable != 0 implies !is_substituted_var(
        cs,
        num_public,
        max_terms,
        e[k].variable as int,
    ) by {
        let w = e[k].variable;
        lemma_vars_of_contains(e, w);
        assert(vars_of(e).contains(w));
        assert(!linearly_defined(cs, w));
        if is_substituted_var(cs, num_public, max_terms, w as int) {
            let iw = choose|i2: int|
                #[trigger] subst_candidate(cs, i2, num_public, max_terms) && cs[i2].c@[0].variable
                    as int == w as int;
            assert(cs[iw].c@[0].variable == w);
            assert(defines_linear(cs[iw], w));
            assert(false);
        }
    }
}

/// Every substituted variable stands in the substitution map's domain.
proof fn lemma_substituted_in_model(cs: Seq<Constraint>, num_public: nat, max_terms: nat)
    ensures
        forall|w: usize| is_substituted_var(cs, num_public, max_terms, w as int)
            ==> #[trigger] ls_sub_model(cs, num_public, max_terms).dom().contains(w),
{
    assert forall|w: usize| is_substituted_var(cs, num_public, max_terms, w as int)
        implies #[trigger] ls_sub_model(cs, num_public, max_terms).dom().contains(w) by {
        let ic = choose|i: int|
            #[trigger] subst_candidate(cs, i, num_public, max_terms) && cs[i].c@[0].variable as int
                == w as int;
        assert(cs[ic].c@[0].variable == w);
    }
}

/// The substitution map reads no substituted variable in any of its
/// expressions, and never touches the constant slot.
proof fn lemma_model_hygiene(cs: Seq<Constraint>, num_public: nat, max_terms: nat)
    ensures
        !ls_sub_model(cs, num_public, max_terms).dom().contains(0usize),
        forall|v: usize, w: usize| ls_sub_model(cs, num_public, max_terms).dom().contains(v)
            && #[trigger] vars_of(ls_sub_model(cs, num_public, max_terms)[v]).contains(w)
            ==> !ls_sub_model(cs, num_public, max_terms).dom().contains(w),
{
    let model = ls_sub_model(cs, num_public, max_terms);
    if model.dom().contains(0usize) {
        let i0 = choose|i: int|
            subst_candidate(cs, i, num_public, max_terms) && #[trigger] cs[i].c@[0].variable
                == 0usize;
        assert(defines_linear(cs[i0], cs[i0].c@[0].variable));
        assert(false);
    }
    assert forall|v: usize, w: usize| model.dom().contains(v) && #[trigger] vars_of(
        model[v],
    ).contains(w) implies !model.dom().contains(w) by {
        let ic = choose|i: int|
            subst_candidate(cs, i, num_public, max_terms) && #[trigger] cs[i].c@[0].variable == v;
        assert(model[v] == expr_of(cs[ic]));
        assert(vars_of(expr_of(cs[ic])).contains(w));
        assert(!linearly_defined(cs, w));
        if model.dom().contains(w) {
            let iw = choose|i: int|
                subst_candidate(cs, i, num_public, max_terms) && #[trigger] cs[i].c@[0].variable
                    == w;
            assert(defines_linear(cs[iw], w));
            assert(false);
        }
    }
}

/// Whether an assignment satisfies every gathered definition: each
/// substituted variable carries its expression's value, modulo the field
/// order.
pub open spec fn subs_defs_hold(ps: Seq<(usize, LinearCombination)>, asg: Seq<nat>) -> bool {
    forall|s2: int| 0 <= s2 < ps.len() ==> asg[(#[trigger] ps[s2]).0 as int] % fe_p()
        == crate::semantics::lc_value(ps[s2].1@, asg) % fe_p()
}

/// Rewrite one combination under the substitutions: each substituted
/// variable's term is expanded into its expression scaled by the term's
/// coefficient; coefficients on the same variable are merged modulo the
/// field order and cancelled terms dropped. The result's coefficient map
/// is pinned exactly.
fn apply_substitutions(
    lc: &LinearCombination,
    subs: &Vec<(usize, LinearCombination)>,
    Ghost(nv): Ghost<nat>,
) -> (r: LinearCombination)
    requires
        terms_wf(lc@),
        terms_in_range(lc@, nv),
        pairs_distinct(subs@),
        forall|s: int| 0 <= s < subs@.len() ==> terms_wf((#[trigger] subs@[s]).1@)
            && terms_in_range(subs@[s].1@, nv),
    ensures
        terms_distinct(r@),
        terms_wf(r@),
        terms_in_range(r@, nv),
        lc_map(r@) == subst_lcmap(lc@, pairs_model(subs@)),
        forall|asg: Seq<nat>| subs_defs_hold(subs@, asg)
            ==> crate::semantics::lc_value(r@, asg) % fe_p() == crate::semantics::lc_value(
                lc@,
                asg,
            ) % fe_p(),
{
    let ghost subm = pairs_model(subs@);
    proof {
        lemma_pairs_model(subs@);
    }
    let mut merged: Vec<Term> = Vec::new();
    let mut k: usize = 0;
    while k < lc.terms.len()
        invariant
            terms_wf(lc@),
            terms_in_range(lc@, nv),
            pairs_distinct(subs@),
            subm == pairs_model(subs@),
            forall|s: int| 0 <= s < subs@.len() ==> terms_wf((#[trigger] subs@[s]).1@)
                && terms_in_range(subs@[s].1@, nv),
            k <= lc@.len(),
            terms_distinct(merged@),
            terms_wf(merged@),
            terms_in_range(merged@, nv),
            lc_map(merged@) == subst_lcmap(lc@.take(k as int), subm),
            forall|asg: Seq<nat>| subs_defs_hold(subs@, asg)
                ==> crate::semantics::lc_value(merged@, asg) % fe_p()
                    == crate::semantics::lc_value(lc@.take(k as int), asg) % fe_p(),
        decreases lc@.len() - k,
    {
        proof {
            assert(lc@.take(k + 1).drop_last() =~= lc@.take(k as int));
            assert(lc@.take(k + 1).last() == lc@[k as int]);
            lemma_pairs_model(subs@);
        }
        let ghost before = lc_map(merged@);
        let ghost beforeseq = merged@;
        let t = lc.terms[k];
        let mut s: usize = 0;
        while s < subs.len() && subs[s].0 != t.variable
            invariant
                s <= subs@.len(),
                forall|s2: int| 0 <= s2 < s ==> (#[trigger] subs@[s2]).0 != t.variable,
            decreases subs@.len() - s,
        {
            s = s + 1;
        }
        if s < subs.len() {
            // The term's variable is substituted: fold in its expression,
            // scaled by the term's coefficient.
            proof {
                assert(subs@[s as int].0 == t.variable);
                assert(subm.dom().contains(t.variable));
                assert(subm[t.variable] == subs@[s as int].1@);
            }
            let replacement = &subs[s].1;
            proof {
                assert forall|asg: Seq<nat>|
                    crate::semantics::lc_value(merged@, asg) % fe_p() == (
                    crate::semantics::lc_value(beforeseq, asg) + t.coefficient.val()
                        * crate::semantics::lc_value(replacement@.take(0), asg)) % fe_p() by {
                    assert(replacement@.take(0) =~= Seq::<Term>::empty());
                    assert(t.coefficient.val() * crate::semantics::lc_value(
                        Seq::<Term>::empty(),
                        asg,
                    ) == 0) by (nonlinear_arith)
                        requires
                            crate::semantics::lc_value(Seq::<Term>::empty(), asg) == 0,
                    ;
                }
            }
            let mut rk: usize = 0;
            while rk < replacement.terms.len()
                invariant
                    terms_wf(lc@),
                    terms_in_range(lc@, nv),
                    k < lc@.len(),
                    t == lc@[k as int],
                    t.coefficient.wf(),
                    s < subs@.len(),
                    replacement == &subs@[s as int].1,
                    terms_wf(replacement@),
                    terms_in_range(replacement@, nv),
                    rk <= replacement@.len(),
                    terms_distinct(merged@),
                    terms_wf(merged@),
                    terms_in_range(merged@, nv),
                    lc_map(merged@) == add_scaled(before, t.coefficient.val(), replacement@.take(
                        rk as int,
                    )),
                    forall|asg: Seq<nat>| crate::semantics::lc_value(merged@, asg) % fe_p() == (
                    crate::semantics::lc_value(beforeseq, asg) + t.coefficient.val()
                        * crate::semantics::lc_value(replacement@.take(rk as int), asg)) % fe_p(),
                decreases replacement@.len() - rk,
            {
                proof {
                    assert(replacement@.take(rk + 1).drop_last() =~= replacement@.take(
                        rk as int,
                    ));
                    assert(replacement@.take(rk + 1).last() == replacement@[rk as int]);
                }
                let ghost prevmerged = merged@;
                let rep = replacement.terms[rk];
                let scaled = fe_mul(&t.coefficient, &rep.coefficient);
                merged = merge_term(merged, rep.variable, scaled, Ghost(nv));
                proof {
                    let p = fe_p() as int;
                    let tc = t.coefficient.val() as int;
                    let rc = rep.coefficient.val() as int;
                    let sc = scaled.val() as int;
                    assert forall|asg: Seq<nat>|
                        crate::semantics::lc_value(merged@, asg) % fe_p() == (
                        crate::semantics::lc_value(beforeseq, asg) + t.coefficient.val()
                            * crate::semantics::lc_value(
                            replacement@.take(rk + 1),
                            asg,
                        )) % fe_p() by {
                        let x = asg[rep.variable as int] as int;
                        let b0 = crate::semantics::lc_value(beforeseq, asg) as int;
                        let vm = crate::semantics::lc_value(prevmerged, asg) as int;
                        let vm2 = crate::semantics::lc_value(merged@, asg) as int;
                        let vr = crate::semantics::lc_value(
                            replacement@.take(rk as int),
                            asg,
                        ) as int;
                        assert(vm2 % p == (vm + sc * x) % p);
                        assert(vm % p == (b0 + tc * vr) % p);
                        vstd::arithmetic::div_mod::lemma_add_mod_noop(vm, sc * x, p);
                        vstd::arithmetic::div_mod::lemma_add_mod_noop(b0 + tc * vr, sc * x, p);
                        assert(vm2 % p == (b0 + tc * vr + sc * x) % p);
                        vstd::arithmetic::div_mod::lemma_mul_mod_noop_left(tc * rc, x, p);
                        assert((sc * x) % p == (tc * rc * x) % p) by {
                            assert(sc == (tc * rc) % p);
                            vstd::arithmetic::div_mod::lemma_mul_mod_noop_left((tc * rc) % p, x, p);
                        }
                        vstd::arithmetic::div_mod::lemma_add_mod_noop_right(b0 + tc * vr, sc * x, p);
                        vstd::arithmetic::div_mod::lemma_add_mod_noop_right(
                            b0 + tc * vr,
                            tc * rc * x,
                            p,
                        );
                        assert(vm2 % p == (b0 + tc * vr + tc * rc * x) % p);
                        assert(tc * vr + tc * rc * x == tc * (vr + rc * x)) by (nonlinear_arith);
                        assert(crate::semantics::lc_value(replacement@.take(rk + 1), asg) as int
                            == vr + rc * x);
                    }
                }
                rk = rk + 1;
            }
            proof {
                assert(replacement@.take(replacement@.len() as int) =~= replacement@);
                let tv = t.variable;
                assert(lc_map(merged@) == add_scaled(before, t.coefficient.val(), subm[tv]));
                let p = fe_p() as int;
                let tc = t.coefficient.val() as int;
                assert forall|asg: Seq<nat>| subs_defs_hold(subs@, asg)
                    implies crate::semantics::lc_value(merged@, asg) % fe_p()
                    == crate::semantics::lc_value(lc@.take(k + 1), asg) % fe_p() by {
                    let x = asg[t.variable as int] as int;
                    let b0 = crate::semantics::lc_value(beforeseq, asg) as int;
                    let vm = crate::semantics::lc_value(merged@, asg) as int;
                    let vr = crate::semantics::lc_value(replacement@, asg) as int;
                    let tk = crate::semantics::lc_value(lc@.take(k as int), asg) as int;
                    assert(vm % p == (b0 + tc * vr) % p);
                    assert(b0 % p == tk % p);
                    assert(vr % p == x % p) by {
                        assert(replacement@ == subs@[s as int].1@);
                        assert(asg[subs@[s as int].0 as int] % fe_p()
                            == crate::semantics::lc_value(subs@[s as int].1@, asg) % fe_p());
                    }
                    vstd::arithmetic::div_mod::lemma_add_mod_noop(b0, tc * vr, p);
                    vstd::arithmetic::div_mod::lemma_add_mod_noop(tk, tc * vr, p);
                    assert(vm % p == (tk + tc * vr) % p);
                    vstd::arithmetic::div_mod::lemma_mul_mod_noop_right(tc, vr, p);
                    vstd::arithmetic::div_mod::lemma_mul_mod_noop_right(tc, x, p);
                    assert((tc * vr) % p == (tc * x) % p);
                    vstd::arithmetic::div_mod::lemma_add_mod_noop_right(tk, tc * vr, p);
                    vstd::arithmetic::div_mod::lemma_add_mod_noop_right(tk, tc * x, p);
                    assert(vm % p == (tk + tc * x) % p);
                    assert(crate::semantics::lc_value(lc@.take(k + 1), asg) as int == tk + tc
                        * x);
                }
            }
        } else {
            proof {
                if subm.dom().contains(t.variable) {
                    let s2 = choose|s2: int|
                        0 <= s2 < subs@.len() && (#[trigger] subs@[s2]).0 == t.variable;
                    assert(false);
                }
            }
            let ghost prevmerged = merged@;
            merged = merge_term(merged, t.variable, t.coefficient, Ghost(nv));
            proof {
                let p = fe_p() as int;
                let tc = t.coefficient.val() as int;
                assert forall|asg: Seq<nat>| subs_defs_hold(subs@, asg)
                    implies crate::semantics::lc_value(merged@, asg) % fe_p()
                    == crate::semantics::lc_value(lc@.take(k + 1), asg) % fe_p() by {
                    let x = asg[t.variable as int] as int;
                    let vm = crate::semantics::lc_value(merged@, asg) as int;
                    let pv = crate::semantics::lc_value(prevmerged, asg) as int;
                    let tk = crate::semantics::lc_value(lc@.take(k as int), asg) as int;
                    assert(vm % p == (pv + tc * x) % p);
                    assert(pv % p == tk % p);
                    vstd::arithmetic::div_mod::lemma_add_mod_noop(pv, tc * x, p);
                    vstd::arithmetic::div_mod::lemma_add_mod_noop(tk, tc * x, p);
                    assert(crate::semantics::lc_value(lc@.take(k + 1), asg) as int == tk + tc
                        * x);
                }
            }
        }
        k = k + 1;
    }
    proof {
        assert(lc@.take(lc@.len() as int) =~= lc@);
    }
    // Drop the cancelled terms.
    let mut out: Vec<Term> = Vec::new();
    let mut f: usize = 0;
    while f < merged.len()
        invariant
            f <= merged@.len(),
            terms_distinct(merged@),
            terms_wf(merged@),
            terms_in_range(merged@, nv),
            terms_distinct(out@),
            terms_wf(out@),
            terms_in_range(out@, nv),
            lc_map(out@) == lc_map(merged@.take(f as int)),
            forall|asg: Seq<nat>| crate::semantics::lc_value(out@, asg)
                == crate::semantics::lc_value(merged@.take(f as int), asg),
            forall|i: int| 0 <= i < out@.len() ==> exists|j: int|
                0 <= j < f && (#[trigger] out@[i]) == merged@[j],
        decreases merged@.len() - f,
    {
        proof {
            assert(merged@.take(f + 1).drop_last() =~= merged@.take(f as int));
            assert(merged@.take(f + 1).last() == merged@[f as int]);
        }
        let ghost prevout2 = out@;
        let t = merged[f];
        proof {
            if t.coefficient.val() == 0 {
                assert forall|asg: Seq<nat>|
                    crate::semantics::lc_value(prevout2, asg) == crate::semantics::lc_value(
                        merged@.take(f + 1),
                        asg,
                    ) by {
                    assert(t.coefficient.val() * asg[t.variable as int] == 0) by (
                    nonlinear_arith)
                        requires
                            t.coefficient.val() == 0,
                    ;
                }
            }
        }
        if !t.coefficient.is_zero() {
            let ghost prevout = out@;
            out.push(t);
            proof {
                assert(out@.drop_last() =~= prevout);
                assert forall|i: int, j: int| 0 <= i < out@.len() && 0 <= j < out@.len() && i != j
                    implies out@[i].variable != out@[j].variable by {
                    if i < prevout.len() && j < prevout.len() {
                        assert(out@[i] == prevout[i] && out@[j] == prevout[j]);
                    } else if j == prevout.len() {
                        assert(out@[j] == merged@[f as int]);
                        assert(out@[i] == prevout[i]);
                        let j2 = choose|j2: int| 0 <= j2 < f && prevout[i] == merged@[j2];
                        assert(merged@[j2].variable != merged@[f as int].variable);
                    } else {
                        assert(out@[i] == merged@[f as int]);
                        assert(out@[j] == prevout[j]);
                        let j2 = choose|j2: int| 0 <= j2 < f && prevout[j] == merged@[j2];
                        assert(merged@[j2].variable != merged@[f as int].variable);
                    }
                }
                assert forall|asg: Seq<nat>|
                    crate::semantics::lc_value(out@, asg) == crate::semantics::lc_value(
                        merged@.take(f + 1),
                        asg,
                    ) by {
                    assert(crate::semantics::lc_value(out@, asg)
                        == crate::semantics::lc_value(prevout, asg) + t.coefficient.val() * asg[
                        t.variable as int]);
                }
            }
        }
        f = f + 1;
    }
    proof {
        assert(merged@.take(merged@.len() as int) =~= merged@);
    }
    LinearCombination { terms: out }
}

/// Whether this row linearly defines `v`.
fn is_linear_definition(c: &Constraint, v: usize) -> (r: bool)
    ensures
        r <==> defines_linear(*c, v),
{
    (c.a.is_one() || c.b.is_one()) && c.c.is_single_variable() && c.c.terms[0].variable == v
        && unit_coefficient(&c.c)
}

/// Whether the expression reads any linearly defined variable.
fn expr_reads_defined(matrix: &ConstraintMatrix, expr: &LinearCombination) -> (r: bool)
    ensures
        r <==> exists|v: usize| #[trigger] vars_of(expr@).contains(v) && linearly_defined(
            matrix.constraints@,
            v,
        ),
{
    let ghost cs = matrix.constraints@;
    let mut t: usize = 0;
    while t < expr.terms.len()
        invariant
            cs == matrix.constraints@,
            t <= expr@.len(),
            forall|t2: int| 0 <= t2 < t ==> !((#[trigger] expr@[t2]).variable != 0
                && expr@[t2].coefficient.val() != 0 && linearly_defined(
                cs,
                expr@[t2].variable,
            )),
        decreases expr@.len() - t,
    {
        let term = expr.terms[t];
        if term.variable != 0 && !term.coefficient.is_zero() {
            let mut j: usize = 0;
            while j < matrix.constraints.len()
                invariant
                    cs == matrix.constraints@,
                    j <= cs.len(),
                    t < expr@.len(),
                    term == expr@[t as int],
                    term.variable != 0,
                    term.coefficient.val() != 0,
                    forall|j2: int| 0 <= j2 < j ==> !defines_linear(
                        #[trigger] cs[j2],
                        term.variable,
                    ),
                decreases cs.len() - j,
            {
                if is_linear_definition(&matrix.constraints[j], term.variable) {
                    proof {
                        lemma_vars_of_contains(expr@, term.variable);
                        assert(vars_of(expr@).contains(term.variable));
                    }
                    return true;
                }
                j = j + 1;
            }
        }
        t = t + 1;
    }
    proof {
        assert forall|v: usize|
            #[trigger] vars_of(expr@).contains(v) implies !linearly_defined(cs, v) by {
            lemma_vars_of_contains(expr@, v);
            let t2 = choose|t2: int|
                0 <= t2 < expr@.len() && (#[trigger] expr@[t2]).variable == v && expr@[t2].variable
                    != 0 && expr@[t2].coefficient.val() != 0;
        }
    }
    false
}

/// Linear substitution pass: inlines simple variable definitions.
pub struct LinearSubstitutionPass {
    max_terms: usize,
}

impl LinearSubstitutionPass {
    /// The widest expression the pass will inline.
    pub closed spec fn max_terms_view(self) -> usize {
        self.max_terms
    }

    /// Inline expressions of up to four terms.
    pub fn new() -> (r: Self)
        ensures
            r.max_terms_view() == 4,
    {
        LinearSubstitutionPass { max_terms: 4 }
    }

    /// Set the widest expression to inline.
    pub fn with_max_terms(self, max: usize) -> (r: Self)
        ensures
            r.max_terms_view() == max,
    {
        LinearSubstitutionPass { max_terms: max }
    }

    /// Short name of the pass.
    pub fn name(&self) -> &'static str {
        "Linear Substitution"
    }

    /// One-line account of what the pass does.
    pub fn description(&self) -> &'static str {
        "Inlines simple variable definitions to eliminate constraints"
    }

    /// One finding per inlinable definition, in row order.
    pub fn scan(&self, matrix: &ConstraintMatrix) -> (r: Vec<PatternMatch>)
        requires
            matrix.wf(),
        ensures
            ls_matches_exact(
                matrix.constraints@,
                matrix.num_public_inputs as nat,
                self.max_terms_view() as nat,
                r@,
            ),
    {
        let ghost cs = matrix.constraints@;
        let ghost npub = matrix.num_public_inputs as nat;
        let ghost maxt = self.max_terms as nat;
        let ghost pred = |i: int| subst_candidate(cs, i, npub, maxt);
        let n = matrix.constraints.len();
        let mut matches: Vec<PatternMatch> = Vec::new();
        let mut match_id: usize = 0;
        let mut i: usize = 0;
        while i < n
            invariant
                matrix.wf(),
                cs == matrix.constraints@,
                npub == matrix.num_public_inputs as nat,
                maxt == self.max_terms as nat,
                pred == (|i: int| subst_candidate(cs, i, npub, maxt)),
                n == cs.len(),
                i <= n,
                ({
                    let found = indices_satisfying(i as nat, pred);
                    &&& matches@.len() == found.len()
                    &&& forall|mi: int| 0 <= mi < matches@.len() ==> {
                        &&& (#[trigger] matches@[mi]).pattern_type
                            == PatternType::LinearSubstitution
                        &&& matches@[mi].constraint_indices@.len() == 1
                        &&& matches@[mi].constraint_indices@[0] == found[mi]
                        &&& (found[mi] as int) < cs.len()
                        &&& matches@[mi].estimated_reduction == 1
                        &&& matches@[mi].metadata.substitute_variable == Some(
                            cs[found[mi] as int].c@[0].variable,
                        )
                    }
                }),
            decreases n - i,
        {
            let c = &matrix.constraints[i];
            let mut is_candidate = false;
            if (c.a.is_one() || c.b.is_one()) && c.c.is_single_variable() && unit_coefficient(
                &c.c,
            ) {
                let target_var = c.c.terms[0].variable;
                let expr_small = if c.a.is_one() {
                    c.b.num_terms() <= self.max_terms
                } else {
                    c.a.num_terms() <= self.max_terms
                };
                if expr_small && target_var >= matrix.num_public_inputs {
                    let mut used_elsewhere = false;
                    let mut defined_elsewhere = false;
                    let mut j: usize = 0;
                    while j < n
                        invariant
                            matrix.wf(),
                            cs == matrix.constraints@,
                            n == cs.len(),
                            i < n,
                            j <= n,
                            target_var == cs[i as int].c@[0].variable,
                            used_elsewhere <==> exists|j2: int|
                                0 <= j2 < j && j2 != i && con_uses_any(
                                    #[trigger] cs[j2],
                                    target_var,
                                ),
                            defined_elsewhere <==> exists|j2: int|
                                0 <= j2 < j && j2 != i && defines_linear(
                                    #[trigger] cs[j2],
                                    target_var,
                                ),
                        decreases n - j,
                    {
                        if j != i {
                            let other = &matrix.constraints[j];
                            if lc_contains_var(&other.a, target_var) || lc_contains_var(
                                &other.b,
                                target_var,
                            ) || lc_contains_var(&other.c, target_var) {
                                used_elsewhere = true;
                            }
                            if (other.a.is_one() || other.b.is_one())
                                && other.c.is_single_variable() && other.c.terms[0].variable
                                == target_var && unit_coefficient(&other.c) {
                                defined_elsewhere = true;
                            }
                        }
                        j = j + 1;
                    }
                    let expr_ref = if c.a.is_one() {
                        &c.b
                    } else {
                        &c.a
                    };
                    let chained = expr_reads_defined(matrix, expr_ref);
                    if used_elsewhere && !defined_elsewhere && !chained {
                        is_candidate = true;
                        let m = PatternMatch {
                            id: match_id,
                            pattern_type: PatternType::LinearSubstitution,
                            constraint_indices: {
                                let mut iv: Vec<usize> = Vec::new();
                                iv.push(i);
                                iv
                            },
                            variable_indices: {
                                let mut vv: Vec<usize> = Vec::new();
                                vv.push(target_var);
                                vv
                            },
                            estimated_reduction: 1,
                            description: "linear definition can be inlined".to_string(),
                            metadata: MatchMetadata {
                                canonical_index: None,
                                expression_hash: None,
                                substitute_variable: Some(target_var),
                            },
                        };
                        matches.push(m);
                        if match_id < usize::MAX {
                            match_id = match_id + 1;
                        }
                    }
                }
            }
            proof {
                assert(is_candidate <==> subst_candidate(cs, i as int, npub, maxt));
            }
            i = i + 1;
        }
        matches
    }

    /// Inline each found definition throughout the other rows, then drop
    /// the defining rows. Exactly the non-defining rows survive, densely
    /// reindexed, and each surviving combination's coefficient map is the
    /// original's with every substituted variable expanded into its
    /// expression.
    pub fn reduce(&self, matrix: ConstraintMatrix, matches: &Vec<PatternMatch>) -> (r:
        ConstraintMatrix)
        requires
            matrix.wf(),
            ls_matches_exact(
                matrix.constraints@,
                matrix.num_public_inputs as nat,
                self.max_terms_view() as nat,
                matches@,
            ),
        ensures
            r.wf(),
            r.num_public_inputs == matrix.num_public_inputs,
            r.num_private_witnesses == matrix.num_private_witnesses,
            r.num_variables == matrix.num_variables,
            r.constraints@.len() == ls_kept(
                matrix.constraints@,
                matrix.num_public_inputs as nat,
                self.max_terms_view() as nat,
            ).len(),
            forall|k: int| 0 <= k < r.constraints@.len() ==> {
                let i = ls_kept(
                    matrix.constraints@,
                    matrix.num_public_inputs as nat,
                    self.max_terms_view() as nat,
                )[k] as int;
                let sub = ls_sub_model(
                    matrix.constraints@,
                    matrix.num_public_inputs as nat,
                    self.max_terms_view() as nat,
                );
                &&& (#[trigger] r.constraints@[k]).index == k
                &&& lc_map(r.constraints@[k].a@) == subst_lcmap(matrix.constraints@[i].a@, sub)
                &&& lc_map(r.constraints@[k].b@) == subst_lcmap(matrix.constraints@[i].b@, sub)
                &&& lc_map(r.constraints@[k].c@) == subst_lcmap(matrix.constraints@[i].c@, sub)
            },
            forall|asg: Seq<nat>| crate::semantics::matrix_satisfied(matrix, asg)
                ==> crate::semantics::matrix_satisfied(r, asg),
            forall|asg: Seq<nat>| crate::semantics::matrix_satisfied(r, asg)
                ==> crate::semantics::matrix_satisfied(
                matrix,
                ls_revived(
                    matrix.constraints@,
                    matrix.num_public_inputs as nat,
                    self.max_terms_view() as nat,
                    asg,
                ),
            ),
    {
        let ghost cs = matrix.constraints@;
        let ghost npub = matrix.num_public_inputs as nat;
        let ghost maxt = self.max_terms as nat;
        let ghost pred = |i: int| subst_candidate(cs, i, npub, maxt);
        let ghost kpred = |i2: int| !subst_candidate(cs, i2, npub, maxt);
        let ghost nv = matrix.num_variables as nat;
        let n = matrix.constraints.len();
        // Gather the substitutions and the defining rows.
        let mut subs: Vec<(usize, LinearCombination)> = Vec::new();
        let mut defining: Vec<usize> = Vec::new();
        let mut mi: usize = 0;
        while mi < matches.len()
            invariant
                matrix.wf(),
                cs == matrix.constraints@,
                ls_matches_exact(cs, npub, maxt, matches@),
                pred == (|i: int| subst_candidate(cs, i, npub, maxt)),
                nv == matrix.num_variables as nat,
                cs.len() <= usize::MAX,
                mi <= matches@.len(),
                subs@.len() == defining@.len(),
                defining@ == indices_satisfying(cs.len(), pred).take(mi as int),
                forall|s: int| 0 <= s < subs@.len() ==> {
                    &&& (#[trigger] subs@[s]).0 == cs[defining@[s] as int].c@[0].variable
                    &&& subs@[s].1@ == expr_of(cs[defining@[s] as int])
                    &&& terms_wf(subs@[s].1@)
                    &&& terms_in_range(subs@[s].1@, nv)
                },
            decreases matches@.len() - mi,
        {
            let ghost prevdef = defining@;
            let m = &matches[mi];
            proof {
                lemma_indices_satisfying_props(cs.len(), pred);
            }
            if m.pattern_type == PatternType::LinearSubstitution {
                let def_idx = m.constraint_indices[0];
                let constraint = &matrix.constraints[def_idx];
                let expr = if constraint.a.is_one() {
                    constraint.b.duplicate()
                } else {
                    constraint.a.duplicate()
                };
                let var = constraint.c.terms[0].variable;
                subs.push((var, expr));
                defining.push(def_idx);
            }
            mi = mi + 1;
            proof {
                assert(defining@ =~= indices_satisfying(cs.len(), pred).take(mi as int));
            }
        }
        let ghost found = indices_satisfying(cs.len(), pred);
        let ghost subm = pairs_model(subs@);
        proof {
            lemma_indices_satisfying_props(cs.len(), pred);
            assert(defining@ =~= found);
            assert forall|s1: int, s2: int|
                0 <= s1 < subs@.len() && 0 <= s2 < subs@.len() && s1 != s2
                implies subs@[s1].0 != subs@[s2].0 by {
                if subs@[s1].0 == subs@[s2].0 {
                    lemma_candidate_var_unique(
                        cs,
                        npub,
                        maxt,
                        found[s1] as int,
                        found[s2] as int,
                    );
                }
            }
            lemma_pairs_model(subs@);
            let model = ls_sub_model(cs, npub, maxt);
            assert forall|v: usize| #[trigger] subm.dom().contains(v)
                implies model.dom().contains(v) && model[v] == subm[v] by {
                let s = choose|s: int| 0 <= s < subs@.len() && (#[trigger] subs@[s]).0 == v;
                let d = found[s] as int;
                assert(subst_candidate(cs, d, npub, maxt) && cs[d].c@[0].variable == v);
                let ghost w = choose|i: int|
                    subst_candidate(cs, i, npub, maxt) && #[trigger] cs[i].c@[0].variable == v;
                lemma_candidate_var_unique(cs, npub, maxt, w, d);
                assert(subm[v] == subs@[s].1@);
            }
            assert forall|v: usize| #[trigger] model.dom().contains(v)
                implies subm.dom().contains(v) by {
                let i = choose|i: int|
                    subst_candidate(cs, i, npub, maxt) && #[trigger] cs[i].c@[0].variable == v;
                assert(found.contains(i as usize));
                let s = choose|s: int| 0 <= s < found.len() && found[s] == i as usize;
                assert(subs@[s].0 == v);
            }
            assert(subm =~= model);
        }
        // Rebuild the surviving rows with the substitutions applied.
        let mut new_constraints: Vec<Constraint> = Vec::new();
        let mut i: usize = 0;
        while i < n
            invariant
                matrix.wf(),
                cs == matrix.constraints@,
                pred == (|i: int| subst_candidate(cs, i, npub, maxt)),
                kpred == (|i2: int| !subst_candidate(cs, i2, npub, maxt)),
                nv == matrix.num_variables as nat,
                n == cs.len(),
                i <= n,
                defining@ == indices_satisfying(cs.len(), pred),
                pairs_distinct(subs@),
                subm == pairs_model(subs@),
                subm == ls_sub_model(cs, npub, maxt),
                forall|s: int| 0 <= s < subs@.len() ==> terms_wf((#[trigger] subs@[s]).1@)
                    && terms_in_range(subs@[s].1@, nv),
                ({
                    let kept = indices_satisfying(i as nat, kpred);
                    &&& new_constraints@.len() == kept.len()
                    &&& forall|k: int| 0 <= k < new_constraints@.len() ==> {
                        &&& (#[trigger] new_constraints@[k]).index == k
                        &&& crate::constraint::con_wf(new_constraints@[k], nv)
                        &&& lc_map(new_constraints@[k].a@) == subst_lcmap(
                            cs[kept[k] as int].a@,
                            subm,
                        )
                        &&& lc_map(new_constraints@[k].b@) == subst_lcmap(
                            cs[kept[k] as int].b@,
                            subm,
                        )
                        &&& lc_map(new_constraints@[k].c@) == subst_lcmap(
                            cs[kept[k] as int].c@,
                            subm,
                        )
                    }
                    &&& forall|k: int, asg: Seq<nat>|
                        0 <= k < new_constraints@.len() && subs_defs_hold(subs@, asg) ==> {
                            &&& #[trigger] crate::semantics::lc_value(
                                new_constraints@[k].a@,
                                asg,
                            ) % fe_p() == crate::semantics::lc_value(cs[kept[k] as int].a@, asg)
                                % fe_p()
                            &&& crate::semantics::lc_value(new_constraints@[k].b@, asg) % fe_p()
                                == crate::semantics::lc_value(cs[kept[k] as int].b@, asg) % fe_p()
                            &&& crate::semantics::lc_value(new_constraints@[k].c@, asg) % fe_p()
                                == crate::semantics::lc_value(cs[kept[k] as int].c@, asg) % fe_p()
                        }
                }),
            decreases n - i,
        {
            let is_defining = contains_usize(&defining, i);
            proof {
                lemma_indices_satisfying_props(cs.len(), pred);
                if !is_defining && pred(i as int) {
                    assert(defining@.contains(i as usize));
                }
                if is_defining {
                    let p = choose|p: int|
                        0 <= p < defining@.len() && defining@[p] == i as usize;
                    assert(pred(i as int));
                }
            }
            if !is_defining {
                let c = &matrix.constraints[i];
                let new_idx = new_constraints.len();
                let new_a = apply_substitutions(&c.a, &subs, Ghost(nv));
                let new_b = apply_substitutions(&c.b, &subs, Ghost(nv));
                let new_c = apply_substitutions(&c.c, &subs, Ghost(nv));
                new_constraints.push(
                    Constraint { index: new_idx, a: new_a, b: new_b, c: new_c },
                );
            }
            i = i + 1;
        }
        proof {
            assert(indices_satisfying(n as nat, kpred) == ls_kept(cs, npub, maxt));
        }
        let r = ConstraintMatrix {
            constraints: new_constraints,
            num_public_inputs: matrix.num_public_inputs,
            num_private_witnesses: matrix.num_private_witnesses,
            num_variables: matrix.num_variables,
        };
        proof {
            let keptfull = indices_satisfying(n as nat, kpred);
            lemma_indices_satisfying_props(cs.len(), kpred);
            assert forall|asg: Seq<nat>| crate::semantics::matrix_satisfied(matrix, asg)
                implies crate::semantics::matrix_satisfied(r, asg) by {
                let p = fe_p() as int;
                // Every gathered definition holds under a satisfying
                // assignment: the defining row forces it.
                assert forall|s2: int| 0 <= s2 < subs@.len() implies asg[(#[trigger] subs@[s2]).0
                    as int] % fe_p() == crate::semantics::lc_value(subs@[s2].1@, asg)
                    % fe_p() by {
                    lemma_indices_satisfying_props(cs.len(), pred);
                    let d = found[s2] as int;
                    assert(crate::semantics::con_satisfied(cs[d], asg));
                    let v = subs@[s2].0;
                    let va = crate::semantics::lc_value(cs[d].a@, asg);
                    let vb = crate::semantics::lc_value(cs[d].b@, asg);
                    let vc = crate::semantics::lc_value(cs[d].c@, asg);
                    assert(cs[d].c@.len() == 1 && cs[d].c@[0].coefficient.val() == 1
                        && cs[d].c@[0].variable == v);
                    assert(crate::semantics::lc_value(cs[d].c@.drop_last(), asg) == 0);
                    assert(cs[d].c@.last() == cs[d].c@[0]);
                    assert(vc == 1 * asg[v as int]);
                    assert(asg[0] == 1);
                    if lc_is_one(cs[d].a@) {
                        assert(crate::semantics::lc_value(cs[d].a@.drop_last(), asg) == 0);
                        assert(cs[d].a@.last() == cs[d].a@[0]);
                        assert(va == 1 * asg[0]);
                        assert(va * vb == vb) by (nonlinear_arith)
                            requires
                                va == 1,
                        ;
                        assert(subs@[s2].1@ == cs[d].b@);
                    } else {
                        assert(lc_is_one(cs[d].b@));
                        assert(crate::semantics::lc_value(cs[d].b@.drop_last(), asg) == 0);
                        assert(cs[d].b@.last() == cs[d].b@[0]);
                        assert(vb == 1 * asg[0]);
                        assert(va * vb == va) by (nonlinear_arith)
                            requires
                                vb == 1,
                        ;
                        assert(subs@[s2].1@ == cs[d].a@);
                    }
                }
                assert(subs_defs_hold(subs@, asg));
                assert forall|k: int| 0 <= k < r.constraints@.len()
                    implies crate::semantics::con_satisfied(#[trigger] r.constraints@[k], asg) by {
                    let i2 = keptfull[k] as int;
                    assert(crate::semantics::con_satisfied(cs[i2], asg));
                    let va = crate::semantics::lc_value(cs[i2].a@, asg) as int;
                    let vb = crate::semantics::lc_value(cs[i2].b@, asg) as int;
                    let vc = crate::semantics::lc_value(cs[i2].c@, asg) as int;
                    let wa = crate::semantics::lc_value(r.constraints@[k].a@, asg) as int;
                    let wb = crate::semantics::lc_value(r.constraints@[k].b@, asg) as int;
                    let wc = crate::semantics::lc_value(r.constraints@[k].c@, asg) as int;
                    assert(wa % p == va % p && wb % p == vb % p && wc % p == vc % p);
                    vstd::arithmetic::div_mod::lemma_mul_mod_noop_general(va, vb, p);
                    vstd::arithmetic::div_mod::lemma_mul_mod_noop_general(wa, wb, p);
                    assert((wa * wb) % p == (va * vb) % p);
                }
                assert(crate::semantics::matrix_satisfied(r, asg));
            }
            // The converse: an assignment of the reduced system, extended
            // by giving each substituted variable its expression's value,
            // satisfies the input system.
            lemma_model_hygiene(cs, npub, maxt);
            lemma_substituted_in_model(cs, npub, maxt);
            lemma_zero_unsubstituted(cs, npub, maxt);
            assert forall|asg: Seq<nat>| crate::semantics::matrix_satisfied(r, asg)
                implies crate::semantics::matrix_satisfied(
                matrix,
                ls_revived(cs, npub, maxt, asg),
            ) by {
                let p = fe_p() as int;
                let asg2 = ls_revived(cs, npub, maxt, asg);
                assert(asg.len() == nv && asg.len() > 0 && asg[0] == 1);
                assert(asg2.len() == asg.len() && asg2[0] == asg[0]);
                assert(forall|j: int| 0 <= j < asg2.len() ==> #[trigger] asg2[j] < fe_p());
                // The gathered definitions hold under the extension: each
                // substituted slot carries exactly its expression's value,
                // and the expression reads only untouched slots.
                assert forall|s2: int| 0 <= s2 < subs@.len() implies asg2[(#[trigger] subs@[s2]).0
                    as int] % fe_p() == crate::semantics::lc_value(subs@[s2].1@, asg2)
                    % fe_p() by {
                    lemma_indices_satisfying_props(cs.len(), pred);
                    let d = found[s2] as int;
                    let v = subs@[s2].0;
                    assert(subst_candidate(cs, d, npub, maxt) && cs[d].c@[0].variable == v);
                    assert(is_substituted_var(cs, npub, maxt, v as int));
                    let ic = choose|i3: int|
                        #[trigger] subst_candidate(cs, i3, npub, maxt) && cs[i3].c@[0].variable
                            as int == v as int;
                    lemma_candidate_var_unique(cs, npub, maxt, ic, d);
                    assert((v as int) < asg2.len());
                    assert(asg2[v as int] == crate::semantics::lc_value(expr_of(cs[d]), asg)
                        % fe_p());
                    assert(subs@[s2].1@ == expr_of(cs[d]));
                    lemma_expr_unsubstituted(cs, npub, maxt, d);
                    lemma_value_unchanged_when_unsubstituted(subs@[s2].1@, cs, npub, maxt, asg);
                    vstd::arithmetic::div_mod::lemma_small_mod(
                        crate::semantics::lc_value(expr_of(cs[d]), asg) % fe_p(),
                        fe_p(),
                    );
                }
                assert(subs_defs_hold(subs@, asg2));
                // Each input row: a defining row is satisfied because its
                // variable was set to its expression's value; a kept row
                // keeps its rewritten twin's values.
                assert forall|i2: int| 0 <= i2 < cs.len()
                    implies crate::semantics::con_satisfied(#[trigger] cs[i2], asg2) by {
                    lemma_indices_satisfying_props(cs.len(), pred);
                    lemma_indices_satisfying_props(cs.len(), kpred);
                    let va = crate::semantics::lc_value(cs[i2].a@, asg2) as int;
                    let vb = crate::semantics::lc_value(cs[i2].b@, asg2) as int;
                    let vc = crate::semantics::lc_value(cs[i2].c@, asg2) as int;
                    if pred(i2) {
                        let v = cs[i2].c@[0].variable;
                        assert(is_substituted_var(cs, npub, maxt, v as int));
                        let ic = choose|i3: int|
                            #[trigger] subst_candidate(cs, i3, npub, maxt) && cs[i3].c@[0].variable
                                as int == v as int;
                        lemma_candidate_var_unique(cs, npub, maxt, ic, i2);
                        assert((v as int) < asg2.len());
                        let e = expr_of(cs[i2]);
                        assert(asg2[v as int] == crate::semantics::lc_value(e, asg) % fe_p());
                        lemma_expr_unsubstituted(cs, npub, maxt, i2);
                        lemma_value_unchanged_when_unsubstituted(e, cs, npub, maxt, asg);
                        let ev = crate::semantics::lc_value(e, asg2) as int;
                        assert(ev == crate::semantics::lc_value(e, asg));
                        assert(crate::semantics::lc_value(cs[i2].c@.drop_last(), asg2) == 0);
                        assert(cs[i2].c@.last() == cs[i2].c@[0]);
                        assert(vc == 1 * asg2[v as int]);
                        vstd::arithmetic::div_mod::lemma_small_mod(
                            crate::semantics::lc_value(e, asg) % fe_p(),
                            fe_p(),
                        );
                        if lc_is_one(cs[i2].a@) {
                            assert(crate::semantics::lc_value(cs[i2].a@.drop_last(), asg2) == 0);
                            assert(cs[i2].a@.last() == cs[i2].a@[0]);
                            assert(va == 1 * asg2[0]);
                            assert(va * vb == vb) by (nonlinear_arith)
                                requires
                                    va == 1,
                            ;
                            assert(e == cs[i2].b@);
                        } else {
                            assert(lc_is_one(cs[i2].b@));
                            assert(crate::semantics::lc_value(cs[i2].b@.drop_last(), asg2) == 0);
                            assert(cs[i2].b@.last() == cs[i2].b@[0]);
                            assert(vb == 1 * asg2[0]);
                            assert(va * vb == va) by (nonlinear_arith)
                                requires
                                    vb == 1,
                            ;
                            assert(e == cs[i2].a@);
                        }
                    } else {
                        assert(kpred(i2));
                        assert(keptfull.contains(i2 as usize));
                        let k = choose|k: int| 0 <= k < keptfull.len() && keptfull[k] == i2
                            as usize;
                        assert(crate::semantics::con_satisfied(r.constraints@[k], asg));
                        let wa2 = crate::semantics::lc_value(r.constraints@[k].a@, asg2) as int;
                        let wb2 = crate::semantics::lc_value(r.constraints@[k].b@, asg2) as int;
                        let wc2 = crate::semantics::lc_value(r.constraints@[k].c@, asg2) as int;
                        assert(wa2 % p == va % p && wb2 % p == vb % p && wc2 % p == vc % p);
                        // The rewritten row reads no substituted slot, so
                        // its values are unchanged by the extension.
                        assert forall|side: Seq<Term>| side == r.constraints@[k].a@ || side
                            == r.constraints@[k].b@ || side == r.constraints@[k].c@
                            implies crate::semantics::lc_value(side, asg2)
                            == crate::semantics::lc_value(side, asg) by {
                            let ghost si = if side == r.constraints@[k].a@ {
                                cs[i2].a@
                            } else if side == r.constraints@[k].b@ {
                                cs[i2].b@
                            } else {
                                cs[i2].c@
                            };
                            assert(lc_map(side) == subst_lcmap(si, subm));
                            lemma_subst_lcmap_dom(si, subm);
                            lemma_lc_map_dom(side);
                            assert forall|k2: int| 0 <= k2 < side.len()
                                implies ((#[trigger] side[k2]).coefficient.val() == 0
                                || side[k2].variable == 0 || !is_substituted_var(
                                cs,
                                npub,
                                maxt,
                                side[k2].variable as int,
                            )) by {
                                let w = side[k2].variable;
                                if side[k2].coefficient.val() != 0 && w != 0 {
                                    assert(lc_map(side).dom().contains(w));
                                    assert(!subm.dom().contains(w));
                                    assert(!is_substituted_var(cs, npub, maxt, w as int));
                                }
                            }
                            lemma_value_unchanged_when_unsubstituted(side, cs, npub, maxt, asg);
                        }
                        assert(wa2 == crate::semantics::lc_value(r.constraints@[k].a@, asg));
                        assert(wb2 == crate::semantics::lc_value(r.constraints@[k].b@, asg));
                        assert(wc2 == crate::semantics::lc_value(r.constraints@[k].c@, asg));
                        vstd::arithmetic::div_mod::lemma_mul_mod_noop_general(va, vb, p);
                        vstd::arithmetic::div_mod::lemma_mul_mod_noop_general(wa2, wb2, p);
                        assert((va * vb) % p == (wa2 * wb2) % p);
                    }
                }
                assert(crate::semantics::valid_assignment(asg2, matrix.num_variables as nat));
                assert(crate::semantics::matrix_satisfied(matrix, asg2));
            }
        }
        r
    }

    /// Scan, apply, and report in one step.
    pub fn optimize(&self, matrix: ConstraintMatrix) -> (res: (ConstraintMatrix, ReductionReport))
        requires
            matrix.wf(),
        ensures
            res.0.wf(),
            res.0.num_public_inputs == matrix.num_public_inputs,
            res.0.num_private_witnesses == matrix.num_private_witnesses,
            res.0.num_variables == matrix.num_variables,
            res.0.constraints@.len() == ls_kept(
                matrix.constraints@,
                matrix.num_public_inputs as nat,
                self.max_terms_view() as nat,
            ).len(),
            res.0.constraints@.len() <= matrix.constraints@.len(),
            forall|k: int| 0 <= k < res.0.constraints@.len() ==> {
                let i = ls_kept(
                    matrix.constraints@,
                    matrix.num_public_inputs as nat,
                    self.max_terms_view() as nat,
                )[k] as int;
                let sub = ls_sub_model(
                    matrix.constraints@,
                    matrix.num_public_inputs as nat,
                    self.max_terms_view() as nat,
                );
                &&& (#[trigger] res.0.constraints@[k]).index == k
                &&& lc_map(res.0.constraints@[k].a@) == subst_lcmap(
                    matrix.constraints@[i].a@,
                    sub,
                )
                &&& lc_map(res.0.constraints@[k].b@) == subst_lcmap(
                    matrix.constraints@[i].b@,
                    sub,
                )
                &&& lc_map(res.0.constraints@[k].c@) == subst_lcmap(
                    matrix.constraints@[i].c@,
                    sub,
                )
            },
            forall|asg: Seq<nat>| crate::semantics::matrix_satisfied(matrix, asg)
                ==> crate::semantics::matrix_satisfied(res.0, asg),
            forall|asg: Seq<nat>| crate::semantics::matrix_satisfied(res.0, asg)
                ==> crate::semantics::matrix_satisfied(
                matrix,
                ls_revived(
                    matrix.constraints@,
                    matrix.num_public_inputs as nat,
                    self.max_terms_view() as nat,
                    asg,
                ),
            ),
    {
        let matches = self.scan(&matrix);
        let report = self.report(&matches);
        let n = matrix.num_constraints();
        proof {
            lemma_indices_satisfying_props(
                matrix.constraints@.len(),
                |i: int| !subst_candidate(
                    matrix.constraints@,
                    i,
                    matrix.num_public_inputs as nat,
                    self.max_terms_view() as nat,
                ),
            );
        }
        let reduced = self.reduce(matrix, &matches);
        (reduced, report)
    }

    /// Summarize the findings: their count, the rows they list, and the
    /// total estimated saving, clamped to the machine word.
    pub fn report(&self, matches: &Vec<PatternMatch>) -> (r: ReductionReport)
        ensures
            r.patterns_found == matches@.len(),
            r.reducible_constraints == matches@.len(),
            r.estimated_savings == clamp_usize(total_estimated(matches@)),
    {
        let mut report = ReductionReport::new("Linear Substitution");
        report.patterns_found = matches.len();
        report.reducible_constraints = matches.len();
        let mut mi: usize = 0;
        while mi < matches.len()
            invariant
                mi <= matches@.len(),
                report.patterns_found == matches@.len(),
                report.reducible_constraints == matches@.len(),
                report.estimated_savings == clamp_usize(
                    total_estimated(matches@.take(mi as int)),
                ),
            decreases matches@.len() - mi,
        {
            proof {
                assert(matches@.take(mi + 1).drop_last() =~= matches@.take(mi as int));
                assert(matches@.take(mi + 1).last() == matches@[mi as int]);
            }
            let m = &matches[mi];
            if report.estimated_savings <= usize::MAX - m.estimated_reduction {
                report.estimated_savings = report.estimated_savings + m.estimated_reduction;
            } else {
                report.estimated_savings = usize::MAX;
            }
            mi = mi + 1;
        }
        proof {
            assert(matches@.take(matches@.len() as int) =~= matches@);
        }
        report
    }
}

} // verus!
