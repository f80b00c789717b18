//! Normalized R1CS constraint representation.
//!
//! A constraint row is three sparse linear combinations `(A, B, C)` over a
//! shared variable space, standing for the equation `<A,v> * <B,v> = <C,v>`.
//! Variable index `0` is reserved for the constant `1`; the public inputs
//! follow it, and the private witnesses come last.

use vstd::prelude::*;

use crate::field::{lemma_fe_val_injective, Fe};

verus! {

/// One term of a linear combination: `coefficient * variable`.
#[derive(Clone, Copy, Debug, PartialEq, Eq, Structural)]
pub struct Term {
    /// Variable index; `0` is the constant `1`.
    pub variable: usize,
    /// Scalar coefficient.
    pub coefficient: Fe,
}

impl Term {
    pub fn new(variable: usize, coefficient: Fe) -> (r: Self)
        ensures
            r == (Term { variable, coefficient }),
    {
        Term { variable, coefficient }
    }

    /// Whether this is the constant term (variable index `0`).
    pub fn is_constant(&self) -> (r: bool)
        ensures
            r == (self.variable == 0),
    {
        self.variable == 0
    }
}

/// Number of terms with a non-zero coefficient.
pub open spec fn num_nonzero(s: Seq<Term>) -> nat
    decreases s.len(),
{
    if s.len() == 0 {
        0
    } else {
        num_nonzero(s.drop_last()) + if s.last().coefficient.val() != 0 {
            1nat
        } else {
            0nat
        }
    }
}

/// The variable indices of the non-constant, non-zero terms, in term order.
pub open spec fn vars_of(s: Seq<Term>) -> Seq<usize>
    decreases s.len(),
{
    if s.len() == 0 {
        Seq::empty()
    } else {
        vars_of(s.drop_last()) + if s.last().variable != 0 && s.last().coefficient.val() != 0 {
            seq![s.last().variable]
        } else {
            Seq::empty()
        }
    }
}

/// Every term's coefficient is canonical.
pub open spec fn terms_wf(s: Seq<Term>) -> bool {
    forall|i: int| 0 <= i < s.len() ==> (#[trigger] s[i]).coefficient.wf()
}

/// No variable index occurs in two terms.
pub open spec fn terms_distinct(s: Seq<Term>) -> bool {
    forall|i: int, j: int| 0 <= i < s.len() && 0 <= j < s.len() && i != j
        ==> s[i].variable != s[j].variable
}

/// Every term's variable index is below `n`.
pub open spec fn terms_in_range(s: Seq<Term>, n: nat) -> bool {
    forall|i: int| 0 <= i < s.len() ==> (#[trigger] s[i]).variable < n
}

/// Wrapping 64-bit addition, as the hash mixers use it.
pub open spec fn wadd(a: u64, b: u64) -> u64 {
    if a + b > u64::MAX {
        (a + b - 0x10000000000000000) as u64
    } else {
        (a + b) as u64
    }
}

/// Wrapping 64-bit multiplication, as the hash mixers use it.
pub open spec fn wmul(a: u64, b: u64) -> u64 {
    ((a as nat * b as nat) % 0x10000000000000000) as u64
}

/// Scramble one 64-bit value for hashing.
pub open spec fn mix64(x: u64) -> u64 {
    let y = wmul(x ^ 0x9e3779b97f4a7c15, 0xbf58476d1ce4e5b9);
    y ^ (y >> 31)
}

/// Order-insensitive structural hash of a term sequence: combines the
/// scrambled variable indices of the non-zero terms, so that term order
/// does not matter.
pub open spec fn structural_hash_spec(s: Seq<Term>) -> u64
    decreases s.len(),
{
    if s.len() == 0 {
        0x51_7c_c1_b7_27_22_0a_95
    } else {
        let rest = structural_hash_spec(s.drop_last());
        if s.last().coefficient.val() != 0 {
            wadd(rest, mix64(s.last().variable as u64))
        } else {
            rest
        }
    }
}

/// Hash of one term's variable index together with its coefficient limbs.
pub open spec fn term_hash_spec(t: Term) -> u64 {
    wadd(
        mix64(t.variable as u64),
        wadd(
            wadd(mix64(t.coefficient.l0), wmul(mix64(t.coefficient.l1), 3)),
            wadd(wmul(mix64(t.coefficient.l2), 5), wmul(mix64(t.coefficient.l3), 7)),
        ),
    )
}

/// Order-insensitive full hash of a term sequence: combines variable
/// indices and coefficients of the non-zero terms.
pub open spec fn full_hash_spec(s: Seq<Term>) -> u64
    decreases s.len(),
{
    if s.len() == 0 {
        0x6a_09_e6_67_f3_bc_c9_08
    } else {
        let rest = full_hash_spec(s.drop_last());
        if s.last().coefficient.val() != 0 {
            wadd(rest, wmul(term_hash_spec(s.last()), 0x100000001b3))
        } else {
            rest
        }
    }
}

/// Scramble one 64-bit value for hashing.
fn mix64_exec(x: u64) -> (r: u64)
    ensures
        r == mix64(x),
{
    let y: u64 = (x ^ 0x9e3779b97f4a7c15u64).wrapping_mul(0xbf58476d1ce4e5b9u64);
    y ^ (y >> 31u64)
}

/// A sparse linear combination: a sum of terms over the variable space.
/// Zero-coefficient terms are tolerated and ignored.
#[derive(Clone, Debug)]
pub struct LinearCombination {
    pub terms: Vec<Term>,
}

impl View for LinearCombination {
    type V = Seq<Term>;

    open spec fn view(&self) -> Seq<Term> {
        self.terms@
    }
}

impl LinearCombination {
    pub fn new(terms: Vec<Term>) -> (r: Self)
        ensures
            r@ == terms@,
    {
        LinearCombination { terms }
    }

    pub fn empty() -> (r: Self)
        ensures
            r@ == Seq::<Term>::empty(),
    {
        LinearCombination { terms: Vec::new() }
    }

    /// A verified copy of this combination.
    pub fn duplicate(&self) -> (r: Self)
        ensures
            r@ == self@,
    {
        let mut terms: Vec<Term> = Vec::new();
        let mut k: usize = 0;
        while k < self.terms.len()
            invariant
                k <= self@.len(),
                terms@ == self@.take(k as int),
            decreases self@.len() - k,
        {
            terms.push(self.terms[k]);
            proof {
                assert(terms@ =~= self@.take(k + 1));
            }
            k = k + 1;
        }
        proof {
            assert(self@.take(self@.len() as int) =~= self@);
        }
        LinearCombination { terms }
    }

    /// Whether only the constant variable occurs (an empty combination is
    /// constant too).
    pub fn is_constant(&self) -> (r: bool)
        ensures
            r <==> lc_constant(self@),
    {
        let mut k: usize = 0;
        while k < self.terms.len()
            invariant
                k <= self@.len(),
                forall|i: int| 0 <= i < k ==> (#[trigger] self@[i]).variable == 0,
            decreases self@.len() - k,
        {
            if self.terms[k].variable != 0 {
                return false;
            }
            k = k + 1;
        }
        true
    }

    /// Whether this is one single non-constant term.
    pub fn is_single_variable(&self) -> (r: bool)
        ensures
            r <==> (self@.len() == 1 && self@[0].variable != 0),
    {
        self.terms.len() == 1 && self.terms[0].variable != 0
    }

    /// Whether this is exactly the constant `1`.
    pub fn is_one(&self) -> (r: bool)
        ensures
            r <==> lc_is_one(self@),
    {
        if self.terms.len() == 1 {
            let t = self.terms[0];
            if t.variable == 0 {
                let one = Fe::one();
                let eq = t.coefficient == one;
                proof {
                    if t.coefficient.val() == 1 {
                        lemma_fe_val_injective(t.coefficient, one);
                    }
                }
                eq
            } else {
                false
            }
        } else {
            false
        }
    }

    /// Whether the combination is zero: no terms, or only zero
    /// coefficients.
    pub fn is_zero(&self) -> (r: bool)
        ensures
            r <==> forall|i: int| 0 <= i < self@.len()
                ==> (#[trigger] self@[i]).coefficient.val() == 0,
    {
        let mut k: usize = 0;
        while k < self.terms.len()
            invariant
                k <= self@.len(),
                forall|i: int| 0 <= i < k ==> (#[trigger] self@[i]).coefficient.val() == 0,
            decreases self@.len() - k,
        {
            if !self.terms[k].coefficient.is_zero() {
                return false;
            }
            k = k + 1;
        }
        true
    }

    /// Number of terms with a non-zero coefficient.
    pub fn num_terms(&self) -> (r: usize)
        ensures
            r == num_nonzero(self@),
    {
        let mut count: usize = 0;
        let mut k: usize = 0;
        while k < self.terms.len()
            invariant
                k <= self@.len(),
                count == num_nonzero(self@.take(k as int)),
                count <= k,
            decreases self@.len() - k,
        {
            proof {
                assert(self@.take(k + 1).drop_last() =~= self@.take(k as int));
                assert(self@.take(k + 1).last() == self@[k as int]);
            }
            if !self.terms[k].coefficient.is_zero() {
                count = count + 1;
            }
            k = k + 1;
        }
        proof {
            assert(self@.take(self@.len() as int) =~= self@);
        }
        count
    }

    /// The variable indices of the non-constant, non-zero terms, in term
    /// order.
    pub fn variables(&self) -> (r: Vec<usize>)
        ensures
            r@ == vars_of(self@),
    {
        let mut out: Vec<usize> = Vec::new();
        let mut k: usize = 0;
        while k < self.terms.len()
            invariant
                k <= self@.len(),
                out@ == vars_of(self@.take(k as int)),
            decreases self@.len() - k,
        {
            proof {
                assert(self@.take(k + 1).drop_last() =~= self@.take(k as int));
                assert(self@.take(k + 1).last() == self@[k as int]);
            }
            let t = self.terms[k];
            if t.variable != 0 && !t.coefficient.is_zero() {
                out.push(t.variable);
                proof {
                    assert(out@ =~= vars_of(self@.take(k + 1)));
                }
            }
            k = k + 1;
        }
        proof {
            assert(self@.take(self@.len() as int) =~= self@);
        }
        out
    }

    /// Structural hash: depends only on which variables carry a non-zero
    /// coefficient, not on the coefficients or on term order. Collides for
    /// combinations that differ only in coefficients, which is what common
    /// subexpression detection wants.
    pub fn structural_hash(&self) -> (r: u64)
        ensures
            r == structural_hash_spec(self@),
    {
        let mut acc: u64 = 0x51_7c_c1_b7_27_22_0a_95;
        let mut k: usize = 0;
        while k < self.terms.len()
            invariant
                k <= self@.len(),
                acc == structural_hash_spec(self@.take(k as int)),
            decreases self@.len() - k,
        {
            proof {
                assert(self@.take(k + 1).drop_last() =~= self@.take(k as int));
                assert(self@.take(k + 1).last() == self@[k as int]);
            }
            let t = self.terms[k];
            if !t.coefficient.is_zero() {
                acc = acc.wrapping_add(mix64_exec(t.variable as u64));
            }
            k = k + 1;
        }
        proof {
            assert(self@.take(self@.len() as int) =~= self@);
        }
        acc
    }

    /// Full hash: depends on the variables and coefficients of the
    /// non-zero terms, not on term order. Used to group candidate
    /// duplicates; equality is always confirmed term by term afterwards.
    pub fn full_hash(&self) -> (r: u64)
        ensures
            r == full_hash_spec(self@),
    {
        let mut acc: u64 = 0x6a_09_e6_67_f3_bc_c9_08;
        let mut k: usize = 0;
        while k < self.terms.len()
            invariant
                k <= self@.len(),
                acc == full_hash_spec(self@.take(k as int)),
            decreases self@.len() - k,
        {
            proof {
                assert(self@.take(k + 1).drop_last() =~= self@.take(k as int));
                assert(self@.take(k + 1).last() == self@[k as int]);
            }
            let t = self.terms[k];
            if !t.coefficient.is_zero() {
                let th: u64 = mix64_exec(t.variable as u64).wrapping_add(
                    mix64_exec(t.coefficient.l0).wrapping_add(
                        mix64_exec(t.coefficient.l1).wrapping_mul(3),
                    ).wrapping_add(
                        mix64_exec(t.coefficient.l2).wrapping_mul(5).wrapping_add(
                            mix64_exec(t.coefficient.l3).wrapping_mul(7),
                        ),
                    ),
                );
                proof {
                    assert(th == term_hash_spec(self@[k as int]));
                }
                acc = acc.wrapping_add(th.wrapping_mul(0x100000001b3));
            }
            k = k + 1;
        }
        proof {
            assert(self@.take(self@.len() as int) =~= self@);
        }
        acc
    }
}

/// Strictly ascending index sequence.
pub open spec fn sorted_strict(s: Seq<usize>) -> bool {
    forall|i: int, j: int| 0 <= i < j < s.len() ==> s[i] < s[j]
}

/// Insert `x` into a strictly sorted vector, keeping it strictly sorted
/// and deduplicated.
fn insert_unique(out: &mut Vec<usize>, x: usize)
    requires
        sorted_strict(old(out)@),
        old(out)@.len() < usize::MAX,
    ensures
        sorted_strict(final(out)@),
        forall|v: usize| final(out)@.contains(v) <==> old(out)@.contains(v) || v == x,
        final(out)@.len() <= old(out)@.len() + 1,
{
    let ghost orig = out@;
    let mut j: usize = 0;
    while j < out.len() && out[j] < x
        invariant
            out@ == orig,
            j <= out@.len(),
            forall|i: int| 0 <= i < j ==> out@[i] < x,
        decreases out@.len() - j,
    {
        j = j + 1;
    }
    if j < out.len() && out[j] == x {
        proof {
            assert(out@.contains(x));
        }
        return ;
    }
    out.insert(j, x);
    proof {
        let t = out@;
        assert forall|i: int, k: int| 0 <= i < k < t.len() implies t[i] < t[k] by {
            if k < j {
                assert(t[i] == orig[i] && t[k] == orig[k]);
            } else if i > j {
                assert(t[i] == orig[i - 1] && t[k] == orig[k - 1]);
            } else if i < j && k == j {
                assert(t[i] == orig[i]);
            } else if i < j && k > j {
                assert(t[i] == orig[i] && t[k] == orig[k - 1]);
                assert(orig[k - 1] >= x) by {
                    if k - 1 == j {
                        assert(orig[j as int] > x);
                    } else {
                        assert(orig[j as int] < orig[k - 1]);
                    }
                }
            } else if i == j && k > j {
                assert(t[k] == orig[k - 1]);
                if k - 1 > j {
                    assert(orig[j as int] < orig[k - 1]);
                }
            }
        }
        assert forall|v: usize| t.contains(v) implies orig.contains(v) || v == x by {
            let i = choose|i: int| 0 <= i < t.len() && t[i] == v;
            if i < j {
                assert(orig[i] == v);
            } else if i > j {
                assert(orig[i - 1] == v);
            }
        }
        assert forall|v: usize| orig.contains(v) || v == x implies t.contains(v) by {
            if orig.contains(v) {
                let i = choose|i: int| 0 <= i < orig.len() && orig[i] == v;
                if i < j {
                    assert(t[i] == v);
                } else {
                    assert(t[i + 1] == v);
                }
            } else {
                assert(t[j as int] == x);
            }
        }
    }
}

/// Merge a list of indices into a strictly sorted, deduplicated vector.
fn merge_vars(acc: Vec<usize>, xs: &Vec<usize>) -> (r: Vec<usize>)
    requires
        sorted_strict(acc@),
        acc@.len() + xs@.len() < usize::MAX,
    ensures
        sorted_strict(r@),
        forall|v: usize| r@.contains(v) <==> acc@.contains(v) || xs@.contains(v),
        r@.len() <= acc@.len() + xs@.len(),
{
    let mut out = acc;
    let ghost orig = out@;
    let mut k: usize = 0;
    while k < xs.len()
        invariant
            k <= xs@.len(),
            orig.len() + xs@.len() < usize::MAX,
            sorted_strict(out@),
            out@.len() <= orig.len() + k,
            forall|v: usize| out@.contains(v) <==> orig.contains(v) || xs@.take(k as int).contains(
                v,
            ),
        decreases xs@.len() - k,
    {
        let ghost prev = out@;
        let x = xs[k];
        proof {
            let t0 = xs@.take(k as int);
            assert(forall|v: usize| prev.contains(v) <==> orig.contains(v) || t0.contains(v));
        }
        insert_unique(&mut out, x);
        proof {
            let t1 = xs@.take(k + 1);
            let t0 = xs@.take(k as int);
            assert forall|v: usize| t1.contains(v) implies t0.contains(v) || v == x by {
                let i = choose|i: int| 0 <= i < t1.len() && t1[i] == v;
                if i < k {
                    assert(t0[i] == v);
                }
            }
            assert(t1[k as int] == x);
            assert(t1.contains(x));
            assert forall|v: usize| t0.contains(v) implies t1.contains(v) by {
                let i = choose|i: int| 0 <= i < t0.len() && t0[i] == v;
                assert(t1[i] == v);
            }
            assert forall|v: usize| out@.contains(v) <==> orig.contains(v) || t1.contains(v) by {
                assert(out@.contains(v) <==> prev.contains(v) || v == x);
                assert(prev.contains(v) <==> orig.contains(v) || t0.contains(v));
            }
        }
        k = k + 1;
    }
    proof {
        let tn = xs@.take(k as int);
        assert(forall|v: usize| out@.contains(v) <==> orig.contains(v) || tn.contains(v));
        assert(tn =~= xs@);
    }
    out
}

/// One R1CS row `A * B = C` with its position in the system.
#[derive(Clone, Debug)]
pub struct Constraint {
    /// Index of this constraint within its matrix.
    pub index: usize,
    /// Left factor.
    pub a: LinearCombination,
    /// Right factor.
    pub b: LinearCombination,
    /// Claimed product.
    pub c: LinearCombination,
}

/// The three term sequences of a row, without its position.
pub open spec fn row_of(c: Constraint) -> (Seq<Term>, Seq<Term>, Seq<Term>) {
    (c.a@, c.b@, c.c@)
}

/// A combination that is exactly the constant `1`.
pub open spec fn lc_is_one(s: Seq<Term>) -> bool {
    s.len() == 1 && s[0].variable == 0 && s[0].coefficient.val() == 1
}

/// A combination over the constant variable alone.
pub open spec fn lc_constant(s: Seq<Term>) -> bool {
    forall|i: int| 0 <= i < s.len() ==> (#[trigger] s[i]).variable == 0
}

/// Well-formed row in a space of `n` variables: canonical coefficients,
/// no repeated variable within a combination, indices in range.
pub open spec fn con_wf(c: Constraint, n: nat) -> bool {
    &&& terms_wf(c.a@) && terms_wf(c.b@) && terms_wf(c.c@)
    &&& terms_distinct(c.a@) && terms_distinct(c.b@) && terms_distinct(c.c@)
    &&& terms_in_range(c.a@, n) && terms_in_range(c.b@, n) && terms_in_range(c.c@, n)
}

impl Constraint {
    pub fn new(index: usize, a: LinearCombination, b: LinearCombination, c: LinearCombination)
        -> (r: Self)
        ensures
            r.index == index,
            r.a@ == a@,
            r.b@ == b@,
            r.c@ == c@,
    {
        Constraint { index, a, b, c }
    }

    /// A verified copy of this row.
    pub fn duplicate(&self) -> (r: Self)
        ensures
            r.index == self.index,
            row_of(r) == row_of(*self),
    {
        Constraint {
            index: self.index,
            a: self.a.duplicate(),
            b: self.b.duplicate(),
            c: self.c.duplicate(),
        }
    }

    /// Whether one factor is the constant `1`.
    pub fn is_linear(&self) -> (r: bool)
        ensures
            r <==> (lc_is_one(self.a@) || lc_is_one(self.b@)),
    {
        self.a.is_one() || self.b.is_one()
    }

    /// Whether both factors are constants.
    pub fn is_constant(&self) -> (r: bool)
        ensures
            r <==> (lc_constant(self.a@) && lc_constant(self.b@)),
    {
        self.a.is_constant() && self.b.is_constant()
    }

    /// Whether this is the booleanity pattern `v * v = v`.
    pub fn is_boolean(&self) -> (r: bool)
        ensures
            r <==> {
                &&& self.a@.len() == 1 && self.a@[0].variable != 0
                &&& self.b@.len() == 1 && self.b@[0].variable != 0
                &&& self.c@.len() == 1 && self.c@[0].variable != 0
                &&& self.a@[0].variable == self.b@[0].variable
                &&& self.b@[0].variable == self.c@[0].variable
            },
    {
        if self.a.is_single_variable() && self.b.is_single_variable()
            && self.c.is_single_variable() {
            let a_var = self.a.terms[0].variable;
            let b_var = self.b.terms[0].variable;
            let c_var = self.c.terms[0].variable;
            a_var == b_var && b_var == c_var
        } else {
            false
        }
    }

    /// Hash of the whole row for duplicate grouping; the three sides enter
    /// with distinct weights so they cannot cancel.
    pub fn constraint_hash(&self) -> (r: u64)
        ensures
            r == wadd(
                wmul(full_hash_spec(self.a@), 31),
                wadd(wmul(full_hash_spec(self.b@), 37), wmul(full_hash_spec(self.c@), 41)),
            ),
    {
        self.a.full_hash().wrapping_mul(31).wrapping_add(
            self.b.full_hash().wrapping_mul(37).wrapping_add(self.c.full_hash().wrapping_mul(41)),
        )
    }

    /// All variables used in this row, strictly sorted and deduplicated.
    pub fn variables(&self) -> (r: Vec<usize>)
        requires
            self.a@.len() + self.b@.len() + self.c@.len() < usize::MAX,
        ensures
            sorted_strict(r@),
            forall|v: usize| r@.contains(v) <==> (vars_of(self.a@).contains(v) || vars_of(
                self.b@,
            ).contains(v) || vars_of(self.c@).contains(v)),
    {
        let va = self.a.variables();
        let vb = self.b.variables();
        let vc = self.c.variables();
        proof {
            lemma_vars_of_len(self.a@);
            lemma_vars_of_len(self.b@);
            lemma_vars_of_len(self.c@);
        }
        let empty_acc: Vec<usize> = Vec::new();
        let r1 = merge_vars(empty_acc, &va);
        let r2 = merge_vars(r1, &vb);
        let out = merge_vars(r2, &vc);
        proof {
            assert forall|v: usize| out@.contains(v) <==> (vars_of(self.a@).contains(v) || vars_of(
                self.b@,
            ).contains(v) || vars_of(self.c@).contains(v)) by {
                assert(out@.contains(v) <==> r2@.contains(v) || vc@.contains(v));
                assert(r2@.contains(v) <==> r1@.contains(v) || vb@.contains(v));
                assert(r1@.contains(v) <==> empty_acc@.contains(v) || va@.contains(v));
                assert(!empty_acc@.contains(v));
            }
        }
        out
    }

    /// Total number of non-zero terms across the three sides.
    pub fn num_terms(&self) -> (r: usize)
        requires
            self.a@.len() + self.b@.len() + self.c@.len() < usize::MAX,
        ensures
            r == num_nonzero(self.a@) + num_nonzero(self.b@) + num_nonzero(self.c@),
    {
        proof {
            lemma_num_nonzero_le(self.a@);
            lemma_num_nonzero_le(self.b@);
            lemma_num_nonzero_le(self.c@);
        }
        self.a.num_terms() + self.b.num_terms() + self.c.num_terms()
    }
}

/// A combination never lists more variables than it has terms.
pub proof fn lemma_vars_of_len(s: Seq<Term>)
    ensures
        vars_of(s).len() <= s.len(),
    decreases s.len(),
{
    if s.len() > 0 {
        lemma_vars_of_len(s.drop_last());
    }
}

/// The listed variables are exactly those of non-constant, non-zero
/// terms.
pub proof fn lemma_vars_of_contains(s: Seq<Term>, v: usize)
    ensures
        vars_of(s).contains(v) <==> exists|i: int|
            0 <= i < s.len() && (#[trigger] s[i]).variable == v && s[i].variable != 0
                && s[i].coefficient.val() != 0,
    decreases s.len(),
{
    if s.len() > 0 {
        let d = s.drop_last();
        lemma_vars_of_contains(d, v);
        let cur = vars_of(s);
        let prev = vars_of(d);
        if cur.contains(v) {
            let k = choose|k: int| 0 <= k < cur.len() && cur[k] == v;
            if k < prev.len() {
                assert(prev[k] == v);
                assert(prev.contains(v));
                let i = choose|i: int|
                    0 <= i < d.len() && (#[trigger] d[i]).variable == v && d[i].variable != 0
                        && d[i].coefficient.val() != 0;
                assert(s[i] == d[i]);
            } else {
                assert(cur[k] == s.last().variable);
                assert(s[s.len() - 1].variable == v && s[s.len() - 1].coefficient.val() != 0);
            }
        }
        if exists|i: int|
            0 <= i < s.len() && (#[trigger] s[i]).variable == v && s[i].variable != 0
                && s[i].coefficient.val() != 0 {
            let i = choose|i: int|
                0 <= i < s.len() && (#[trigger] s[i]).variable == v && s[i].variable != 0
                    && s[i].coefficient.val() != 0;
            if i < s.len() - 1 {
                assert(d[i].variable == v && d[i].variable != 0 && d[i].coefficient.val() != 0);
                assert(prev.contains(v));
                let k = choose|k: int| 0 <= k < prev.len() && prev[k] == v;
                assert(cur[k] == v);
            } else {
                assert(cur[cur.len() - 1] == v);
            }
        }
    }
}

/// A combination never counts more non-zero terms than it has terms.
pub proof fn lemma_num_nonzero_le(s: Seq<Term>)
    ensures
        num_nonzero(s) <= s.len(),
    decreases s.len(),
{
    if s.len() > 0 {
        lemma_num_nonzero_le(s.drop_last());
    }
}

/// The requested indices that fall inside a system of `len` rows, in
/// request order.
pub open spec fn keep_valid(idxs: Seq<usize>, len: nat) -> Seq<usize>
    decreases idxs.len(),
{
    if idxs.len() == 0 {
        Seq::empty()
    } else {
        keep_valid(idxs.drop_last(), len) + if idxs.last() < len {
            seq![idxs.last()]
        } else {
            Seq::empty()
        }
    }
}

/// Every index kept is one of the requested ones and inside the system.
pub proof fn lemma_keep_valid_props(idxs: Seq<usize>, len: nat)
    ensures
        keep_valid(idxs, len).len() <= idxs.len(),
        forall|k: int| 0 <= k < keep_valid(idxs, len).len()
            ==> (#[trigger] keep_valid(idxs, len)[k]) < len && idxs.contains(
                keep_valid(idxs, len)[k],
            ),
    decreases idxs.len(),
{
    if idxs.len() > 0 {
        lemma_keep_valid_props(idxs.drop_last(), len);
        let prev = keep_valid(idxs.drop_last(), len);
        assert forall|k: int| 0 <= k < keep_valid(idxs, len).len()
            implies (#[trigger] keep_valid(idxs, len)[k]) < len && idxs.contains(
                keep_valid(idxs, len)[k],
            ) by {
            if k < prev.len() {
                assert(keep_valid(idxs, len)[k] == prev[k]);
                assert(idxs.drop_last().contains(prev[k]));
                let i = choose|i: int| 0 <= i < idxs.drop_last().len() && idxs.drop_last()[i]
                    == prev[k];
                assert(idxs[i] == prev[k]);
            } else {
                assert(keep_valid(idxs, len)[k] == idxs.last());
            }
        }
    }
}

/// The indices `0..len` that are not listed in `remove`, ascending.
pub open spec fn complement(len: nat, remove: Seq<usize>) -> Seq<usize>
    decreases len,
{
    if len == 0 {
        Seq::empty()
    } else {
        complement((len - 1) as nat, remove) + if remove.contains(((len - 1) as usize)) {
            Seq::empty()
        } else {
            seq![((len - 1) as usize)]
        }
    }
}

/// The complement holds exactly the unlisted indices below `len`, in
/// ascending order.
pub proof fn lemma_complement_props(len: nat, remove: Seq<usize>)
    requires
        len <= usize::MAX,
    ensures
        forall|k: int| 0 <= k < complement(len, remove).len()
            ==> (#[trigger] complement(len, remove)[k]) < len && !remove.contains(
                complement(len, remove)[k],
            ),
        forall|v: usize| v < len && !remove.contains(v) ==> complement(len, remove).contains(v),
        sorted_strict(complement(len, remove)),
        complement(len, remove).len() <= len,
    decreases len,
{
    if len > 0 {
        let l1 = (len - 1) as nat;
        lemma_complement_props(l1, remove);
        let prev = complement(l1, remove);
        let cur = complement(len, remove);
        assert forall|k: int| 0 <= k < cur.len() implies (#[trigger] cur[k]) < len
            && !remove.contains(cur[k]) by {
            if k < prev.len() {
                assert(cur[k] == prev[k]);
            } else {
                assert(cur[k] == (l1 as usize));
            }
        }
        assert forall|v: usize| v < len && !remove.contains(v) implies cur.contains(v) by {
            if v < l1 {
                assert(prev.contains(v));
                let i = choose|i: int| 0 <= i < prev.len() && prev[i] == v;
                assert(cur[i] == v);
            } else {
                assert(v == l1 as usize);
                assert(cur[cur.len() - 1] == v);
            }
        }
        assert forall|i: int, j: int| 0 <= i < j < cur.len() implies cur[i] < cur[j] by {
            if j < prev.len() {
                assert(cur[i] == prev[i] && cur[j] == prev[j]);
            } else {
                assert(cur[i] == prev[i] && cur[j] == l1 as usize);
                assert(prev[i] < l1);
            }
        }
    }
}

/// Keeping what a complement lists changes nothing: all its entries are in
/// range.
pub proof fn lemma_keep_valid_of_complement(len: nat, remove: Seq<usize>)
    requires
        len <= usize::MAX,
    ensures
        keep_valid(complement(len, remove), len) == complement(len, remove),
{
    lemma_complement_props(len, remove);
    lemma_keep_valid_in_range(complement(len, remove), len);
}

/// Keeping indices that are all in range keeps them all.
pub proof fn lemma_keep_valid_in_range(idxs: Seq<usize>, len: nat)
    requires
        forall|k: int| 0 <= k < idxs.len() ==> (#[trigger] idxs[k]) < len,
    ensures
        keep_valid(idxs, len) == idxs,
    decreases idxs.len(),
{
    if idxs.len() > 0 {
        lemma_keep_valid_in_range(idxs.drop_last(), len);
        assert(keep_valid(idxs, len) =~= idxs);
    }
}

/// Linear membership scan.
pub(crate) fn contains_usize(v: &Vec<usize>, x: usize) -> (r: bool)
    ensures
        r <==> v@.contains(x),
{
    let mut k: usize = 0;
    while k < v.len()
        invariant
            k <= v@.len(),
            forall|i: int| 0 <= i < k ==> v@[i] != x,
        decreases v@.len() - k,
    {
        if v[k] == x {
            return true;
        }
        k = k + 1;
    }
    proof {
        if v@.contains(x) {
            let i = choose|i: int| 0 <= i < v@.len() && v@[i] == x;
            assert(v@[i] != x);
        }
    }
    false
}

/// A complete R1CS: the rows together with the shape of the variable
/// space.
#[derive(Clone, Debug)]
pub struct ConstraintMatrix {
    /// All constraint rows, densely indexed.
    pub constraints: Vec<Constraint>,
    /// Number of public-input variables, the constant `1` included.
    pub num_public_inputs: usize,
    /// Number of private witness variables.
    pub num_private_witnesses: usize,
    /// Total variables: public inputs plus private witnesses.
    pub num_variables: usize,
}

impl ConstraintMatrix {
    /// Dense row indices, consistent variable counts, well-formed rows.
    pub open spec fn wf(self) -> bool {
        &&& self.num_variables == self.num_public_inputs + self.num_private_witnesses
        &&& forall|i: int| 0 <= i < self.constraints@.len()
            ==> (#[trigger] self.constraints@[i]).index == i
        &&& forall|i: int| 0 <= i < self.constraints@.len()
            ==> con_wf(#[trigger] self.constraints@[i], self.num_variables as nat)
    }

    /// Create an empty matrix with the given variable-space dimensions.
    pub fn empty(num_public_inputs: usize, num_private_witnesses: usize) -> (r: Self)
        requires
            num_public_inputs + num_private_witnesses <= usize::MAX,
        ensures
            r.wf(),
            r.constraints@.len() == 0,
            r.num_public_inputs == num_public_inputs,
            r.num_private_witnesses == num_private_witnesses,
            r.num_variables == num_public_inputs + num_private_witnesses,
    {
        ConstraintMatrix {
            constraints: Vec::new(),
            num_public_inputs,
            num_private_witnesses,
            num_variables: num_public_inputs + num_private_witnesses,
        }
    }

    /// Append one row at the end.
    pub fn add_constraint(
        &mut self,
        a: LinearCombination,
        b: LinearCombination,
        c: LinearCombination,
    )
        requires
            old(self).constraints@.len() < usize::MAX,
        ensures
            final(self).constraints@.len() == old(self).constraints@.len() + 1,
            forall|i: int| 0 <= i < old(self).constraints@.len()
                ==> final(self).constraints@[i] == old(self).constraints@[i],
            final(self).constraints@.last().index == old(self).constraints@.len(),
            final(self).constraints@.last().a@ == a@,
            final(self).constraints@.last().b@ == b@,
            final(self).constraints@.last().c@ == c@,
            final(self).num_public_inputs == old(self).num_public_inputs,
            final(self).num_private_witnesses == old(self).num_private_witnesses,
            final(self).num_variables == old(self).num_variables,
    {
        let index = self.constraints.len();
        self.constraints.push(Constraint { index, a, b, c });
    }

    /// Number of rows.
    pub fn num_constraints(&self) -> (r: usize)
        ensures
            r == self.constraints@.len(),
    {
        self.constraints.len()
    }

    /// A new matrix holding only the rows at the requested indices, in
    /// request order, densely reindexed. Out-of-range requests are
    /// skipped; variable indices are never rewritten.
    pub fn with_constraints(&self, indices: &Vec<usize>) -> (r: Self)
        ensures
            ({
                let keep = keep_valid(indices@, self.constraints@.len());
                &&& r.constraints@.len() == keep.len()
                &&& forall|k: int| 0 <= k < keep.len() ==> {
                    &&& (#[trigger] r.constraints@[k]).index == k
                    &&& row_of(r.constraints@[k]) == row_of(self.constraints@[keep[k] as int])
                }
                &&& r.num_public_inputs == self.num_public_inputs
                &&& r.num_private_witnesses == self.num_private_witnesses
                &&& r.num_variables == self.num_variables
                &&& self.wf() ==> r.wf()
            }),
    {
        let mut new_constraints: Vec<Constraint> = Vec::new();
        let mut k: usize = 0;
        while k < indices.len()
            invariant
                k <= indices@.len(),
                ({
                    let keep = keep_valid(indices@.take(k as int), self.constraints@.len());
                    &&& new_constraints@.len() == keep.len()
                    &&& forall|j: int| 0 <= j < keep.len() ==> {
                        &&& (#[trigger] new_constraints@[j]).index == j
                        &&& row_of(new_constraints@[j]) == row_of(
                            self.constraints@[keep[j] as int],
                        )
                    }
                }),
            decreases indices@.len() - k,
        {
            proof {
                assert(indices@.take(k + 1).drop_last() =~= indices@.take(k as int));
                assert(indices@.take(k + 1).last() == indices@[k as int]);
            }
            let old_idx = indices[k];
            if old_idx < self.constraints.len() {
                let new_idx = new_constraints.len();
                let source = &self.constraints[old_idx];
                new_constraints.push(
                    Constraint {
                        index: new_idx,
                        a: source.a.duplicate(),
                        b: source.b.duplicate(),
                        c: source.c.duplicate(),
                    },
                );
            }
            k = k + 1;
        }
        proof {
            assert(indices@.take(indices@.len() as int) =~= indices@);
        }
        let r = ConstraintMatrix {
            constraints: new_constraints,
            num_public_inputs: self.num_public_inputs,
            num_private_witnesses: self.num_private_witnesses,
            num_variables: self.num_variables,
        };
        proof {
            if self.wf() {
                lemma_keep_valid_props(indices@, self.constraints@.len() as nat);
            }
        }
        r
    }

    /// A new matrix without the rows at the listed indices; the survivors
    /// keep their order and are densely reindexed.
    pub fn without_constraints(&self, indices_to_remove: &Vec<usize>) -> (r: Self)
        ensures
            ({
                let keep = complement(self.constraints@.len() as nat, indices_to_remove@);
                &&& r.constraints@.len() == keep.len()
                &&& forall|k: int| 0 <= k < keep.len() ==> {
                    &&& (#[trigger] r.constraints@[k]).index == k
                    &&& row_of(r.constraints@[k]) == row_of(self.constraints@[keep[k] as int])
                }
                &&& r.num_public_inputs == self.num_public_inputs
                &&& r.num_private_witnesses == self.num_private_witnesses
                &&& r.num_variables == self.num_variables
                &&& self.wf() ==> r.wf()
            }),
    {
        let mut keep_indices: Vec<usize> = Vec::new();
        let mut i: usize = 0;
        while i < self.constraints.len()
            invariant
                i <= self.constraints@.len(),
                keep_indices@ == complement(i as nat, indices_to_remove@),
            decreases self.constraints@.len() - i,
        {
            if !contains_usize(indices_to_remove, i) {
                keep_indices.push(i);
                proof {
                    assert(keep_indices@ =~= complement((i + 1) as nat, indices_to_remove@));
                }
            } else {
                proof {
                    assert(keep_indices@ =~= complement((i + 1) as nat, indices_to_remove@));
                }
            }
            i = i + 1;
        }
        proof {
            lemma_keep_valid_of_complement(self.constraints@.len() as nat, indices_to_remove@);
        }
        self.with_constraints(&keep_indices)
    }
}

} // verus!

verus! {

/// Whether a row reads `v` on any of its three sides.
pub open spec fn con_reads(c: Constraint, v: usize) -> bool {
    vars_of(c.a@).contains(v) || vars_of(c.b@).contains(v) || vars_of(c.c@).contains(v)
}

/// How many rows read `v`.
pub open spec fn freq_of(cs: Seq<Constraint>, v: usize) -> nat
    decreases cs.len(),
{
    if cs.len() == 0 {
        0
    } else {
        freq_of(cs.drop_last(), v) + if con_reads(cs.last(), v) {
            1nat
        } else {
            0nat
        }
    }
}

/// Total non-zero terms over all rows and sides.
pub open spec fn total_terms(cs: Seq<Constraint>) -> nat
    decreases cs.len(),
{
    if cs.len() == 0 {
        0
    } else {
        total_terms(cs.drop_last()) + num_nonzero(cs.last().a@) + num_nonzero(cs.last().b@)
            + num_nonzero(cs.last().c@)
    }
}

/// A prefix never counts more terms than the whole.
pub proof fn lemma_total_terms_prefix(cs: Seq<Constraint>, i: int)
    requires
        0 <= i <= cs.len(),
    ensures
        total_terms(cs.take(i)) <= total_terms(cs),
    decreases cs.len() - i,
{
    if i == cs.len() {
        assert(cs.take(i) =~= cs);
    } else {
        assert(cs.take(i + 1).drop_last() =~= cs.take(i));
        assert(cs.take(i + 1).last() == cs[i]);
        lemma_total_terms_prefix(cs, i + 1);
    }
}

/// Shape statistics of a constraint matrix.
#[derive(Clone, Debug)]
pub struct SparsityStats {
    /// Number of rows.
    pub total_constraints: usize,
    /// Number of variables in the space.
    pub total_variables: usize,
    /// Non-zero terms over all rows and sides.
    pub total_nonzero_terms: usize,
    /// The highest row count any variable reaches.
    pub max_variable_frequency: usize,
    /// The variables read by more than one row in twenty, ascending, each
    /// with its row count.
    pub hot_variables: Vec<(usize, usize)>,
}

impl ConstraintMatrix {
    /// Count the non-zero terms, the per-variable row frequencies, their
    /// maximum, and the variables hot enough to appear in more than one
    /// row in twenty.
    pub fn sparsity_stats(&self) -> (r: SparsityStats)
        requires
            self.wf(),
            total_terms(self.constraints@) <= usize::MAX,
        ensures
            r.total_constraints == self.constraints@.len(),
            r.total_variables == self.num_variables,
            r.total_nonzero_terms == total_terms(self.constraints@),
            forall|v: usize| (v as nat) < self.num_variables ==> freq_of(
                self.constraints@,
                v,
            ) <= r.max_variable_frequency,
            r.max_variable_frequency == 0 || exists|v: usize|
                (v as nat) < self.num_variables && freq_of(self.constraints@, v)
                    == r.max_variable_frequency,
            forall|k: int| 0 <= k < r.hot_variables@.len() ==> {
                &&& ((#[trigger] r.hot_variables@[k]).0 as nat) < self.num_variables
                &&& r.hot_variables@[k].1 == freq_of(self.constraints@, r.hot_variables@[k].0)
                &&& r.hot_variables@[k].1 > self.constraints@.len() / 20
            },
            forall|v: usize| (v as nat) < self.num_variables && freq_of(self.constraints@, v)
                > self.constraints@.len() / 20 ==> exists|k: int|
                0 <= k < r.hot_variables@.len() && (#[trigger] r.hot_variables@[k]).0 == v,
            forall|k1: int, k2: int| 0 <= k1 < k2 < r.hot_variables@.len()
                ==> r.hot_variables@[k1].0 < r.hot_variables@[k2].0,
    {
        let ghost cs = self.constraints@;
        let n = self.constraints.len();
        // Total non-zero terms.
        let mut total_nonzero: usize = 0;
        let mut i: usize = 0;
        while i < n
            invariant
                self.wf(),
                cs == self.constraints@,
                total_terms(cs) <= usize::MAX,
                n == cs.len(),
                i <= n,
                total_nonzero == total_terms(cs.take(i as int)),
            decreases n - i,
        {
            proof {
                assert(cs.take(i + 1).drop_last() =~= cs.take(i as int));
                assert(cs.take(i + 1).last() == cs[i as int]);
                lemma_total_terms_prefix(cs, i + 1);
            }
            let c = &self.constraints[i];
            let na = c.a.num_terms();
            let nb = c.b.num_terms();
            let nc = c.c.num_terms();
            total_nonzero = total_nonzero + na + nb + nc;
            i = i + 1;
        }
        proof {
            assert(cs.take(cs.len() as int) =~= cs);
        }
        // Per-variable frequencies, their maximum, and the hot list.
        let threshold = n / 20;
        let mut max_frequency: usize = 0;
        let ghost mut max_witness: usize = 0;
        let mut hot_variables: Vec<(usize, usize)> = Vec::new();
        let mut v: usize = 0;
        while v < self.num_variables
            invariant
                self.wf(),
                cs == self.constraints@,
                n == cs.len(),
                threshold == n / 20,
                v <= self.num_variables,
                forall|v2: usize| v2 < v ==> freq_of(cs, v2) <= max_frequency,
                max_frequency == 0 || ((max_witness as nat) < self.num_variables && freq_of(
                    cs,
                    max_witness,
                ) == max_frequency),
                forall|k: int| 0 <= k < hot_variables@.len() ==> {
                    &&& (#[trigger] hot_variables@[k]).0 < v
                    &&& hot_variables@[k].1 == freq_of(cs, hot_variables@[k].0)
                    &&& hot_variables@[k].1 > threshold
                },
                forall|v2: usize| v2 < v && freq_of(cs, v2) > threshold ==> exists|k: int|
                    0 <= k < hot_variables@.len() && (#[trigger] hot_variables@[k]).0 == v2,
                forall|k1: int, k2: int| 0 <= k1 < k2 < hot_variables@.len()
                    ==> hot_variables@[k1].0 < hot_variables@[k2].0,
            decreases self.num_variables - v,
        {
            let f = self.count_rows_reading(v);
            if f > max_frequency {
                max_frequency = f;
                proof {
                    max_witness = v;
                }
            }
            let ghost prevhot = hot_variables@;
            if f > threshold {
                hot_variables.push((v, f));
            }
            proof {
                assert forall|v2: usize| v2 < v + 1 && freq_of(cs, v2) > threshold
                    implies exists|k: int|
                        0 <= k < hot_variables@.len() && (#[trigger] hot_variables@[k]).0
                            == v2 by {
                    if v2 < v {
                        let k = choose|k: int|
                            0 <= k < prevhot.len() && (#[trigger] prevhot[k]).0 == v2;
                        assert(hot_variables@[k].0 == v2);
                    } else {
                        assert(hot_variables@[hot_variables@.len() - 1].0 == v2);
                    }
                }
            }
            v = v + 1;
        }
        let ghost hv = hot_variables@;
        let r = SparsityStats {
            total_constraints: n,
            total_variables: self.num_variables,
            total_nonzero_terms: total_nonzero,
            max_variable_frequency: max_frequency,
            hot_variables,
        };
        proof {
            assert(r.hot_variables@ == hv);
            assert forall|v2: usize|
                (v2 as nat) < self.num_variables && freq_of(self.constraints@, v2)
                    > self.constraints@.len() / 20 implies exists|k: int|
                0 <= k < r.hot_variables@.len() && (#[trigger] r.hot_variables@[k]).0 == v2 by {
                assert(v2 < v && freq_of(cs, v2) > n / 20);
                let k = choose|k: int| 0 <= k < hv.len() && (#[trigger] hv[k]).0 == v2;
                assert(r.hot_variables@[k].0 == v2);
            }
        }
        r
    }

    /// How many rows read `v` on any side.
    fn count_rows_reading(&self, v: usize) -> (r: usize)
        ensures
            r == freq_of(self.constraints@, v),
    {
        let ghost cs = self.constraints@;
        let mut count: usize = 0;
        let mut i: usize = 0;
        while i < self.constraints.len()
            invariant
                cs == self.constraints@,
                i <= cs.len(),
                count == freq_of(cs.take(i as int), v),
                count <= i,
            decreases cs.len() - i,
        {
            proof {
                assert(cs.take(i + 1).drop_last() =~= cs.take(i as int));
                assert(cs.take(i + 1).last() == cs[i as int]);
            }
            let c = &self.constraints[i];
            if crate::passes::dead_variable::lc_contains_var(&c.a, v)
                || crate::passes::dead_variable::lc_contains_var(&c.b, v)
                || crate::passes::dead_variable::lc_contains_var(&c.c, v) {
                count = count + 1;
            }
            i = i + 1;
        }
        proof {
            assert(cs.take(cs.len() as int) =~= cs);
        }
        count
    }
}

} // verus!
