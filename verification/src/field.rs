//! Scalar-field elements of the proving curve.
//!
//! A field element is kept as its canonical representative below the BN254
//! scalar modulus, split into four 64-bit limbs. All structural work
//! (comparisons, zero tests) is done on the limbs; the modular ring
//! operations are delegated to the curve library.

use ark_ff::PrimeField;
use vstd::prelude::*;

verus! {

/// A scalar-field element, as the four little-endian 64-bit limbs of its
/// canonical (fully reduced) representative.
#[derive(Clone, Copy, Debug, PartialEq, Eq, Structural)]
pub struct Fe {
    pub l0: u64,
    pub l1: u64,
    pub l2: u64,
    pub l3: u64,
}

/// Order of the BN254 scalar field.
pub open spec fn fe_p() -> nat {
    21888242871839275222246405745257275088548364400416034343698204186575808495617nat
}

impl Fe {
    /// The integer this element stands for.
    pub open spec fn val(self) -> nat {
        self.l0 as nat
            + self.l1 as nat * 0x10000000000000000
            + self.l2 as nat * 0x100000000000000000000000000000000
            + self.l3 as nat * 0x1000000000000000000000000000000000000000000000000
    }

    /// Canonical form: the represented integer is below the field order.
    pub open spec fn wf(self) -> bool {
        self.val() < fe_p()
    }

    /// Embed a 64-bit integer into the field.
    pub fn from_u64(x: u64) -> (r: Fe)
        ensures
            r.wf(),
            r.val() == x as nat,
    {
        Fe { l0: x, l1: 0, l2: 0, l3: 0 }
    }

    /// The additive identity.
    pub fn zero() -> (r: Fe)
        ensures
            r.wf(),
            r.val() == 0,
    {
        Fe { l0: 0, l1: 0, l2: 0, l3: 0 }
    }

    /// The multiplicative identity.
    pub fn one() -> (r: Fe)
        ensures
            r.wf(),
            r.val() == 1,
    {
        Fe { l0: 1, l1: 0, l2: 0, l3: 0 }
    }

    /// The limbs as an array, low first.
    pub fn limbs(&self) -> (r: [u64; 4])
        ensures
            r[0] == self.l0 && r[1] == self.l1 && r[2] == self.l2 && r[3] == self.l3,
    {
        [self.l0, self.l1, self.l2, self.l3]
    }

    /// Assemble an element from its limbs, low first.
    pub fn from_limbs(l: [u64; 4]) -> (r: Fe)
        ensures
            r == (Fe { l0: l[0], l1: l[1], l2: l[2], l3: l[3] }),
    {
        Fe { l0: l[0], l1: l[1], l2: l[2], l3: l[3] }
    }

    /// Zero test, decided on the limbs.
    pub fn is_zero(&self) -> (r: bool)
        ensures
            r <==> self.val() == 0,
    {
        self.l0 == 0 && self.l1 == 0 && self.l2 == 0 && self.l3 == 0
    }
}

/// Two canonical elements are equal exactly when their limbs agree: the
/// base-2^64 digits of an integer are unique.
pub proof fn lemma_fe_val_injective(a: Fe, b: Fe)
    requires
        a.val() == b.val(),
    ensures
        a == b,
{
    let m: nat = 0x10000000000000000;
    assert(a.l0 == b.l0 && a.l1 == b.l1 && a.l2 == b.l2 && a.l3 == b.l3) by {
        let av = a.val();
        let bv = b.val();
        assert(av % m == a.l0 as nat && av / m % m == a.l1 as nat
            && av / m / m % m == a.l2 as nat && av / m / m / m == a.l3 as nat) by {
            lemma_limb_decompose(a);
        }
        assert(bv % m == b.l0 as nat && bv / m % m == b.l1 as nat
            && bv / m / m % m == b.l2 as nat && bv / m / m / m == b.l3 as nat) by {
            lemma_limb_decompose(b);
        }
    }
}

/// Each limb of an element is the matching base-2^64 digit of its value.
proof fn lemma_limb_decompose(a: Fe)
    ensures
        a.val() % 0x10000000000000000 == a.l0 as nat,
        a.val() / 0x10000000000000000 % 0x10000000000000000 == a.l1 as nat,
        a.val() / 0x10000000000000000 / 0x10000000000000000 % 0x10000000000000000
            == a.l2 as nat,
        a.val() / 0x10000000000000000 / 0x10000000000000000 / 0x10000000000000000
            == a.l3 as nat,
{
    let m: int = 0x10000000000000000;
    let v: int = a.val() as int;
    let r1: int = a.l1 as int + a.l2 as int * m + a.l3 as int * m * m;
    assert(v == a.l0 + m * r1) by (nonlinear_arith)
        requires
            v == a.l0 as nat + a.l1 as nat * 0x10000000000000000
                + a.l2 as nat * 0x100000000000000000000000000000000
                + a.l3 as nat * 0x1000000000000000000000000000000000000000000000000,
            r1 == a.l1 as int + a.l2 as int * m + a.l3 as int * m * m,
            m == 0x10000000000000000,
    ;
    lemma_digit_split(v, a.l0 as int, r1);
    let r2: int = a.l2 as int + a.l3 as int * m;
    assert(r1 == a.l1 + m * r2) by (nonlinear_arith)
        requires
            r1 == a.l1 as int + a.l2 as int * m + a.l3 as int * m * m,
            r2 == a.l2 as int + a.l3 as int * m,
            m == 0x10000000000000000,
    ;
    lemma_digit_split(r1, a.l1 as int, r2);
    assert(r2 == a.l3 as int * m + a.l2 as int);
    lemma_digit_split(r2, a.l2 as int, a.l3 as int);
    lemma_small_div_exact(a.l3 as int);
}

/// If `v == d + 0x10000000000000000 * q` with `0 <= d < 2^64`, then `d` is
/// `v`'s low digit and `q` the remaining digits.
proof fn lemma_digit_split(v: int, d: int, q: int)
    requires
        0 <= d < 0x10000000000000000,
        0 <= q,
        v == d + 0x10000000000000000 * q,
    ensures
        v % 0x10000000000000000 == d,
        v / 0x10000000000000000 == q,
{
    let m: int = 0x10000000000000000;
    vstd::arithmetic::div_mod::lemma_fundamental_div_mod_converse(v, m, q, d);
}

/// A value below 2^64 has no higher digits.
proof fn lemma_small_div_exact(d: int)
    requires
        0 <= d < 0x10000000000000000,
    ensures
        d % 0x10000000000000000 == d,
        d / 0x10000000000000000 == 0,
{
    lemma_digit_split(d, d, 0);
}

/// Relies on `ark_ff` addition on `ark_bn254::Fr`: the sum of two canonical
/// representatives, reduced modulo the field order, read back through
/// `PrimeField::into_bigint` as canonical limbs.
#[verifier::external_body]
pub fn fe_add(a: &Fe, b: &Fe) -> (r: Fe)
    requires
        a.wf(),
        b.wf(),
    ensures
        r.wf(),
        r.val() == (a.val() + b.val()) % fe_p(),
{
    let x = ark_bn254::Fr::from_bigint(ark_ff::BigInt::new([a.l0, a.l1, a.l2, a.l3])).unwrap();
    let y = ark_bn254::Fr::from_bigint(ark_ff::BigInt::new([b.l0, b.l1, b.l2, b.l3])).unwrap();
    let s = PrimeField::into_bigint(x + y).0;
    Fe { l0: s[0], l1: s[1], l2: s[2], l3: s[3] }
}

/// Relies on `ark_ff` subtraction on `ark_bn254::Fr`: the modular
/// difference of two canonical representatives, read back through
/// `PrimeField::into_bigint` as canonical limbs.
#[verifier::external_body]
pub fn fe_sub(a: &Fe, b: &Fe) -> (r: Fe)
    requires
        a.wf(),
        b.wf(),
    ensures
        r.wf(),
        r.val() == ((a.val() + fe_p() - b.val()) as int % fe_p() as int) as nat,
{
    let x = ark_bn254::Fr::from_bigint(ark_ff::BigInt::new([a.l0, a.l1, a.l2, a.l3])).unwrap();
    let y = ark_bn254::Fr::from_bigint(ark_ff::BigInt::new([b.l0, b.l1, b.l2, b.l3])).unwrap();
    let s = PrimeField::into_bigint(x - y).0;
    Fe { l0: s[0], l1: s[1], l2: s[2], l3: s[3] }
}

/// Relies on `ark_ff` multiplication on `ark_bn254::Fr`: the product of two
/// canonical representatives, reduced modulo the field order, read back
/// through `PrimeField::into_bigint` as canonical limbs.
#[verifier::external_body]
pub fn fe_mul(a: &Fe, b: &Fe) -> (r: Fe)
    requires
        a.wf(),
        b.wf(),
    ensures
        r.wf(),
        r.val() == (a.val() * b.val()) % fe_p(),
{
    let x = ark_bn254::Fr::from_bigint(ark_ff::BigInt::new([a.l0, a.l1, a.l2, a.l3])).unwrap();
    let y = ark_bn254::Fr::from_bigint(ark_ff::BigInt::new([b.l0, b.l1, b.l2, b.l3])).unwrap();
    let s = PrimeField::into_bigint(x * y).0;
    Fe { l0: s[0], l1: s[1], l2: s[2], l3: s[3] }
}

} // verus!
