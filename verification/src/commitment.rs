//! Hiding commitments to inventories.
//!
//! A commitment is one field element: the Poseidon sponge absorbing the 32
//! field-encoded slot entries followed by the blinding factor, squeezing
//! one output. The sponge itself is the curve library's; its parameters
//! (round constants and MDS matrix) are built here deterministically from
//! a fixed seed, which suits test configurations — production deployments
//! should substitute an audited table through the same structure.

use ark_bn254::Fr;
use ark_crypto_primitives::sponge::poseidon::{PoseidonConfig, PoseidonSponge};
use ark_crypto_primitives::sponge::CryptographicSponge;
use ark_ff::{BigInt, PrimeField};
use vstd::prelude::*;

use crate::field::Fe;
use crate::inventory::{Inventory, ItemSlot};
use crate::MAX_ITEM_SLOTS;

verus! {

/// What the Poseidon sponge returns: a single field value determined by
/// the round shape, the parameter tables and the absorbed inputs alone.
pub uninterp spec fn poseidon_hash_of(
    full_rounds: nat,
    partial_rounds: nat,
    alpha: nat,
    rate: nat,
    capacity: nat,
    ark: Seq<Seq<nat>>,
    mds: Seq<Seq<nat>>,
    inputs: Seq<nat>,
) -> nat;

/// The field values of a row of elements.
pub open spec fn fes_vals(s: Seq<Fe>) -> Seq<nat> {
    s.map_values(|f: Fe| f.val())
}

/// The field values of a table of elements.
pub open spec fn rows_vals(s: Seq<Vec<Fe>>) -> Seq<Seq<nat>> {
    s.map_values(|row: Vec<Fe>| fes_vals(row@))
}

/// Relies on `ark_crypto_primitives`' Poseidon sponge over `ark_bn254::Fr`:
/// absorbing the inputs under the given configuration and squeezing one
/// element yields a field value that depends on the listed arguments
/// alone.
#[verifier::external_body]
fn poseidon_hash(
    full_rounds: usize,
    partial_rounds: usize,
    alpha: u64,
    rate: usize,
    capacity: usize,
    ark: &Vec<Vec<Fe>>,
    mds: &Vec<Vec<Fe>>,
    inputs: &Vec<Fe>,
) -> (r: Fe)
    requires
        0 < rate,
        0 < capacity,
        ark@.len() == full_rounds + partial_rounds,
        forall|i: int| 0 <= i < ark@.len() ==> (#[trigger] ark@[i])@.len() == rate + capacity,
        forall|i: int, j: int| 0 <= i < ark@.len() && 0 <= j < ark@[i]@.len()
            ==> (#[trigger] ark@[i]@[j]).wf(),
        mds@.len() == rate + capacity,
        forall|i: int| 0 <= i < mds@.len() ==> (#[trigger] mds@[i])@.len() == rate + capacity,
        forall|i: int, j: int| 0 <= i < mds@.len() && 0 <= j < mds@[i]@.len()
            ==> (#[trigger] mds@[i]@[j]).wf(),
        forall|i: int| 0 <= i < inputs@.len() ==> (#[trigger] inputs@[i]).wf(),
    ensures
        r.wf(),
        r.val() == poseidon_hash_of(
            full_rounds as nat,
            partial_rounds as nat,
            alpha as nat,
            rate as nat,
            capacity as nat,
            rows_vals(ark@),
            rows_vals(mds@),
            fes_vals(inputs@),
        ),
{
    let cv = |v: &Vec<Fe>| v.iter().map(
        |f| Fr::from_bigint(BigInt::new(f.limbs())).unwrap(),
    ).collect::<Vec<Fr>>();
    let cfg = PoseidonConfig::new(full_rounds, partial_rounds, alpha,
        mds.iter().map(|r| cv(r)).collect(), ark.iter().map(|r| cv(r)).collect(), rate, capacity);
    let mut sponge = PoseidonSponge::<Fr>::new(&cfg);
    sponge.absorb(&cv(inputs));
    Fe::from_limbs(PrimeField::into_bigint(sponge.squeeze_field_elements::<Fr>(1)[0]).0)
}

/// The seed value behind one round constant.
pub open spec fn ark_seed(round: int, idx: int) -> nat {
    (((round * 3 + idx + 1) as u64 as nat) * 0x9e3779b97f4a7c15) % 0x10000000000000000
}

/// The round-constant table of the fixed configuration.
pub open spec fn default_ark_vals() -> Seq<Seq<nat>> {
    Seq::new(65, |round: int| Seq::new(3, |idx: int| ark_seed(round, idx)))
}

/// The MDS table of the fixed configuration: `2` on the diagonal, `1`
/// elsewhere.
pub open spec fn default_mds_vals() -> Seq<Seq<nat>> {
    Seq::new(3, |i: int| Seq::new(3, |j: int| if i == j { 2nat } else { 1nat }))
}

/// Poseidon parameters: round shape and the two constant tables.
#[derive(Clone, Debug)]
pub struct PoseidonParams {
    pub full_rounds: usize,
    pub partial_rounds: usize,
    pub alpha: u64,
    pub rate: usize,
    pub capacity: usize,
    pub ark: Vec<Vec<Fe>>,
    pub mds: Vec<Vec<Fe>>,
}

impl PoseidonParams {
    /// Shape consistency: table sizes match the round shape, entries
    /// canonical.
    pub open spec fn wf(self) -> bool {
        &&& 0 < self.rate
        &&& 0 < self.capacity
        &&& self.ark@.len() == self.full_rounds + self.partial_rounds
        &&& forall|i: int| 0 <= i < self.ark@.len() ==> (#[trigger] self.ark@[i])@.len()
            == self.rate + self.capacity
        &&& forall|i: int, j: int| 0 <= i < self.ark@.len() && 0 <= j < self.ark@[i]@.len()
            ==> (#[trigger] self.ark@[i]@[j]).wf()
        &&& self.mds@.len() == self.rate + self.capacity
        &&& forall|i: int| 0 <= i < self.mds@.len() ==> (#[trigger] self.mds@[i])@.len()
            == self.rate + self.capacity
        &&& forall|i: int, j: int| 0 <= i < self.mds@.len() && 0 <= j < self.mds@[i]@.len()
            ==> (#[trigger] self.mds@[i]@[j]).wf()
    }
}

/// Build the fixed Poseidon configuration: rate 2, capacity 1, alpha 5,
/// 8 full and 57 partial rounds, with seed-derived round constants and a
/// near-identity MDS matrix.
pub fn poseidon_config() -> (r: PoseidonParams)
    ensures
        r.wf(),
        r.full_rounds == 8,
        r.partial_rounds == 57,
        r.alpha == 5,
        r.rate == 2,
        r.capacity == 1,
        rows_vals(r.ark@) == default_ark_vals(),
        rows_vals(r.mds@) == default_mds_vals(),
{
    let mut ark: Vec<Vec<Fe>> = Vec::new();
    let mut round: usize = 0;
    while round < 65
        invariant
            round <= 65,
            ark@.len() == round,
            forall|i: int| 0 <= i < round ==> (#[trigger] ark@[i])@.len() == 3,
            forall|i: int, j: int| 0 <= i < round && 0 <= j < 3 ==> (#[trigger] ark@[i]@[j]).wf()
                && ark@[i]@[j].val() == ark_seed(i, j),
        decreases 65 - round,
    {
        let mut row: Vec<Fe> = Vec::new();
        let mut idx: usize = 0;
        while idx < 3
            invariant
                round < 65,
                idx <= 3,
                row@.len() == idx,
                forall|j: int| 0 <= j < idx ==> (#[trigger] row@[j]).wf() && row@[j].val()
                    == ark_seed(round as int, j),
            decreases 3 - idx,
        {
            let seed: u64 = ((round * 3 + idx + 1) as u64).wrapping_mul(0x9e3779b97f4a7c15);
            row.push(Fe::from_u64(seed));
            idx = idx + 1;
        }
        ark.push(row);
        round = round + 1;
    }
    let mut mds: Vec<Vec<Fe>> = Vec::new();
    let mut i: usize = 0;
    while i < 3
        invariant
            i <= 3,
            mds@.len() == i,
            forall|x: int| 0 <= x < i ==> (#[trigger] mds@[x])@.len() == 3,
            forall|x: int, j: int| 0 <= x < i && 0 <= j < 3 ==> (#[trigger] mds@[x]@[j]).wf()
                && mds@[x]@[j].val() == (if x == j { 2nat } else { 1nat }),
        decreases 3 - i,
    {
        let mut row: Vec<Fe> = Vec::new();
        let mut j: usize = 0;
        while j < 3
            invariant
                i < 3,
                j <= 3,
                row@.len() == j,
                forall|x: int| 0 <= x < j ==> (#[trigger] row@[x]).wf() && row@[x].val() == (
                if i as int == x {
                    2nat
                } else {
                    1nat
                }),
            decreases 3 - j,
        {
            if i == j {
                row.push(Fe::from_u64(2));
            } else {
                row.push(Fe::from_u64(1));
            }
            j = j + 1;
        }
        mds.push(row);
        i = i + 1;
    }
    let r = PoseidonParams {
        full_rounds: 8,
        partial_rounds: 57,
        alpha: 5,
        rate: 2,
        capacity: 1,
        ark,
        mds,
    };
    proof {
        assert(rows_vals(r.ark@) =~~= default_ark_vals());
        assert(rows_vals(r.mds@) =~~= default_mds_vals());
    }
    r
}

/// The canonical field encoding of an inventory: item id and quantity of
/// each slot, in slot order.
pub open spec fn inv_field_vals(slots: Seq<ItemSlot>) -> Seq<nat> {
    Seq::new(
        2 * slots.len(),
        |j: int|
            if j % 2 == 0 {
                slots[j / 2].item_id as nat
            } else {
                slots[j / 2].quantity as nat
            },
    )
}

/// What a commitment is: the Poseidon hash of the field-encoded slots
/// followed by the blinding, under the given configuration.
pub open spec fn commitment_val(
    slots: Seq<ItemSlot>,
    blinding: nat,
    config: PoseidonParams,
) -> nat {
    poseidon_hash_of(
        config.full_rounds as nat,
        config.partial_rounds as nat,
        config.alpha as nat,
        config.rate as nat,
        config.capacity as nat,
        rows_vals(config.ark@),
        rows_vals(config.mds@),
        inv_field_vals(slots).push(blinding),
    )
}

impl Inventory {
    /// The inventory's field encoding: alternating id and quantity, one
    /// pair per slot.
    pub fn to_field_elements(&self) -> (r: Vec<Fe>)
        ensures
            fes_vals(r@) == inv_field_vals(self@),
            forall|j: int| 0 <= j < r@.len() ==> (#[trigger] r@[j]).wf(),
    {
        let mut out: Vec<Fe> = Vec::new();
        let mut k: usize = 0;
        while k < self.slots.len()
            invariant
                k <= self@.len(),
                out@.len() == 2 * k,
                forall|j: int| 0 <= j < out@.len() ==> (#[trigger] out@[j]).wf(),
                forall|j: int| 0 <= j < out@.len() ==> (#[trigger] out@[j]).val() == (if j % 2
                    == 0 {
                    self@[j / 2].item_id as nat
                } else {
                    self@[j / 2].quantity as nat
                }),
            decreases self@.len() - k,
        {
            let slot = self.slots[k];
            out.push(Fe::from_u64(slot.item_id as u64));
            out.push(Fe::from_u64(slot.quantity));
            k = k + 1;
        }
        proof {
            assert(fes_vals(out@) =~= inv_field_vals(self@));
        }
        out
    }
}

/// Create a commitment to an inventory under a blinding factor:
/// `Poseidon(id_0, qty_0, ..., id_15, qty_15, blinding)`.
pub fn create_inventory_commitment(
    inventory: &Inventory,
    blinding: Fe,
    config: &PoseidonParams,
) -> (r: Fe)
    requires
        blinding.wf(),
        config.wf(),
    ensures
        r.wf(),
        r.val() == commitment_val(inventory@, blinding.val(), *config),
{
    let mut inputs = inventory.to_field_elements();
    inputs.push(blinding);
    proof {
        assert(fes_vals(inputs@) =~= inv_field_vals(inventory@).push(blinding.val()));
    }
    poseidon_hash(
        config.full_rounds,
        config.partial_rounds,
        config.alpha,
        config.rate,
        config.capacity,
        &config.ark,
        &config.mds,
        &inputs,
    )
}

/// The commitment is a function of the inventory contents, the blinding
/// and the configuration alone: the same state committed twice gives the
/// same element.
pub proof fn lemma_commitment_deterministic(
    slots1: Seq<ItemSlot>,
    slots2: Seq<ItemSlot>,
    b1: nat,
    b2: nat,
    config: PoseidonParams,
)
    requires
        slots1 == slots2,
        b1 == b2,
    ensures
        commitment_val(slots1, b1, config) == commitment_val(slots2, b2, config),
{
}

} // verus!
