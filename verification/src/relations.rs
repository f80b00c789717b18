//! The arithmetic relations the four operation proofs enforce.
//!
//! Each proof demonstrates that a private state transition satisfies a
//! relation over commitments, an item id and an amount. These functions
//! decide exactly those relations on plain values: commitments recomputed
//! and compared, the quantity equations checked on 64-bit integers, every
//! slot outside the operation's target held fixed, and both inventories
//! held to the no-duplicate invariant. The target slot itself may only
//! keep the target id or become empty, which closes the gap a plain
//! pointwise check would leave open.

use vstd::prelude::*;

use crate::commitment::{commitment_val, create_inventory_commitment, PoseidonParams};
use crate::field::{fe_sub, lemma_fe_val_injective, Fe, fe_p};
use crate::inventory::{
    deposit_spec, index_of_item, lemma_index_of_item, lemma_item_absent, lemma_item_at,
    lemma_set_quantity_effect, quantity_of, slots_wf, withdraw_spec, Inventory, ItemSlot,
};
use crate::MAX_ITEM_SLOTS;

verus! {

/// Whether a field value fits in `num_bits` bits. This is the meaning of
/// the in-circuit range gadget: a value is decomposed into that many
/// boolean witnesses and recomposed, which succeeds exactly below
/// `2^num_bits`.
pub fn fits_in_bits(value: &Fe, num_bits: usize) -> (r: bool)
    requires
        value.wf(),
        num_bits <= 64,
    ensures
        r <==> value.val() < vstd::arithmetic::power2::pow2(num_bits as nat),
{
    proof {
        vstd::arithmetic::power2::lemma2_to64();
        vstd::arithmetic::power2::lemma2_to64_rest();
    }
    if value.l1 != 0 || value.l2 != 0 || value.l3 != 0 {
        proof {
            let p2 = vstd::arithmetic::power2::pow2(num_bits as nat);
            vstd::arithmetic::power2::lemma_pow2_adds(num_bits as nat, (64 - num_bits) as nat);
            vstd::arithmetic::power2::lemma_pow2_pos((64 - num_bits) as nat);
            assert(p2 <= 0x10000000000000000) by (nonlinear_arith)
                requires
                    p2 * vstd::arithmetic::power2::pow2((64 - num_bits) as nat)
                        == 0x10000000000000000,
                    vstd::arithmetic::power2::pow2((64 - num_bits) as nat) >= 1,
                    p2 >= 0,
            ;
            assert(value.val() >= 0x10000000000000000) by (nonlinear_arith)
                requires
                    value.l1 != 0 || value.l2 != 0 || value.l3 != 0,
                    value.val() == value.l0 as nat + value.l1 as nat * 0x10000000000000000
                        + value.l2 as nat * 0x100000000000000000000000000000000
                        + value.l3 as nat
                        * 0x1000000000000000000000000000000000000000000000000,
            ;
        }
        false
    } else if num_bits == 64 {
        proof {
            assert(value.val() == value.l0 as nat);
        }
        true
    } else {
        let bound: u64 = 1u64 << (num_bits as u64);
        proof {
            vstd::bits::lemma_u64_shl_is_mul(1u64, num_bits as u64);
            assert(value.val() == value.l0 as nat);
        }
        value.l0 < bound
    }
}

/// Whether `a >= b` holds in the range-checked sense of the circuits: the
/// field difference `a - b` fits in 64 bits. For 64-bit quantities this
/// coincides with integer comparison, because an underflow wraps to a
/// value near the field order, far above `2^64`.
pub fn field_geq(a: &Fe, b: &Fe) -> (r: bool)
    requires
        a.wf(),
        b.wf(),
        a.val() < 0x10000000000000000,
        b.val() < 0x10000000000000000,
    ensures
        r <==> a.val() >= b.val(),
{
    let diff = fe_sub(a, b);
    let r = fits_in_bits(&diff, 64);
    proof {
        vstd::arithmetic::power2::lemma2_to64();
        vstd::arithmetic::power2::lemma2_to64_rest();
        let p = fe_p() as int;
        let av = a.val() as int;
        let bv = b.val() as int;
        if av >= bv {
            assert((av + p - bv) % p == av - bv) by {
                vstd::arithmetic::div_mod::lemma_mod_multiples_vanish(1, av - bv, p);
                vstd::arithmetic::div_mod::lemma_small_mod((av - bv) as nat, p as nat);
            }
        } else {
            assert((av + p - bv) % p == av + p - bv) by {
                vstd::arithmetic::div_mod::lemma_small_mod((av + p - bv) as nat, p as nat);
            }
        }
    }
    r
}

/// Every slot outside the withdrawal target is untouched; a slot holding
/// the target id may change only to another holding of the same id or to
/// the empty slot.
pub open spec fn slots_preserved_withdraw(o: Seq<ItemSlot>, n: Seq<ItemSlot>, id: u32) -> bool {
    forall|i: int| 0 <= i < o.len() ==> (#[trigger] o[i]) == n[i] || (o[i].item_id == id && (
    n[i].item_id == id || n[i] == (ItemSlot { item_id: 0, quantity: 0 })))
}

/// Every slot outside the deposit target is untouched; a slot may change
/// only by taking the target id, either updating the slot that held it or
/// filling a previously empty slot.
pub open spec fn slots_preserved_deposit(o: Seq<ItemSlot>, n: Seq<ItemSlot>, id: u32) -> bool {
    forall|i: int| 0 <= i < o.len() ==> (#[trigger] o[i]) == n[i] || (n[i].item_id == id && (
    o[i].item_id == id || o[i] == (ItemSlot { item_id: 0, quantity: 0 })))
}

/// Decide the inventory invariant: full slot count, empty slots hold
/// nothing, held items have positive quantity, no duplicate ids.
pub fn check_inventory_wf(inv: &Inventory) -> (r: bool)
    ensures
        r <==> inv.wf(),
{
    if inv.slots.len() != MAX_ITEM_SLOTS {
        return false;
    }
    let mut i: usize = 0;
    while i < inv.slots.len()
        invariant
            i <= inv@.len(),
            forall|k: int| 0 <= k < i ==> (#[trigger] inv@[k]).wf(),
        decreases inv@.len() - i,
    {
        let s = inv.slots[i];
        if (s.item_id == 0) != (s.quantity == 0) {
            return false;
        }
        i = i + 1;
    }
    let mut a: usize = 0;
    while a < inv.slots.len()
        invariant
            a <= inv@.len(),
            forall|x: int, y: int| 0 <= x < a && 0 <= y < inv@.len() && x != y
                && inv@[x].item_id != 0 ==> inv@[x].item_id != inv@[y].item_id,
        decreases inv@.len() - a,
    {
        if inv.slots[a].item_id != 0 {
            let mut b: usize = 0;
            while b < inv.slots.len()
                invariant
                    a < inv@.len(),
                    b <= inv@.len(),
                    inv@[a as int].item_id != 0,
                    forall|y: int| 0 <= y < b && (a as int) != y ==> inv@[a as int].item_id
                        != (#[trigger] inv@[y]).item_id,
                decreases inv@.len() - b,
            {
                if b != a && inv.slots[b].item_id == inv.slots[a].item_id {
                    return false;
                }
                b = b + 1;
            }
        }
        a = a + 1;
    }
    proof {
        assert forall|x: int, y: int|
            0 <= x < inv@.len() && 0 <= y < inv@.len() && x != y && inv@[x].item_id != 0
            implies inv@[x].item_id != inv@[y].item_id by {}
    }
    true
}

/// Pointwise slot check for the withdrawal shape.
fn check_preserved_withdraw(o: &Inventory, n: &Inventory, id: u32) -> (r: bool)
    requires
        o@.len() == n@.len(),
    ensures
        r <==> slots_preserved_withdraw(o@, n@, id),
{
    let mut i: usize = 0;
    while i < o.slots.len()
        invariant
            o@.len() == n@.len(),
            i <= o@.len(),
            forall|k: int| 0 <= k < i ==> (#[trigger] o@[k]) == n@[k] || (o@[k].item_id == id && (
            n@[k].item_id == id || n@[k] == (ItemSlot { item_id: 0, quantity: 0 }))),
        decreases o@.len() - i,
    {
        let os = o.slots[i];
        let ns = n.slots[i];
        let ok = (os == ns) || (os.item_id == id && (ns.item_id == id || (ns.item_id == 0
            && ns.quantity == 0)));
        if !ok {
            return false;
        }
        i = i + 1;
    }
    true
}

/// Pointwise slot check for the deposit shape.
fn check_preserved_deposit(o: &Inventory, n: &Inventory, id: u32) -> (r: bool)
    requires
        o@.len() == n@.len(),
    ensures
        r <==> slots_preserved_deposit(o@, n@, id),
{
    let mut i: usize = 0;
    while i < o.slots.len()
        invariant
            o@.len() == n@.len(),
            i <= o@.len(),
            forall|k: int| 0 <= k < i ==> (#[trigger] o@[k]) == n@[k] || (n@[k].item_id == id && (
            o@[k].item_id == id || o@[k] == (ItemSlot { item_id: 0, quantity: 0 }))),
        decreases o@.len() - i,
    {
        let os = o.slots[i];
        let ns = n.slots[i];
        let ok = (os == ns) || (ns.item_id == id && (os.item_id == id || (os.item_id == 0
            && os.quantity == 0)));
        if !ok {
            return false;
        }
        i = i + 1;
    }
    true
}

/// Compare a computed commitment against a claimed one.
fn commitment_matches(inventory: &Inventory, blinding: &Fe, claimed: &Fe, config: &PoseidonParams)
    -> (r: bool)
    requires
        blinding.wf(),
        claimed.wf(),
        config.wf(),
    ensures
        r <==> commitment_val(inventory@, blinding.val(), *config) == claimed.val(),
{
    let computed = create_inventory_commitment(inventory, *blinding, config);
    let eq = computed == *claimed;
    proof {
        if computed.val() == claimed.val() {
            lemma_fe_val_injective(computed, *claimed);
        }
    }
    eq
}

/// The item-exists relation: the commitment opens to the inventory under
/// the blinding, and the inventory holds at least `min_quantity` of
/// `item_id`.
pub fn item_exists_relation(
    inventory: &Inventory,
    blinding: &Fe,
    commitment: &Fe,
    item_id: u32,
    min_quantity: u64,
    config: &PoseidonParams,
) -> (r: bool)
    requires
        blinding.wf(),
        commitment.wf(),
        config.wf(),
    ensures
        r <==> {
            &&& inventory.wf()
            &&& commitment_val(inventory@, blinding.val(), *config) == commitment.val()
            &&& quantity_of(inventory@, item_id) >= min_quantity
        },
{
    check_inventory_wf(inventory) && commitment_matches(inventory, blinding, commitment, config)
        && inventory.get_quantity(item_id) >= min_quantity
}

/// The withdraw relation: both commitments open, the old state holds
/// enough, the target quantity drops by exactly `amount`, and every other
/// slot is untouched.
pub fn withdraw_relation(
    old_inventory: &Inventory,
    new_inventory: &Inventory,
    old_blinding: &Fe,
    new_blinding: &Fe,
    old_commitment: &Fe,
    new_commitment: &Fe,
    item_id: u32,
    amount: u64,
    config: &PoseidonParams,
) -> (r: bool)
    requires
        old_blinding.wf(),
        new_blinding.wf(),
        old_commitment.wf(),
        new_commitment.wf(),
        config.wf(),
    ensures
        r <==> {
            &&& old_inventory.wf()
            &&& new_inventory.wf()
            &&& commitment_val(old_inventory@, old_blinding.val(), *config)
                == old_commitment.val()
            &&& commitment_val(new_inventory@, new_blinding.val(), *config)
                == new_commitment.val()
            &&& quantity_of(old_inventory@, item_id) >= amount
            &&& quantity_of(new_inventory@, item_id) == quantity_of(old_inventory@, item_id)
                - amount
            &&& slots_preserved_withdraw(old_inventory@, new_inventory@, item_id)
        },
{
    if !check_inventory_wf(old_inventory) || !check_inventory_wf(new_inventory) {
        return false;
    }
    if !commitment_matches(old_inventory, old_blinding, old_commitment, config) {
        return false;
    }
    if !commitment_matches(new_inventory, new_blinding, new_commitment, config) {
        return false;
    }
    let q_old = old_inventory.get_quantity(item_id);
    let q_new = new_inventory.get_quantity(item_id);
    q_old >= amount && q_new == q_old - amount && check_preserved_withdraw(
        old_inventory,
        new_inventory,
        item_id,
    )
}

/// The deposit relation: both commitments open, the target quantity grows
/// by exactly `amount`, and every other slot is untouched.
pub fn deposit_relation(
    old_inventory: &Inventory,
    new_inventory: &Inventory,
    old_blinding: &Fe,
    new_blinding: &Fe,
    old_commitment: &Fe,
    new_commitment: &Fe,
    item_id: u32,
    amount: u64,
    config: &PoseidonParams,
) -> (r: bool)
    requires
        old_blinding.wf(),
        new_blinding.wf(),
        old_commitment.wf(),
        new_commitment.wf(),
        config.wf(),
    ensures
        r <==> {
            &&& old_inventory.wf()
            &&& new_inventory.wf()
            &&& commitment_val(old_inventory@, old_blinding.val(), *config)
                == old_commitment.val()
            &&& commitment_val(new_inventory@, new_blinding.val(), *config)
                == new_commitment.val()
            &&& quantity_of(new_inventory@, item_id) as nat == quantity_of(
                old_inventory@,
                item_id,
            ) + amount
            &&& slots_preserved_deposit(old_inventory@, new_inventory@, item_id)
        },
{
    if !check_inventory_wf(old_inventory) || !check_inventory_wf(new_inventory) {
        return false;
    }
    if !commitment_matches(old_inventory, old_blinding, old_commitment, config) {
        return false;
    }
    if !commitment_matches(new_inventory, new_blinding, new_commitment, config) {
        return false;
    }
    let q_old = old_inventory.get_quantity(item_id);
    let q_new = new_inventory.get_quantity(item_id);
    (q_new as u128) == (q_old as u128) + (amount as u128) && check_preserved_deposit(
        old_inventory,
        new_inventory,
        item_id,
    )
}

/// The transfer relation: four commitments open, the source gives up
/// exactly `amount` of the item, the destination gains exactly that, and
/// all other slots on both sides are untouched.
pub fn transfer_relation(
    src_old_inventory: &Inventory,
    src_new_inventory: &Inventory,
    dst_old_inventory: &Inventory,
    dst_new_inventory: &Inventory,
    src_old_blinding: &Fe,
    src_new_blinding: &Fe,
    dst_old_blinding: &Fe,
    dst_new_blinding: &Fe,
    src_old_commitment: &Fe,
    src_new_commitment: &Fe,
    dst_old_commitment: &Fe,
    dst_new_commitment: &Fe,
    item_id: u32,
    amount: u64,
    config: &PoseidonParams,
) -> (r: bool)
    requires
        src_old_blinding.wf() && src_new_blinding.wf(),
        dst_old_blinding.wf() && dst_new_blinding.wf(),
        src_old_commitment.wf() && src_new_commitment.wf(),
        dst_old_commitment.wf() && dst_new_commitment.wf(),
        config.wf(),
    ensures
        r <==> {
            &&& src_old_inventory.wf() && src_new_inventory.wf()
            &&& dst_old_inventory.wf() && dst_new_inventory.wf()
            &&& commitment_val(src_old_inventory@, src_old_blinding.val(), *config)
                == src_old_commitment.val()
            &&& commitment_val(src_new_inventory@, src_new_blinding.val(), *config)
                == src_new_commitment.val()
            &&& commitment_val(dst_old_inventory@, dst_old_blinding.val(), *config)
                == dst_old_commitment.val()
            &&& commitment_val(dst_new_inventory@, dst_new_blinding.val(), *config)
                == dst_new_commitment.val()
            &&& quantity_of(src_old_inventory@, item_id) >= amount
            &&& quantity_of(src_new_inventory@, item_id) == quantity_of(
                src_old_inventory@,
                item_id,
            ) - amount
            &&& quantity_of(dst_new_inventory@, item_id) as nat == quantity_of(
                dst_old_inventory@,
                item_id,
            ) + amount
            &&& slots_preserved_withdraw(src_old_inventory@, src_new_inventory@, item_id)
            &&& slots_preserved_deposit(dst_old_inventory@, dst_new_inventory@, item_id)
        },
{
    if !check_inventory_wf(src_old_inventory) || !check_inventory_wf(src_new_inventory)
        || !check_inventory_wf(dst_old_inventory) || !check_inventory_wf(dst_new_inventory) {
        return false;
    }
    if !commitment_matches(src_old_inventory, src_old_blinding, src_old_commitment, config) {
        return false;
    }
    if !commitment_matches(src_new_inventory, src_new_blinding, src_new_commitment, config) {
        return false;
    }
    if !commitment_matches(dst_old_inventory, dst_old_blinding, dst_old_commitment, config) {
        return false;
    }
    if !commitment_matches(dst_new_inventory, dst_new_blinding, dst_new_commitment, config) {
        return false;
    }
    let src_q_old = src_old_inventory.get_quantity(item_id);
    let src_q_new = src_new_inventory.get_quantity(item_id);
    let dst_q_old = dst_old_inventory.get_quantity(item_id);
    let dst_q_new = dst_new_inventory.get_quantity(item_id);
    src_q_old >= amount && src_q_new == src_q_old - amount && (dst_q_new as u128) == (
    dst_q_old as u128) + (amount as u128) && check_preserved_withdraw(
        src_old_inventory,
        src_new_inventory,
        item_id,
    ) && check_preserved_deposit(dst_old_inventory, dst_new_inventory, item_id)
}

/// Soundness of the preserved-slot shapes: a transition admitted by
/// either shape leaves the quantity of every other item unchanged.
pub proof fn lemma_preserved_keeps_others(o: Seq<ItemSlot>, n: Seq<ItemSlot>, id: u32, id2: u32)
    requires
        slots_wf(o),
        slots_wf(n),
        o.len() == n.len(),
        id2 != id,
        id2 != 0,
        slots_preserved_withdraw(o, n, id) || slots_preserved_deposit(o, n, id),
    ensures
        quantity_of(n, id2) == quantity_of(o, id2),
{
    let k = index_of_item(o, id2);
    lemma_index_of_item(o, id2);
    if k >= 0 {
        assert(o[k].item_id == id2);
        assert(o[k] == n[k]);
        assert forall|j: int| 0 <= j < n.len() && j != k
            implies (#[trigger] n[j]).item_id != id2 by {
            if n[j].item_id == id2 {
                if o[j] == n[j] {
                    assert(o[k].item_id != o[j].item_id);
                } else {
                }
            }
        }
        lemma_item_at(n, id2, k);
        lemma_item_at(o, id2, k);
    } else {
        assert forall|j: int| 0 <= j < n.len() implies (#[trigger] n[j]).item_id != id2 by {
            if n[j].item_id == id2 {
                assert(o[j] == n[j]);
                assert(o[j].item_id != id2);
            }
        }
        lemma_item_absent(n, id2);
    }
}

/// Completeness of the withdraw relation's state condition: the state the
/// library's own withdrawal produces satisfies the quantity equation and
/// the preserved-slot shape.
pub proof fn lemma_withdraw_spec_meets_relation(s: Seq<ItemSlot>, id: u32, amount: u64)
    requires
        slots_wf(s),
        id != 0,
        withdraw_spec(s, id, amount) is Some,
    ensures
        ({
            let n = withdraw_spec(s, id, amount)->Some_0;
            &&& slots_wf(n)
            &&& quantity_of(s, id) >= amount
            &&& quantity_of(n, id) == quantity_of(s, id) - amount
            &&& slots_preserved_withdraw(s, n, id)
        }),
{
    let q = quantity_of(s, id);
    let n = withdraw_spec(s, id, amount)->Some_0;
    lemma_set_quantity_effect(s, id, (q - amount) as u64);
    let i = index_of_item(s, id);
    lemma_index_of_item(s, id);
    if i >= 0 {
        assert(s[i].item_id == id);
        assert forall|j: int| 0 <= j < s.len() implies (#[trigger] s[j]) == n[j] || (
        s[j].item_id == id && (n[j].item_id == id || n[j] == (ItemSlot {
            item_id: 0,
            quantity: 0,
        }))) by {
            if j != i {
                assert(n[j] == s[j]);
            }
        }
    } else {
        assert(q == 0 && amount == 0);
        if (q - amount) as u64 == 0 {
            assert(n == s);
        }
    }
}

/// Completeness of the deposit relation's state condition: the state the
/// library's own deposit produces satisfies the quantity equation and the
/// preserved-slot shape.
pub proof fn lemma_deposit_spec_meets_relation(s: Seq<ItemSlot>, id: u32, amount: u64)
    requires
        slots_wf(s),
        id != 0,
        quantity_of(s, id) + amount <= u64::MAX,
        deposit_spec(s, id, amount) is Some,
    ensures
        ({
            let n = deposit_spec(s, id, amount)->Some_0;
            &&& slots_wf(n)
            &&& quantity_of(n, id) as nat == quantity_of(s, id) + amount
            &&& slots_preserved_deposit(s, n, id)
        }),
{
    let q = quantity_of(s, id);
    let n = deposit_spec(s, id, amount)->Some_0;
    lemma_set_quantity_effect(s, id, (q + amount) as u64);
    let i = index_of_item(s, id);
    lemma_index_of_item(s, id);
    if i >= 0 {
        assert(s[i].item_id == id);
        assert forall|j: int| 0 <= j < s.len() implies (#[trigger] s[j]) == n[j] || (
        n[j].item_id == id && (s[j].item_id == id || s[j] == (ItemSlot {
            item_id: 0,
            quantity: 0,
        }))) by {
            if j != i {
                assert(n[j] == s[j]);
            }
        }
    } else if amount > 0 {
        let e = index_of_item(s, 0);
        lemma_index_of_item(s, 0);
        assert(s[e].item_id == 0 && s[e].quantity == 0);
        assert forall|j: int| 0 <= j < s.len() implies (#[trigger] s[j]) == n[j] || (
        n[j].item_id == id && (s[j].item_id == id || s[j] == (ItemSlot {
            item_id: 0,
            quantity: 0,
        }))) by {
            if j != e {
                assert(n[j] == s[j]);
            }
        }
    } else {
        assert(n == s);
    }
}

} // verus!
