//! Fixed-slot inventories.
//!
//! An inventory is a sequence of exactly [`crate::MAX_ITEM_SLOTS`] slots,
//! each holding an `(item_id, quantity)` pair. Item id `0` is reserved and
//! marks an empty slot; an empty slot holds no quantity, and a held item
//! always has a positive one. No item id occupies more than one slot.
//!
//! A quantity is carried as a full 64-bit word, and the operation
//! relations compare and range-check at that width; item data expected
//! to stay within a narrower bound, such as 32 bits, can be held to it
//! with [`crate::relations::fits_in_bits`] at that width.

use vstd::prelude::*;

use crate::MAX_ITEM_SLOTS;

verus! {

/// One slot: an item id and the quantity held of it.
#[derive(Clone, Copy, Debug, PartialEq, Eq, Structural)]
pub struct ItemSlot {
    pub item_id: u32,
    pub quantity: u64,
}

impl ItemSlot {
    /// A slot is empty exactly when it holds nothing: id `0` goes with
    /// quantity `0`, and a real item with a positive quantity.
    pub open spec fn wf(self) -> bool {
        (self.item_id == 0) == (self.quantity == 0)
    }
}

impl Default for ItemSlot {
    /// The empty slot.
    fn default() -> (r: Self)
        ensures
            r == (ItemSlot { item_id: 0, quantity: 0 }),
    {
        ItemSlot { item_id: 0, quantity: 0 }
    }
}

/// Why an inventory mutation was refused.
#[derive(Clone, Copy, Debug, PartialEq, Eq, Structural)]
pub enum InventoryError {
    /// A new slot was needed but every slot is occupied.
    SlotCapacityExceeded,
    /// A withdrawal asked for more than the slot holds.
    InsufficientQuantity,
}

/// Index of the first slot holding `id`, or `-1` when no slot does.
pub open spec fn index_of_item(s: Seq<ItemSlot>, id: u32) -> int
    decreases s.len(),
{
    if s.len() == 0 {
        -1
    } else if s[0].item_id == id {
        0
    } else {
        let rest = index_of_item(s.drop_first(), id);
        if rest < 0 {
            -1
        } else {
            rest + 1
        }
    }
}

/// Whether some slot holds `id`.
pub open spec fn has_item(s: Seq<ItemSlot>, id: u32) -> bool {
    index_of_item(s, id) >= 0
}

/// Quantity held of `id`: the first matching slot's quantity, `0` when
/// absent.
pub open spec fn quantity_of(s: Seq<ItemSlot>, id: u32) -> u64 {
    if has_item(s, id) {
        s[index_of_item(s, id)].quantity
    } else {
        0
    }
}

/// What `index_of_item` returns is the first match, and `-1` means none.
pub proof fn lemma_index_of_item(s: Seq<ItemSlot>, id: u32)
    ensures
        index_of_item(s, id) == -1 || (0 <= index_of_item(s, id) < s.len()),
        index_of_item(s, id) >= 0 ==> s[index_of_item(s, id)].item_id == id,
        forall|j: int| 0 <= j < s.len() && (index_of_item(s, id) == -1 || j < index_of_item(s, id))
            ==> (#[trigger] s[j]).item_id != id,
    decreases s.len(),
{
    if s.len() > 0 && s[0].item_id != id {
        let rest = s.drop_first();
        lemma_index_of_item(rest, id);
        assert forall|j: int|
            0 <= j < s.len() && (index_of_item(s, id) == -1 || j < index_of_item(s, id))
            implies (#[trigger] s[j]).item_id != id by {
            if j >= 1 {
                assert(rest[j - 1] == s[j]);
            }
        }
    }
}

/// If `k` is a match and nothing before it is, `k` is the found index.
pub proof fn lemma_index_of_item_is(s: Seq<ItemSlot>, id: u32, k: int)
    requires
        0 <= k < s.len(),
        s[k].item_id == id,
        forall|j: int| 0 <= j < k ==> (#[trigger] s[j]).item_id != id,
    ensures
        index_of_item(s, id) == k,
    decreases s.len(),
{
    if k > 0 {
        assert(forall|j: int| 0 <= j < k - 1 ==> #[trigger] s.drop_first()[j] == s[j + 1]);
        assert(s.drop_first()[k - 1] == s[k]);
        lemma_index_of_item_is(s.drop_first(), id, k - 1);
    }
}

/// The inventory contents after setting `id`'s quantity to `qty`: the
/// holding slot is rewritten (cleared when `qty` is `0`); with no holding
/// slot, a positive quantity takes the first empty slot, and `None` comes
/// back when every slot is taken; setting `0` on an absent item changes
/// nothing.
pub open spec fn set_quantity_spec(s: Seq<ItemSlot>, id: u32, qty: u64) -> Option<Seq<ItemSlot>> {
    let i = index_of_item(s, id);
    if i >= 0 {
        if qty == 0 {
            Some(s.update(i, ItemSlot { item_id: 0, quantity: 0 }))
        } else {
            Some(s.update(i, ItemSlot { item_id: id, quantity: qty }))
        }
    } else if qty > 0 {
        let e = index_of_item(s, 0);
        if e >= 0 {
            Some(s.update(e, ItemSlot { item_id: id, quantity: qty }))
        } else {
            None
        }
    } else {
        Some(s)
    }
}

/// The contents after depositing `amount` of `id`; `None` when a fresh slot
/// is needed and none is free.
pub open spec fn deposit_spec(s: Seq<ItemSlot>, id: u32, amount: u64) -> Option<Seq<ItemSlot>> {
    set_quantity_spec(s, id, (quantity_of(s, id) + amount) as u64)
}

/// The contents after withdrawing `amount` of `id`; `None` when less is
/// held.
pub open spec fn withdraw_spec(s: Seq<ItemSlot>, id: u32, amount: u64) -> Option<Seq<ItemSlot>> {
    if quantity_of(s, id) >= amount {
        set_quantity_spec(s, id, (quantity_of(s, id) - amount) as u64)
    } else {
        None
    }
}

/// Slot-sequence well-formedness: full slot count, every slot well formed,
/// no item id on two slots.
pub open spec fn slots_wf(s: Seq<ItemSlot>) -> bool {
    &&& s.len() == MAX_ITEM_SLOTS
    &&& forall|i: int| 0 <= i < s.len() ==> (#[trigger] s[i]).wf()
    &&& forall|i: int, j: int|
        0 <= i < s.len() && 0 <= j < s.len() && i != j && s[i].item_id != 0
            ==> s[i].item_id != s[j].item_id
}

/// A fixed-capacity inventory of item slots.
#[derive(Clone, Debug)]
pub struct Inventory {
    pub slots: Vec<ItemSlot>,
}

impl View for Inventory {
    type V = Seq<ItemSlot>;

    open spec fn view(&self) -> Seq<ItemSlot> {
        self.slots@
    }
}

impl Default for Inventory {
    /// An inventory of empty slots.
    fn default() -> (r: Self)
        ensures
            r.wf(),
            r@ == Seq::new(MAX_ITEM_SLOTS as nat, |i: int| ItemSlot { item_id: 0, quantity: 0 }),
    {
        Inventory::new()
    }
}

impl Inventory {
    /// Full slot count, every slot well formed, and no item id on two
    /// slots.
    pub open spec fn wf(self) -> bool {
        slots_wf(self@)
    }

    /// Create a new empty inventory.
    pub fn new() -> (r: Self)
        ensures
            r.wf(),
            r@ == Seq::new(MAX_ITEM_SLOTS as nat, |i: int| ItemSlot { item_id: 0, quantity: 0 }),
    {
        let mut slots: Vec<ItemSlot> = Vec::new();
        let mut k: usize = 0;
        while k < MAX_ITEM_SLOTS
            invariant
                k <= MAX_ITEM_SLOTS,
                slots@.len() == k,
                forall|i: int| 0 <= i < k
                    ==> #[trigger] slots@[i] == (ItemSlot { item_id: 0, quantity: 0 }),
            decreases MAX_ITEM_SLOTS - k,
        {
            slots.push(ItemSlot { item_id: 0, quantity: 0 });
            k = k + 1;
        }
        let r = Inventory { slots };
        proof {
            assert(r@ =~= Seq::new(
                MAX_ITEM_SLOTS as nat,
                |i: int| ItemSlot { item_id: 0, quantity: 0 },
            ));
        }
        r
    }

    /// Create an inventory from `(item_id, quantity)` pairs, assigned to
    /// slots in the given order and truncated at slot capacity.
    pub fn from_items(items: &[(u32, u64)]) -> (r: Self)
        requires
            forall|k: int| 0 <= k < items@.len()
                ==> ((#[trigger] items@[k]).0 == 0) == (items@[k].1 == 0),
            forall|k: int, l: int|
                0 <= k < items@.len() && 0 <= l < items@.len() && k != l && items@[k].0 != 0
                    ==> items@[k].0 != items@[l].0,
        ensures
            r.wf(),
            r@.len() == MAX_ITEM_SLOTS,
            forall|k: int| 0 <= k < items@.len() && k < MAX_ITEM_SLOTS
                ==> #[trigger] r@[k] == (ItemSlot { item_id: items@[k].0, quantity: items@[k].1 }),
            forall|k: int| items@.len() <= k < MAX_ITEM_SLOTS
                ==> #[trigger] r@[k] == (ItemSlot { item_id: 0, quantity: 0 }),
    {
        let mut inventory = Inventory::new();
        let mut k: usize = 0;
        while k < items.len() && k < MAX_ITEM_SLOTS
            invariant
                k <= items@.len(),
                k <= MAX_ITEM_SLOTS,
                inventory@.len() == MAX_ITEM_SLOTS,
                forall|i: int| 0 <= i < k ==> #[trigger] inventory@[i]
                    == (ItemSlot { item_id: items@[i].0, quantity: items@[i].1 }),
                forall|i: int| k <= i < MAX_ITEM_SLOTS ==> #[trigger] inventory@[i]
                    == (ItemSlot { item_id: 0, quantity: 0 }),
            decreases items@.len() - k,
        {
            let (item_id, quantity) = items[k];
            inventory.slots[k] = ItemSlot { item_id, quantity };
            k = k + 1;
        }
        proof {
            assert forall|k: int| 0 <= k < items@.len() && k < MAX_ITEM_SLOTS
                implies #[trigger] inventory@[k]
                    == (ItemSlot { item_id: items@[k].0, quantity: items@[k].1 }) by {}
        }
        inventory
    }

    /// Index of the first slot holding `item_id`, when one does.
    pub fn find_slot(&self, item_id: u32) -> (r: Option<usize>)
        ensures
            match r {
                Some(i) => i < self@.len() && index_of_item(self@, item_id) == i as int,
                None => index_of_item(self@, item_id) == -1,
            },
    {
        let mut k: usize = 0;
        while k < self.slots.len()
            invariant
                k <= self@.len(),
                forall|j: int| 0 <= j < k ==> (#[trigger] self@[j]).item_id != item_id,
            decreases self@.len() - k,
        {
            if self.slots[k].item_id == item_id {
                proof {
                    lemma_index_of_item_is(self@, item_id, k as int);
                }
                return Some(k);
            }
            k = k + 1;
        }
        proof {
            lemma_index_of_item(self@, item_id);
        }
        None
    }

    /// Index of the first empty slot, when one exists.
    pub fn find_empty_slot(&self) -> (r: Option<usize>)
        ensures
            match r {
                Some(i) => i < self@.len() && index_of_item(self@, 0) == i as int,
                None => index_of_item(self@, 0) == -1,
            },
    {
        self.find_slot(0)
    }

    /// Quantity held of `item_id`; `0` when absent.
    pub fn get_quantity(&self, item_id: u32) -> (r: u64)
        ensures
            r == quantity_of(self@, item_id),
    {
        match self.find_slot(item_id) {
            Some(i) => self.slots[i].quantity,
            None => 0,
        }
    }

    /// Set the quantity held of `item_id`, taking a fresh slot when the
    /// item is new, clearing the slot when the quantity drops to zero.
    pub fn set_quantity(&mut self, item_id: u32, quantity: u64) -> (r: Result<(), InventoryError>)
        requires
            old(self).wf(),
            item_id != 0,
        ensures
            final(self).wf(),
            match r {
                Ok(_) => set_quantity_spec(old(self)@, item_id, quantity) == Some(final(self)@),
                Err(e) => {
                    &&& e == InventoryError::SlotCapacityExceeded
                    &&& set_quantity_spec(old(self)@, item_id, quantity) is None
                    &&& final(self)@ == old(self)@
                },
            },
    {
        proof {
            lemma_index_of_item(self@, item_id);
            lemma_index_of_item(self@, 0);
        }
        match self.find_slot(item_id) {
            Some(idx) => {
                if quantity == 0 {
                    self.slots[idx] = ItemSlot { item_id: 0, quantity: 0 };
                } else {
                    self.slots[idx] = ItemSlot { item_id, quantity };
                }
                Ok(())
            },
            None => {
                if quantity > 0 {
                    match self.find_empty_slot() {
                        Some(e) => {
                            self.slots[e] = ItemSlot { item_id, quantity };
                            Ok(())
                        },
                        None => Err(InventoryError::SlotCapacityExceeded),
                    }
                } else {
                    Ok(())
                }
            },
        }
    }

    /// Withdraw `amount` of `item_id`; refused when less is held.
    pub fn withdraw(&mut self, item_id: u32, amount: u64) -> (r: Result<(), InventoryError>)
        requires
            old(self).wf(),
            item_id != 0,
        ensures
            final(self).wf(),
            match r {
                Ok(_) => withdraw_spec(old(self)@, item_id, amount) == Some(final(self)@),
                Err(e) => {
                    &&& e == InventoryError::InsufficientQuantity
                    &&& withdraw_spec(old(self)@, item_id, amount) is None
                    &&& final(self)@ == old(self)@
                },
            },
    {
        let current = self.get_quantity(item_id);
        if current < amount {
            return Err(InventoryError::InsufficientQuantity);
        }
        proof {
            lemma_index_of_item(self@, item_id);
        }
        let r = self.set_quantity(item_id, current - amount);
        proof {
            // A holding or empty slot is always available here: the item
            // either has a slot already or the quantity being set is zero.
            assert(r is Ok);
        }
        Ok(())
    }

    /// Deposit `amount` of `item_id`; refused when the item is new and no
    /// slot is free.
    pub fn deposit(&mut self, item_id: u32, amount: u64) -> (r: Result<(), InventoryError>)
        requires
            old(self).wf(),
            item_id != 0,
            quantity_of(old(self)@, item_id) + amount <= u64::MAX,
        ensures
            final(self).wf(),
            match r {
                Ok(_) => deposit_spec(old(self)@, item_id, amount) == Some(final(self)@),
                Err(e) => {
                    &&& e == InventoryError::SlotCapacityExceeded
                    &&& deposit_spec(old(self)@, item_id, amount) is None
                    &&& final(self)@ == old(self)@
                },
            },
    {
        let current = self.get_quantity(item_id);
        self.set_quantity(item_id, current + amount)
    }
}

/// An id held by no slot has quantity `0`.
pub proof fn lemma_item_absent(s: Seq<ItemSlot>, id: u32)
    requires
        forall|j: int| 0 <= j < s.len() ==> (#[trigger] s[j]).item_id != id,
    ensures
        index_of_item(s, id) == -1,
        quantity_of(s, id) == 0,
{
    lemma_index_of_item(s, id);
}

/// An id held by exactly the slot `k` is found there.
pub proof fn lemma_item_at(s: Seq<ItemSlot>, id: u32, k: int)
    requires
        0 <= k < s.len(),
        s[k].item_id == id,
        forall|j: int| 0 <= j < s.len() && j != k ==> (#[trigger] s[j]).item_id != id,
    ensures
        index_of_item(s, id) == k,
        quantity_of(s, id) == s[k].quantity,
{
    lemma_index_of_item_is(s, id, k);
}

/// The reserved id `0` never holds a quantity.
pub proof fn lemma_empty_quantity(s: Seq<ItemSlot>)
    requires
        forall|i: int| 0 <= i < s.len() ==> (#[trigger] s[i]).wf(),
    ensures
        quantity_of(s, 0) == 0,
{
    lemma_index_of_item(s, 0);
}

/// Rewriting one slot leaves every id that neither version of the slot
/// holds with its old quantity.
proof fn lemma_update_preserves_others(s: Seq<ItemSlot>, p: int, x: ItemSlot, id2: u32)
    requires
        slots_wf(s),
        0 <= p < s.len(),
        x.item_id != id2,
        s[p].item_id != id2,
        id2 != 0,
    ensures
        quantity_of(s.update(p, x), id2) == quantity_of(s, id2),
{
    let t = s.update(p, x);
    let k = index_of_item(s, id2);
    lemma_index_of_item(s, id2);
    if k >= 0 {
        assert(k != p);
        assert forall|j: int| 0 <= j < t.len() && j != k implies (#[trigger] t[j]).item_id != id2 by {
            if j != p {
                assert(s[k].item_id != s[j].item_id);
            }
        }
        lemma_item_at(t, id2, k);
        lemma_item_at(s, id2, k);
    } else {
        assert forall|j: int| 0 <= j < t.len() implies (#[trigger] t[j]).item_id != id2 by {
            if j != p {
                assert(s[j].item_id != id2);
            }
        }
        lemma_item_absent(t, id2);
    }
}

/// Rewriting one slot keeps well-formedness as long as the new slot is well
/// formed and brings no duplicate id.
proof fn lemma_update_wf(s: Seq<ItemSlot>, p: int, x: ItemSlot)
    requires
        slots_wf(s),
        0 <= p < s.len(),
        x.wf(),
        x.item_id != 0 ==> forall|j: int|
            0 <= j < s.len() && j != p ==> (#[trigger] s[j]).item_id != x.item_id,
    ensures
        slots_wf(s.update(p, x)),
{
    let t = s.update(p, x);
    assert forall|i: int, j: int|
        0 <= i < t.len() && 0 <= j < t.len() && i != j && t[i].item_id != 0
        implies t[i].item_id != t[j].item_id by {
        if i == p {
            assert(s[j].item_id != x.item_id);
        } else if j == p {
            if x.item_id != 0 {
                assert(s[i].item_id != x.item_id);
            }
        } else {
            assert(s[i].item_id != s[j].item_id);
        }
    }
}

/// What setting a quantity does: the target id ends holding exactly `qty`,
/// every other id keeps its quantity, and well-formedness is preserved.
pub proof fn lemma_set_quantity_effect(s: Seq<ItemSlot>, id: u32, qty: u64)
    requires
        slots_wf(s),
        id != 0,
        set_quantity_spec(s, id, qty) is Some,
    ensures
        ({
            let t = set_quantity_spec(s, id, qty)->Some_0;
            &&& slots_wf(t)
            &&& quantity_of(t, id) == qty
            &&& forall|id2: u32| id2 != id ==> quantity_of(t, id2) == quantity_of(s, id2)
        }),
{
    let t = set_quantity_spec(s, id, qty)->Some_0;
    let i = index_of_item(s, id);
    lemma_index_of_item(s, id);
    if i >= 0 {
        assert forall|j: int| 0 <= j < s.len() && j != i
            implies (#[trigger] s[j]).item_id != id by {
            assert(s[i].item_id != s[j].item_id);
        }
        let x = if qty == 0 {
            ItemSlot { item_id: 0, quantity: 0 }
        } else {
            ItemSlot { item_id: id, quantity: qty }
        };
        assert(t == s.update(i, x));
        lemma_update_wf(s, i, x);
        if qty == 0 {
            assert forall|j: int| 0 <= j < t.len()
                implies (#[trigger] t[j]).item_id != id by {}
            lemma_item_absent(t, id);
        } else {
            lemma_item_at(t, id, i);
        }
        assert forall|id2: u32| id2 != id
            implies quantity_of(t, id2) == quantity_of(s, id2) by {
            if id2 == 0 {
                lemma_empty_quantity(s);
                lemma_empty_quantity(t);
            } else {
                lemma_update_preserves_others(s, i, x, id2);
            }
        }
    } else if qty > 0 {
        let e = index_of_item(s, 0);
        lemma_index_of_item(s, 0);
        let x = ItemSlot { item_id: id, quantity: qty };
        assert(t == s.update(e, x));
        lemma_update_wf(s, e, x);
        assert forall|j: int| 0 <= j < t.len() && j != e
            implies (#[trigger] t[j]).item_id != id by {
            assert(s[j].item_id != id);
        }
        lemma_item_at(t, id, e);
        assert forall|id2: u32| id2 != id
            implies quantity_of(t, id2) == quantity_of(s, id2) by {
            if id2 == 0 {
                lemma_empty_quantity(s);
                lemma_empty_quantity(t);
            } else {
                lemma_update_preserves_others(s, e, x, id2);
            }
        }
    } else {
        assert(t == s);
    }
}

/// Withdrawing what was just deposited restores the inventory exactly.
pub proof fn lemma_withdraw_undoes_deposit(s: Seq<ItemSlot>, id: u32, n: u64)
    requires
        slots_wf(s),
        id != 0,
        quantity_of(s, id) + n <= u64::MAX,
        deposit_spec(s, id, n) is Some,
    ensures
        withdraw_spec(deposit_spec(s, id, n)->Some_0, id, n) == Some(s),
{
    let q = quantity_of(s, id);
    let t = deposit_spec(s, id, n)->Some_0;
    lemma_set_quantity_effect(s, id, (q + n) as u64);
    assert(quantity_of(t, id) == q + n);
    let i = index_of_item(s, id);
    lemma_index_of_item(s, id);
    if i >= 0 {
        assert(s[i].item_id == id && s[i].quantity == q);
        assert(q > 0);
        assert forall|j: int| 0 <= j < s.len() && j != i
            implies (#[trigger] s[j]).item_id != id by {
            assert(s[i].item_id != s[j].item_id);
        }
        let y = ItemSlot { item_id: id, quantity: (q + n) as u64 };
        assert(t == s.update(i, y));
        assert forall|j: int| 0 <= j < t.len() && j != i
            implies (#[trigger] t[j]).item_id != id by {
            assert(s[j].item_id != id);
        }
        lemma_item_at(t, id, i);
        assert(index_of_item(t, id) == i);
        assert(t.update(i, ItemSlot { item_id: id, quantity: q }) =~= s);
    } else {
        assert(q == 0);
        if n > 0 {
            let e = index_of_item(s, 0);
            lemma_index_of_item(s, 0);
            let y = ItemSlot { item_id: id, quantity: n };
            assert(t == s.update(e, y));
            assert forall|j: int| 0 <= j < t.len() && j != e
                implies (#[trigger] t[j]).item_id != id by {
                assert(s[j].item_id != id);
            }
            lemma_item_at(t, id, e);
            assert(s[e].item_id == 0 && s[e].quantity == 0);
            assert(t.update(e, ItemSlot { item_id: 0, quantity: 0 }) =~= s);
        } else {
            assert(t == s);
        }
    }
}

/// A transfer moves quantity without creating or destroying any: the two
/// holdings of the transferred id keep their sum, and every other id keeps
/// its quantity on both sides.
pub proof fn lemma_transfer_preserves_total(
    src: Seq<ItemSlot>,
    dst: Seq<ItemSlot>,
    id: u32,
    n: u64,
)
    requires
        slots_wf(src),
        slots_wf(dst),
        id != 0,
        quantity_of(dst, id) + n <= u64::MAX,
        withdraw_spec(src, id, n) is Some,
        deposit_spec(dst, id, n) is Some,
    ensures
        ({
            let s2 = withdraw_spec(src, id, n)->Some_0;
            let d2 = deposit_spec(dst, id, n)->Some_0;
            &&& quantity_of(s2, id) + quantity_of(d2, id)
                == quantity_of(src, id) + quantity_of(dst, id)
            &&& forall|id2: u32| id2 != id
                ==> quantity_of(s2, id2) == quantity_of(src, id2)
                    && quantity_of(d2, id2) == quantity_of(dst, id2)
        }),
{
    lemma_set_quantity_effect(src, id, (quantity_of(src, id) - n) as u64);
    lemma_set_quantity_effect(dst, id, (quantity_of(dst, id) + n) as u64);
}

/// Depositing or withdrawing nothing changes nothing.
pub proof fn lemma_zero_amount_noop(s: Seq<ItemSlot>, id: u32)
    requires
        slots_wf(s),
        id != 0,
    ensures
        deposit_spec(s, id, 0) == Some(s),
        withdraw_spec(s, id, 0) == Some(s),
{
    let q = quantity_of(s, id);
    let i = index_of_item(s, id);
    lemma_index_of_item(s, id);
    if i >= 0 {
        assert(s[i].item_id == id && s[i].quantity == q);
        assert(q > 0);
        assert(s.update(i, ItemSlot { item_id: id, quantity: q }) =~= s);
    }
}

} // verus!
