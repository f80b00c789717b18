use inventory_zk::inventory::Inventory;
use inventory_zk::MAX_ITEM_SLOTS;

#[test]
fn test_inventory_operations() {
    let mut inv = Inventory::new();

    // Test deposit
    inv.deposit(1, 10).unwrap();
    assert_eq!(inv.get_quantity(1), 10);

    // Test withdraw
    inv.withdraw(1, 3).unwrap();
    assert_eq!(inv.get_quantity(1), 7);

    // Test insufficient balance
    assert!(inv.withdraw(1, 100).is_err());

    // Test from_items
    let inv2 = Inventory::from_items(&[(1, 100), (2, 50)]);
    assert_eq!(inv2.get_quantity(1), 100);
    assert_eq!(inv2.get_quantity(2), 50);
    assert_eq!(inv2.get_quantity(3), 0);
}

#[test]
fn deposit_fills_every_slot_then_fails() {
    let mut inv = Inventory::new();
    for id in 1..=(MAX_ITEM_SLOTS as u32) {
        inv.deposit(id, 5).unwrap();
    }
    // The sixteenth distinct item took the last free slot.
    assert_eq!(inv.get_quantity(MAX_ITEM_SLOTS as u32), 5);
    // A seventeenth distinct item finds no slot.
    assert!(inv.deposit(100, 1).is_err());
    // Topping up an existing item still works.
    inv.deposit(1, 5).unwrap();
    assert_eq!(inv.get_quantity(1), 10);
}

#[test]
fn withdraw_of_full_balance_clears_slot() {
    let mut inv = Inventory::from_items(&[(7, 40)]);
    inv.withdraw(7, 40).unwrap();
    assert_eq!(inv.get_quantity(7), 0);
    assert_eq!(inv.slots[0].item_id, 0);
    assert_eq!(inv.slots[0].quantity, 0);
    // The freed slot can hold a new item again.
    inv.deposit(9, 3).unwrap();
    assert_eq!(inv.get_quantity(9), 3);
}

#[test]
fn zero_amount_deposit_and_withdraw_change_nothing() {
    let mut inv = Inventory::from_items(&[(1, 100)]);
    inv.deposit(1, 0).unwrap();
    inv.withdraw(1, 0).unwrap();
    // Absent items too: both are no-ops.
    inv.deposit(2, 0).unwrap();
    inv.withdraw(2, 0).unwrap();
    assert_eq!(inv.get_quantity(1), 100);
    assert_eq!(inv.get_quantity(2), 0);
    assert_eq!(inv.slots[1].item_id, 0);
}
