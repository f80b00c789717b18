use inventory_zk::commitment::{create_inventory_commitment, poseidon_config};
use inventory_zk::field::Fe;
use inventory_zk::inventory::Inventory;

#[test]
fn test_commitment_deterministic() {
    let config = poseidon_config();
    let inv = Inventory::from_items(&[(1, 100), (2, 50)]);
    let blinding = Fe::from_u64(12345);

    let commitment1 = create_inventory_commitment(&inv, blinding, &config);
    let commitment2 = create_inventory_commitment(&inv, blinding, &config);

    assert_eq!(commitment1, commitment2);
}

#[test]
fn test_different_blinding_different_commitment() {
    let config = poseidon_config();
    let inv = Inventory::from_items(&[(1, 100)]);

    let commitment1 = create_inventory_commitment(&inv, Fe::from_u64(1), &config);
    let commitment2 = create_inventory_commitment(&inv, Fe::from_u64(2), &config);

    assert_ne!(commitment1, commitment2);
}

#[test]
fn commitment_depends_on_every_slot_entry() {
    let config = poseidon_config();
    let blinding = Fe::from_u64(777);
    let base = Inventory::from_items(&[(1, 100), (2, 50)]);
    let base_commitment = create_inventory_commitment(&base, blinding, &config);

    // Changing a quantity changes the commitment.
    let changed_qty = Inventory::from_items(&[(1, 101), (2, 50)]);
    assert_ne!(
        base_commitment,
        create_inventory_commitment(&changed_qty, blinding, &config)
    );

    // Changing an id changes the commitment.
    let changed_id = Inventory::from_items(&[(3, 100), (2, 50)]);
    assert_ne!(
        base_commitment,
        create_inventory_commitment(&changed_id, blinding, &config)
    );

    // A change in the last slot changes the commitment too.
    let mut tail = Inventory::from_items(&[(1, 100), (2, 50)]);
    for id in 3..=16u32 {
        tail.deposit(id, 1).unwrap();
    }
    let tail_commitment = create_inventory_commitment(&tail, blinding, &config);
    let mut tail2 = Inventory::from_items(&[(1, 100), (2, 50)]);
    for id in 3..=15u32 {
        tail2.deposit(id, 1).unwrap();
    }
    tail2.deposit(16, 2).unwrap();
    assert_ne!(
        tail_commitment,
        create_inventory_commitment(&tail2, blinding, &config)
    );
}

#[test]
fn commitment_unchanged_only_with_same_blinding() {
    // A no-op state transition keeps the commitment exactly when the
    // blinding is kept too.
    let config = poseidon_config();
    let mut inv = Inventory::from_items(&[(1, 100)]);
    let before = create_inventory_commitment(&inv, Fe::from_u64(42), &config);
    inv.deposit(1, 0).unwrap();
    let after_same = create_inventory_commitment(&inv, Fe::from_u64(42), &config);
    let after_fresh = create_inventory_commitment(&inv, Fe::from_u64(43), &config);
    assert_eq!(before, after_same);
    assert_ne!(before, after_fresh);
}

#[test]
fn test_to_field_elements() {
    let inv = Inventory::from_items(&[(1, 100), (2, 50)]);
    let elements = inv.to_field_elements();

    // Two elements per slot (id, qty) over 16 slots.
    assert_eq!(elements.len(), 32);

    // First slot
    assert_eq!(elements[0], Fe::from_u64(1));
    assert_eq!(elements[1], Fe::from_u64(100));

    // Second slot
    assert_eq!(elements[2], Fe::from_u64(2));
    assert_eq!(elements[3], Fe::from_u64(50));
}
