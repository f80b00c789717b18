use inventory_zk::commitment::{create_inventory_commitment, poseidon_config, PoseidonParams};
use inventory_zk::field::Fe;
use inventory_zk::inventory::Inventory;
use inventory_zk::relations::{
    deposit_relation, item_exists_relation, transfer_relation, withdraw_relation,
};

fn commit(inv: &Inventory, blinding: Fe, config: &PoseidonParams) -> Fe {
    create_inventory_commitment(inv, blinding, config)
}

#[test]
fn test_item_exists_valid() {
    let config = poseidon_config();
    let inventory = Inventory::from_items(&[(1, 100), (2, 50)]);
    let blinding = Fe::from_u64(12345);
    let commitment = commit(&inventory, blinding, &config);

    // Prove we have >= 50 of item 1
    assert!(item_exists_relation(
        &inventory,
        &blinding,
        &commitment,
        1,
        50,
        &config
    ));
}

#[test]
fn test_item_exists_exact() {
    let config = poseidon_config();
    let inventory = Inventory::from_items(&[(1, 100)]);
    let blinding = Fe::from_u64(12345);
    let commitment = commit(&inventory, blinding, &config);

    // Prove we have >= 100 of item 1 (exact match)
    assert!(item_exists_relation(
        &inventory,
        &blinding,
        &commitment,
        1,
        100,
        &config
    ));
}

#[test]
fn test_item_exists_insufficient() {
    let config = poseidon_config();
    let inventory = Inventory::from_items(&[(1, 50)]);
    let blinding = Fe::from_u64(12345);
    let commitment = commit(&inventory, blinding, &config);

    // Try to prove we have >= 100 of item 1 (should fail)
    assert!(!item_exists_relation(
        &inventory,
        &blinding,
        &commitment,
        1,
        100,
        &config
    ));
}

#[test]
fn item_exists_scenario_with_wrong_minimum_rejected() {
    // Inventory [(1,100),(2,50)] under blinding 12345: public inputs
    // (C, 1, 50) are accepted, (C, 1, 200) are not.
    let config = poseidon_config();
    let inventory = Inventory::from_items(&[(1, 100), (2, 50)]);
    let blinding = Fe::from_u64(12345);
    let commitment = commit(&inventory, blinding, &config);
    assert!(item_exists_relation(
        &inventory,
        &blinding,
        &commitment,
        1,
        50,
        &config
    ));
    assert!(!item_exists_relation(
        &inventory,
        &blinding,
        &commitment,
        1,
        200,
        &config
    ));
}

#[test]
fn test_withdraw_valid() {
    let config = poseidon_config();

    // Start with 100 swords
    let old_inventory = Inventory::from_items(&[(1, 100), (2, 50)]);
    let old_blinding = Fe::from_u64(12345);
    let old_commitment = commit(&old_inventory, old_blinding, &config);

    // Withdraw 30 swords
    let mut new_inventory = old_inventory.clone();
    new_inventory.withdraw(1, 30).unwrap();
    let new_blinding = Fe::from_u64(67890);
    let new_commitment = commit(&new_inventory, new_blinding, &config);

    assert!(withdraw_relation(
        &old_inventory,
        &new_inventory,
        &old_blinding,
        &new_blinding,
        &old_commitment,
        &new_commitment,
        1,
        30,
        &config
    ));
}

#[test]
fn test_withdraw_insufficient_balance() {
    let config = poseidon_config();

    let old_inventory = Inventory::from_items(&[(1, 50)]);
    let old_blinding = Fe::from_u64(12345);
    let old_commitment = commit(&old_inventory, old_blinding, &config);

    // Try to withdraw more than available (manipulated new state).
    let new_inventory = Inventory::from_items(&[]);
    let new_blinding = Fe::from_u64(67890);
    let new_commitment = commit(&new_inventory, new_blinding, &config);

    assert!(!withdraw_relation(
        &old_inventory,
        &new_inventory,
        &old_blinding,
        &new_blinding,
        &old_commitment,
        &new_commitment,
        1,
        100,
        &config
    ));
}

#[test]
fn withdraw_scenario_with_mismatched_amount_rejected() {
    // [(1,100)] -> [(1,70)] with amount 30 verifies; claiming amount 40
    // against the same new state is rejected.
    let config = poseidon_config();
    let old_inventory = Inventory::from_items(&[(1, 100)]);
    let old_blinding = Fe::from_u64(111);
    let old_commitment = commit(&old_inventory, old_blinding, &config);
    let new_inventory = Inventory::from_items(&[(1, 70)]);
    let new_blinding = Fe::from_u64(222);
    let new_commitment = commit(&new_inventory, new_blinding, &config);
    assert!(withdraw_relation(
        &old_inventory,
        &new_inventory,
        &old_blinding,
        &new_blinding,
        &old_commitment,
        &new_commitment,
        1,
        30,
        &config
    ));
    assert!(!withdraw_relation(
        &old_inventory,
        &new_inventory,
        &old_blinding,
        &new_blinding,
        &old_commitment,
        &new_commitment,
        1,
        40,
        &config
    ));
}

#[test]
fn test_deposit_existing_item() {
    let config = poseidon_config();

    // Start with 50 swords
    let old_inventory = Inventory::from_items(&[(1, 50)]);
    let old_blinding = Fe::from_u64(12345);
    let old_commitment = commit(&old_inventory, old_blinding, &config);

    // Deposit 30 more swords
    let mut new_inventory = old_inventory.clone();
    new_inventory.deposit(1, 30).unwrap();
    let new_blinding = Fe::from_u64(67890);
    let new_commitment = commit(&new_inventory, new_blinding, &config);

    assert!(deposit_relation(
        &old_inventory,
        &new_inventory,
        &old_blinding,
        &new_blinding,
        &old_commitment,
        &new_commitment,
        1,
        30,
        &config
    ));
}

#[test]
fn test_deposit_new_item() {
    let config = poseidon_config();

    // Start empty
    let old_inventory = Inventory::new();
    let old_blinding = Fe::from_u64(12345);
    let old_commitment = commit(&old_inventory, old_blinding, &config);

    // Deposit 100 of a new item
    let mut new_inventory = old_inventory.clone();
    new_inventory.deposit(42, 100).unwrap();
    let new_blinding = Fe::from_u64(67890);
    let new_commitment = commit(&new_inventory, new_blinding, &config);

    assert!(deposit_relation(
        &old_inventory,
        &new_inventory,
        &old_blinding,
        &new_blinding,
        &old_commitment,
        &new_commitment,
        42,
        100,
        &config
    ));
}

#[test]
fn test_deposit_wrong_amount() {
    let config = poseidon_config();

    let old_inventory = Inventory::from_items(&[(1, 50)]);
    let old_blinding = Fe::from_u64(12345);
    let old_commitment = commit(&old_inventory, old_blinding, &config);

    // Claim to deposit 30 but actually deposit 50
    let mut new_inventory = old_inventory.clone();
    new_inventory.deposit(1, 50).unwrap();
    let new_blinding = Fe::from_u64(67890);
    let new_commitment = commit(&new_inventory, new_blinding, &config);

    assert!(!deposit_relation(
        &old_inventory,
        &new_inventory,
        &old_blinding,
        &new_blinding,
        &old_commitment,
        &new_commitment,
        1,
        30,
        &config
    ));
}

#[test]
fn deposit_scenario_with_short_new_state_rejected() {
    // [] -> [(42,100)] with amount 100 verifies; the same claim against
    // a new state of [(42,50)] is rejected.
    let config = poseidon_config();
    let old_inventory = Inventory::new();
    let old_blinding = Fe::from_u64(5);
    let old_commitment = commit(&old_inventory, old_blinding, &config);
    let short_inventory = Inventory::from_items(&[(42, 50)]);
    let short_blinding = Fe::from_u64(6);
    let short_commitment = commit(&short_inventory, short_blinding, &config);
    assert!(!deposit_relation(
        &old_inventory,
        &short_inventory,
        &old_blinding,
        &short_blinding,
        &old_commitment,
        &short_commitment,
        42,
        100,
        &config
    ));
}

#[test]
fn test_transfer_valid() {
    let config = poseidon_config();

    // Source: 100 gold
    let src_old = Inventory::from_items(&[(1, 100)]);
    let src_old_blinding = Fe::from_u64(111);
    let src_old_commitment = commit(&src_old, src_old_blinding, &config);

    // Destination: 20 gold
    let dst_old = Inventory::from_items(&[(1, 20)]);
    let dst_old_blinding = Fe::from_u64(222);
    let dst_old_commitment = commit(&dst_old, dst_old_blinding, &config);

    // Transfer 30 gold
    let mut src_new = src_old.clone();
    src_new.withdraw(1, 30).unwrap();
    let src_new_blinding = Fe::from_u64(333);
    let src_new_commitment = commit(&src_new, src_new_blinding, &config);

    let mut dst_new = dst_old.clone();
    dst_new.deposit(1, 30).unwrap();
    let dst_new_blinding = Fe::from_u64(444);
    let dst_new_commitment = commit(&dst_new, dst_new_blinding, &config);

    assert!(transfer_relation(
        &src_old,
        &src_new,
        &dst_old,
        &dst_new,
        &src_old_blinding,
        &src_new_blinding,
        &dst_old_blinding,
        &dst_new_blinding,
        &src_old_commitment,
        &src_new_commitment,
        &dst_old_commitment,
        &dst_new_commitment,
        1,
        30,
        &config
    ));
}

#[test]
fn test_transfer_insufficient_source() {
    let config = poseidon_config();

    // Source: only 10 gold
    let src_old = Inventory::from_items(&[(1, 10)]);
    let src_old_blinding = Fe::from_u64(111);
    let src_old_commitment = commit(&src_old, src_old_blinding, &config);

    // Destination: empty
    let dst_old = Inventory::new();
    let dst_old_blinding = Fe::from_u64(222);
    let dst_old_commitment = commit(&dst_old, dst_old_blinding, &config);

    // Try to transfer 50 gold with fabricated new states.
    let src_new = Inventory::from_items(&[]);
    let src_new_blinding = Fe::from_u64(333);
    let src_new_commitment = commit(&src_new, src_new_blinding, &config);

    let dst_new = Inventory::from_items(&[(1, 50)]);
    let dst_new_blinding = Fe::from_u64(444);
    let dst_new_commitment = commit(&dst_new, dst_new_blinding, &config);

    assert!(!transfer_relation(
        &src_old,
        &src_new,
        &dst_old,
        &dst_new,
        &src_old_blinding,
        &src_new_blinding,
        &dst_old_blinding,
        &dst_new_blinding,
        &src_old_commitment,
        &src_new_commitment,
        &dst_old_commitment,
        &dst_new_commitment,
        1,
        50,
        &config
    ));
}

#[test]
fn transfer_scenario_with_broken_conservation_rejected() {
    // src [(1,100)] -> [(1,60)], dst [(1,20)] -> [(1,60)], amount 40
    // verifies; the same source with dst new state [(1,80)] is rejected.
    let config = poseidon_config();
    let src_old = Inventory::from_items(&[(1, 100)]);
    let src_new = Inventory::from_items(&[(1, 60)]);
    let dst_old = Inventory::from_items(&[(1, 20)]);
    let dst_new = Inventory::from_items(&[(1, 60)]);
    let dst_bad = Inventory::from_items(&[(1, 80)]);
    let b1 = Fe::from_u64(11);
    let b2 = Fe::from_u64(12);
    let b3 = Fe::from_u64(13);
    let b4 = Fe::from_u64(14);
    let c_src_old = commit(&src_old, b1, &config);
    let c_src_new = commit(&src_new, b2, &config);
    let c_dst_old = commit(&dst_old, b3, &config);
    let c_dst_new = commit(&dst_new, b4, &config);
    let c_dst_bad = commit(&dst_bad, b4, &config);
    assert!(transfer_relation(
        &src_old, &src_new, &dst_old, &dst_new, &b1, &b2, &b3, &b4, &c_src_old, &c_src_new,
        &c_dst_old, &c_dst_new, 1, 40, &config
    ));
    assert!(!transfer_relation(
        &src_old, &src_new, &dst_old, &dst_bad, &b1, &b2, &b3, &b4, &c_src_old, &c_src_new,
        &c_dst_old, &c_dst_bad, 1, 40, &config
    ));
}
