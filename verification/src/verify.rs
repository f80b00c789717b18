//! Public-input assembly for proof verification.
//!
//! The order in which a verifier feeds public inputs to the proving
//! stack is part of the external interface: it must be exactly the order
//! the circuit allocated them. These builders produce that order, and
//! the error type carries a verification failure back to the caller.
//! The pairing check itself belongs to the proving stack and runs
//! outside this crate.

use vstd::prelude::*;

use crate::field::Fe;

verus! {

/// Why a verification attempt failed before or inside the pairing check.
#[derive(Clone, Debug)]
pub enum VerifyError {
    /// The proving stack reported an error; its message is carried.
    Verification(String),
    /// The public inputs do not fit the circuit's interface.
    InvalidInputs,
}

impl VerifyError {
    /// A short account of the failure.
    pub fn message(&self) -> (r: &str)
        ensures
            self is InvalidInputs ==> r@ == "invalid public inputs"@,
    {
        match self {
            VerifyError::Verification(msg) => msg.as_str(),
            VerifyError::InvalidInputs => "invalid public inputs",
        }
    }
}

/// Public inputs of an item-exists proof: commitment, item id, minimum
/// quantity, in that order.
pub fn item_exists_public_inputs(commitment: Fe, item_id: u32, min_quantity: u64) -> (r: Vec<Fe>)
    ensures
        r@.len() == 3,
        r@[0] == commitment,
        r@[1].val() == item_id as nat,
        r@[2].val() == min_quantity as nat,
        forall|i: int| 1 <= i < 3 ==> (#[trigger] r@[i]).wf(),
{
    let mut out: Vec<Fe> = Vec::new();
    out.push(commitment);
    out.push(Fe::from_u64(item_id as u64));
    out.push(Fe::from_u64(min_quantity));
    out
}

/// Public inputs of a withdraw proof: old commitment, new commitment,
/// item id, amount, in that order.
pub fn withdraw_public_inputs(
    old_commitment: Fe,
    new_commitment: Fe,
    item_id: u32,
    amount: u64,
) -> (r: Vec<Fe>)
    ensures
        r@.len() == 4,
        r@[0] == old_commitment,
        r@[1] == new_commitment,
        r@[2].val() == item_id as nat,
        r@[3].val() == amount as nat,
        forall|i: int| 2 <= i < 4 ==> (#[trigger] r@[i]).wf(),
{
    let mut out: Vec<Fe> = Vec::new();
    out.push(old_commitment);
    out.push(new_commitment);
    out.push(Fe::from_u64(item_id as u64));
    out.push(Fe::from_u64(amount));
    out
}

/// Public inputs of a deposit proof: old commitment, new commitment,
/// item id, amount, in that order.
pub fn deposit_public_inputs(
    old_commitment: Fe,
    new_commitment: Fe,
    item_id: u32,
    amount: u64,
) -> (r: Vec<Fe>)
    ensures
        r@.len() == 4,
        r@[0] == old_commitment,
        r@[1] == new_commitment,
        r@[2].val() == item_id as nat,
        r@[3].val() == amount as nat,
        forall|i: int| 2 <= i < 4 ==> (#[trigger] r@[i]).wf(),
{
    withdraw_public_inputs(old_commitment, new_commitment, item_id, amount)
}

/// Public inputs of a transfer proof: the four commitments in
/// source-old, source-new, destination-old, destination-new order, then
/// the item id and the amount.
pub fn transfer_public_inputs(
    src_old_commitment: Fe,
    src_new_commitment: Fe,
    dst_old_commitment: Fe,
    dst_new_commitment: Fe,
    item_id: u32,
    amount: u64,
) -> (r: Vec<Fe>)
    ensures
        r@.len() == 6,
        r@[0] == src_old_commitment,
        r@[1] == src_new_commitment,
        r@[2] == dst_old_commitment,
        r@[3] == dst_new_commitment,
        r@[4].val() == item_id as nat,
        r@[5].val() == amount as nat,
        forall|i: int| 4 <= i < 6 ==> (#[trigger] r@[i]).wf(),
{
    let mut out: Vec<Fe> = Vec::new();
    out.push(src_old_commitment);
    out.push(src_new_commitment);
    out.push(dst_old_commitment);
    out.push(dst_new_commitment);
    out.push(Fe::from_u64(item_id as u64));
    out.push(Fe::from_u64(amount));
    out
}

} // verus!
