//! Fees of the transactions that the generator makes.
use vstd::prelude::*;

use crate::config::{BASE_FEE_RATE, SPLITTING_FEE_RATE};

verus! {

/// The mass of any of the generator's transactions, in grams: a flat stand-in.
pub open spec fn mass() -> nat {
    1700
}

/// The flat mass estimate, whatever the shape of the transaction.
#[allow(unused_variables)]
pub fn estimated_mass(num_inputs: usize, num_outputs: u64) -> (grams: u64)
    ensures
        grams == mass(),
{
    1700
}

/// The fee of a payment, in sompi.
pub fn required_fee_base(num_inputs: usize, num_outputs: u64) -> (fee: u64)
    ensures
        fee == BASE_FEE_RATE * mass(),
        fee == 1700,
{
    BASE_FEE_RATE * estimated_mass(num_inputs, num_outputs)
}

/// The fee of a splitting transaction, in sompi.
pub fn required_fee_splitting(num_inputs: usize, num_outputs: u64) -> (fee: u64)
    ensures
        fee == SPLITTING_FEE_RATE * mass(),
        fee == 17_000,
{
    SPLITTING_FEE_RATE * estimated_mass(num_inputs, num_outputs)
}

} // verus!
