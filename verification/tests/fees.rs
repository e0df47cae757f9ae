use tx_gen::config::{BASE_FEE_RATE, SPLITTING_FEE_RATE, TRANSACTIONS_COUNT};
use tx_gen::fees::{estimated_mass, required_fee_base, required_fee_splitting};

#[test]
fn mass_is_flat() {
    assert_eq!(estimated_mass(0, 0), 1700);
    assert_eq!(estimated_mass(1, 11), 1700);
    assert_eq!(estimated_mass(usize::MAX, u64::MAX), 1700);
}

#[test]
fn payment_fee_is_one_sompi_per_gram() {
    assert_eq!(BASE_FEE_RATE, 1);
    assert_eq!(required_fee_base(1, 1), 1700);
}

#[test]
fn splitting_fee_is_ten_sompi_per_gram() {
    assert_eq!(SPLITTING_FEE_RATE, 10);
    assert_eq!(required_fee_splitting(1, 11), 17_000);
}

#[test]
fn ten_transactions_reach_the_target() {
    assert_eq!(TRANSACTIONS_COUNT, 10);
}
