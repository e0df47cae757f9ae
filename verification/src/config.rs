//! The tunables of the generator.
use vstd::prelude::*;

verus! {

/// How many small outputs the splitting phase prepares.
pub const TARGET_UTXO_COUNT: usize = 100;

/// The value of each of them in sompi: 1.5 KAS.
pub const AMOUNT_PER_UTXO: u64 = 150_000_000;

/// How many of them one splitting transaction makes.
pub const OUTPUTS_PER_TRANSACTION: usize = 10;

/// How many splitting transactions reach the target.
pub const TRANSACTIONS_COUNT: usize = (TARGET_UTXO_COUNT + OUTPUTS_PER_TRANSACTION - 1)
    / OUTPUTS_PER_TRANSACTION;

/// How long the send phase runs; 0 means forever.
pub const SPAM_DURATION_SECONDS: u64 = 86_400;

/// The requested rate of the send phase, in transactions per second.
pub const TARGET_TPS: u64 = 50;

/// Lifts the safety cap on the rate.
pub const UNLEASHED: bool = true;

/// The rate that the safety cap allows.
pub const SAFE_TPS: u64 = 100;

/// The length of one pacing tick.
pub const MILLIS_PER_TICK: u64 = 10;

/// The fee rate of a payment, in sompi per gram.
pub const BASE_FEE_RATE: u64 = 1;

/// The fee rate of a splitting transaction, in sompi per gram.
pub const SPLITTING_FEE_RATE: u64 = 10;

/// How many connections to the node are kept.
pub const CLIENT_POOL_SIZE: usize = 8;

/// How often the spendable outputs are fetched again.
pub const UTXO_REFRESH_SECS: u64 = 1;

/// The outputs are also fetched again when no more than this many are left.
pub const LOW_UTXO_MARK: usize = 8;

/// The smallest output worth making, in sompi: 0.01 KAS.
pub const MIN_CHANGE_SOMPI: u64 = 1_000_000;

/// A reservation older than this is dropped.
pub const MAX_PENDING_AGE_SECS: u64 = 3600;

/// How many submissions may be under way at once.
pub const MAX_INFLIGHT: usize = 20_000;

/// The sompi in one KAS.
pub const SOMPI_PER_KAS: u64 = 100_000_000;

/// The least whole KAS that the output to be split must hold.
pub const MIN_SPLIT_KAS: u64 = 10;

/// The confirmations that an output outside a coinbase needs before it is spent.
pub const MIN_CONFIRMATIONS: u64 = 10;

/// The tunables are those that are documented.
pub proof fn documented_tunables()
    ensures
        TARGET_UTXO_COUNT == 100,
        AMOUNT_PER_UTXO == 150_000_000,
        OUTPUTS_PER_TRANSACTION == 10,
        (TRANSACTIONS_COUNT - 1) * OUTPUTS_PER_TRANSACTION < TARGET_UTXO_COUNT,
        TARGET_UTXO_COUNT <= TRANSACTIONS_COUNT * OUTPUTS_PER_TRANSACTION,
        SPAM_DURATION_SECONDS == 24 * 3600,
        TARGET_TPS == 50,
        UNLEASHED,
        SAFE_TPS == 100,
        MILLIS_PER_TICK == 10,
        BASE_FEE_RATE == 1,
        SPLITTING_FEE_RATE == 10,
        CLIENT_POOL_SIZE == 8,
        UTXO_REFRESH_SECS == 1,
        LOW_UTXO_MARK == 8,
        MIN_CHANGE_SOMPI == SOMPI_PER_KAS / 100,
        MAX_PENDING_AGE_SECS == 3600,
        MAX_INFLIGHT == 20_000,
        SOMPI_PER_KAS == 100_000_000,
        MIN_SPLIT_KAS == 10,
        MIN_CONFIRMATIONS == 10,
{
}

} // verus!
