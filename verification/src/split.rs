//! The splitting phase: turns the largest output into many small ones, transaction by transaction.
//!
//! Each transaction pays a number of equal outputs and hands the rest on to the next as change.
use vstd::prelude::*;

use crate::builders::{
    create_splitting_transaction, is_signed, signed_transaction_in_full, splitting_outputs,
    splitting_outputs_in_full, unsigned_transaction,
};
use crate::chain::{
    address_script, is_coinbase_subnetwork, script_of, signature_verifies, transaction_id,
    transaction_id_of, x_only_public_key_of,
};
use crate::config::{
    AMOUNT_PER_UTXO, MIN_CHANGE_SOMPI, MIN_SPLIT_KAS, OUTPUTS_PER_TRANSACTION, SOMPI_PER_KAS,
    SPLITTING_FEE_RATE, TARGET_UTXO_COUNT, TRANSACTIONS_COUNT,
};
use crate::fees::{mass, required_fee_splitting};
use crate::keys::SecretKey;
use crate::tx::{
    utxo_views, Address, AddressView, Outpoint, Transaction, TransactionOutputView,
    TransactionView, Utxo, UtxoEntry, UtxoEntryView, UtxoView,
};
use crate::utxos::{largest_utxo, last_largest, last_largest_is_largest};

verus! {

/// How many transactions make `target` outputs, `per_transaction` at a time.
pub open spec fn transactions_needed(target: int, per_transaction: int) -> int {
    (target + per_transaction - 1) / per_transaction
}

/// How many outputs the transaction with number `i` makes, counted from 0: the last one makes
/// what is left.
pub open spec fn outputs_in(target: int, per_transaction: int, i: int) -> int {
    if transactions_needed(target, per_transaction) - i == 1 {
        target - i * per_transaction
    } else {
        per_transaction
    }
}

/// How many outputs the transactions before number `i` make.
pub open spec fn outputs_before(target: int, per_transaction: int, i: int) -> int
    decreases i,
{
    if i <= 0 {
        0
    } else {
        outputs_before(target, per_transaction, i - 1) + outputs_in(target, per_transaction, i - 1)
    }
}

/// The transactions make the target exactly, and none makes more than its share, nor none.
pub proof fn splitting_hits_the_target(target: int, per_transaction: int)
    requires
        0 <= target,
        0 < per_transaction,
    ensures
        outputs_before(
            target,
            per_transaction,
            transactions_needed(target, per_transaction),
        ) == target,
        forall|i: int|
            0 <= i < transactions_needed(target, per_transaction) ==> 0 < #[trigger] outputs_in(
                target,
                per_transaction,
                i,
            ) <= per_transaction,
{
    let count = transactions_needed(target, per_transaction);
    assert(0 <= count && target <= count * per_transaction && (count > 0 ==> (count - 1)
        * per_transaction < target)) by (nonlinear_arith)
        requires
            0 <= target,
            0 < per_transaction,
            count == (target + per_transaction - 1) / per_transaction,
    ;
    assert forall|i: int| 0 <= i < count implies 0 < #[trigger] outputs_in(
        target,
        per_transaction,
        i,
    ) <= per_transaction by {
        if i == count - 1 {
            assert(target - i * per_transaction <= per_transaction) by (nonlinear_arith)
                requires
                    i == count - 1,
                    target <= count * per_transaction,
            ;
        }
    }
    if count > 0 {
        full_transactions(target, per_transaction, count - 1);
    } else {
        assert(target == 0) by (nonlinear_arith)
            requires
                0 <= target <= count * per_transaction,
                count == 0,
        ;
    }
}

/// Before the last transaction each makes its full share.
proof fn full_transactions(target: int, per_transaction: int, i: int)
    requires
        0 <= i < transactions_needed(target, per_transaction),
    ensures
        outputs_before(target, per_transaction, i) == i * per_transaction,
    decreases i,
{
    if i > 0 {
        full_transactions(target, per_transaction, i - 1);
    }
    assert(i == 0 ==> i * per_transaction == 0) by (nonlinear_arith);
    assert((i - 1) * per_transaction + per_transaction == i * per_transaction) by (nonlinear_arith);
}

/// The fee of one splitting transaction.
pub open spec fn splitting_fee() -> int {
    SPLITTING_FEE_RATE * mass()
}

/// What is to be done next.
#[derive(Clone, Copy, Debug, PartialEq, Eq, Structural)]
pub enum SplitDecision {
    /// All transactions are submitted.
    Done,
    /// Too little is left for the next transaction, or would be for the one after it.
    OutOfFunds,
    /// The next transaction is submitted.
    Submit,
}

/// The model of [`SplitPlan`].
#[verifier::ext_equal]
pub struct SplitState {
    /// The output that the next transaction spends.
    pub current: UtxoView,
    /// How many transactions are submitted.
    pub created: int,
}

impl SplitState {
    pub open spec fn well_formed(self) -> bool {
        0 <= self.created <= TRANSACTIONS_COUNT
    }

    /// How many outputs the next transaction makes.
    pub open spec fn outputs(self) -> int {
        outputs_in(TARGET_UTXO_COUNT as int, OUTPUTS_PER_TRANSACTION as int, self.created)
    }

    /// What the next transaction takes out of the current output.
    pub open spec fn cost(self) -> int {
        AMOUNT_PER_UTXO * self.outputs() + splitting_fee()
    }

    /// What the next transaction leaves of the current output, at least nothing.
    pub open spec fn change(self) -> int {
        if self.cost() <= self.current.entry.amount {
            self.current.entry.amount - self.cost()
        } else {
            0
        }
    }

    /// What is to be done next.
    pub open spec fn decision(self) -> SplitDecision {
        if self.created >= TRANSACTIONS_COUNT {
            SplitDecision::Done
        } else if self.cost() > self.current.entry.amount {
            SplitDecision::OutOfFunds
        } else if self.change() < MIN_CHANGE_SOMPI && self.created < TRANSACTIONS_COUNT - 1 {
            SplitDecision::OutOfFunds
        } else {
            SplitDecision::Submit
        }
    }

    /// The next transaction, yet without a signature.
    pub open spec fn unsigned(self, address: AddressView) -> TransactionView {
        unsigned_transaction(
            self.current.outpoint,
            splitting_outputs(
                script_of(address),
                AMOUNT_PER_UTXO,
                self.outputs() as nat,
                self.change() as u64,
            ),
        )
    }

    /// The change that the next transaction hands on, as an output of the submitted `tx`.
    pub open spec fn change_utxo(self, tx: TransactionView, address: AddressView) -> UtxoView {
        UtxoView {
            outpoint: Outpoint {
                transaction_id: transaction_id_of(tx),
                index: self.outputs() as u32,
            },
            entry: UtxoEntryView {
                amount: self.change() as u64,
                script_public_key: script_of(address),
                block_daa_score: self.current.entry.block_daa_score,
                is_coinbase: false,
            },
        }
    }

    /// Whether the change of the next transaction is split further.
    pub open spec fn change_goes_on(self) -> bool {
        self.created < TRANSACTIONS_COUNT - 1 && self.change() >= MIN_CHANGE_SOMPI
    }

    /// The state once the transaction is submitted.
    pub open spec fn submitted(self, tx: TransactionView, address: AddressView) -> SplitState {
        SplitState {
            current: if self.change_goes_on() {
                self.change_utxo(tx, address)
            } else {
                self.current
            },
            created: self.created + 1,
        }
    }
}

/// Where splitting begins: with the largest output, or, where that holds too little, with nothing
/// but the whole KAS that it holds.
pub open spec fn beginning(utxos: Seq<UtxoView>) -> Result<SplitState, u64> {
    let largest = utxos[last_largest(utxos)];
    if largest.entry.amount < MIN_SPLIT_KAS * SOMPI_PER_KAS {
        Err(largest.entry.amount / SOMPI_PER_KAS)
    } else {
        Ok(SplitState { current: largest, created: 0 })
    }
}

/// The largest output holds too little to be split.
#[derive(Clone, Copy, Debug, PartialEq, Eq, Structural)]
pub struct TooSmallToSplit {
    /// The whole KAS that it holds.
    pub kas: u64,
}

/// How many outputs are missing to the target.
pub open spec fn missing(current_utxo_count: int) -> int {
    if current_utxo_count < TARGET_UTXO_COUNT {
        TARGET_UTXO_COUNT - current_utxo_count
    } else {
        0
    }
}

/// How many outputs are missing to the target; the splitting phase is skipped at 0.
pub fn missing_utxos(current_utxo_count: usize) -> (missing: usize)
    ensures
        missing == self::missing(current_utxo_count as int),
        current_utxo_count < TARGET_UTXO_COUNT ==> missing == TARGET_UTXO_COUNT
            - current_utxo_count,
        current_utxo_count >= TARGET_UTXO_COUNT ==> missing == 0,
{
    TARGET_UTXO_COUNT.saturating_sub(current_utxo_count)
}

/// Where the splitting phase stands.
pub struct SplitPlan {
    current: Utxo,
    created: usize,
}

impl View for SplitPlan {
    type V = SplitState;

    closed spec fn view(&self) -> SplitState {
        SplitState { current: self.current@, created: self.created as int }
    }
}

impl SplitPlan {
    /// Plans to split the largest output.
    pub fn new(utxos: &Vec<Utxo>) -> (plan: Result<SplitPlan, TooSmallToSplit>)
        requires
            utxos.len() > 0,
        ensures
            ({
                let views = utxo_views(utxos@);
                let largest = views[last_largest(views)];
                let kas = largest.entry.amount / SOMPI_PER_KAS;
                match plan {
                    Ok(plan) => kas >= MIN_SPLIT_KAS && plan@ == (SplitState {
                        current: largest,
                        created: 0,
                    }) && plan@.well_formed(),
                    Err(error) => kas < MIN_SPLIT_KAS && error.kas == kas,
                }
            }),
            match beginning(utxo_views(utxos@)) {
                Ok(state) => plan matches Ok(plan) && plan@ == state,
                Err(kas) => plan matches Err(error) && error.kas == kas,
            },
    {
        let largest = &utxos[largest_utxo(utxos)];
        let kas = largest.entry.amount / SOMPI_PER_KAS;
        if kas < MIN_SPLIT_KAS {
            return Err(TooSmallToSplit { kas });
        }
        Ok(SplitPlan { current: largest.clone(), created: 0 })
    }

    /// How many transactions are submitted.
    pub fn created(&self) -> (created: usize)
        ensures
            created == self@.created,
    {
        self.created
    }

    /// The amount of the output that the next transaction spends.
    pub fn current_amount(&self) -> (amount: u64)
        ensures
            amount == self@.current.entry.amount,
    {
        self.current.entry.amount
    }

    /// How many outputs the next transaction makes.
    pub fn outputs(&self) -> (outputs: usize)
        requires
            self@.well_formed(),
            self@.created < TRANSACTIONS_COUNT,
        ensures
            outputs == self@.outputs(),
            0 < outputs <= OUTPUTS_PER_TRANSACTION,
    {
        proof {
            splitting_hits_the_target(TARGET_UTXO_COUNT as int, OUTPUTS_PER_TRANSACTION as int);
        }
        if TRANSACTIONS_COUNT - self.created == 1 {
            TARGET_UTXO_COUNT - self.created * OUTPUTS_PER_TRANSACTION
        } else {
            OUTPUTS_PER_TRANSACTION
        }
    }

    /// What the next transaction takes out of the current output.
    fn cost(&self) -> (cost: u64)
        requires
            self@.well_formed(),
            self@.created < TRANSACTIONS_COUNT,
        ensures
            cost == self@.cost(),
    {
        let outputs = self.outputs();
        let total_output_value: u64 = AMOUNT_PER_UTXO * outputs as u64;
        total_output_value + required_fee_splitting(1, outputs as u64 + 1)
    }

    /// What the next transaction leaves of the current output.
    pub fn change(&self) -> (change: u64)
        requires
            self@.well_formed(),
            self@.created < TRANSACTIONS_COUNT,
        ensures
            change == self@.change(),
    {
        self.current.entry.amount.saturating_sub(self.cost())
    }

    /// Decides what is to be done next.
    pub fn next(&self) -> (decision: SplitDecision)
        requires
            self@.well_formed(),
        ensures
            decision == self@.decision(),
    {
        if self.created >= TRANSACTIONS_COUNT {
            SplitDecision::Done
        } else if self.cost() > self.current.entry.amount {
            SplitDecision::OutOfFunds
        } else if self.change() < MIN_CHANGE_SOMPI && self.created < TRANSACTIONS_COUNT - 1 {
            SplitDecision::OutOfFunds
        } else {
            SplitDecision::Submit
        }
    }

    /// Makes the next transaction.
    pub fn transaction(&self, key: &SecretKey, address: &Address) -> (tx: Transaction)
        requires
            self@.well_formed(),
            self@.created < TRANSACTIONS_COUNT,
            address@.well_formed(),
        ensures
            is_signed(tx@, self@.unsigned(address@), self@.current.entry, key@),
    {
        create_splitting_transaction(
            key,
            &self.current,
            AMOUNT_PER_UTXO,
            self.outputs(),
            self.change(),
            address,
        )
    }

    /// Goes on to the change of the submitted transaction. Where that is found does not depend on
    /// the signature.
    pub fn submitted(&mut self, tx: &Transaction, address: &Address)
        requires
            old(self)@.well_formed(),
            old(self)@.created < TRANSACTIONS_COUNT,
            address@.well_formed(),
        ensures
            final(self)@.well_formed(),
            final(self)@ == old(self)@.submitted(tx@, address@),
            old(self)@.change_goes_on() && !is_coinbase_subnetwork(tx@.subnetwork_id)
                ==> final(self)@.current.outpoint.transaction_id == transaction_id_of(
                tx@.unsigned(),
            ),
    {
        let outputs = self.outputs();
        let change = self.change();
        if self.created < TRANSACTIONS_COUNT - 1 && change >= MIN_CHANGE_SOMPI {
            self.current =
            Utxo {
                outpoint: Outpoint {
                    transaction_id: transaction_id(tx.clone()),
                    index: outputs as u32,
                },
                entry: UtxoEntry {
                    amount: change,
                    script_public_key: address_script(address),
                    block_daa_score: self.current.entry.block_daa_score,
                    is_coinbase: false,
                },
            };
        }
        self.created = self.created + 1;
    }
}

/// The sum of the values of outputs.
pub open spec fn total_value(outputs: Seq<TransactionOutputView>) -> nat
    decreases outputs.len(),
{
    if outputs.len() == 0 {
        0
    } else {
        total_value(outputs.drop_last()) + outputs.last().value as nat
    }
}

/// Equal outputs add up to a multiple.
proof fn equal_outputs_total(output: TransactionOutputView, n: nat)
    ensures
        total_value(Seq::new(n, |i: int| output)) == n * output.value,
    decreases n,
{
    if n > 0 {
        let fewer = (n - 1) as nat;
        equal_outputs_total(output, fewer);
        assert(Seq::new(n, |i: int| output).drop_last() =~= Seq::new(fewer, |i: int| output));
        assert(fewer * output.value + output.value == n * output.value) by (nonlinear_arith)
            requires
                n == fewer + 1,
        ;
    } else {
        assert(n * output.value == 0) by (nonlinear_arith)
            requires
                n == 0,
        ;
    }
}

/// What is submitted never pays out more than it takes in.
pub proof fn submitted_is_affordable(state: SplitState)
    requires
        state.decision() == SplitDecision::Submit,
    ensures
        state.cost() <= state.current.entry.amount,
{
}

/// A splitting transaction whose input covers its cost spends all of it: on equal outputs, on the
/// fee, and on the change, which is left to the fee where it is dust.
pub proof fn splitting_conserves_value(state: SplitState, address: AddressView)
    requires
        state.well_formed(),
        state.created < TRANSACTIONS_COUNT,
        state.cost() <= state.current.entry.amount,
    ensures
        ({
            let outputs = state.unsigned(address).outputs;
            let dust = if state.change() < MIN_CHANGE_SOMPI {
                state.change()
            } else {
                0
            };
            total_value(outputs) + splitting_fee() + dust == state.current.entry.amount
        }),
{
    splitting_hits_the_target(TARGET_UTXO_COUNT as int, OUTPUTS_PER_TRANSACTION as int);
    let output = TransactionOutputView {
        value: AMOUNT_PER_UTXO,
        script_public_key: script_of(address),
    };
    let n = state.outputs() as nat;
    equal_outputs_total(output, n);
    let equal = Seq::new(n, |i: int| output);
    let outputs = state.unsigned(address).outputs;
    assert(equal =~= Seq::new(
        n,
        |i: int|
            TransactionOutputView {
                value: AMOUNT_PER_UTXO,
                script_public_key: script_of(address),
            },
    ));
    if state.change() >= MIN_CHANGE_SOMPI {
        assert(outputs.drop_last() =~= equal);
    }
    assert(n * AMOUNT_PER_UTXO == AMOUNT_PER_UTXO * state.outputs()) by (nonlinear_arith)
        requires
            n == state.outputs(),
    ;
}

/// What the next transaction is planned to spend is an output of the one before, of that very
/// amount, and paid to the address.
pub proof fn change_is_handed_on(
    state: SplitState,
    tx: TransactionView,
    key: Seq<u8>,
    address: AddressView,
)
    requires
        state.well_formed(),
        state.decision() == SplitDecision::Submit,
        state.created < TRANSACTIONS_COUNT - 1,
        is_signed(tx, state.unsigned(address), state.current.entry, key),
    ensures
        ({
            let next = state.submitted(tx, address).current;
            let k = next.outpoint.index as int;
            &&& next.outpoint.transaction_id == transaction_id_of(tx)
            &&& k == tx.outputs.len() - 1
            &&& tx.outputs[k].value == next.entry.amount
            &&& tx.outputs[k].script_public_key == next.entry.script_public_key
            &&& next.entry.script_public_key == script_of(address)
            &&& next.entry.amount == state.current.entry.amount - state.cost()
        }),
{
    splitting_hits_the_target(TARGET_UTXO_COUNT as int, OUTPUTS_PER_TRANSACTION as int);
    assert(tx.outputs == state.unsigned(address).outputs);
}

/// What the transactions from number `i` on take in all.
pub open spec fn cost_from(i: int) -> int
    decreases TRANSACTIONS_COUNT - i,
{
    if i >= TRANSACTIONS_COUNT {
        0
    } else {
        AMOUNT_PER_UTXO * outputs_in(TARGET_UTXO_COUNT as int, OUTPUTS_PER_TRANSACTION as int, i)
            + splitting_fee() + cost_from(i + 1)
    }
}

/// The state once the transactions are submitted, one after the other.
pub open spec fn all_submitted(
    start: SplitState,
    txs: Seq<TransactionView>,
    address: AddressView,
) -> SplitState
    decreases txs.len(),
{
    if txs.len() == 0 {
        start
    } else {
        all_submitted(start, txs.drop_last(), address).submitted(txs.last(), address)
    }
}

/// An output that covers all transactions is split to the end: no transaction is held back for want
/// of funds, and after the last one splitting is done.
pub proof fn enough_funds_reach_the_target(
    start: SplitState,
    txs: Seq<TransactionView>,
    address: AddressView,
)
    requires
        start.created == 0,
        start.current.entry.amount >= cost_from(0),
        txs.len() <= TRANSACTIONS_COUNT,
    ensures
        all_submitted(start, txs, address).created == txs.len(),
        txs.len() < TRANSACTIONS_COUNT ==> all_submitted(start, txs, address).decision()
            == SplitDecision::Submit,
        txs.len() == TRANSACTIONS_COUNT ==> all_submitted(start, txs, address).decision()
            == SplitDecision::Done,
{
    funds_last(start, txs, address);
    let state = all_submitted(start, txs, address);
    if txs.len() < TRANSACTIONS_COUNT {
        cost_of_the_rest(state.created);
    }
}

/// While transactions are to come, what they take is left.
proof fn funds_last(start: SplitState, txs: Seq<TransactionView>, address: AddressView)
    requires
        start.created == 0,
        start.current.entry.amount >= cost_from(0),
        txs.len() <= TRANSACTIONS_COUNT,
    ensures
        ({
            let state = all_submitted(start, txs, address);
            &&& state.created == txs.len()
            &&& txs.len() < TRANSACTIONS_COUNT ==> state.current.entry.amount >= cost_from(
                state.created,
            )
        }),
    decreases txs.len(),
{
    if txs.len() > 0 {
        funds_last(start, txs.drop_last(), address);
        cost_of_the_rest(all_submitted(start, txs.drop_last(), address).created);
    }
}

/// Only an output that covers all transactions is split to the end.
pub proof fn target_needs_enough_funds(
    start: SplitState,
    txs: Seq<TransactionView>,
    address: AddressView,
)
    requires
        start.created == 0,
        txs.len() == TRANSACTIONS_COUNT,
        forall|k: int|
            0 <= k < txs.len() ==> all_submitted(
                start,
                #[trigger] txs.take(k),
                address,
            ).decision() == SplitDecision::Submit,
    ensures
        start.current.entry.amount >= cost_from(0),
{
    let n = txs.len() - 1;
    funds_spent(start, txs, address, n);
    assert(all_submitted(start, txs.take(n), address).decision() == SplitDecision::Submit);
    assert(cost_from(txs.len() as int) == 0);
}

/// Each transaction before the last takes its cost out of the funds, and nothing else.
proof fn funds_spent(
    start: SplitState,
    txs: Seq<TransactionView>,
    address: AddressView,
    k: int,
)
    requires
        start.created == 0,
        txs.len() == TRANSACTIONS_COUNT,
        forall|i: int|
            0 <= i < txs.len() ==> all_submitted(
                start,
                #[trigger] txs.take(i),
                address,
            ).decision() == SplitDecision::Submit,
        0 <= k < txs.len(),
    ensures
        all_submitted(start, txs.take(k), address).created == k,
        all_submitted(start, txs.take(k), address).current.entry.amount
            == start.current.entry.amount - (cost_from(0) - cost_from(k)),
    decreases k,
{
    if k > 0 {
        funds_spent(start, txs, address, k - 1);
        assert(txs.take(k).drop_last() =~= txs.take(k - 1));
        splitting_hits_the_target(TARGET_UTXO_COUNT as int, OUTPUTS_PER_TRANSACTION as int);
        assert(0 < all_submitted(start, txs.take(k - 1), address).outputs());
    } else {
        assert(txs.take(0) =~= Seq::empty());
    }
}

/// What a transaction takes, and what those behind it do: more than the least change worth making
/// where there are any.
proof fn cost_of_the_rest(i: int)
    requires
        0 <= i < TRANSACTIONS_COUNT,
    ensures
        0 < outputs_in(TARGET_UTXO_COUNT as int, OUTPUTS_PER_TRANSACTION as int, i),
        0 <= cost_from(i + 1),
        i + 1 < TRANSACTIONS_COUNT ==> cost_from(i + 1) >= MIN_CHANGE_SOMPI,
    decreases TRANSACTIONS_COUNT - i,
{
    splitting_hits_the_target(TARGET_UTXO_COUNT as int, OUTPUTS_PER_TRANSACTION as int);
    if i + 1 < TRANSACTIONS_COUNT {
        cost_of_the_rest(i + 1);
    }
}

/// As few transactions as possible are made, and all but the last make their full share.
pub proof fn only_the_last_makes_fewer(target: int, per_transaction: int, i: int)
    requires
        0 < target,
        0 < per_transaction,
        0 <= i < transactions_needed(target, per_transaction),
    ensures
        (transactions_needed(target, per_transaction) - 1) * per_transaction < target,
        target <= transactions_needed(target, per_transaction) * per_transaction,
        i < transactions_needed(target, per_transaction) - 1 ==> outputs_in(
            target,
            per_transaction,
            i,
        ) == per_transaction,
        i == transactions_needed(target, per_transaction) - 1 ==> outputs_in(
            target,
            per_transaction,
            i,
        ) == target - i * per_transaction,
{
    let count = transactions_needed(target, per_transaction);
    assert((count - 1) * per_transaction < target && target <= count * per_transaction)
        by (nonlinear_arith)
        requires
            0 < target,
            0 < per_transaction,
            count == (target + per_transaction - 1) / per_transaction,
    ;
}

/// Each of the ten transactions makes ten outputs, takes 15 KAS and a fee of 17_000 sompi, and
/// leaves the rest.
pub proof fn split_costs_in_numbers(state: SplitState)
    requires
        state.well_formed(),
        state.created < TRANSACTIONS_COUNT,
    ensures
        TRANSACTIONS_COUNT == 10,
        state.outputs() == 10,
        state.cost() == 1_500_017_000,
        state.cost() <= state.current.entry.amount ==> state.change()
            == state.current.entry.amount - 1_500_017_000,
        state.cost() > state.current.entry.amount ==> state.change() == 0,
{
}

/// A transaction before the last is submitted exactly when its cost is covered and at least the
/// least change is left, and the last exactly when its cost is covered; otherwise the funds have
/// run out.
pub proof fn split_decisions_in_numbers(state: SplitState)
    requires
        state.well_formed(),
    ensures
        state.decision() == SplitDecision::Done <==> state.created == 10,
        state.created < 9 ==> (state.decision() == SplitDecision::Submit
            <==> state.current.entry.amount >= 1_500_017_000 + 1_000_000),
        state.created == 9 ==> (state.decision() == SplitDecision::Submit
            <==> state.current.entry.amount >= 1_500_017_000),
{
}

/// A splitting transaction spends the current output on ten outputs of 1.5 KAS to the address, and
/// on what is left after the fee where that is worth making; its signature holds.
pub proof fn split_transaction_in_full(
    state: SplitState,
    tx: TransactionView,
    key: Seq<u8>,
    address: AddressView,
)
    requires
        state.well_formed(),
        state.created < TRANSACTIONS_COUNT,
        is_signed(tx, state.unsigned(address), state.current.entry, key),
    ensures
        tx.inputs.len() == 1,
        tx.inputs[0].previous_outpoint == state.current.outpoint,
        tx.outputs.len() == (if state.current.entry.amount >= 1_501_017_000 {
            11int
        } else {
            10
        }),
        forall|i: int|
            0 <= i < tx.outputs.len() ==> (#[trigger] tx.outputs[i]).script_public_key == script_of(
                address,
            ) && (tx.outputs[i].value == if i < 10 {
                150_000_000int
            } else {
                state.current.entry.amount - 1_500_017_000
            }),
        signature_verifies(tx, state.current.entry, x_only_public_key_of(key)),
{
    signed_transaction_in_full(
        tx,
        state.current.outpoint,
        state.unsigned(address).outputs,
        state.current.entry,
        key,
    );
    splitting_outputs_in_full(
        script_of(address),
        AMOUNT_PER_UTXO,
        state.outputs() as nat,
        state.change() as u64,
    );
}

/// Once a transaction is submitted, its change is split on: the eleventh output of that
/// transaction, of what is left, paid to the address, as old as before and no coinbase. Behind the
/// last one, or where the change is dust, nothing is split on.
pub proof fn submission_in_full(state: SplitState, tx: TransactionView, address: AddressView)
    requires
        state.well_formed(),
        state.created < TRANSACTIONS_COUNT,
    ensures
        ({
            let next = state.submitted(tx, address);
            &&& next.created == state.created + 1
            &&& state.created < 9 && state.current.entry.amount >= 1_501_017_000 ==> {
                &&& next.current.outpoint.transaction_id == transaction_id_of(tx)
                &&& next.current.outpoint.index == 10
                &&& next.current.entry.amount == state.current.entry.amount - 1_500_017_000
                &&& next.current.entry.script_public_key == script_of(address)
                &&& next.current.entry.block_daa_score == state.current.entry.block_daa_score
                &&& !next.current.entry.is_coinbase
            }
            &&& state.created == 9 || state.current.entry.amount < 1_501_017_000 ==> next.current
                == state.current
        }),
{
}

/// As many transactions are submitted as the funds allow, whether or not they reach the target:
/// each of the first nine must leave at least the least change, and the tenth must be covered.
pub proof fn funds_decide_how_many(
    start: SplitState,
    txs: Seq<TransactionView>,
    address: AddressView,
)
    requires
        start.created == 0,
        txs.len() < TRANSACTIONS_COUNT,
        txs.len() > 0 ==> start.current.entry.amount >= txs.len() * 1_500_017_000 + 1_000_000,
    ensures
        ({
            let state = all_submitted(start, txs, address);
            let k = txs.len() as int;
            let least: int = if k < 9 {
                1_000_000
            } else {
                0
            };
            &&& state.created == k
            &&& state.current.entry.amount == start.current.entry.amount - k * 1_500_017_000
            &&& start.current.entry.amount >= (k + 1) * 1_500_017_000 + least ==> state.decision()
                == SplitDecision::Submit
            &&& start.current.entry.amount < (k + 1) * 1_500_017_000 + least ==> state.decision()
                == SplitDecision::OutOfFunds
        }),
    decreases txs.len(),
{
    if txs.len() > 0 {
        funds_decide_how_many(start, txs.drop_last(), address);
        submission_in_full(
            all_submitted(start, txs.drop_last(), address),
            txs.last(),
            address,
        );
    }
    split_decisions_in_numbers(all_submitted(start, txs, address));
}

/// One more output adds its value to the sum, and nothing adds up to nothing.
pub proof fn values_add_up(outputs: Seq<TransactionOutputView>, output: TransactionOutputView)
    ensures
        total_value(Seq::empty()) == 0,
        total_value(outputs.push(output)) == total_value(outputs) + output.value,
{
    assert(outputs.push(output).drop_last() =~= outputs);
}

/// As many outputs are missing as bring the count to 100, and none from there on.
pub proof fn missing_outputs_reach_the_target(current_utxo_count: int)
    ensures
        missing(current_utxo_count) >= 0,
        current_utxo_count <= 100 ==> current_utxo_count + missing(current_utxo_count) == 100,
        current_utxo_count >= 100 ==> missing(current_utxo_count) == 0,
{
}

/// Splitting begins exactly when some output holds at least ten KAS, and then with one that no
/// other exceeds; otherwise it tells the whole KAS of the largest.
pub proof fn splitting_begins_with_the_largest(utxos: Seq<UtxoView>)
    requires
        utxos.len() > 0,
    ensures
        beginning(utxos) is Ok <==> exists|i: int|
            0 <= i < utxos.len() && (#[trigger] utxos[i]).entry.amount >= 1_000_000_000,
        beginning(utxos) matches Ok(state) ==> {
            &&& state.created == 0
            &&& utxos.contains(state.current)
            &&& forall|i: int|
                0 <= i < utxos.len() ==> (#[trigger] utxos[i]).entry.amount
                    <= state.current.entry.amount
        },
        beginning(utxos) matches Err(kas) ==> {
            &&& forall|i: int|
                0 <= i < utxos.len() ==> (#[trigger] utxos[i]).entry.amount < (kas + 1)
                    * 100_000_000
            &&& exists|i: int|
                0 <= i < utxos.len() && (#[trigger] utxos[i]).entry.amount >= kas * 100_000_000
        },
{
    last_largest_is_largest(utxos);
    let k = last_largest(utxos);
    assert(utxos.contains(utxos[k]));
}

} // verus!
