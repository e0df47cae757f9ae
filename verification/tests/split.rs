use kaspa_consensus_core::subnets::SUBNETWORK_ID_NATIVE;
use kaspa_consensus_core::tx::{
    ScriptPublicKey as CoreScript, Transaction as CoreTransaction, TransactionId,
    TransactionInput as CoreInput, TransactionOutpoint, TransactionOutput as CoreOutput,
};
use tx_gen::keys::SecretKey;
use tx_gen::split::{missing_utxos, SplitDecision, SplitPlan, TooSmallToSplit};
use tx_gen::tx::{
    Address, AddressPrefix, Outpoint, ScriptPublicKey, Transaction, Utxo, UtxoEntry,
};

const KAS: u64 = 100_000_000;

fn key() -> SecretKey {
    let text = "00000000000000000000000000000000000000000000000000000000000000a7";
    SecretKey::from_hex(text).ok().unwrap()
}

fn address() -> Address {
    key().address(AddressPrefix::Devnet)
}

fn utxo(tag: u8, amount: u64) -> Utxo {
    Utxo {
        outpoint: Outpoint { transaction_id: [tag; 32], index: 0 },
        entry: UtxoEntry {
            amount,
            script_public_key: ScriptPublicKey { version: 0, script: vec![0x51] },
            block_daa_score: 42,
            is_coinbase: true,
        },
    }
}

fn plan(amount: u64) -> SplitPlan {
    SplitPlan::new(&vec![utxo(1, amount)]).ok().unwrap()
}

fn core_id(tx: &Transaction) -> [u8; 32] {
    let inputs = tx
        .inputs
        .iter()
        .map(|i| CoreInput {
            previous_outpoint: TransactionOutpoint {
                transaction_id: TransactionId::from_bytes(i.previous_outpoint.transaction_id),
                index: i.previous_outpoint.index,
            },
            signature_script: i.signature_script.clone(),
            sequence: i.sequence,
            sig_op_count: i.sig_op_count,
        })
        .collect();
    let outputs = tx
        .outputs
        .iter()
        .map(|o| CoreOutput {
            value: o.value,
            script_public_key: CoreScript::from_vec(
                o.script_public_key.version,
                o.script_public_key.script.clone(),
            ),
        })
        .collect();
    CoreTransaction::new(tx.version, inputs, outputs, 0, SUBNETWORK_ID_NATIVE, 0, vec![])
        .id()
        .as_bytes()
}

/// Submits until nothing more is to be done, and gives back what was submitted.
fn split_all(plan: &mut SplitPlan) -> (Vec<Transaction>, SplitDecision) {
    let mut txs = vec![];
    loop {
        let decision = plan.next();
        if decision != SplitDecision::Submit {
            return (txs, decision);
        }
        let tx = plan.transaction(&key(), &address());
        plan.submitted(&tx, &address());
        txs.push(tx);
    }
}

#[test]
fn missing_outputs_are_counted() {
    assert_eq!(missing_utxos(0), 100);
    assert_eq!(missing_utxos(99), 1);
    assert_eq!(missing_utxos(100), 0);
    assert_eq!(missing_utxos(1000), 0);
}

#[test]
fn largest_output_is_split() {
    let plan = SplitPlan::new(&vec![utxo(1, 11 * KAS), utxo(2, 20 * KAS), utxo(3, 12 * KAS)]);
    let plan = plan.ok().unwrap();
    assert_eq!(plan.current_amount(), 20 * KAS);
    assert_eq!(plan.created(), 0);
    let tx = plan.transaction(&key(), &address());
    assert_eq!(tx.inputs[0].previous_outpoint, utxo(2, 0).outpoint);
}

#[test]
fn output_below_ten_kas_is_not_split() {
    let refused = |amount| match SplitPlan::new(&vec![utxo(1, amount)]) {
        Ok(_) => None,
        Err(error) => Some(error),
    };
    assert_eq!(refused(10 * KAS - 1), Some(TooSmallToSplit { kas: 9 }));
    assert_eq!(refused(0), Some(TooSmallToSplit { kas: 0 }));
    assert_eq!(refused(10 * KAS), None);
}

#[test]
fn transaction_pays_equal_outputs_and_change() {
    let plan = plan(100 * KAS);
    assert_eq!(plan.next(), SplitDecision::Submit);
    assert_eq!(plan.outputs(), 10);
    assert_eq!(plan.change(), 100 * KAS - 10 * 150_000_000 - 17_000);
    let tx = plan.transaction(&key(), &address());
    assert_eq!(tx.outputs.len(), 11);
    assert!(tx.outputs[..10].iter().all(|o| o.value == 150_000_000));
    assert_eq!(tx.outputs[10].value, 8_499_983_000);
    let total: u64 = tx.outputs.iter().map(|o| o.value).sum();
    assert_eq!(total + 17_000, 100 * KAS);
}

#[test]
fn change_feeds_the_next_transaction() {
    let mut plan = plan(100 * KAS);
    let first = plan.transaction(&key(), &address());
    plan.submitted(&first, &address());
    assert_eq!(plan.created(), 1);
    assert_eq!(plan.current_amount(), first.outputs[10].value);
    let second = plan.transaction(&key(), &address());
    let spent = second.inputs[0].previous_outpoint;
    assert_eq!(spent.transaction_id, core_id(&first));
    assert_eq!(spent.index, 10);
}

#[test]
fn id_does_not_depend_on_the_signature() {
    let first = plan(100 * KAS).transaction(&key(), &address());
    let mut unsigned = first.clone();
    unsigned.inputs[0].signature_script = vec![];
    assert_eq!(core_id(&first), core_id(&unsigned));
}

#[test]
fn enough_funds_make_the_whole_target() {
    // ten transactions of 1_500_017_000 sompi each, and the least change worth making
    let mut plan = plan(10 * 1_500_017_000 + 1_000_000);
    let (txs, end) = split_all(&mut plan);
    assert_eq!(end, SplitDecision::Done);
    assert_eq!(txs.len(), 10);
    assert_eq!(plan.created(), 10);
    let made: usize = txs
        .iter()
        .map(|tx| tx.outputs.iter().filter(|o| o.value == 150_000_000).count())
        .sum();
    assert_eq!(made, 100);
    assert_eq!(txs[9].outputs.last().unwrap().value, 1_000_000);
}

#[test]
fn each_transaction_spends_the_change_of_the_one_before() {
    let (txs, _) = split_all(&mut plan(200 * KAS));
    for pair in txs.windows(2) {
        let spent = pair[1].inputs[0].previous_outpoint;
        assert_eq!(spent.transaction_id, core_id(&pair[0]));
        assert_eq!(spent.index as usize, pair[0].outputs.len() - 1);
    }
}

#[test]
fn splitting_stops_when_the_funds_run_out() {
    let mut plan = plan(2 * 1_500_017_000 + 999_999);
    let (txs, end) = split_all(&mut plan);
    assert_eq!(end, SplitDecision::OutOfFunds);
    assert_eq!(txs.len(), 1);
    assert_eq!(plan.created(), 1);
    assert_eq!(plan.current_amount(), 1_500_017_000 + 999_999);
    assert_eq!(plan.change(), 999_999);
}

#[test]
fn last_transaction_is_not_submitted_unpaid() {
    let mut plan = plan(9 * 1_500_017_000 + 1_000_000);
    let (txs, end) = split_all(&mut plan);
    assert_eq!(end, SplitDecision::OutOfFunds);
    assert_eq!(txs.len(), 9);
    assert_eq!(plan.created(), 9);
    assert_eq!(plan.current_amount(), 1_000_000);
}

#[test]
fn target_takes_exactly_its_cost() {
    let (txs, end) = split_all(&mut plan(10 * 1_500_017_000));
    assert_eq!(end, SplitDecision::Done);
    assert_eq!(txs.len(), 10);
    assert!(txs[9].outputs.iter().all(|o| o.value == 150_000_000));
    let (txs, end) = split_all(&mut plan(10 * 1_500_017_000 - 1));
    assert_eq!(end, SplitDecision::OutOfFunds);
    assert_eq!(txs.len(), 9);
}

#[test]
fn least_change_is_worth_another_transaction() {
    let mut plan = plan(2 * 1_500_017_000 + 1_000_000);
    let (txs, end) = split_all(&mut plan);
    assert_eq!(end, SplitDecision::OutOfFunds);
    assert_eq!(txs.len(), 2);
    assert_eq!(txs[1].outputs.len(), 11);
    assert_eq!(plan.current_amount(), 1_000_000);
    assert_eq!(plan.change(), 0);
}

#[test]
fn dust_of_the_last_transaction_is_left_to_the_fee() {
    let mut plan = plan(10 * 1_500_017_000 + 999_999);
    let (txs, end) = split_all(&mut plan);
    assert_eq!(end, SplitDecision::Done);
    assert_eq!(txs.len(), 10);
    assert_eq!(txs[9].outputs.len(), 10);
}
