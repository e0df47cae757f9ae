use kaspa_consensus_core::sign::verify;
use kaspa_consensus_core::subnets::SUBNETWORK_ID_NATIVE;
use kaspa_consensus_core::tx::{
    MutableTransaction, ScriptPublicKey as CoreScript, Transaction as CoreTransaction,
    TransactionId, TransactionInput as CoreInput, TransactionOutpoint,
    TransactionOutput as CoreOutput, UtxoEntry as CoreEntry,
};
use tx_gen::config::MAX_INFLIGHT;
use tx_gen::keys::SecretKey;
use tx_gen::spam::{effective_tps, spam_job, SendLoop, StatsReport, Submission, TickDecision};
use tx_gen::tx::{Address, AddressPrefix, Outpoint, ScriptPublicKey, Utxo, UtxoEntry};

const SEC: u128 = 1_000_000_000;

fn key() -> SecretKey {
    let text = "00000000000000000000000000000000000000000000000000000000000000a7";
    SecretKey::from_hex(text).ok().unwrap()
}

fn address() -> Address {
    key().address(AddressPrefix::Devnet)
}

fn own_script() -> Vec<u8> {
    let mut script = vec![0x20];
    script.extend_from_slice(&address().payload);
    script.push(0xac);
    script
}

fn utxo(n: u32, amount: u64) -> Utxo {
    Utxo {
        outpoint: Outpoint { transaction_id: [0x11; 32], index: n },
        entry: UtxoEntry {
            amount,
            script_public_key: ScriptPublicKey { version: 0, script: own_script() },
            block_daa_score: 0,
            is_coinbase: false,
        },
    }
}

fn utxos(n: u32) -> Vec<Utxo> {
    (0..n).map(|k| utxo(k, 150_000_000)).collect()
}

fn started(n: u32, duration_seconds: u64) -> SendLoop {
    SendLoop::new(utxos(n), 8, duration_seconds, 100 * SEC, 100 * SEC)
}

fn send(state: &mut SendLoop, intended: u64, inflight: usize, now: u128) -> Vec<Submission> {
    state.send_batch(intended, inflight, &key(), &address(), now)
}

fn indices(submissions: &[Submission]) -> Vec<u32> {
    submissions.iter().map(|s| s.outpoint.index).collect()
}

fn clients(submissions: &[Submission]) -> Vec<usize> {
    submissions.iter().map(|s| s.client).collect()
}

#[test]
fn rate_is_capped_unless_the_cap_is_lifted() {
    assert_eq!(effective_tps(50, false), 50);
    assert_eq!(effective_tps(100, false), 100);
    assert_eq!(effective_tps(101, false), 100);
    assert_eq!(effective_tps(5000, true), 5000);
    assert_eq!(effective_tps(0, false), 0);
}

#[test]
fn job_pays_all_but_the_fee() {
    let job = spam_job(utxo(4, 150_000_000), &key(), &address()).unwrap();
    assert_eq!(job.outpoint, utxo(4, 0).outpoint);
    assert_eq!(job.transaction.inputs[0].previous_outpoint, job.outpoint);
    assert_eq!(job.transaction.outputs.len(), 1);
    assert_eq!(job.transaction.outputs[0].value, 150_000_000 - 1_700);
    assert_eq!(job.transaction.outputs[0].script_public_key.script, own_script());
}

#[test]
fn dust_is_not_paid() {
    assert!(spam_job(utxo(0, 0), &key(), &address()).is_none());
    assert!(spam_job(utxo(0, 1_699), &key(), &address()).is_none());
    assert!(spam_job(utxo(0, 1_001_699), &key(), &address()).is_none());
    let job = spam_job(utxo(0, 1_001_700), &key(), &address()).unwrap();
    assert_eq!(job.transaction.outputs[0].value, 1_000_000);
}

#[test]
fn sending_finishes_after_its_duration() {
    let state = started(50, 10);
    assert_eq!(state.on_tick(110 * SEC - 1), TickDecision::Refresh);
    assert_eq!(state.on_tick(110 * SEC), TickDecision::Finish);
    assert_eq!(state.on_tick(111 * SEC), TickDecision::Finish);
}

#[test]
fn sending_without_a_duration_goes_on() {
    let state = started(50, 0);
    assert_eq!(state.on_tick(1_000_000 * SEC), TickDecision::Refresh);
}

#[test]
fn outputs_are_fetched_every_second() {
    let state = started(50, 0);
    assert_eq!(state.on_tick(100 * SEC), TickDecision::Proceed);
    assert_eq!(state.on_tick(101 * SEC - 1), TickDecision::Proceed);
    assert_eq!(state.on_tick(101 * SEC), TickDecision::Refresh);
}

#[test]
fn outputs_are_fetched_when_eight_are_left() {
    let mut state = started(20, 0);
    send(&mut state, 11, 0, 100 * SEC);
    assert_eq!(state.utxos_left(), 9);
    assert_eq!(state.on_tick(100 * SEC), TickDecision::Proceed);
    send(&mut state, 1, 11, 100 * SEC);
    assert_eq!(state.utxos_left(), 8);
    assert_eq!(state.on_tick(100 * SEC), TickDecision::Refresh);
    assert_eq!(started(0, 0).on_tick(100 * SEC), TickDecision::Refresh);
}

#[test]
fn batch_takes_the_next_outputs() {
    let mut state = started(20, 0);
    assert_eq!(indices(&send(&mut state, 3, 0, 100 * SEC)), vec![0, 1, 2]);
    assert_eq!(indices(&send(&mut state, 2, 3, 100 * SEC)), vec![3, 4]);
    assert_eq!(state.utxos_left(), 15);
    assert_eq!(state.pending_count(), 5);
}

#[test]
fn batch_is_bounded_by_what_is_left() {
    let mut state = started(3, 0);
    assert!(state.can_send(0));
    assert_eq!(indices(&send(&mut state, u64::MAX, 0, 100 * SEC)), vec![0, 1, 2]);
    assert!(!state.can_send(0));
    assert_eq!(send(&mut state, 5, 0, 100 * SEC), vec![]);
}

#[test]
fn batch_is_bounded_by_what_may_be_under_way() {
    let mut state = started(20, 0);
    assert!(!state.can_send(MAX_INFLIGHT));
    assert_eq!(send(&mut state, 5, MAX_INFLIGHT, 100 * SEC), vec![]);
    assert!(state.can_send(MAX_INFLIGHT - 2));
    assert_eq!(indices(&send(&mut state, 5, MAX_INFLIGHT - 2, 100 * SEC)), vec![0, 1]);
}

#[test]
fn batch_of_nothing_changes_nothing() {
    let mut state = started(20, 0);
    assert_eq!(send(&mut state, 0, 0, 100 * SEC), vec![]);
    assert_eq!(state.utxos_left(), 20);
    assert_eq!(state.pending_count(), 0);
}

#[test]
fn connections_are_used_in_turn() {
    let mut state = started(40, 0);
    assert_eq!(clients(&send(&mut state, 10, 0, 0)), vec![0, 1, 2, 3, 4, 5, 6, 7, 0, 1]);
    assert_eq!(clients(&send(&mut state, 3, 0, 0)), vec![2, 3, 4]);
}

#[test]
fn connections_follow_one_another_from_batch_to_batch() {
    let mut state = started(60, 0);
    let mut used = vec![];
    for size in [3, 1, 8, 0, 11, 7] {
        used.extend(clients(&send(&mut state, size, 0, 0)));
    }
    assert_eq!(used, (0..30).map(|k| k % 8).collect::<Vec<usize>>());
}

#[test]
fn unanswered_outputs_are_left_alone() {
    let mut state = started(30, 0);
    let mut waiting: Vec<Outpoint> = vec![];
    let mut accepted: Vec<Outpoint> = vec![];
    for round in 0..6u128 {
        let now = (100 + 600 * round) * SEC;
        state.refresh(utxos(30), now);
        for submission in send(&mut state, 4, waiting.len(), now) {
            assert!(!waiting.contains(&submission.outpoint));
            assert!(!accepted.contains(&submission.outpoint));
            waiting.push(submission.outpoint);
        }
        state.on_answer(waiting.remove(0), false);
        let kept = waiting.remove(0);
        state.on_answer(kept, true);
        accepted.push(kept);
        state.report(now);
    }
    assert_eq!(waiting.len(), 12);
    assert_eq!(accepted.len(), 6);
}

#[test]
fn skipped_dust_still_turns_the_connections() {
    let list = vec![utxo(0, 150_000_000), utxo(1, 5), utxo(2, 150_000_000), utxo(3, 150_000_000)];
    let mut state = SendLoop::new(list, 8, 0, 0, 0);
    let first = send(&mut state, 3, 0, 0);
    assert_eq!(indices(&first), vec![0, 2]);
    assert_eq!(clients(&first), vec![0, 1]);
    assert_eq!(state.pending_count(), 2);
    assert_eq!(clients(&send(&mut state, 1, 2, 0)), vec![3]);
}

#[test]
fn large_batch_keeps_the_order() {
    let mut state = started(300, 0);
    let submissions = send(&mut state, 300, 0, 0);
    assert_eq!(indices(&submissions), (0..300).collect::<Vec<u32>>());
    for submission in &submissions {
        let input = &submission.transaction.inputs[0];
        assert_eq!(input.previous_outpoint, submission.outpoint);
    }
}

#[test]
fn payments_are_accepted() {
    let mut state = started(4, 0);
    for (submission, spent) in send(&mut state, 4, 0, 0).into_iter().zip(utxos(4)) {
        let tx = submission.transaction;
        let input = CoreInput {
            previous_outpoint: TransactionOutpoint {
                transaction_id: TransactionId::from_bytes(spent.outpoint.transaction_id),
                index: spent.outpoint.index,
            },
            signature_script: tx.inputs[0].signature_script.clone(),
            sequence: 0,
            sig_op_count: 1,
        };
        let script_public_key = CoreScript::from_vec(0, own_script());
        let output = CoreOutput { value: 149_998_300, script_public_key: script_public_key.clone() };
        let core_tx =
            CoreTransaction::new(0, vec![input], vec![output], 0, SUBNETWORK_ID_NATIVE, 0, vec![]);
        let entry = CoreEntry {
            amount: 150_000_000,
            script_public_key,
            block_daa_score: 0,
            is_coinbase: false,
        };
        let signed = MutableTransaction::with_entries(core_tx, vec![entry]);
        assert!(verify(&signed.as_verifiable()).is_ok());
    }
}

#[test]
fn reserved_outputs_are_not_offered() {
    let mut state = started(20, 0);
    send(&mut state, 5, 0, 100 * SEC);
    state.refresh(utxos(20), 101 * SEC);
    assert_eq!(state.utxos_left(), 15);
    assert_eq!(indices(&send(&mut state, 1, 5, 101 * SEC)), vec![5]);
}

#[test]
fn refused_outputs_are_offered_again() {
    let mut state = started(20, 0);
    let refused = send(&mut state, 5, 0, 100 * SEC)[2].outpoint;
    state.on_answer(refused, false);
    assert_eq!(state.pending_count(), 4);
    state.refresh(utxos(20), 101 * SEC);
    assert_eq!(indices(&send(&mut state, 1, 4, 101 * SEC)), vec![2]);
}

#[test]
fn accepted_outputs_are_never_offered_again() {
    let mut state = started(20, 0);
    let accepted = send(&mut state, 5, 0, 100 * SEC)[2].outpoint;
    state.on_answer(accepted, true);
    assert_eq!(state.spent_count(), 1);
    assert_eq!(state.sent_count(), 1);
    assert_eq!(state.pending_count(), 5);
    // long after every reservation has been dropped
    let late = 100 * SEC + 7200 * SEC;
    state.refresh(utxos(20), late);
    send(&mut state, 1, 0, late);
    state.refresh(utxos(20), late);
    assert_eq!(state.pending_count(), 1);
    assert_eq!(state.utxos_left(), 18);
    let offered = indices(&send(&mut state, 20, 0, late));
    assert!(!offered.contains(&accepted.index));
    assert!(offered.contains(&0));
}

#[test]
fn reservations_are_dropped_after_an_hour() {
    let mut state = started(60, 0);
    send(&mut state, 5, 0, 100 * SEC);
    let hour = 100 * SEC + 3600 * SEC;
    send(&mut state, 1, 0, hour);
    assert_eq!(state.pending_count(), 6);
    send(&mut state, 1, 0, hour + 1);
    assert_eq!(state.pending_count(), 2);
    state.refresh(utxos(60), hour + 1);
    assert_eq!(indices(&send(&mut state, 6, 0, hour + 1)), vec![0, 1, 2, 3, 4, 7]);
}

#[test]
fn answer_to_an_unknown_submission_is_harmless() {
    let mut state = started(20, 0);
    state.on_answer(utxo(19, 0).outpoint, false);
    assert_eq!(state.pending_count(), 0);
    assert_eq!(state.sent_count(), 0);
}

#[test]
fn report_counts_since_the_last_one() {
    let mut state = started(20, 0);
    let sent = send(&mut state, 6, 0, 100 * SEC);
    state.on_answer(sent[0].outpoint, true);
    state.on_answer(sent[1].outpoint, true);
    state.on_answer(sent[2].outpoint, false);
    let first = StatsReport {
        elapsed_nanos: 2 * SEC + 7,
        sent: 2,
        pending: 5,
        utxos_left: 14,
        runtime_secs: 2,
    };
    assert_eq!(state.report(102 * SEC + 7), first);
    let second =
        StatsReport { elapsed_nanos: SEC, sent: 0, pending: 5, utxos_left: 14, runtime_secs: 3 };
    assert_eq!(state.report(103 * SEC + 7), second);
}
