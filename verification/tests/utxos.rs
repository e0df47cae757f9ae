use tx_gen::keys::SecretKey;
use tx_gen::ordering::sort_by_amount;
use tx_gen::tx::{Address, AddressPrefix, Outpoint, ScriptPublicKey, Utxo, UtxoEntry};
use tx_gen::utxos::{
    is_utxo_spendable, largest_utxo, report_pays_only, spendable_utxos, total_balance,
    ReportedUtxo,
};

fn entry(amount: u64, block_daa_score: u64, is_coinbase: bool) -> UtxoEntry {
    let script_public_key = ScriptPublicKey { version: 0, script: vec![0x51] };
    UtxoEntry { amount, script_public_key, block_daa_score, is_coinbase }
}

fn utxo(tag: u8, amount: u64) -> Utxo {
    let outpoint = Outpoint { transaction_id: [tag; 32], index: 0 };
    Utxo { outpoint, entry: entry(amount, 0, false) }
}

fn address(tag: u8) -> Address {
    let text = format!("{:064x}", tag);
    SecretKey::from_hex(&text).ok().unwrap().address(AddressPrefix::Devnet)
}

fn reported(tag: u8, amount: u64, score: u64, is_coinbase: bool, owner: Option<u8>) -> ReportedUtxo {
    let outpoint = Outpoint { transaction_id: [tag; 32], index: 3 };
    ReportedUtxo {
        address: owner.map(address),
        utxo: Utxo { outpoint, entry: entry(amount, score, is_coinbase) },
    }
}

fn tags(utxos: &[Utxo]) -> Vec<u8> {
    utxos.iter().map(|u| u.outpoint.transaction_id[0]).collect()
}

#[test]
fn ordinary_output_needs_ten_confirmations() {
    assert!(is_utxo_spendable(&entry(1, 90, false), 100, 1000));
    assert!(!is_utxo_spendable(&entry(1, 91, false), 100, 1000));
    assert!(!is_utxo_spendable(&entry(1, 0, false), 9, 0));
    assert!(is_utxo_spendable(&entry(1, 0, false), 10, 0));
}

#[test]
fn coinbase_output_needs_its_maturity() {
    assert!(is_utxo_spendable(&entry(1, 900, true), 1000, 100));
    assert!(!is_utxo_spendable(&entry(1, 901, true), 1000, 100));
    assert!(is_utxo_spendable(&entry(1, 1000, true), 1000, 0));
    assert!(!is_utxo_spendable(&entry(1, 900, true), 1000, 2000));
}

#[test]
fn scores_at_the_limit_do_not_wrap() {
    assert!(!is_utxo_spendable(&entry(1, u64::MAX, false), u64::MAX, 100));
    assert!(!is_utxo_spendable(&entry(1, 1, true), u64::MAX, u64::MAX));
    assert!(is_utxo_spendable(&entry(1, 0, true), u64::MAX, u64::MAX));
}

#[test]
fn spendable_output_stays_spendable() {
    let young = entry(1, 50, false);
    assert!((0..60).all(|score| !is_utxo_spendable(&young, score, 100)));
    assert!((60..200).all(|score| is_utxo_spendable(&young, score, 100)));
}

#[test]
fn largest_come_first() {
    let sorted = sort_by_amount(&vec![utxo(1, 5), utxo(2, 9), utxo(3, 1), utxo(4, 7)]);
    assert_eq!(tags(&sorted), vec![2, 4, 1, 3]);
    assert_eq!(sorted[0], utxo(2, 9));
}

#[test]
fn equal_amounts_keep_their_order() {
    let sorted =
        sort_by_amount(&vec![utxo(1, 5), utxo(2, 5), utxo(3, 6), utxo(4, 5), utxo(5, 6)]);
    assert_eq!(tags(&sorted), vec![3, 5, 1, 2, 4]);
    assert_eq!(sort_by_amount(&vec![]), vec![]);
}

#[test]
fn long_lists_are_sorted_as_by_the_standard_library() {
    let mut state: u64 = 12345;
    let mut utxos: Vec<Utxo> = vec![];
    for tag in 0..200u8 {
        state = state.wrapping_mul(6364136223846793005).wrapping_add(1442695040888963407);
        utxos.push(utxo(tag, (state >> 33) % 20));
    }
    let mut expected = utxos.clone();
    expected.sort_by(|a, b| b.entry.amount.cmp(&a.entry.amount));
    assert_eq!(sort_by_amount(&utxos), expected);
}

#[test]
fn report_is_filtered_and_sorted() {
    let report = vec![
        reported(1, 10, 90, false, Some(7)),
        reported(2, 30, 95, false, None),
        reported(3, 20, 80, false, Some(7)),
        reported(4, 99, 50, true, None),
        reported(5, 20, 0, true, Some(7)),
    ];
    assert!(report_pays_only(&report, &address(7), 100, 100));
    let utxos = spendable_utxos(&report, &address(7), 100, 100);
    assert_eq!(tags(&utxos), vec![3, 5, 1]);
    assert_eq!(utxos[0], report[2].utxo);
}

#[test]
fn larger_maturity_drops_coinbase_outputs_only() {
    let report = vec![
        reported(1, 10, 500, false, Some(7)),
        reported(2, 40, 800, true, Some(7)),
        reported(3, 30, 100, true, Some(7)),
        reported(4, 30, 990, false, Some(7)),
        reported(5, 20, 700, true, Some(7)),
    ];
    let picked = |maturity| tags(&spendable_utxos(&report, &address(7), 1000, maturity));
    assert_eq!(picked(100), vec![2, 3, 4, 5, 1]);
    assert_eq!(picked(300), vec![3, 4, 5, 1]);
    assert_eq!(picked(301), vec![3, 4, 1]);
    assert_eq!(picked(1000), vec![4, 1]);
}

#[test]
fn report_of_other_addresses_is_noticed() {
    let foreign = vec![reported(1, 10, 90, false, Some(7)), reported(2, 10, 90, false, Some(8))];
    assert!(!report_pays_only(&foreign, &address(7), 100, 100));
    assert!(report_pays_only(&foreign, &address(7), 99, 100));
    let nameless = vec![reported(1, 10, 90, false, None)];
    assert!(!report_pays_only(&nameless, &address(7), 100, 100));
    assert!(report_pays_only(&vec![], &address(7), 100, 100));
}

#[test]
fn balance_is_the_sum() {
    assert_eq!(total_balance(&vec![]), 0);
    assert_eq!(total_balance(&vec![utxo(1, 5), utxo(2, 7)]), 12);
    assert_eq!(total_balance(&vec![utxo(1, u64::MAX)]), u64::MAX);
}

#[test]
fn last_of_the_largest_is_found() {
    assert_eq!(largest_utxo(&vec![utxo(1, 5)]), 0);
    assert_eq!(largest_utxo(&vec![utxo(1, 5), utxo(2, 9), utxo(3, 9), utxo(4, 2)]), 2);
    assert_eq!(largest_utxo(&vec![utxo(1, 9), utxo(2, 5)]), 0);
}
