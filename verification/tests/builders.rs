use kaspa_consensus_core::constants::TX_VERSION as CORE_TX_VERSION;
use kaspa_consensus_core::hashing::sighash::{calc_schnorr_signature_hash, SigHashReusedValues};
use kaspa_consensus_core::hashing::sighash_type::SIG_HASH_ALL;
use kaspa_consensus_core::sign::verify;
use kaspa_consensus_core::subnets::SUBNETWORK_ID_NATIVE;
use kaspa_consensus_core::tx::{
    MutableTransaction, ScriptPublicKey as CoreScript, Transaction as CoreTransaction,
    TransactionId, TransactionInput as CoreInput, TransactionOutpoint,
    TransactionOutput as CoreOutput, UtxoEntry as CoreEntry,
};
use secp256k1::{schnorr::Signature, Message, XOnlyPublicKey};
use tx_gen::builders::{create_spam_transaction, create_splitting_transaction};
use tx_gen::keys::SecretKey;
use tx_gen::tx::{
    Address, AddressPrefix, AddressVersion, Outpoint, ScriptPublicKey, Transaction, Utxo,
    UtxoEntry, TX_VERSION,
};

const KEY: &str = "b7e151628aed2a6abf7158809cf4f3c762e7160f38b4da56a784d9045190cfef";
const OTHER_KEY: &str = "c90fdaa22168c234c4c6628b80dc1cd129024e088a67cc74020bbea63b14e5c9";

fn key(text: &str) -> SecretKey {
    SecretKey::from_hex(text).ok().unwrap()
}

fn address() -> Address {
    key(KEY).address(AddressPrefix::Testnet)
}

fn script(address: &Address) -> ScriptPublicKey {
    let mut script = vec![0x20];
    script.extend_from_slice(&address.payload);
    script.push(0xac);
    ScriptPublicKey { version: 0, script }
}

fn utxo(amount: u64) -> Utxo {
    Utxo {
        outpoint: Outpoint { transaction_id: [0xab; 32], index: 7 },
        entry: UtxoEntry {
            amount,
            script_public_key: script(&address()),
            block_daa_score: 55,
            is_coinbase: false,
        },
    }
}

fn core_script(script: &ScriptPublicKey) -> CoreScript {
    CoreScript::from_vec(script.version, script.script.clone())
}

fn core_transaction(tx: &Transaction) -> CoreTransaction {
    let inputs = tx
        .inputs
        .iter()
        .map(|i| CoreInput {
            previous_outpoint: TransactionOutpoint {
                transaction_id: TransactionId::from_bytes(i.previous_outpoint.transaction_id),
                index: i.previous_outpoint.index,
            },
            signature_script: i.signature_script.clone(),
            sequence: i.sequence,
            sig_op_count: i.sig_op_count,
        })
        .collect();
    let outputs = tx
        .outputs
        .iter()
        .map(|o| CoreOutput { value: o.value, script_public_key: core_script(&o.script_public_key) })
        .collect();
    CoreTransaction::new(
        tx.version,
        inputs,
        outputs,
        tx.lock_time,
        SUBNETWORK_ID_NATIVE,
        tx.gas,
        tx.payload.clone(),
    )
}

fn core_entry(entry: &UtxoEntry) -> CoreEntry {
    CoreEntry {
        amount: entry.amount,
        script_public_key: core_script(&entry.script_public_key),
        block_daa_score: entry.block_daa_score,
        is_coinbase: entry.is_coinbase,
    }
}

fn accepted(tx: &Transaction, entry: &UtxoEntry) -> bool {
    let signed = MutableTransaction::with_entries(core_transaction(tx), vec![core_entry(entry)]);
    let verdict = verify(&signed.as_verifiable());
    verdict.is_ok()
}

fn values(tx: &Transaction) -> Vec<u64> {
    tx.outputs.iter().map(|o| o.value).collect()
}

#[test]
fn payment_spends_one_output_on_one() {
    let spent = utxo(5_000_000);
    let tx = create_spam_transaction(&key(KEY), &spent, 4_998_300, &address());
    assert_eq!(tx.version, 0);
    assert_eq!(tx.inputs.len(), 1);
    assert_eq!(tx.inputs[0].previous_outpoint, spent.outpoint);
    assert_eq!(tx.inputs[0].sequence, 0);
    assert_eq!(tx.inputs[0].sig_op_count, 1);
    assert_eq!(values(&tx), vec![4_998_300]);
    assert_eq!(tx.outputs[0].script_public_key, script(&address()));
    assert_eq!(tx.lock_time, 0);
    assert_eq!(tx.gas, 0);
    assert!(tx.payload.is_empty());
}

#[test]
fn transactions_are_of_the_native_subnetwork() {
    let tx = create_spam_transaction(&key(KEY), &utxo(5_000_000), 1, &address());
    assert_eq!(&tx.subnetwork_id, <_ as AsRef<[u8; 20]>>::as_ref(&SUBNETWORK_ID_NATIVE));
    assert_eq!(TX_VERSION, CORE_TX_VERSION);
}

#[test]
fn signature_is_pushed_with_its_hash_type() {
    let tx = create_spam_transaction(&key(KEY), &utxo(5_000_000), 4_998_300, &address());
    let script = &tx.inputs[0].signature_script;
    assert_eq!(script.len(), 66);
    assert_eq!(script[0], 65);
    assert_eq!(script[65], 1);
}

#[test]
fn own_output_can_be_spent() {
    let spent = utxo(5_000_000);
    let tx = create_spam_transaction(&key(KEY), &spent, 4_998_300, &address());
    assert!(accepted(&tx, &spent.entry));
    let split = create_splitting_transaction(&key(KEY), &spent, 1_000, 3, 2_000_000, &address());
    assert!(accepted(&split, &spent.entry));
}

#[test]
fn output_of_another_cannot_be_spent() {
    let spent = utxo(5_000_000);
    let tx = create_spam_transaction(&key(OTHER_KEY), &spent, 4_998_300, &address());
    assert!(!accepted(&tx, &spent.entry));
}

#[test]
fn signature_holds_under_the_key_that_signed() {
    // the entry belongs to another, so that its script does not name the key
    let spent = utxo(5_000_000);
    let tx = create_spam_transaction(&key(OTHER_KEY), &spent, 4_998_300, &address());
    let signable =
        MutableTransaction::with_entries(core_transaction(&tx), vec![core_entry(&spent.entry)]);
    let mut reused = SigHashReusedValues::new();
    let hash =
        calc_schnorr_signature_hash(&signable.as_verifiable(), 0, SIG_HASH_ALL, &mut reused);
    let message = Message::from_digest_slice(&hash.as_bytes()).unwrap();
    let signature = Signature::from_slice(&tx.inputs[0].signature_script[1..65]).unwrap();
    let holds = |text| {
        let payload = key(text).address(AddressPrefix::Devnet).payload;
        signature.verify(&message, &XOnlyPublicKey::from_slice(&payload).unwrap()).is_ok()
    };
    assert!(holds(OTHER_KEY));
    assert!(!holds(KEY));
}

#[test]
fn signature_covers_the_outputs() {
    let spent = utxo(5_000_000);
    let mut tx = create_spam_transaction(&key(KEY), &spent, 4_998_300, &address());
    tx.outputs[0].value -= 1;
    assert!(!accepted(&tx, &spent.entry));
}

#[test]
fn signature_covers_the_entry() {
    let mut spent = utxo(5_000_000);
    let tx = create_spam_transaction(&key(KEY), &spent, 4_998_300, &address());
    spent.entry.amount += 1;
    assert!(!accepted(&tx, &spent.entry));
}

#[test]
fn splitting_makes_equal_outputs_and_change() {
    let spent = utxo(10_000_000_000);
    let tx = create_splitting_transaction(&key(KEY), &spent, 150_000_000, 10, 8_499_983_000, &address());
    let mut expected = vec![150_000_000; 10];
    expected.push(8_499_983_000);
    assert_eq!(values(&tx), expected);
    assert!(tx.outputs.iter().all(|o| o.script_public_key == script(&address())));
    assert_eq!(tx.inputs.len(), 1);
    assert_eq!(tx.inputs[0].previous_outpoint, spent.outpoint);
}

#[test]
fn change_is_kept_from_the_minimum_on() {
    let change = |value| {
        let tx = create_splitting_transaction(&key(KEY), &utxo(1), 5, 2, value, &address());
        values(&tx)
    };
    assert_eq!(change(0), vec![5, 5]);
    assert_eq!(change(999_999), vec![5, 5]);
    assert_eq!(change(1_000_000), vec![5, 5, 1_000_000]);
    assert_eq!(change(1_000_001), vec![5, 5, 1_000_001]);
}

#[test]
fn scripts_of_the_kinds_of_addresses() {
    let pay = |version, payload: Vec<u8>| {
        let address = Address { prefix: AddressPrefix::Simnet, version, payload };
        let tx = create_spam_transaction(&key(KEY), &utxo(1), 1, &address);
        tx.outputs[0].script_public_key.clone()
    };
    let wrap = |before: &[u8], payload: &[u8], after: u8| {
        let mut script = before.to_vec();
        script.extend_from_slice(payload);
        script.push(after);
        ScriptPublicKey { version: 0, script }
    };
    assert_eq!(pay(AddressVersion::PubKey, vec![9; 32]), wrap(&[0x20], &[9; 32], 0xac));
    assert_eq!(pay(AddressVersion::PubKeyECDSA, vec![8; 33]), wrap(&[0x21], &[8; 33], 0xab));
    assert_eq!(pay(AddressVersion::ScriptHash, vec![7; 32]), wrap(&[0xaa, 0x20], &[7; 32], 0x87));
}
