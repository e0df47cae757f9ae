//! Builds and signs the two kinds of transactions that the generator makes.
use vstd::prelude::*;

use crate::chain::{
    address_script, locked_to, script_of, signature_script, signature_verifies, with_signature,
    x_only_public_key_of,
};
use crate::config::MIN_CHANGE_SOMPI;
use crate::keys::{address_of, SecretKey};
use crate::tx::{
    output_views, Address, AddressPrefix, Outpoint, ScriptPublicKeyView, Transaction,
    TransactionInput, TransactionInputView, TransactionOutput, TransactionOutputView,
    TransactionView, Utxo, UtxoEntry, UtxoEntryView, TX_VERSION,
};

verus! {

/// The id of the native subnetwork.
pub open spec fn native_subnetwork() -> Seq<u8> {
    Seq::new(20, |i: int| 0u8)
}

/// The transaction, yet without a signature, that spends one outpoint on the outputs.
pub open spec fn unsigned_transaction(
    outpoint: Outpoint,
    outputs: Seq<TransactionOutputView>,
) -> TransactionView {
    TransactionView {
        version: TX_VERSION,
        inputs: seq![
            TransactionInputView {
                previous_outpoint: outpoint,
                signature_script: Seq::empty(),
                sequence: 0,
                sig_op_count: 1,
            },
        ],
        outputs,
        lock_time: 0,
        subnetwork_id: native_subnetwork(),
        gas: 0,
        payload: Seq::empty(),
    }
}

/// The outputs of a splitting transaction: equal ones, and the change where it is worth making.
pub open spec fn splitting_outputs(
    script: ScriptPublicKeyView,
    amount_per_output: u64,
    num_target_outputs: nat,
    change_value: u64,
) -> Seq<TransactionOutputView> {
    let equal = Seq::new(
        num_target_outputs,
        |i: int| TransactionOutputView { value: amount_per_output, script_public_key: script },
    );
    if change_value >= MIN_CHANGE_SOMPI {
        equal.push(TransactionOutputView { value: change_value, script_public_key: script })
    } else {
        equal
    }
}

/// The single output of a payment.
pub open spec fn spam_outputs(script: ScriptPublicKeyView, output_amount: u64) -> Seq<
    TransactionOutputView,
> {
    seq![TransactionOutputView { value: output_amount, script_public_key: script }]
}

/// Whether `tx` is the transaction `unsigned`, which spends the entry with its one input, signed
/// with the key: nothing but the signature was added, it has the form of a Schnorr signature over
/// the whole transaction, and it holds under the public key.
pub open spec fn is_signed(
    tx: TransactionView,
    unsigned: TransactionView,
    entry: UtxoEntryView,
    key: Seq<u8>,
) -> bool {
    &&& tx.unsigned() == unsigned
    &&& tx.inputs.len() == 1
    &&& tx.inputs[0].signature_script.len() == 66
    &&& tx.inputs[0].signature_script[0] == 65
    &&& tx.inputs[0].signature_script[65] == 1
    &&& signature_verifies(tx, entry, x_only_public_key_of(key))
}

/// Signs a transaction with one input that spends the entry.
fn sign_transaction(tx: Transaction, entry: &UtxoEntry, key: &SecretKey) -> (signed: Transaction)
    requires
        tx@.inputs.len() == 1,
        tx@.inputs[0].sig_op_count == 1,
        tx@.inputs[0].signature_script.len() == 0,
    ensures
        is_signed(signed@, tx@, entry@, key@),
{
    assert(tx@.inputs[0] == tx.inputs[0]@);
    let script = signature_script(tx.clone(), entry.clone(), key.bytes());
    let input = TransactionInput {
        previous_outpoint: tx.inputs[0].previous_outpoint,
        signature_script: script,
        sequence: tx.inputs[0].sequence,
        sig_op_count: tx.inputs[0].sig_op_count,
    };
    let mut inputs: Vec<TransactionInput> = Vec::new();
    inputs.push(input);
    let signed = Transaction {
        version: tx.version,
        inputs,
        outputs: tx.outputs,
        lock_time: tx.lock_time,
        subnetwork_id: tx.subnetwork_id,
        gas: tx.gas,
        payload: tx.payload,
    };
    proof {
        assert(signed@ =~= with_signature(tx@, script@));
        assert(tx@.inputs[0].signature_script =~= Seq::empty());
        assert(signed@.unsigned().inputs =~= tx@.inputs);
        assert(signed@.unsigned() =~= tx@);
    }
    signed
}

/// Makes the transaction, yet without a signature, that spends one outpoint on the outputs.
fn new_transaction(outpoint: Outpoint, outputs: Vec<TransactionOutput>) -> (tx: Transaction)
    ensures
        tx@ == unsigned_transaction(outpoint, output_views(outputs@)),
{
    let mut inputs: Vec<TransactionInput> = Vec::new();
    inputs.push(
        TransactionInput {
            previous_outpoint: outpoint,
            signature_script: Vec::new(),
            sequence: 0,
            sig_op_count: 1,
        },
    );
    let tx = Transaction {
        version: TX_VERSION,
        inputs,
        outputs,
        lock_time: 0,
        subnetwork_id: [0u8; 20],
        gas: 0,
        payload: Vec::new(),
    };
    proof {
        assert(tx@.subnetwork_id =~= native_subnetwork());
        assert(tx@ =~= unsigned_transaction(outpoint, output_views(outputs@)));
    }
    tx
}

/// Spends the output on `num_target_outputs` outputs of `amount_per_output` to the address, and
/// on one of `change_value` where that is at least [`MIN_CHANGE_SOMPI`].
pub fn create_splitting_transaction(
    key: &SecretKey,
    utxo: &Utxo,
    amount_per_output: u64,
    num_target_outputs: usize,
    change_value: u64,
    address: &Address,
) -> (tx: Transaction)
    requires
        address@.well_formed(),
        num_target_outputs < usize::MAX,
    ensures
        is_signed(
            tx@,
            unsigned_transaction(
                utxo.outpoint,
                splitting_outputs(
                    script_of(address@),
                    amount_per_output,
                    num_target_outputs as nat,
                    change_value,
                ),
            ),
            utxo.entry@,
            key@,
        ),
{
    let script = address_script(address);
    let mut outputs: Vec<TransactionOutput> = Vec::new();
    let mut i: usize = 0;
    while i < num_target_outputs
        invariant
            0 <= i <= num_target_outputs,
            script@ == script_of(address@),
            outputs.len() == i,
            forall|j: int|
                0 <= j < i ==> (#[trigger] outputs[j])@ == (TransactionOutputView {
                    value: amount_per_output,
                    script_public_key: script_of(address@),
                }),
        decreases num_target_outputs - i,
    {
        outputs.push(
            TransactionOutput { value: amount_per_output, script_public_key: script.clone() },
        );
        i += 1;
    }
    if change_value >= MIN_CHANGE_SOMPI {
        outputs.push(TransactionOutput { value: change_value, script_public_key: script });
    }
    proof {
        assert(output_views(outputs@) =~= splitting_outputs(
            script_of(address@),
            amount_per_output,
            num_target_outputs as nat,
            change_value,
        ));
    }
    sign_transaction(new_transaction(utxo.outpoint, outputs), &utxo.entry, key)
}

/// Spends the output on a single one of `output_amount` to the address.
pub fn create_spam_transaction(
    key: &SecretKey,
    utxo: &Utxo,
    output_amount: u64,
    address: &Address,
) -> (tx: Transaction)
    requires
        address@.well_formed(),
    ensures
        is_signed(
            tx@,
            unsigned_transaction(
                utxo.outpoint,
                spam_outputs(script_of(address@), output_amount),
            ),
            utxo.entry@,
            key@,
        ),
{
    let mut outputs: Vec<TransactionOutput> = Vec::new();
    outputs.push(
        TransactionOutput { value: output_amount, script_public_key: address_script(address) },
    );
    proof {
        assert(output_views(outputs@) =~= spam_outputs(script_of(address@), output_amount));
    }
    sign_transaction(new_transaction(utxo.outpoint, outputs), &utxo.entry, key)
}

/// An output that pays the address of a key is locked to that key: what the key signs to spend
/// it holds under the key that is found in its script.
pub proof fn own_outputs_are_spendable(
    key: Seq<u8>,
    prefix: AddressPrefix,
    tx: TransactionView,
    unsigned: TransactionView,
    entry: UtxoEntryView,
)
    requires
        address_of(key, prefix).well_formed(),
        entry.script_public_key == script_of(address_of(key, prefix)),
        is_signed(tx, unsigned, entry, key),
    ensures
        signature_verifies(tx, entry, locked_to(entry)),
{
    let address = address_of(key, prefix);
    assert(script_of(address).script.subrange(1, 33) =~= address.payload);
}

/// A transaction that is signed spends the one outpoint on the outputs, carries nothing else, and
/// its signature holds under the public key of the key.
pub proof fn signed_transaction_in_full(
    tx: TransactionView,
    outpoint: Outpoint,
    outputs: Seq<TransactionOutputView>,
    entry: UtxoEntryView,
    key: Seq<u8>,
)
    requires
        is_signed(tx, unsigned_transaction(outpoint, outputs), entry, key),
    ensures
        tx.version == 0,
        tx.inputs.len() == 1,
        tx.inputs[0].previous_outpoint == outpoint,
        tx.inputs[0].sequence == 0,
        tx.inputs[0].sig_op_count == 1,
        tx.inputs[0].signature_script.len() == 66,
        tx.inputs[0].signature_script[0] == 65,
        tx.inputs[0].signature_script[65] == 1,
        tx.outputs == outputs,
        tx.lock_time == 0,
        tx.subnetwork_id.len() == 20,
        forall|i: int| 0 <= i < 20 ==> #[trigger] tx.subnetwork_id[i] == 0,
        tx.gas == 0,
        tx.payload.len() == 0,
        signature_verifies(tx, entry, x_only_public_key_of(key)),
{
    let unsigned = unsigned_transaction(outpoint, outputs);
    assert(tx.unsigned().inputs[0] == unsigned.inputs[0]);
}

/// A splitting transaction makes as many equal outputs as it is asked for, and behind them the
/// change, where it is at least a hundredth of a KAS; all of them pay the script.
pub proof fn splitting_outputs_in_full(
    script: ScriptPublicKeyView,
    amount_per_output: u64,
    num_target_outputs: nat,
    change_value: u64,
)
    ensures
        ({
            let outputs = splitting_outputs(
                script,
                amount_per_output,
                num_target_outputs,
                change_value,
            );
            let n = num_target_outputs as int;
            &&& outputs.len() == (if change_value >= 1_000_000 {
                n + 1
            } else {
                n
            })
            &&& forall|i: int|
                0 <= i < outputs.len() ==> (#[trigger] outputs[i]).script_public_key == script
                    && outputs[i].value == (if i < n {
                    amount_per_output
                } else {
                    change_value
                })
        }),
{
}

/// A payment makes one output of the amount, which pays the script.
pub proof fn spam_outputs_in_full(script: ScriptPublicKeyView, output_amount: u64)
    ensures
        spam_outputs(script, output_amount).len() == 1,
        spam_outputs(script, output_amount)[0].value == output_amount,
        spam_outputs(script, output_amount)[0].script_public_key == script,
{
}

} // verus!
