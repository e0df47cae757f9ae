//! Transactions, the outputs that they spend, and the addresses that they pay.
//!
//! Every type here is plain data. Its view is the same data with byte vectors as sequences, so
//! that two values with the same view are the same transaction, output or address.
use vstd::prelude::*;

verus! {

/// The version of every transaction that the generator makes.
pub const TX_VERSION: u16 = 0;

/// Names one output of one transaction.
#[derive(Clone, Copy, Debug, PartialEq, Eq)]
pub struct Outpoint {
    pub transaction_id: [u8; 32],
    pub index: u32,
}

impl Outpoint {
    /// Whether the two name the same output.
    pub fn same(&self, other: &Outpoint) -> (same: bool)
        ensures
            same == (*self == *other),
    {
        if self.index != other.index {
            return false;
        }
        let mut i: usize = 0;
        while i < 32
            invariant
                0 <= i <= 32,
                self.index == other.index,
                forall|j: int| 0 <= j < i ==> self.transaction_id[j] == other.transaction_id[j],
            decreases 32 - i,
        {
            if self.transaction_id[i] != other.transaction_id[i] {
                return false;
            }
            i += 1;
        }
        assert(self.transaction_id =~= other.transaction_id);
        true
    }
}

/// The model of [`ScriptPublicKey`].
#[verifier::ext_equal]
pub struct ScriptPublicKeyView {
    pub version: u16,
    pub script: Seq<u8>,
}

/// The condition under which an output can be spent.
#[derive(Debug, PartialEq, Eq)]
pub struct ScriptPublicKey {
    pub version: u16,
    pub script: Vec<u8>,
}

impl View for ScriptPublicKey {
    type V = ScriptPublicKeyView;

    open spec fn view(&self) -> ScriptPublicKeyView {
        ScriptPublicKeyView { version: self.version, script: self.script@ }
    }
}

impl Clone for ScriptPublicKey {
    fn clone(&self) -> (copy: Self)
        ensures
            copy@ == self@,
    {
        let script = self.script.clone();
        assert(script@ =~= self.script@);
        ScriptPublicKey { version: self.version, script }
    }
}

/// The model of [`UtxoEntry`].
#[verifier::ext_equal]
pub struct UtxoEntryView {
    pub amount: u64,
    pub script_public_key: ScriptPublicKeyView,
    pub block_daa_score: u64,
    pub is_coinbase: bool,
}

/// What is known of an unspent output.
#[derive(Debug, PartialEq, Eq)]
pub struct UtxoEntry {
    pub amount: u64,
    pub script_public_key: ScriptPublicKey,
    pub block_daa_score: u64,
    pub is_coinbase: bool,
}

impl View for UtxoEntry {
    type V = UtxoEntryView;

    open spec fn view(&self) -> UtxoEntryView {
        UtxoEntryView {
            amount: self.amount,
            script_public_key: self.script_public_key@,
            block_daa_score: self.block_daa_score,
            is_coinbase: self.is_coinbase,
        }
    }
}

impl Clone for UtxoEntry {
    fn clone(&self) -> (copy: Self)
        ensures
            copy@ == self@,
    {
        UtxoEntry {
            amount: self.amount,
            script_public_key: self.script_public_key.clone(),
            block_daa_score: self.block_daa_score,
            is_coinbase: self.is_coinbase,
        }
    }
}

/// The model of [`Utxo`].
#[verifier::ext_equal]
pub struct UtxoView {
    pub outpoint: Outpoint,
    pub entry: UtxoEntryView,
}

/// An unspent output and where it is found.
#[derive(Debug, PartialEq, Eq)]
pub struct Utxo {
    pub outpoint: Outpoint,
    pub entry: UtxoEntry,
}

impl View for Utxo {
    type V = UtxoView;

    open spec fn view(&self) -> UtxoView {
        UtxoView { outpoint: self.outpoint, entry: self.entry@ }
    }
}

impl Clone for Utxo {
    fn clone(&self) -> (copy: Self)
        ensures
            copy@ == self@,
    {
        Utxo { outpoint: self.outpoint, entry: self.entry.clone() }
    }
}

/// The models of a list of outputs.
pub open spec fn utxo_views(utxos: Seq<Utxo>) -> Seq<UtxoView> {
    utxos.map_values(|u: Utxo| u@)
}

/// The model of [`TransactionInput`].
#[verifier::ext_equal]
pub struct TransactionInputView {
    pub previous_outpoint: Outpoint,
    pub signature_script: Seq<u8>,
    pub sequence: u64,
    pub sig_op_count: u8,
}

/// An input of a transaction.
#[derive(Debug, PartialEq, Eq)]
pub struct TransactionInput {
    pub previous_outpoint: Outpoint,
    pub signature_script: Vec<u8>,
    pub sequence: u64,
    pub sig_op_count: u8,
}

impl View for TransactionInput {
    type V = TransactionInputView;

    open spec fn view(&self) -> TransactionInputView {
        TransactionInputView {
            previous_outpoint: self.previous_outpoint,
            signature_script: self.signature_script@,
            sequence: self.sequence,
            sig_op_count: self.sig_op_count,
        }
    }
}

impl Clone for TransactionInput {
    fn clone(&self) -> (copy: Self)
        ensures
            copy@ == self@,
    {
        let signature_script = self.signature_script.clone();
        assert(signature_script@ =~= self.signature_script@);
        TransactionInput {
            previous_outpoint: self.previous_outpoint,
            signature_script,
            sequence: self.sequence,
            sig_op_count: self.sig_op_count,
        }
    }
}

/// The model of [`TransactionOutput`].
#[verifier::ext_equal]
pub struct TransactionOutputView {
    pub value: u64,
    pub script_public_key: ScriptPublicKeyView,
}

/// An output of a transaction.
#[derive(Debug, PartialEq, Eq)]
pub struct TransactionOutput {
    pub value: u64,
    pub script_public_key: ScriptPublicKey,
}

impl View for TransactionOutput {
    type V = TransactionOutputView;

    open spec fn view(&self) -> TransactionOutputView {
        TransactionOutputView { value: self.value, script_public_key: self.script_public_key@ }
    }
}

impl Clone for TransactionOutput {
    fn clone(&self) -> (copy: Self)
        ensures
            copy@ == self@,
    {
        TransactionOutput {
            value: self.value,
            script_public_key: self.script_public_key.clone(),
        }
    }
}

/// The model of [`Transaction`].
#[verifier::ext_equal]
pub struct TransactionView {
    pub version: u16,
    pub inputs: Seq<TransactionInputView>,
    pub outputs: Seq<TransactionOutputView>,
    pub lock_time: u64,
    pub subnetwork_id: Seq<u8>,
    pub gas: u64,
    pub payload: Seq<u8>,
}

impl TransactionView {
    /// The same transaction with every signature taken out.
    pub open spec fn unsigned(self) -> TransactionView {
        TransactionView {
            inputs: self.inputs.map_values(
                |input: TransactionInputView|
                    TransactionInputView { signature_script: Seq::empty(), ..input },
            ),
            ..self
        }
    }
}

/// A transaction.
#[derive(Debug, PartialEq, Eq)]
pub struct Transaction {
    pub version: u16,
    pub inputs: Vec<TransactionInput>,
    pub outputs: Vec<TransactionOutput>,
    pub lock_time: u64,
    pub subnetwork_id: [u8; 20],
    pub gas: u64,
    pub payload: Vec<u8>,
}

/// The models of a list of inputs.
pub open spec fn input_views(inputs: Seq<TransactionInput>) -> Seq<TransactionInputView> {
    inputs.map_values(|i: TransactionInput| i@)
}

/// The models of a list of outputs of a transaction.
pub open spec fn output_views(outputs: Seq<TransactionOutput>) -> Seq<TransactionOutputView> {
    outputs.map_values(|o: TransactionOutput| o@)
}

impl View for Transaction {
    type V = TransactionView;

    open spec fn view(&self) -> TransactionView {
        TransactionView {
            version: self.version,
            inputs: input_views(self.inputs@),
            outputs: output_views(self.outputs@),
            lock_time: self.lock_time,
            subnetwork_id: self.subnetwork_id@,
            gas: self.gas,
            payload: self.payload@,
        }
    }
}

impl Clone for Transaction {
    fn clone(&self) -> (copy: Self)
        ensures
            copy@ == self@,
    {
        let mut inputs: Vec<TransactionInput> = Vec::new();
        let mut i: usize = 0;
        while i < self.inputs.len()
            invariant
                0 <= i <= self.inputs.len(),
                inputs.len() == i,
                forall|j: int| 0 <= j < i ==> (#[trigger] inputs[j])@ == self.inputs[j]@,
            decreases self.inputs.len() - i,
        {
            inputs.push(self.inputs[i].clone());
            i += 1;
        }
        let mut outputs: Vec<TransactionOutput> = Vec::new();
        let mut k: usize = 0;
        while k < self.outputs.len()
            invariant
                0 <= k <= self.outputs.len(),
                outputs.len() == k,
                forall|j: int| 0 <= j < k ==> (#[trigger] outputs[j])@ == self.outputs[j]@,
            decreases self.outputs.len() - k,
        {
            outputs.push(self.outputs[k].clone());
            k += 1;
        }
        let payload = self.payload.clone();
        assert(payload@ =~= self.payload@);
        assert(input_views(inputs@) =~= input_views(self.inputs@));
        assert(output_views(outputs@) =~= output_views(self.outputs@));
        Transaction {
            version: self.version,
            inputs,
            outputs,
            lock_time: self.lock_time,
            subnetwork_id: self.subnetwork_id,
            gas: self.gas,
            payload,
        }
    }
}

/// The network that an address belongs to.
#[derive(Clone, Copy, Debug, PartialEq, Eq, Structural)]
pub enum AddressPrefix {
    Mainnet,
    Testnet,
    Simnet,
    Devnet,
}

/// What the payload of an address is.
#[derive(Clone, Copy, Debug, PartialEq, Eq, Structural)]
pub enum AddressVersion {
    PubKey,
    PubKeyECDSA,
    ScriptHash,
}

impl AddressVersion {
    /// How long the payload of such an address is.
    pub open spec fn payload_len(self) -> nat {
        match self {
            AddressVersion::PubKey => 32,
            AddressVersion::PubKeyECDSA => 33,
            AddressVersion::ScriptHash => 32,
        }
    }
}

/// The model of [`Address`].
#[verifier::ext_equal]
pub struct AddressView {
    pub prefix: AddressPrefix,
    pub version: AddressVersion,
    pub payload: Seq<u8>,
}

impl AddressView {
    /// The payload is as long as the version says.
    pub open spec fn well_formed(self) -> bool {
        self.payload.len() == self.version.payload_len()
    }
}

/// Somebody who can be paid.
#[derive(Debug, PartialEq, Eq)]
pub struct Address {
    pub prefix: AddressPrefix,
    pub version: AddressVersion,
    pub payload: Vec<u8>,
}

impl View for Address {
    type V = AddressView;

    open spec fn view(&self) -> AddressView {
        AddressView { prefix: self.prefix, version: self.version, payload: self.payload@ }
    }
}

impl Clone for Address {
    fn clone(&self) -> (copy: Self)
        ensures
            copy@ == self@,
    {
        let payload = self.payload.clone();
        assert(payload@ =~= self.payload@);
        Address { prefix: self.prefix, version: self.version, payload }
    }
}

/// Transactions with the same view are the same, field by field.
pub proof fn transactions_are_told_by_their_views(a: Transaction, b: Transaction)
    requires
        a@ == b@,
    ensures
        a.version == b.version,
        a.lock_time == b.lock_time,
        a.subnetwork_id@ == b.subnetwork_id@,
        a.gas == b.gas,
        a.payload@ == b.payload@,
        a.inputs.len() == b.inputs.len(),
        forall|i: int|
            0 <= i < a.inputs.len() ==> {
                &&& (#[trigger] a.inputs[i]).previous_outpoint == b.inputs[i].previous_outpoint
                &&& a.inputs[i].signature_script@ == b.inputs[i].signature_script@
                &&& a.inputs[i].sequence == b.inputs[i].sequence
                &&& a.inputs[i].sig_op_count == b.inputs[i].sig_op_count
            },
        a.outputs.len() == b.outputs.len(),
        forall|i: int|
            0 <= i < a.outputs.len() ==> {
                &&& (#[trigger] a.outputs[i]).value == b.outputs[i].value
                &&& a.outputs[i].script_public_key.version
                    == b.outputs[i].script_public_key.version
                &&& a.outputs[i].script_public_key.script@
                    == b.outputs[i].script_public_key.script@
            },
{
    assert(a@.inputs.len() == a.inputs.len() && b@.inputs.len() == b.inputs.len());
    assert(a@.outputs.len() == a.outputs.len() && b@.outputs.len() == b.outputs.len());
    assert forall|i: int| 0 <= i < a.inputs.len() implies {
        &&& (#[trigger] a.inputs[i]).previous_outpoint == b.inputs[i].previous_outpoint
        &&& a.inputs[i].signature_script@ == b.inputs[i].signature_script@
        &&& a.inputs[i].sequence == b.inputs[i].sequence
        &&& a.inputs[i].sig_op_count == b.inputs[i].sig_op_count
    } by {
        assert(a@.inputs[i] == a.inputs[i]@ && b@.inputs[i] == b.inputs[i]@);
    }
    assert forall|i: int| 0 <= i < a.outputs.len() implies {
        &&& (#[trigger] a.outputs[i]).value == b.outputs[i].value
        &&& a.outputs[i].script_public_key.version == b.outputs[i].script_public_key.version
        &&& a.outputs[i].script_public_key.script@ == b.outputs[i].script_public_key.script@
    } by {
        assert(a@.outputs[i] == a.outputs[i]@ && b@.outputs[i] == b.outputs[i]@);
    }
}

/// What a view shows of a transaction is what the transaction holds.
pub proof fn transaction_views_are_faithful(tx: Transaction)
    ensures
        tx@.version == tx.version,
        tx@.inputs.len() == tx.inputs.len(),
        forall|i: int|
            0 <= i < tx.inputs.len() ==> {
                &&& (#[trigger] tx@.inputs[i]).previous_outpoint == tx.inputs[i].previous_outpoint
                &&& tx@.inputs[i].signature_script == tx.inputs[i].signature_script@
                &&& tx@.inputs[i].sequence == tx.inputs[i].sequence
                &&& tx@.inputs[i].sig_op_count == tx.inputs[i].sig_op_count
            },
        tx@.outputs.len() == tx.outputs.len(),
        forall|i: int|
            0 <= i < tx.outputs.len() ==> {
                &&& (#[trigger] tx@.outputs[i]).value == tx.outputs[i].value
                &&& tx@.outputs[i].script_public_key.version
                    == tx.outputs[i].script_public_key.version
                &&& tx@.outputs[i].script_public_key.script
                    == tx.outputs[i].script_public_key.script@
            },
        tx@.lock_time == tx.lock_time,
        tx@.subnetwork_id == tx.subnetwork_id@,
        tx@.gas == tx.gas,
        tx@.payload == tx.payload@,
{
}

/// What a view shows of an output is what is known of the output.
pub proof fn utxo_views_are_faithful(utxo: Utxo)
    ensures
        utxo@.outpoint.transaction_id == utxo.outpoint.transaction_id,
        utxo@.outpoint.index == utxo.outpoint.index,
        utxo@.entry.amount == utxo.entry.amount,
        utxo@.entry.script_public_key.version == utxo.entry.script_public_key.version,
        utxo@.entry.script_public_key.script == utxo.entry.script_public_key.script@,
        utxo@.entry.block_daa_score == utxo.entry.block_daa_score,
        utxo@.entry.is_coinbase == utxo.entry.is_coinbase,
{
}

/// The views of a list of outputs are those of its outputs, in order.
pub proof fn utxo_lists_are_viewed_in_order(utxos: Seq<Utxo>)
    ensures
        utxo_views(utxos).len() == utxos.len(),
        forall|i: int| 0 <= i < utxos.len() ==> #[trigger] utxo_views(utxos)[i] == utxos[i]@,
{
}

/// What a view shows of an address is what the address holds.
pub proof fn address_views_are_faithful(address: Address)
    ensures
        address@.prefix == address.prefix,
        address@.version == address.version,
        address@.payload == address.payload@,
{
}

/// An address is well-formed with a payload of 32 bytes, or of 33 for an ECDSA key.
pub proof fn payload_lengths(address: AddressView)
    ensures
        address.well_formed() <==> address.payload.len() == (if address.version
            == AddressVersion::PubKeyECDSA {
            33int
        } else {
            32int
        }),
{
}

/// Taking the signatures out leaves everything else as it is.
pub proof fn unsigned_keeps_the_rest(tx: TransactionView)
    ensures
        tx.unsigned().version == tx.version,
        tx.unsigned().outputs == tx.outputs,
        tx.unsigned().lock_time == tx.lock_time,
        tx.unsigned().subnetwork_id == tx.subnetwork_id,
        tx.unsigned().gas == tx.gas,
        tx.unsigned().payload == tx.payload,
        tx.unsigned().inputs.len() == tx.inputs.len(),
        forall|i: int|
            0 <= i < tx.inputs.len() ==> {
                let input = #[trigger] tx.unsigned().inputs[i];
                &&& input.previous_outpoint == tx.inputs[i].previous_outpoint
                &&& input.signature_script.len() == 0
                &&& input.sequence == tx.inputs[i].sequence
                &&& input.sig_op_count == tx.inputs[i].sig_op_count
            },
{
}

} // verus!
