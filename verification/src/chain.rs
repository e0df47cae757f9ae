//! What the Kaspa and secp256k1 libraries compute for the generator.
//!
//! Each function hands plain values over and plain values back. What it ensures is not proved
//! here: it is what the library behind it is known to do.
use std::str::FromStr;

use kaspa_addresses::{Address as CoreAddress, Prefix, Version};
use kaspa_consensus_core::sign::sign;
use kaspa_consensus_core::tx::{
    MutableTransaction, ScriptPublicKey as CoreScript, Transaction as CoreTransaction,
    TransactionInput as CoreInput, TransactionOutpoint as CoreOutpoint,
    TransactionOutput as CoreOutput, UtxoEntry as CoreEntry,
};
use kaspa_txscript::pay_to_address_script;
use secp256k1::{Keypair, SECP256K1};
use vstd::prelude::*;

use crate::text::{ascii_lowercase, ascii_lowercase_in_full};
use crate::tx::{
    Address, AddressPrefix, AddressVersion, AddressView, ScriptPublicKey, ScriptPublicKeyView,
    Transaction, TransactionInputView, TransactionView, UtxoEntry, UtxoEntryView,
};

verus! {

/// The error of the secp256k1 library.
#[verifier::external_type_specification]
#[verifier::external_body]
pub struct ExSecp256k1Error(secp256k1::Error);

/// Whether the character is a hexadecimal digit.
pub open spec fn is_hex_digit(c: char) -> bool {
    '0' <= c <= '9' || 'a' <= c <= 'f' || 'A' <= c <= 'F'
}

/// The value of a hexadecimal digit.
pub open spec fn hex_value(c: char) -> int {
    if '0' <= c <= '9' {
        c as int - '0' as int
    } else if 'a' <= c <= 'f' {
        c as int - 'a' as int + 10
    } else {
        c as int - 'A' as int + 10
    }
}

/// The bytes that pairs of hexadecimal digits stand for.
pub open spec fn hex_bytes(digits: Seq<char>) -> Seq<u8> {
    Seq::new(
        digits.len() / 2,
        |i: int| (16 * hex_value(digits[2 * i]) + hex_value(digits[2 * i + 1])) as u8,
    )
}

/// The number that bytes spell, most significant byte first.
pub open spec fn be_value(bytes: Seq<u8>) -> nat
    decreases bytes.len(),
{
    if bytes.len() == 0 {
        0
    } else {
        256 * be_value(bytes.drop_last()) + bytes.last() as nat
    }
}

/// The order of the secp256k1 group.
pub open spec fn curve_order() -> nat {
    0xffff_ffff_ffff_ffff_ffff_ffff_ffff_fffe_baae_dce6_af48_a03b_bfd2_5e8c_d036_4141nat
}

/// Whether the bytes are a secret key: a number between 0 and the order of the group.
pub open spec fn is_secret_key(bytes: Seq<u8>) -> bool {
    bytes.len() == 32 && 0 < be_value(bytes) < curve_order()
}

/// Whether the text spells a secret key in hexadecimal.
pub open spec fn is_secret_key_text(text: Seq<char>) -> bool {
    &&& text.len() == 64
    &&& forall|i: int| 0 <= i < 64 ==> is_hex_digit(#[trigger] text[i])
    &&& is_secret_key(hex_bytes(text))
}

/// `secp256k1::SecretKey::from_str`: reads 64 hexadecimal digits of either case, and accepts
/// them exactly when the number that they spell is a secret key. The key is those bytes.
#[verifier::external_body]
pub(crate) fn parse_secret_key(text: &str) -> (key: Result<[u8; 32], secp256k1::Error>)
    ensures
        key is Ok <==> is_secret_key_text(text@),
        key matches Ok(bytes) ==> bytes@ == hex_bytes(text@),
{
    secp256k1::SecretKey::from_str(text).map(|key| key.secret_bytes())
}

/// The x-only public key of a secret key: the x coordinate of its point.
pub uninterp spec fn x_only_public_key_of(secret_key: Seq<u8>) -> Seq<u8>;

/// `secp256k1::Keypair::from_secret_key` and `x_only_public_key`: the 32 bytes of the public
/// key depend on the secret key alone. That they are its point on the curve is not stated.
#[verifier::external_body]
pub(crate) fn x_only_public_key(secret_key: &[u8; 32]) -> (public_key: [u8; 32])
    requires
        is_secret_key(secret_key@),
    ensures
        public_key@ == x_only_public_key_of(secret_key@),
{
    let secret_key = secp256k1::SecretKey::from_slice(secret_key).unwrap();
    Keypair::from_secret_key(SECP256K1, &secret_key).x_only_public_key().0.serialize()
}

/// The script that pays an address: the payload between the opcodes of its version.
pub open spec fn script_of(address: AddressView) -> ScriptPublicKeyView {
    ScriptPublicKeyView {
        version: 0,
        script: match address.version {
            // OpData32, the public key, OpCheckSig
            AddressVersion::PubKey => seq![0x20u8] + address.payload + seq![0xacu8],
            // OpData33, the public key, OpCheckSigECDSA
            AddressVersion::PubKeyECDSA => seq![0x21u8] + address.payload + seq![0xabu8],
            // OpBlake2b, OpData32, the hash, OpEqual
            AddressVersion::ScriptHash => seq![0xaau8, 0x20u8] + address.payload + seq![0x87u8],
        },
    }
}

/// `kaspa_txscript::pay_to_address_script`: the standard script of the address.
#[verifier::external_body]
pub(crate) fn address_script(address: &Address) -> (script: ScriptPublicKey)
    requires
        address@.well_formed(),
    ensures
        script@ == script_of(address@),
{
    let prefix = match address.prefix {
        AddressPrefix::Mainnet => Prefix::Mainnet,
        AddressPrefix::Testnet => Prefix::Testnet,
        AddressPrefix::Simnet => Prefix::Simnet,
        AddressPrefix::Devnet => Prefix::Devnet,
    };
    let version = match address.version {
        AddressVersion::PubKey => Version::PubKey,
        AddressVersion::PubKeyECDSA => Version::PubKeyECDSA,
        AddressVersion::ScriptHash => Version::ScriptHash,
    };
    let script = pay_to_address_script(&CoreAddress::new(prefix, version, &address.payload));
    ScriptPublicKey { version: script.version(), script: script.script().to_vec() }
}

/// The id of a transaction.
pub uninterp spec fn transaction_id_of(tx: TransactionView) -> [u8; 32];

/// Whether the subnetwork is that of coinbase transactions.
pub open spec fn is_coinbase_subnetwork(id: Seq<u8>) -> bool {
    id =~= Seq::new(20, |i: int| if i == 0 { 1u8 } else { 0u8 })
}

/// `kaspa_consensus_core::tx::Transaction::new` and `id`: the id depends on the transaction
/// alone, and outside a coinbase not on its signatures. That it is a hash is not stated.
#[verifier::external_body]
pub(crate) fn transaction_id(tx: Transaction) -> (id: [u8; 32])
    ensures
        id == transaction_id_of(tx@),
        !is_coinbase_subnetwork(tx@.subnetwork_id) ==> id == transaction_id_of(tx@.unsigned()),
{
    CoreTransaction::new(
        tx.version,
        tx.inputs.into_iter().map(|i| CoreInput::new(CoreOutpoint::new(i.previous_outpoint.transaction_id.into(), i.previous_outpoint.index), i.signature_script, i.sequence, i.sig_op_count)).collect(),
        tx.outputs.into_iter().map(|o| CoreOutput::new(o.value, CoreScript::from_vec(o.script_public_key.version, o.script_public_key.script))).collect(),
        tx.lock_time,
        tx.subnetwork_id.into(),
        tx.gas,
        tx.payload,
    ).id().as_bytes()
}

/// The transaction with this script as the signature of its first input.
pub open spec fn with_signature(tx: TransactionView, script: Seq<u8>) -> TransactionView {
    TransactionView {
        inputs: tx.inputs.update(
            0,
            TransactionInputView { signature_script: script, ..tx.inputs[0] },
        ),
        ..tx
    }
}

/// Whether the signature of a transaction whose only input spends the entry holds under the public
/// key. `kaspa_consensus_core::sign::verify` checks just this, with the key that it finds in the
/// script of the entry.
pub uninterp spec fn signature_verifies(
    tx: TransactionView,
    entry: UtxoEntryView,
    public_key: Seq<u8>,
) -> bool;

/// The public key that `kaspa_consensus_core::sign::verify` finds in the script of an entry.
pub open spec fn locked_to(entry: UtxoEntryView) -> Seq<u8> {
    entry.script_public_key.script.subrange(1, 33)
}

/// `kaspa_consensus_core::sign::sign` on a transaction with one input: the script pushes 65 bytes,
/// a Schnorr signature and the byte of the hash type that covers the whole transaction. The
/// signature draws on random data, so two calls may differ; each holds under the public key of the
/// secret key.
#[verifier::external_body]
pub(crate) fn signature_script(tx: Transaction, entry: UtxoEntry, key: &[u8; 32]) -> (script: Vec<u8>)
    requires
        is_secret_key(key@),
        tx@.inputs.len() == 1,
        tx@.inputs[0].sig_op_count == 1,
    ensures
        script@.len() == 66,
        script@[0] == 65,
        script@[65] == 1,
        signature_verifies(with_signature(tx@, script@), entry@, x_only_public_key_of(key@)),
{
    sign(
        MutableTransaction::with_entries(
            CoreTransaction::new(
                tx.version,
                tx.inputs.into_iter().map(|i| CoreInput::new(CoreOutpoint::new(i.previous_outpoint.transaction_id.into(), i.previous_outpoint.index), i.signature_script, i.sequence, i.sig_op_count)).collect(),
                tx.outputs.into_iter().map(|o| CoreOutput::new(o.value, CoreScript::from_vec(o.script_public_key.version, o.script_public_key.script))).collect(),
                tx.lock_time,
                tx.subnetwork_id.into(),
                tx.gas,
                tx.payload
            ),
            vec![CoreEntry::new(entry.amount, CoreScript::from_vec(entry.script_public_key.version, entry.script_public_key.script), entry.block_daa_score, entry.is_coinbase)]
        ),
        Keypair::from_seckey_slice(SECP256K1, key).unwrap()
    ).tx.inputs.remove(0).signature_script
}

/// Different addresses are paid by different scripts: a script tells the kind of its address and
/// the payload.
pub proof fn scripts_tell_addresses_apart(a: AddressView, b: AddressView)
    requires
        a.well_formed(),
        b.well_formed(),
        script_of(a) == script_of(b),
    ensures
        a.version == b.version,
        a.payload == b.payload,
{
    let x = script_of(a).script;
    let y = script_of(b).script;
    assert(x[0] == y[0]);
    let skip: int = if a.version == AddressVersion::ScriptHash {
        2
    } else {
        1
    };
    assert(x.subrange(skip, skip + a.payload.len()) =~= a.payload);
    assert(y.subrange(skip, skip + b.payload.len()) =~= b.payload);
}

/// The standard scripts of the three kinds of addresses, byte by byte.
pub proof fn standard_scripts(address: AddressView)
    requires
        address.well_formed(),
    ensures
        ({
            let script = script_of(address).script;
            let n = script.len() as int;
            &&& script_of(address).version == 0
            &&& address.version == AddressVersion::PubKey ==> n == 34 && script[0] == 32
                && script[33] == 172 && script.subrange(1, 33) == address.payload
            &&& address.version == AddressVersion::PubKeyECDSA ==> n == 35 && script[0] == 33
                && script[34] == 171 && script.subrange(1, 34) == address.payload
            &&& address.version == AddressVersion::ScriptHash ==> n == 35 && script[0] == 170
                && script[1] == 32 && script[34] == 135 && script.subrange(2, 34)
                == address.payload
        }),
{
    let script = script_of(address).script;
    match address.version {
        AddressVersion::PubKey => {
            assert(script.subrange(1, 33) =~= address.payload);
        },
        AddressVersion::PubKeyECDSA => {
            assert(script.subrange(1, 34) =~= address.payload);
        },
        AddressVersion::ScriptHash => {
            assert(script.subrange(2, 34) =~= address.payload);
        },
    }
}

/// A hexadecimal digit of either case has its value, and no other character is one.
pub proof fn hex_digits_in_full(c: char)
    ensures
        is_hex_digit(c) <==> 48 <= c as int <= 57 || 65 <= c as int <= 70 || 97 <= c as int <= 102,
        48 <= c as int <= 57 ==> hex_value(c) == c as int - 48,
        65 <= c as int <= 70 ==> hex_value(c) == c as int - 55,
        97 <= c as int <= 102 ==> hex_value(c) == c as int - 87,
{
}

/// Two more digits are one more byte, behind the others.
pub proof fn hex_is_read_pair_by_pair(digits: Seq<char>, a: char, b: char)
    requires
        digits.len() % 2 == 0,
        is_hex_digit(a),
        is_hex_digit(b),
    ensures
        hex_bytes(Seq::empty()).len() == 0,
        hex_bytes(digits.push(a).push(b)) == hex_bytes(digits).push(
            (16 * hex_value(a) + hex_value(b)) as u8,
        ),
{
    let longer = digits.push(a).push(b);
    assert(longer.len() / 2 == digits.len() / 2 + 1);
    assert(hex_bytes(longer) =~= hex_bytes(digits).push((16 * hex_value(a) + hex_value(b)) as u8));
}

/// One more byte makes 256 times the number and the byte.
pub proof fn bytes_are_digits(bytes: Seq<u8>, byte: u8)
    ensures
        be_value(Seq::empty()) == 0,
        be_value(bytes.push(byte)) == 256 * be_value(bytes) + byte,
{
    assert(bytes.push(byte).drop_last() =~= bytes);
}

/// The text of a key has 64 hexadecimal digits, and its number is neither 0 nor as large as the
/// order of the group, which is 2 to the 256 less a number of 129 bits; every such text is one.
pub proof fn key_texts_in_full(text: Seq<char>)
    ensures
        is_secret_key_text(text) <==> text.len() == 64 && (forall|i: int|
            0 <= i < 64 ==> is_hex_digit(#[trigger] text[i])) && 0 < be_value(hex_bytes(text))
            && be_value(hex_bytes(text)) + 0x1_4551_2319_50b7_5fc4_402d_a173_2fc9_bebfnat
            < 0x1_0000_0000_0000_0000_0000_0000_0000_0000_0000_0000_0000_0000_0000_0000_0000_0000nat,
{
    if text.len() == 64 {
        assert(hex_bytes(text).len() == 32);
    }
}

/// Texts that differ in the case of their digits alone are the same key, or both are none.
pub proof fn key_texts_ignore_case(a: Seq<char>, b: Seq<char>)
    requires
        ascii_lowercase(a) == ascii_lowercase(b),
    ensures
        is_secret_key_text(a) <==> is_secret_key_text(b),
        is_secret_key_text(a) ==> hex_bytes(a) == hex_bytes(b),
{
    if is_secret_key_text(a) {
        same_digits(a, b);
    }
    if is_secret_key_text(b) {
        same_digits(b, a);
    }
}

/// Digits that differ in case alone spell the same bytes.
proof fn same_digits(a: Seq<char>, b: Seq<char>)
    requires
        ascii_lowercase(a) == ascii_lowercase(b),
        is_secret_key_text(a),
    ensures
        is_secret_key_text(b),
        hex_bytes(a) == hex_bytes(b),
{
    ascii_lowercase_in_full(a);
    ascii_lowercase_in_full(b);
    assert forall|i: int| 0 <= i < 64 implies is_hex_digit(#[trigger] b[i]) && hex_value(b[i])
        == hex_value(a[i]) by {
        assert(is_hex_digit(a[i]));
        let x = a[i] as int;
        let y = b[i] as int;
        assert(ascii_lowercase(a)[i] as int == if 65 <= x <= 90 {
            x + 32
        } else {
            x
        });
        assert(ascii_lowercase(b)[i] as int == if 65 <= y <= 90 {
            y + 32
        } else {
            y
        });
        hex_digits_in_full(a[i]);
        hex_digits_in_full(b[i]);
    }
    assert(hex_bytes(a) =~= hex_bytes(b));
}

} // verus!
