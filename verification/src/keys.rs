//! The key that the generator signs with, and the address that belongs to it.
use vstd::prelude::*;

use crate::chain::{
    hex_bytes, is_secret_key, is_secret_key_text, parse_secret_key, x_only_public_key,
    x_only_public_key_of,
};
use crate::tx::{Address, AddressPrefix, AddressVersion, AddressView};

verus! {

/// The text does not spell a secret key.
#[derive(Clone, Copy, Debug, PartialEq, Eq, Structural)]
pub struct InvalidSecretKey;

/// A secret key. Its view is its bytes, which are always a valid key.
pub struct SecretKey {
    bytes: [u8; 32],
}

impl View for SecretKey {
    type V = Seq<u8>;

    closed spec fn view(&self) -> Seq<u8> {
        self.bytes@
    }
}

impl SecretKey {
    #[verifier::type_invariant]
    spec fn valid(self) -> bool {
        is_secret_key(self.bytes@)
    }

    /// Reads a key from its hexadecimal text.
    pub fn from_hex(text: &str) -> (key: Result<SecretKey, InvalidSecretKey>)
        ensures
            key is Ok <==> is_secret_key_text(text@),
            key matches Ok(key) ==> key@ == hex_bytes(text@),
    {
        match parse_secret_key(text) {
            Ok(bytes) => Ok(SecretKey { bytes }),
            Err(_) => Err(InvalidSecretKey),
        }
    }

    /// The bytes of the key.
    pub fn bytes(&self) -> (bytes: &[u8; 32])
        ensures
            bytes@ == self@,
            is_secret_key(bytes@),
    {
        proof {
            use_type_invariant(self);
        }
        &self.bytes
    }

    /// The address that the key can spend from, on the network of the prefix.
    pub fn address(&self, prefix: AddressPrefix) -> (address: Address)
        ensures
            address@ == address_of(self@, prefix),
            address@.well_formed(),
    {
        let public_key = x_only_public_key(self.bytes());
        let mut payload: Vec<u8> = Vec::new();
        let mut i: usize = 0;
        while i < 32
            invariant
                0 <= i <= 32,
                payload@ == public_key@.take(i as int),
            decreases 32 - i,
        {
            payload.push(public_key[i]);
            i += 1;
        }
        assert(payload@ =~= public_key@);
        Address { prefix, version: AddressVersion::PubKey, payload }
    }
}

/// The address of a secret key on the network of the prefix: its x-only public key.
pub open spec fn address_of(secret_key: Seq<u8>, prefix: AddressPrefix) -> AddressView {
    AddressView {
        prefix,
        version: AddressVersion::PubKey,
        payload: x_only_public_key_of(secret_key),
    }
}

/// The address of a key is its public key, on the network that was asked for.
pub proof fn address_names_the_key(secret_key: Seq<u8>, prefix: AddressPrefix)
    ensures
        address_of(secret_key, prefix).prefix == prefix,
        address_of(secret_key, prefix).version == AddressVersion::PubKey,
        address_of(secret_key, prefix).payload == x_only_public_key_of(secret_key),
{
}

} // verus!
