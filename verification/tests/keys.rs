use kaspa_addresses::{Address as CoreAddress, Prefix, Version};
use tx_gen::keys::{InvalidSecretKey, SecretKey};
use tx_gen::tx::{AddressPrefix, AddressVersion};

const ONE: &str = "0000000000000000000000000000000000000000000000000000000000000001";

/// The x coordinate of the generator of the group: the public key of 1.
const GENERATOR: [u8; 32] = [
    0x79, 0xbe, 0x66, 0x7e, 0xf9, 0xdc, 0xbb, 0xac, 0x55, 0xa0, 0x62, 0x95, 0xce, 0x87, 0x0b, 0x07,
    0x02, 0x9b, 0xfc, 0xdb, 0x2d, 0xce, 0x28, 0xd9, 0x59, 0xf2, 0x81, 0x5b, 0x16, 0xf8, 0x17, 0x98,
];

fn rejected(text: &str) -> bool {
    matches!(SecretKey::from_hex(text), Err(InvalidSecretKey))
}

#[test]
fn key_is_the_bytes_of_its_text() {
    let text = "00ff10a5000000000000000000000000000000000000000000000000deadBEEF";
    let key = SecretKey::from_hex(text).ok().unwrap();
    let mut expected = [0u8; 32];
    expected[1] = 0xff;
    expected[2] = 0x10;
    expected[3] = 0xa5;
    expected[28..].copy_from_slice(&[0xde, 0xad, 0xbe, 0xef]);
    assert_eq!(*key.bytes(), expected);
}

#[test]
fn key_is_below_the_order_of_the_group() {
    let order = "fffffffffffffffffffffffffffffffebaaedce6af48a03bbfd25e8cd0364141";
    let below = "fffffffffffffffffffffffffffffffebaaedce6af48a03bbfd25e8cd0364140";
    assert!(rejected(order));
    assert!(!rejected(below));
    assert!(rejected("ffffffffffffffffffffffffffffffffffffffffffffffffffffffffffffffff"));
}

#[test]
fn key_is_not_zero() {
    assert!(rejected("0000000000000000000000000000000000000000000000000000000000000000"));
    assert!(!rejected(ONE));
}

#[test]
fn key_has_64_hexadecimal_digits() {
    assert!(rejected(""));
    assert!(rejected("ENTER PRIVATE KEY"));
    assert!(rejected(&ONE[1..]));
    assert!(rejected(&ONE[2..]));
    assert!(rejected(&format!("{ONE}0")));
    assert!(rejected(&format!("{ONE}00")));
    assert!(rejected("000000000000000000000000000000000000000000000000000000000000000g"));
    assert!(rejected("0x00000000000000000000000000000000000000000000000000000000000001"));
}

#[test]
fn address_is_the_public_key() {
    let key = SecretKey::from_hex(ONE).ok().unwrap();
    let address = key.address(AddressPrefix::Testnet);
    assert_eq!(address.prefix, AddressPrefix::Testnet);
    assert_eq!(address.version, AddressVersion::PubKey);
    assert_eq!(address.payload, GENERATOR.to_vec());
}

#[test]
fn address_has_the_prefix_of_its_network() {
    let key = SecretKey::from_hex(ONE).ok().unwrap();
    let text = |prefix, core| {
        let address = key.address(prefix);
        CoreAddress::new(core, Version::PubKey, &address.payload).to_string()
    };
    assert!(text(AddressPrefix::Mainnet, Prefix::Mainnet).starts_with("kaspa:"));
    assert!(text(AddressPrefix::Testnet, Prefix::Testnet).starts_with("kaspatest:"));
    assert!(text(AddressPrefix::Devnet, Prefix::Devnet).starts_with("kaspadev:"));
}
