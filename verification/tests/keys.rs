use solana_sdk::signature::{keypair_from_seed, Keypair as SdkKeypair, Signer};
use solana_simulation::account::{Pubkey, Signature};
use solana_simulation::error::Error;
use solana_simulation::keypair::Keypair;
use solana_simulation::keys::Keys;

fn seeded(n: u8) -> SdkKeypair {
    keypair_from_seed(&[n; 32]).unwrap()
}

fn taken_over(pair: &SdkKeypair) -> Keypair {
    Keypair::from_bytes(pair.to_bytes()).unwrap()
}

#[test]
fn keypairs_sign_like_the_sdk() {
    let sdk = seeded(3);
    let pair = taken_over(&sdk);
    assert_eq!(pair.to_bytes(), sdk.to_bytes());
    assert_eq!(pair.pubkey(), Pubkey(sdk.pubkey().to_bytes()));
    let signature = pair.sign_message(b"attack at dawn");
    let expected: [u8; 64] = sdk.sign_message(b"attack at dawn").into();
    assert_eq!(signature, Signature(expected));
    assert_ne!(signature, Signature::default());
    assert_ne!(signature, pair.sign_message(b"attack at noon"));
}

#[test]
fn keypairs_come_from_seeds() {
    let pair = Keypair::from_seed(&[7; 32]);
    assert_eq!(pair.to_bytes(), seeded(7).to_bytes());
    assert_eq!(pair.to_bytes()[..32], [7; 32]);
    assert_ne!(pair.to_bytes()[32..], [7; 32]);
}

#[test]
fn random_keypairs_are_keypairs() {
    let one = Keypair::new();
    let other = Keypair::new();
    assert!(Keypair::from_bytes(one.to_bytes()).is_some());
    assert_ne!(one.to_bytes(), other.to_bytes());
    assert!(SdkKeypair::from_bytes(&one.to_bytes()).is_ok());
}

#[test]
fn not_every_byte_string_is_a_keypair() {
    let mut refused = 0;
    for n in 0..16u8 {
        let mut bytes = seeded(1).to_bytes();
        bytes[32..].copy_from_slice(&[n; 32]);
        let accepted = SdkKeypair::from_bytes(&bytes).is_ok();
        assert_eq!(Keypair::from_bytes(bytes).is_some(), accepted);
        if !accepted {
            refused += 1;
        }
    }
    assert!(refused > 0);
}

#[test]
fn stored_keys_are_found() {
    let mut keys = Keys::new();
    assert_eq!(keys.get("payer").err(), Some(Error::MissingKey));
    keys.insert("payer", taken_over(&seeded(1)));
    keys.insert("other", taken_over(&seeded(2)));
    assert_eq!(keys.get("payer").unwrap().to_bytes(), seeded(1).to_bytes());
    keys.insert("payer", taken_over(&seeded(3)));
    assert_eq!(keys.get("payer").unwrap().to_bytes(), seeded(3).to_bytes());
    assert_eq!(keys.get("other").unwrap().to_bytes(), seeded(2).to_bytes());
    assert_eq!(keys.get("Payer").err(), Some(Error::MissingKey));
}

#[test]
fn addresses_of_stored_keys() {
    let mut keys = Keys::default();
    assert_eq!(keys.get_pubkey("payer"), Err(Error::MissingKey));
    keys.insert("payer", taken_over(&seeded(1)));
    assert_eq!(keys.get_pubkey("payer"), Ok(Pubkey(seeded(1).pubkey().to_bytes())));
    assert_eq!(Error::MissingKey.message(), "missing key: {k}");
}

#[test]
fn every_stored_key_is_walked_once() {
    let mut keys = Keys::new();
    assert!(keys.inner().values().is_empty());
    for n in 0..20u8 {
        keys.insert(&format!("key {n}"), taken_over(&seeded(n)));
    }
    let values = keys.inner().values();
    let mut seen: Vec<[u8; 64]> = values.iter().map(|pair| pair.to_bytes()).collect();
    let mut expected: Vec<[u8; 64]> = (0..20u8).map(|n| seeded(n).to_bytes()).collect();
    seen.sort();
    expected.sort();
    assert_eq!(seen, expected);
}

#[test]
fn table_can_be_changed_in_place() {
    let mut keys = Keys::new();
    keys.inner_mut().insert("payer", taken_over(&seeded(9)));
    assert_eq!(keys.inner().get("payer").unwrap().to_bytes(), seeded(9).to_bytes());
    assert!(keys.inner().get("other").is_none());
    assert_eq!(keys.get_pubkey("payer"), Ok(Pubkey(seeded(9).pubkey().to_bytes())));
}

#[test]
fn removed_keys_are_gone() {
    let mut keys = Keys::new();
    keys.insert("payer", taken_over(&seeded(1)));
    keys.insert("other", taken_over(&seeded(2)));
    let removed = keys.inner_mut().remove("payer").unwrap();
    assert_eq!(removed.to_bytes(), seeded(1).to_bytes());
    assert_eq!(keys.get("payer").err(), Some(Error::MissingKey));
    assert_eq!(keys.get("other").unwrap().to_bytes(), seeded(2).to_bytes());
    assert!(keys.inner_mut().remove("payer").is_none());
}

#[test]
fn one_keypair_under_two_names_is_walked_twice() {
    let mut keys = Keys::new();
    keys.insert("a", taken_over(&seeded(4)));
    keys.insert("b", taken_over(&seeded(4)));
    assert_eq!(keys.inner().values().len(), 2);
}
