use solana_sdk::hash::Hash as SdkHash;
use solana_sdk::instruction::{AccountMeta as SdkMeta, Instruction as SdkInstruction};
use solana_sdk::signature::{keypair_from_seed, Keypair as SdkKeypair, Signer};
use solana_sdk::transaction::Transaction as SdkTransaction;
use solana_simulation::account::{Blockhash, Pubkey, Signature};
use solana_simulation::error::Error;
use solana_simulation::keypair::Keypair;
use solana_simulation::message::{AccountMeta, Instruction, Message};
use solana_simulation::transaction::{
    place_signatures, sign_message_with, Offer, SignerError, Transaction,
};

fn seeded(n: u8) -> SdkKeypair {
    keypair_from_seed(&[n; 32]).unwrap()
}

fn pair(n: u8) -> Keypair {
    Keypair::from_seed(&[n; 32])
}

fn key(n: u8) -> Pubkey {
    Pubkey([n; 32])
}

fn signature(n: u8) -> Signature {
    Signature([n; 64])
}

fn asking_for(signers: &[u8]) -> Vec<Instruction> {
    vec![Instruction {
        program_id: key(200),
        accounts: signers
            .iter()
            .map(|n| AccountMeta {
                pubkey: pair(*n).pubkey(),
                is_signer: true,
                is_writable: false,
            })
            .collect(),
        data: vec![4, 2],
    }]
}

fn sdk_call(signers: &[u8]) -> SdkInstruction {
    SdkInstruction {
        program_id: [200; 32].into(),
        accounts: signers
            .iter()
            .map(|n| SdkMeta::new_readonly(seeded(*n).pubkey(), true))
            .collect(),
        data: vec![4, 2],
    }
}

fn message(required: u8, keys: &[u8]) -> Message {
    Message {
        num_required_signatures: required,
        account_keys: keys.iter().map(|n| key(*n)).collect(),
        data: vec![1, 2, 3],
    }
}

#[test]
fn unsigned_transactions_have_empty_places() {
    let transaction = Transaction::new_unsigned(message(3, &[1, 2, 3, 4]));
    assert_eq!(transaction.signatures, vec![Signature::default(); 3]);
    assert_eq!(transaction.signatures[0], signature(0));
}

#[test]
fn places_of_addresses() {
    let transaction = Transaction::new_unsigned(message(2, &[1, 2, 3]));
    let places = transaction
        .get_signing_keypair_positions(&vec![key(2), key(3), key(1), key(9)])
        .unwrap();
    assert_eq!(places, vec![Some(1), None, Some(0), None]);
}

#[test]
fn places_are_those_of_the_sdk() {
    let call = sdk_call(&[1, 2]);
    let theirs = SdkTransaction::new_with_payer(&[call], Some(&seeded(3).pubkey()));
    let ours = Transaction::new_unsigned(Message::new_with_blockhash(
        &asking_for(&[1, 2]),
        &pair(3).pubkey(),
        &Blockhash([0; 32]),
    ));
    assert_eq!(ours.signatures.len(), theirs.signatures.len());
    let asked = [2u8, 3, 9, 1];
    let positions = theirs
        .get_signing_keypair_positions(
            &asked.iter().map(|n| seeded(*n).pubkey()).collect::<Vec<_>>(),
        )
        .unwrap();
    assert_eq!(
        ours.get_signing_keypair_positions(&asked.iter().map(|n| pair(*n).pubkey()).collect()),
        Ok(positions)
    );
}

#[test]
fn places_of_addresses_that_occur_twice() {
    let transaction = Transaction::new_unsigned(message(3, &[1, 2, 2]));
    let places = transaction.get_signing_keypair_positions(&vec![key(2)]).unwrap();
    assert_eq!(places, vec![Some(1)]);
}

#[test]
fn overdrawn_messages_have_no_places() {
    let transaction = Transaction::new_unsigned(message(3, &[1, 2]));
    assert_eq!(
        transaction.get_signing_keypair_positions(&vec![]),
        Err(Error::InvalidAccountIndex)
    );
    assert_eq!(
        place_signatures(message(3, &[1, 2]), &vec![]).err(),
        Some(Error::InvalidAccountIndex)
    );
    assert_eq!(
        sign_message_with(message(3, &[1, 2]), &vec![], &vec![]).err(),
        Some(Error::InvalidAccountIndex)
    );
    assert_eq!(
        Error::InvalidAccountIndex.message(),
        "Transaction contains an invalid account reference"
    );
}

#[test]
fn signatures_are_put_in_their_places() {
    let offers: Vec<Offer> =
        vec![(key(2), signature(20)), (key(1), signature(10)), (key(2), signature(21))];
    let transaction = place_signatures(message(3, &[1, 2, 3, 4]), &offers).unwrap();
    assert_eq!(
        transaction.signatures,
        vec![signature(10), signature(21), Signature::default()]
    );
    assert_eq!(transaction.message.data, vec![1, 2, 3]);
}

#[test]
fn stray_signatures_are_refused() {
    let offers: Vec<Offer> = vec![(key(4), signature(40))];
    assert_eq!(
        place_signatures(message(3, &[1, 2, 3, 4]), &offers).err(),
        Some(Error::MissingSigner)
    );
    assert_eq!(Error::MissingSigner.message(), "missing signer");
}

#[test]
fn keypairs_and_replies_sign_a_message() {
    let one = pair(1);
    let other = pair(2);
    let third = pair(3);
    let message = Message {
        num_required_signatures: 3,
        account_keys: vec![one.pubkey(), other.pubkey(), third.pubkey(), key(9)],
        data: vec![5, 6, 7],
    };
    let replies: Vec<Offer> = vec![
        (other.pubkey(), signature(1)),
        (key(9), signature(9)),
        (other.pubkey(), signature(2)),
    ];
    let signed = sign_message_with(message, &vec![&other, &one], &replies).unwrap();
    assert_eq!(
        signed.signatures,
        vec![one.sign_message(&[5, 6, 7]), signature(2), Signature::default()]
    );
}

#[test]
fn signed_like_the_sdk() {
    let call = sdk_call(&[1, 2]);
    let expected = SdkTransaction::new_signed_with_payer(
        &[call],
        Some(&seeded(3).pubkey()),
        &[&seeded(2), &seeded(3), &seeded(1)],
        SdkHash::new_from_array([6; 32]),
    );
    let one = pair(1);
    let other = pair(2);
    let payer = pair(3);
    let transaction = Transaction::new_signed_with_payer(
        &asking_for(&[1, 2]),
        &payer.pubkey(),
        &vec![&other, &payer, &one],
        &Blockhash([6; 32]),
    );
    let signatures: Vec<[u8; 64]> = expected.signatures.iter().map(|s| (*s).into()).collect();
    let ours: Vec<[u8; 64]> = transaction.signatures.iter().map(|s| s.0).collect();
    assert_eq!(ours, signatures);
    assert_eq!(transaction.message.data, expected.message.serialize());
    assert!(expected.verify().is_ok());
}

#[test]
fn signing_fails_for_each_reason() {
    let one = pair(1);
    let other = pair(2);
    let payer = pair(3);
    let hash = Blockhash([6; 32]);
    let made = |instructions: &Vec<Instruction>, signers: &Vec<&Keypair>| {
        Transaction::try_new_signed_with_payer(instructions, &payer.pubkey(), signers, &hash)
    };
    assert!(made(&asking_for(&[1]), &vec![&one, &payer]).is_ok());
    assert_eq!(
        made(&asking_for(&[1]), &vec![&payer]).err(),
        Some(SignerError::NotEnoughSigners)
    );
    assert_eq!(
        made(&asking_for(&[1]), &vec![&one, &payer, &other]).err(),
        Some(SignerError::KeypairPubkeyMismatch)
    );
    assert_eq!(
        made(&asking_for(&[1]), &vec![&other]).err(),
        Some(SignerError::KeypairPubkeyMismatch)
    );
    let mut large = asking_for(&[1]);
    large[0].data = vec![0; 65536];
    assert_eq!(made(&large, &vec![&one, &payer]).err(), Some(SignerError::MessageTooLarge));
}
