use solana_sdk::hash::Hash as SdkHash;
use solana_sdk::instruction::{AccountMeta as SdkMeta, Instruction as SdkInstruction};
use solana_sdk::message::Message as SdkMessage;
use solana_sdk::signature::{keypair_from_seed, Keypair as SdkKeypair, Signer};
use solana_sdk::transaction::Transaction as SdkTransaction;
use solana_simulation::account::{Blockhash, Pubkey, Signature};
use solana_simulation::client::{Client, Context};
use solana_simulation::config::{
    optimistic_config, CommitmentLevel, RpcSendTransactionConfig,
};
use solana_simulation::error::Error;
use solana_simulation::keypair::Keypair;
use solana_simulation::message::{AccountMeta, Instruction};
use solana_simulation::network::Network;
use solana_simulation::transaction::Offer;

fn seeded(n: u8) -> SdkKeypair {
    keypair_from_seed(&[n; 32]).unwrap()
}

fn pair(n: u8) -> Keypair {
    Keypair::from_seed(&[n; 32])
}

fn own_config() -> RpcSendTransactionConfig {
    RpcSendTransactionConfig { max_retries: Some(2), ..RpcSendTransactionConfig::default() }
}

fn asking_for(signers: &[u8]) -> Vec<Instruction> {
    vec![Instruction {
        program_id: Pubkey([77; 32]),
        accounts: signers
            .iter()
            .map(|n| AccountMeta { pubkey: pair(*n).pubkey(), is_signer: true, is_writable: true })
            .collect(),
        data: vec![1],
    }]
}

fn expected_message(signers: &[u8], payer: u8) -> SdkMessage {
    let call = SdkInstruction {
        program_id: [77; 32].into(),
        accounts: signers.iter().map(|n| SdkMeta::new(seeded(*n).pubkey(), true)).collect(),
        data: vec![1],
    };
    SdkMessage::new_with_blockhash(
        &[call],
        Some(&seeded(payer).pubkey()),
        &SdkHash::new_from_array([5; 32]),
    )
}

#[test]
fn clients_of_networks() {
    let client = Client::new("devnet").unwrap();
    assert_eq!(client.endpoint(), Network::Devnet);
    assert_eq!(client.connection().url, "https://api.devnet.solana.com/");
    assert_eq!(client.connection().commitment, None);
    assert!(!client.has_payer());
    let client = Client::new("http://10.1.1.1").unwrap();
    assert_eq!(client.endpoint(), Network::Custom("http://10.1.1.1".to_string()));
    assert_eq!(client.connection().url, "http://10.1.1.1");
}

#[test]
fn clients_with_a_payer() {
    let client = Client::new_with_payer("mainnet", pair(1)).unwrap();
    assert!(client.has_payer());
    assert_eq!(client.payer(), Pubkey(seeded(1).pubkey().to_bytes()));
    assert_eq!(client.endpoint(), Network::Mainnet);
    assert_eq!(
        client.send_config(CommitmentLevel::Finalized).preflight_commitment,
        Some(CommitmentLevel::Finalized)
    );
}

#[test]
fn clients_with_settings() {
    let client = Client::new_with_config("devnet", own_config()).unwrap();
    assert!(!client.has_payer());
    assert_eq!(client.send_config(CommitmentLevel::Finalized), own_config());
    let client = Client::new_with_payer_and_config("devnet", pair(2), own_config()).unwrap();
    assert_eq!(client.payer(), pair(2).pubkey());
    assert_eq!(client.send_config(CommitmentLevel::Finalized), own_config());
    assert_eq!(client.endpoint(), Network::Devnet);
}

#[test]
fn optimistic_clients_take_no_precautions() {
    let client = Client::new_optimistic("localhost").unwrap();
    assert_eq!(client.endpoint(), Network::Localnet);
    assert_eq!(client.connection().commitment, Some(CommitmentLevel::Processed));
    assert_eq!(client.send_config(CommitmentLevel::Processed), optimistic_config());
    assert!(client.send_config(CommitmentLevel::Processed).skip_preflight);
    assert!(client.submit_config(CommitmentLevel::Processed).skip_preflight);
    let own = Client::new_with_config("localhost", own_config()).unwrap();
    assert_eq!(own.submit_config(CommitmentLevel::Recent).max_retries, None);
    assert!(!client.has_payer());
}

#[test]
fn local_clients_are_funded() {
    let (client, airdrop) = Client::new_local_funded_by(pair(6)).unwrap();
    assert_eq!(client.endpoint(), Network::Localnet);
    assert_eq!(client.connection().url, "https://localhost:8899/");
    assert_eq!(client.payer(), pair(6).pubkey());
    assert_eq!(airdrop.to, pair(6).pubkey());
    assert_eq!(airdrop.lamports, 100_000_000_000_000);
    assert!(client.send_config(CommitmentLevel::Processed).skip_preflight);
}

#[test]
fn local_clients_draw_their_payer() {
    let (one, airdrop) = Client::new_local_funded().unwrap();
    let (other, _) = Client::new_local_funded().unwrap();
    assert_eq!(airdrop.to, one.payer());
    assert_eq!(airdrop.lamports, 100_000_000_000_000);
    assert_ne!(one.payer(), other.payer());
}

#[test]
fn stored_payer_pays() {
    let mut client = Client::new("devnet").unwrap();
    client.insert_keypair("other", pair(1));
    assert!(!client.has_payer());
    client.insert_keypair("payer", pair(2));
    assert_eq!(client.payer(), pair(2).pubkey());
    client.insert_keypair("other", pair(3));
    assert_eq!(client.payer(), pair(2).pubkey());
    client.insert_keypair("payer", pair(4));
    assert_eq!(client.payer(), pair(4).pubkey());
}

#[test]
fn contexts_are_made_and_configured() {
    assert!(Context::new(Network::Devnet).is_ok());
    let mut context = Context::new_optimistic(Network::Localnet).unwrap();
    context.set_config(own_config());
    let client = Client::new_for(Network::Custom("x".to_string())).unwrap();
    assert_eq!(client.connection().url, "x");
    let client = Client::new_optimistic_for(Network::Devnet).unwrap();
    assert_eq!(client.connection().commitment, Some(CommitmentLevel::Processed));
}

#[test]
fn live_clock_cannot_be_set() {
    let client = Client::new("devnet").unwrap();
    assert_eq!(client.set_clock(), Err(Error::LiveClock));
    assert_eq!(
        Error::LiveClock.message(),
        "Live connection. Setting the clock is not permissible"
    );
}

#[test]
fn stored_keys_sign_like_the_sdk() {
    let mut client = Client::new_with_payer("localhost", pair(1)).unwrap();
    client.insert_keypair("second", pair(2));
    client.insert_keypair("bystander", pair(9));
    let signed = client
        .sign_send_instructions(&asking_for(&[2]), None, &Blockhash([5; 32]))
        .unwrap();
    let message = expected_message(&[2], 1);
    assert_eq!(signed.message.data, message.serialize());
    let expected = SdkTransaction::new(
        &[&seeded(1), &seeded(2)],
        message,
        SdkHash::new_from_array([5; 32]),
    );
    let ours: Vec<[u8; 64]> = signed.signatures.iter().map(|s| s.0).collect();
    let theirs: Vec<[u8; 64]> = expected.signatures.iter().map(|s| (*s).into()).collect();
    assert_eq!(ours, theirs);
    assert_eq!(signed.signatures[0], pair(1).sign_message(&signed.message.data));
}

#[test]
fn signed_transactions_are_valid() {
    let mut client = Client::new_with_payer("localhost", pair(1)).unwrap();
    client.insert_keypair("second", pair(2));
    let instructions = asking_for(&[2, 3]);
    let hash = Blockhash([5; 32]);
    let message = client.compile(&instructions, &hash);
    let reply: [u8; 64] = seeded(3).sign_message(&message.data).into();
    let replies: Vec<Offer> = vec![(pair(3).pubkey(), Signature(reply))];
    let signed = client.sign_send_instructions(&instructions, Some(&replies), &hash).unwrap();
    let transaction = SdkTransaction {
        signatures: signed
            .signatures
            .iter()
            .map(|s| solana_sdk::signature::Signature::new(&s.0))
            .collect(),
        message: bincode::deserialize(&signed.message.data).unwrap(),
    };
    assert!(transaction.verify().is_ok());
}

#[test]
fn compiled_messages_are_those_that_are_signed() {
    let client = Client::new_with_payer("localhost", pair(1)).unwrap();
    let message = client.compile(&asking_for(&[2]), &Blockhash([5; 32]));
    assert_eq!(message.data, expected_message(&[2], 1).serialize());
    assert_eq!(message.signer_keys()[0], pair(1).pubkey());
    assert_eq!(message.num_required_signatures, 2);
}

#[test]
fn stored_or_asked_makes_no_difference() {
    let hash = Blockhash([5; 32]);
    let instructions = asking_for(&[2, 3]);
    let mut other = Client::new_with_payer("localhost", pair(1)).unwrap();
    other.insert_keypair("third", pair(3));
    let message = other.compile(&instructions, &hash);
    let replies: Vec<Offer> = vec![(pair(2).pubkey(), pair(2).sign_message(&message.data))];
    let asked = other.sign_send_instructions(&instructions, Some(&replies), &hash).unwrap();
    for name in ["second", "zebra", ""] {
        let mut one = Client::new_with_payer("localhost", pair(1)).unwrap();
        one.insert_keypair("another name", pair(3));
        one.insert_keypair(name, pair(2));
        let stored = one.sign_send_instructions(&instructions, None, &hash).unwrap();
        assert_eq!(stored.signatures, asked.signatures);
        assert_eq!(stored.message.data, asked.message.data);
    }
}

#[test]
fn replies_have_precedence() {
    let mut client = Client::new_with_payer("localhost", pair(1)).unwrap();
    client.insert_keypair("second", pair(2));
    let replies: Vec<Offer> = vec![
        (pair(2).pubkey(), Signature([8; 64])),
        (Pubkey([99; 32]), Signature([7; 64])),
    ];
    let signed = client
        .sign_send_instructions(&asking_for(&[2]), Some(&replies), &Blockhash([5; 32]))
        .unwrap();
    assert_eq!(signed.signatures[1], Signature([8; 64]));
    assert_eq!(signed.signatures[0], pair(1).sign_message(&signed.message.data));
}

#[test]
fn missing_signers_stay_unsigned() {
    let client = Client::new_with_payer("localhost", pair(1)).unwrap();
    let signed = client
        .sign_send_instructions(&asking_for(&[2, 3]), Some(&vec![]), &Blockhash([5; 32]))
        .unwrap();
    assert_eq!(signed.signatures.len(), 3);
    assert_eq!(signed.signatures[1], Signature::default());
    assert_eq!(signed.signatures[2], Signature::default());
}

#[test]
fn order_of_bystanders_is_immaterial() {
    // Two key pairs with one address, which does not sign.
    let mut twin = pair(8).to_bytes();
    twin[0] ^= 1;
    let mut one = Client::new_with_payer("localhost", pair(1)).unwrap();
    one.insert_keypair("bystander", pair(8));
    one.insert_keypair("twin", Keypair::from_bytes(twin).unwrap());
    let mut other = Client::new_with_payer("localhost", pair(1)).unwrap();
    other.insert_keypair("twin", pair(8));
    other.insert_keypair("bystander", Keypair::from_bytes(twin).unwrap());
    let hash = Blockhash([5; 32]);
    let left = one.sign_send_instructions(&asking_for(&[]), None, &hash).unwrap();
    let right = other.sign_send_instructions(&asking_for(&[]), None, &hash).unwrap();
    assert_eq!(left.signatures, right.signatures);
}

#[test]
fn order_of_stored_keys_is_immaterial() {
    let mut one = Client::new_with_payer("localhost", pair(1)).unwrap();
    let mut other = Client::new("localhost").unwrap();
    for n in 2..8u8 {
        one.insert_keypair(&format!("{n}"), pair(n));
    }
    for n in (2..8u8).rev() {
        other.insert_keypair(&format!("again {n}"), pair(n));
    }
    other.insert_keypair("payer", pair(1));
    let instructions = asking_for(&[4, 2, 7, 3]);
    let hash = Blockhash([5; 32]);
    let left = one.sign_send_instructions(&instructions, None, &hash).unwrap();
    let right = other.sign_send_instructions(&instructions, None, &hash).unwrap();
    assert_eq!(left.signatures, right.signatures);
    assert!(!left.signatures.contains(&Signature::default()));
}
