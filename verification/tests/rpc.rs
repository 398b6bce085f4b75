use solana_sdk::signature::{keypair_from_seed, Keypair as SdkKeypair, Signer};
use solana_simulation::account::{Account, Blockhash, Pubkey, Signature};
use solana_simulation::config::{
    optimistic_config, CommitmentLevel, Connection, RpcSendTransactionConfig,
};
use solana_simulation::keypair::Keypair;
use solana_simulation::message::{AccountMeta, Instruction};
use solana_simulation::rpc::{
    confirm_transactions, create_transaction, get_account, get_slot, statuses_known,
    try_create_transaction, Confirmation, RpcConnection, SlotQuery, CONFIRM_ROUNDS,
};
use solana_simulation::transaction::SignerError;

fn seeded(n: u8) -> SdkKeypair {
    keypair_from_seed(&[n; 32]).unwrap()
}

fn pair(n: u8) -> Keypair {
    Keypair::from_seed(&[n; 32])
}

fn node() -> Connection {
    Connection { url: "http://node.test".to_string(), commitment: None }
}

fn account(lamports: u64) -> Account {
    Account {
        lamports,
        data: vec![],
        owner: Pubkey([0; 32]),
        executable: false,
        rent_epoch: 0,
    }
}

fn asking_for(n: u8) -> Vec<Instruction> {
    vec![Instruction {
        program_id: Pubkey([50; 32]),
        accounts: vec![AccountMeta {
            pubkey: pair(n).pubkey(),
            is_signer: true,
            is_writable: false,
        }],
        data: vec![],
    }]
}

#[test]
fn connections_in_the_usual_way() {
    let connection = RpcConnection::new(pair(1), node());
    assert_eq!(connection.connection().url, "http://node.test");
    assert_eq!(connection.payer().to_bytes(), seeded(1).to_bytes());
    assert_eq!(
        connection.send_config(CommitmentLevel::Confirmed),
        RpcSendTransactionConfig {
            preflight_commitment: Some(CommitmentLevel::Confirmed),
            ..RpcSendTransactionConfig::default()
        }
    );
}

#[test]
fn connections_with_settings() {
    let own = RpcSendTransactionConfig {
        min_context_slot: Some(8),
        ..RpcSendTransactionConfig::default()
    };
    let connection = RpcConnection::new_with_config(pair(1), node(), Some(own));
    assert_eq!(connection.send_config(CommitmentLevel::Confirmed), own);
    let connection = RpcConnection::new_with_config(pair(1), node(), None);
    assert_eq!(
        connection.send_config(CommitmentLevel::Recent).preflight_commitment,
        Some(CommitmentLevel::Recent)
    );
}

#[test]
fn optimistic_connections() {
    let connection = RpcConnection::new_optimistic(pair(2), "http://node.test");
    assert_eq!(connection.connection().url, "http://node.test");
    assert_eq!(connection.connection().commitment, Some(CommitmentLevel::Processed));
    assert_eq!(connection.send_config(CommitmentLevel::Finalized), optimistic_config());
    assert_eq!(connection.submit_config(CommitmentLevel::Finalized), optimistic_config());
    let usual = RpcConnection::new(pair(2), node());
    assert!(!usual.submit_config(CommitmentLevel::Finalized).skip_preflight);
}

#[test]
fn local_connections_are_funded() {
    let (connection, airdrop) = RpcConnection::new_local_funded_by(pair(3));
    assert_eq!(connection.connection().url, "http://127.0.0.1:8899");
    assert_eq!(connection.connection().commitment, Some(CommitmentLevel::Processed));
    assert_eq!(airdrop.to, Pubkey(seeded(3).pubkey().to_bytes()));
    assert_eq!(airdrop.lamports, 1_000_000_000_000);
    let (drawn, airdrop) = RpcConnection::new_local_funded();
    assert_eq!(airdrop.to, drawn.payer().pubkey());
    assert_ne!(airdrop.to, connection.payer().pubkey());
}

#[test]
fn airdrops_are_counted_in_sol() {
    let connection = RpcConnection::new(pair(1), node());
    let airdrop = connection.request_airdrop(3);
    assert_eq!(airdrop.to, pair(1).pubkey());
    assert_eq!(airdrop.lamports, 3_000_000_000);
    assert_eq!(connection.request_airdrop(0).lamports, 0);
    assert_eq!(connection.request_airdrop(18_446_744_073).lamports, 18_446_744_073_000_000_000);
}

#[test]
fn payer_signs_created_transactions_first() {
    let payer = pair(1);
    let signer = pair(2);
    let hash = Blockhash([4; 32]);
    let transaction = create_transaction(&payer, &vec![&signer], &asking_for(2), &hash);
    assert_eq!(transaction.signatures.len(), 2);
    assert_eq!(transaction.message.account_keys[0], payer.pubkey());
    assert_eq!(transaction.signatures[0], payer.sign_message(&transaction.message.data));
    assert_eq!(transaction.signatures[1], signer.sign_message(&transaction.message.data));
    assert!(!transaction.signatures.contains(&Signature::default()));
}

#[test]
fn created_transactions_need_their_signers() {
    let payer = pair(1);
    let signer = pair(2);
    let stranger = pair(3);
    let hash = Blockhash([4; 32]);
    let instructions = asking_for(2);
    let made = try_create_transaction(&payer, &vec![&signer], &instructions, &hash).unwrap();
    assert_eq!(
        made.signatures,
        create_transaction(&payer, &vec![&signer], &instructions, &hash).signatures
    );
    assert_eq!(
        try_create_transaction(&payer, &vec![], &instructions, &hash).err(),
        Some(SignerError::NotEnoughSigners)
    );
    assert_eq!(
        try_create_transaction(&payer, &vec![&signer, &stranger], &instructions, &hash).err(),
        Some(SignerError::KeypairPubkeyMismatch)
    );
    let mut large = instructions.clone();
    large[0].data = vec![0; 65536];
    assert_eq!(
        try_create_transaction(&payer, &vec![&signer], &large, &hash).err(),
        Some(SignerError::MessageTooLarge)
    );
}

#[test]
fn slots_are_asked_for_at_a_level() {
    assert_eq!(get_slot(None), SlotQuery::Current);
    assert_eq!(
        get_slot(Some(CommitmentLevel::Confirmed)),
        SlotQuery::CurrentAt(CommitmentLevel::Confirmed)
    );
}

#[test]
fn last_account_of_a_list() {
    assert_eq!(get_account(vec![Some(account(5))]).unwrap().lamports, 5);
    assert!(get_account(vec![None]).is_none());
    assert!(get_account(vec![Some(account(5)), None]).is_none());
}

#[test]
fn statuses_are_known_or_not() {
    assert!(statuses_known::<u8>(&vec![]));
    assert!(statuses_known(&vec![Some(1), Some(2)]));
    assert!(!statuses_known(&vec![Some(1), None]));
}

#[test]
fn known_statuses_are_asked_for_until_the_last_round() {
    let statuses = vec![Some(true), Some(false)];
    for round in 0..6 {
        assert_eq!(confirm_transactions(round, &statuses), Confirmation::AskAgain);
    }
    assert_eq!(confirm_transactions(6, &statuses), Confirmation::GiveUp);
    assert_eq!(CONFIRM_ROUNDS, 7);
    assert_eq!(confirm_transactions::<u8>(6, &vec![]), Confirmation::GiveUp);
}
