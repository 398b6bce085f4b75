use solana_simulation::config::{
    choose_config, optimistic_config, program_accounts_query, submit_config, AccountEncoding,
    AccountFilter, CommitmentLevel, RpcSendTransactionConfig, TransactionEncoding,
    LAMPORTS_PER_SOL,
};

#[test]
fn default_settings() {
    let config = RpcSendTransactionConfig::default();
    assert!(!config.skip_preflight);
    assert_eq!(config.preflight_commitment, None);
    assert_eq!(config.encoding, None);
    assert_eq!(config.max_retries, None);
    assert_eq!(config.min_context_slot, None);
}

#[test]
fn optimistic_settings_skip_the_simulation() {
    assert_eq!(
        optimistic_config(),
        RpcSendTransactionConfig { skip_preflight: true, ..RpcSendTransactionConfig::default() }
    );
}

#[test]
fn own_settings_are_kept() {
    let own = RpcSendTransactionConfig {
        skip_preflight: false,
        preflight_commitment: Some(CommitmentLevel::Confirmed),
        encoding: Some(TransactionEncoding::Base64),
        max_retries: Some(3),
        min_context_slot: Some(4),
    };
    assert_eq!(choose_config(Some(own), CommitmentLevel::Processed), own);
}

#[test]
fn without_settings_the_level_of_the_connection_counts() {
    assert_eq!(
        choose_config(None, CommitmentLevel::Finalized),
        RpcSendTransactionConfig {
            preflight_commitment: Some(CommitmentLevel::Finalized),
            ..RpcSendTransactionConfig::default()
        }
    );
}

#[test]
fn only_optimists_submit_in_their_own_way() {
    let level = CommitmentLevel::Confirmed;
    let plain = choose_config(None, level);
    assert_eq!(submit_config(None, level), plain);
    assert_eq!(submit_config(Some(optimistic_config()), level), optimistic_config());
    let own = RpcSendTransactionConfig { max_retries: Some(3), ..optimistic_config() };
    assert_eq!(submit_config(Some(own), level), plain);
    let own = RpcSendTransactionConfig::default();
    assert_eq!(submit_config(Some(own), level), plain);
}

#[test]
fn queries_for_program_accounts() {
    let all = program_accounts_query(None);
    assert!(all.filters.is_none());
    assert_eq!(all.encoding, Some(AccountEncoding::Base64Zstd));
    let some = program_accounts_query(Some(165));
    assert_eq!(some.filters, Some(vec![AccountFilter::DataSize(165)]));
    assert_eq!(some.encoding, Some(AccountEncoding::Base64Zstd));
}

#[test]
fn lamports_of_a_sol() {
    assert_eq!(LAMPORTS_PER_SOL, solana_sdk::native_token::LAMPORTS_PER_SOL);
}
