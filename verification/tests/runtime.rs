use solana_sdk::rent::Rent;
use solana_simulation::account::{Account, Pubkey, Signature};
use solana_simulation::error::Error;
use solana_simulation::runtime::{
    get_minimum_balance_for_rent_exemption, get_program_accounts, get_signature_statuses,
    rent_fits, send_transaction, transaction_status, TestRuntime, TransactionConfirmationStatus,
};

fn account(length: usize) -> Account {
    Account {
        lamports: 1,
        data: vec![0; length],
        owner: Pubkey([1; 32]),
        executable: false,
        rent_epoch: 0,
    }
}

fn sizes(found: &[(Pubkey, Account)]) -> Vec<(u8, usize)> {
    found.iter().map(|(key, account)| (key.0[0], account.data.len())).collect()
}

#[test]
fn runtimes_have_a_builtin_for_each_program() {
    let programs: Vec<(Pubkey, u32)> =
        vec![(Pubkey([0; 32]), 1), (Pubkey([255; 32]), 2), (Pubkey([0; 32]), 3)];
    let (table, builtins) = TestRuntime::new(programs).into_parts();
    assert_eq!(table.get(&Pubkey([0; 32])), Some(3));
    assert_eq!(table.get(&Pubkey([255; 32])), Some(2));
    assert_eq!(table.get(&Pubkey([9; 32])), None);
    let names: Vec<&str> = builtins.iter().map(|b| b.name.as_str()).collect();
    let displayed = solana_sdk::pubkey::Pubkey::from([255; 32]).to_string();
    assert_eq!(
        names,
        vec![
            "test-runtime:11111111111111111111111111111111",
            &format!("test-runtime:{displayed}"),
            "test-runtime:11111111111111111111111111111111",
        ]
    );
    assert_eq!(builtins[1].program_id, Pubkey([255; 32]));
}

#[test]
fn runtimes_without_programs() {
    let (table, builtins) = TestRuntime::<u32>::new(vec![]).into_parts();
    assert!(builtins.is_empty());
    assert_eq!(table.get(&Pubkey([0; 32])), None);
}

#[test]
fn balances_exempt_from_rent() {
    assert_eq!(get_minimum_balance_for_rent_exemption(0), 890_880);
    assert_eq!(get_minimum_balance_for_rent_exemption(165), 2_039_280);
    assert_eq!(get_minimum_balance_for_rent_exemption(10_485_760), 72_981_780_480);
    for length in [1usize, 1 << 40, 1 << 50] {
        assert_eq!(
            get_minimum_balance_for_rent_exemption(length),
            Rent::default().minimum_balance(length)
        );
    }
}

#[test]
fn rent_fits_up_to_a_size() {
    let largest = (u64::MAX / 3480 - 128) as usize;
    assert!(rent_fits(0));
    assert!(rent_fits(largest));
    assert!(!rent_fits(largest + 1));
    assert!(!rent_fits(usize::MAX));
}

#[test]
fn submitted_transactions_give_their_first_signature() {
    let signatures = vec![Signature([3; 64]), Signature([4; 64])];
    assert_eq!(send_transaction(&signatures, true), Ok(Signature([3; 64])));
    assert_eq!(send_transaction(&signatures, false), Err(Error::TransactionFailed));
    assert_eq!(Error::TransactionFailed.message(), "failed");
}

#[test]
fn statuses_report_how_transactions_ended() {
    let statuses = get_signature_statuses(7, vec![None, Some(Ok(())), Some(Err("bad"))]);
    assert_eq!(statuses.len(), 3);
    assert!(statuses[0].is_none());
    let fine = statuses[1].as_ref().unwrap();
    assert_eq!(fine.slot, 7);
    assert_eq!(fine.confirmations, Some(1));
    assert_eq!(fine.status, Ok(()));
    assert_eq!(fine.err, None);
    assert_eq!(fine.confirmation_status, Some(TransactionConfirmationStatus::Processed));
    let bad = statuses[2].as_ref().unwrap();
    assert_eq!(bad.slot, 7);
    assert_eq!(bad.confirmations, Some(1));
    assert_eq!(bad.status, Err("bad"));
    assert_eq!(bad.err, Some("bad"));
    assert_eq!(bad.confirmation_status, None);
    assert!(transaction_status::<u8>(1, None).is_none());
    assert_eq!(transaction_status(9, Some(Err(5u8))).unwrap().err, Some(5));
}

#[test]
fn accounts_are_filtered_by_size() {
    let accounts: Vec<(Pubkey, Account)> = [3usize, 0, 5, 3]
        .iter()
        .enumerate()
        .map(|(i, length)| (Pubkey([i as u8; 32]), account(*length)))
        .collect();
    assert_eq!(sizes(&get_program_accounts(accounts.clone(), Some(3))), vec![(0, 3), (3, 3)]);
    assert_eq!(sizes(&get_program_accounts(accounts.clone(), Some(0))), vec![(1, 0)]);
    assert!(get_program_accounts(accounts.clone(), Some(4)).is_empty());
    assert_eq!(sizes(&get_program_accounts(accounts, None)), vec![(0, 3), (1, 0), (2, 5), (3, 3)]);
}
