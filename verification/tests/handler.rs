use solana_simulation::account::Pubkey;
use solana_simulation::handler::{
    check_exit_code, find_entrypoint, AccountInfo, HandlerError, Invocation, LogLine, Reply,
    Request,
};
use solana_simulation::program_error::InstructionError;
use solana_simulation::programs::ProgramTable;

fn key(n: u8) -> Pubkey {
    Pubkey([n; 32])
}

fn info(n: u8, lamports: u64, data: &[u8]) -> AccountInfo {
    AccountInfo { key: key(n), lamports, data: data.to_vec() }
}

/// How a runtime treats one account.
struct Account {
    key: u8,
    writable: bool,
    limit: usize,
    changeable: bool,
    refuse_lamports: bool,
    refuse_data: bool,
    lamports: u64,
    data: Vec<u8>,
}

fn account(n: u8) -> Account {
    Account {
        key: n,
        writable: true,
        limit: 10,
        changeable: false,
        refuse_lamports: false,
        refuse_data: false,
        lamports: 0,
        data: vec![],
    }
}

/// Calls a program that ends with the given code, and counts the calls.
fn call(
    program: u8,
    code: u64,
    infos: Vec<AccountInfo>,
    accounts: &mut Vec<Account>,
    calls: &mut Vec<u32>,
    log: &mut Vec<LogLine>,
) -> Result<(), HandlerError<String>> {
    let programs = ProgramTable::from_programs(vec![(key(1), 17u32)]);
    let (mut invocation, mut request) = Invocation::new(&programs, &key(program), accounts.len());
    let mut left = Some(infos);
    let mut current = 0;
    loop {
        log.extend(request.log_line());
        let reply = match request {
            Request::Call(entrypoint) => {
                calls.push(entrypoint);
                Reply::Exited(code)
            }
            Request::ReadBack => Reply::Left(left.take().unwrap()),
            Request::Borrow(index) => {
                current = index;
                match accounts[index].key {
                    0 => Reply::Refused("borrow".to_string()),
                    n => Reply::Borrowed { writable: accounts[index].writable, key: key(n) },
                }
            }
            Request::MayResize(length) => Reply::Answer(length <= accounts[current].limit),
            Request::MayChange => Reply::Answer(accounts[current].changeable),
            Request::SetLamports(lamports) => {
                if accounts[current].refuse_lamports {
                    Reply::Refused("lamports".to_string())
                } else {
                    accounts[current].lamports = lamports;
                    Reply::Done
                }
            }
            Request::SetData(place) => {
                if accounts[current].refuse_data {
                    Reply::Refused("data".to_string())
                } else {
                    accounts[current].data = invocation.info(place).data.clone();
                    Reply::Done
                }
            }
            Request::Finish(outcome) => {
                assert!(invocation.is_over());
                return outcome;
            }
        };
        assert!(!invocation.is_over());
        request = invocation.step(reply);
    }
}

fn run(infos: Vec<AccountInfo>, accounts: &mut Vec<Account>) -> Result<(), HandlerError<String>> {
    let mut calls = vec![];
    let mut log = vec![];
    let outcome = call(1, 0, infos, accounts, &mut calls, &mut log);
    assert_eq!(calls, vec![17]);
    assert_eq!(log[..2], [LogLine::Invoke, LogLine::Success]);
    let last = match &outcome {
        Err(HandlerError::InvalidRealloc) => vec![LogLine::ResizeBeyondLimits],
        Err(HandlerError::ReadonlyDataModified) => vec![LogLine::ReadOnlyData],
        _ => vec![],
    };
    assert_eq!(log[2..], last);
    outcome
}

fn refusal(outcome: Result<(), HandlerError<String>>) -> String {
    match outcome {
        Err(HandlerError::Runtime(text)) => text,
        other => panic!("not refused: {other:?}"),
    }
}

#[test]
fn entry_points_are_found() {
    let programs = ProgramTable::from_programs(vec![(key(1), 17u32)]);
    assert!(matches!(find_entrypoint::<u32, ()>(&programs, &key(1)), Ok(17)));
    assert!(matches!(
        find_entrypoint::<u32, ()>(&programs, &key(2)),
        Err(HandlerError::IncorrectProgramId)
    ));
}

#[test]
fn only_zero_is_a_good_end() {
    assert!(check_exit_code::<()>(0).is_ok());
    assert!(matches!(
        check_exit_code::<()>(5),
        Err(HandlerError::Program(InstructionError::Custom(5)))
    ));
    assert!(matches!(
        check_exit_code::<()>(0x1_0000_0000),
        Err(HandlerError::Program(InstructionError::Custom(0)))
    ));
    assert!(matches!(
        check_exit_code::<()>(2u64 << 32),
        Err(HandlerError::Program(InstructionError::InvalidArgument))
    ));
}

#[test]
fn unknown_programs_are_not_called() {
    let mut accounts = vec![account(1)];
    let mut calls = vec![];
    let mut log = vec![];
    let outcome = call(2, 0, vec![info(1, 10, &[1])], &mut accounts, &mut calls, &mut log);
    assert!(log.is_empty());
    assert!(matches!(outcome, Err(HandlerError::IncorrectProgramId)));
    assert!(calls.is_empty());
    assert_eq!(accounts[0].lamports, 0);
}

#[test]
fn failed_programs_change_nothing() {
    let mut accounts = vec![account(1)];
    let mut calls = vec![];
    let mut log = vec![];
    let infos = vec![info(1, 10, &[1])];
    let outcome = call(1, 2u64 << 32, infos, &mut accounts, &mut calls, &mut log);
    assert_eq!(
        log,
        vec![LogLine::Invoke, LogLine::Failure(InstructionError::InvalidArgument)]
    );
    assert!(matches!(
        outcome,
        Err(HandlerError::Program(InstructionError::InvalidArgument))
    ));
    assert_eq!(calls, vec![17]);
    assert_eq!(accounts[0].lamports, 0);
    assert!(accounts[0].data.is_empty());
}

#[test]
fn everything_is_taken_over() {
    let mut accounts = vec![account(1), account(2)];
    let infos = vec![info(2, 20, &[2, 2]), info(1, 10, &[1])];
    assert!(run(infos, &mut accounts).is_ok());
    assert_eq!((accounts[0].lamports, accounts[0].data.as_slice()), (10, &[1u8][..]));
    assert_eq!((accounts[1].lamports, accounts[1].data.as_slice()), (20, &[2u8, 2][..]));
}

#[test]
fn calls_without_accounts_end_well() {
    assert!(run(vec![info(1, 1, &[])], &mut vec![]).is_ok());
}

#[test]
fn only_writable_accounts_change() {
    let mut accounts = vec![account(1), account(2), account(3)];
    accounts[0].writable = false;
    let infos = vec![info(1, 10, &[1]), info(3, 30, &[3])];
    assert!(run(infos, &mut accounts).is_ok());
    assert_eq!(accounts[0].lamports, 0);
    assert_eq!(accounts[1].lamports, 0);
    assert_eq!(accounts[2].lamports, 30);
}

#[test]
fn last_of_several_infos_counts() {
    let mut accounts = vec![account(1)];
    assert!(run(vec![info(1, 10, &[1]), info(1, 11, &[9])], &mut accounts).is_ok());
    assert_eq!(accounts[0].lamports, 11);
    assert_eq!(accounts[0].data, vec![9]);
}

#[test]
fn sizes_beyond_the_limit_end_the_call() {
    let mut accounts = vec![account(1), account(2)];
    accounts[1].limit = 1;
    let outcome = run(vec![info(1, 10, &[1]), info(2, 20, &[2, 2])], &mut accounts);
    assert!(matches!(outcome, Err(HandlerError::InvalidRealloc)));
    assert_eq!(accounts[0].lamports, 10);
    assert_eq!(accounts[1].lamports, 0);
}

#[test]
fn changeable_data_ends_the_call() {
    let mut accounts = vec![account(1)];
    accounts[0].changeable = true;
    let outcome = run(vec![info(1, 10, &[1])], &mut accounts);
    assert!(matches!(outcome, Err(HandlerError::ReadonlyDataModified)));
    assert_eq!(accounts[0].lamports, 0);
}

#[test]
fn refusals_end_the_call() {
    let infos = || vec![info(1, 10, &[1]), info(2, 20, &[2])];
    let mut accounts = vec![account(1), account(0), account(2)];
    assert_eq!(refusal(run(infos(), &mut accounts)), "borrow");
    assert_eq!(accounts[0].lamports, 10);
    assert_eq!(accounts[2].lamports, 0);
    let mut accounts = vec![account(1), account(2)];
    accounts[0].refuse_lamports = true;
    assert_eq!(refusal(run(infos(), &mut accounts)), "lamports");
    assert!(accounts[0].data.is_empty());
    let mut accounts = vec![account(1), account(2)];
    accounts[0].refuse_data = true;
    assert_eq!(refusal(run(infos(), &mut accounts)), "data");
    assert_eq!(accounts[0].lamports, 10);
    assert_eq!(accounts[1].lamports, 0);
}

#[test]
fn texts_of_log_lines() {
    assert_eq!(
        LogLine::ResizeBeyondLimits.message(),
        Some("Instruction attempting to resize account beyond limits")
    );
    assert_eq!(
        LogLine::ReadOnlyData.message(),
        Some("Instruction attempting to modify read-only data")
    );
    assert_eq!(LogLine::Invoke.message(), None);
}
