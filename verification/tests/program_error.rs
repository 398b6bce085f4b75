use solana_sdk::program_error::ProgramError as Sdk;
use solana_simulation::program_error::{
    assert_custom_program_error, Failure, InstructionError, Mismatch, ProgramError,
    TransactionError,
};

fn reported(error: InstructionError) -> Failure {
    Failure {
        transaction: Some(TransactionError::InstructionError(2, error)),
        program: None,
    }
}

#[test]
fn codes_that_a_node_reports() {
    let result: Result<(), Failure> = Err(reported(InstructionError::Custom(6001)));
    assert_eq!(assert_custom_program_error(6001, &result), Ok(()));
    assert_eq!(assert_custom_program_error(6002, &result), Err(Mismatch::WrongCode(6001)));
}

#[test]
fn codes_of_program_errors() {
    let failure = Failure { transaction: None, program: Some(ProgramError::Custom(9)) };
    assert_eq!(assert_custom_program_error(9, &Err::<(), Failure>(failure)), Ok(()));
    assert_eq!(failure.custom_code(), Some(9));
}

#[test]
fn success_is_not_an_error() {
    let result: Result<&str, Failure> = Ok("fine");
    assert_eq!(assert_custom_program_error(0, &result), Err(Mismatch::NotAnError));
}

#[test]
fn other_errors_are_not_custom() {
    let failures = [
        Failure { transaction: None, program: None },
        Failure { transaction: Some(TransactionError::Other), program: Some(ProgramError::Other) },
        reported(InstructionError::Other),
    ];
    for failure in failures {
        assert_eq!(
            assert_custom_program_error(0, &Err::<(), Failure>(failure)),
            Err(Mismatch::NotCustom)
        );
    }
}

#[test]
fn reports_have_precedence() {
    let failure = Failure {
        transaction: Some(TransactionError::InstructionError(0, InstructionError::Custom(1))),
        program: Some(ProgramError::Custom(2)),
    };
    assert_eq!(failure.custom_code(), Some(1));
    let failure = Failure {
        transaction: Some(TransactionError::InstructionError(0, InstructionError::Other)),
        program: Some(ProgramError::Custom(2)),
    };
    assert_eq!(failure.custom_code(), Some(2));
}

#[test]
fn exit_codes_become_errors() {
    let cases = [
        (1, InstructionError::Custom(1)),
        (0xffff_ffff, InstructionError::Custom(0xffff_ffff)),
        (0x1_0000_0000, InstructionError::Custom(0)),
        (0x1_0000_0001, InstructionError::InvalidError),
        (0x2_0000_0000, InstructionError::InvalidArgument),
        (0x15_0000_0000, InstructionError::InvalidError),
        (u64::MAX, InstructionError::InvalidError),
        (0, InstructionError::Custom(0)),
    ];
    for (code, error) in cases {
        assert_eq!(InstructionError::from_exit_code(code), error);
    }
}

#[test]
fn builtin_exit_codes_become_their_errors() {
    let cases = [
        (Sdk::InvalidArgument, InstructionError::InvalidArgument),
        (Sdk::InvalidInstructionData, InstructionError::InvalidInstructionData),
        (Sdk::InvalidAccountData, InstructionError::InvalidAccountData),
        (Sdk::AccountDataTooSmall, InstructionError::AccountDataTooSmall),
        (Sdk::InsufficientFunds, InstructionError::InsufficientFunds),
        (Sdk::IncorrectProgramId, InstructionError::IncorrectProgramId),
        (Sdk::MissingRequiredSignature, InstructionError::MissingRequiredSignature),
        (Sdk::AccountAlreadyInitialized, InstructionError::AccountAlreadyInitialized),
        (Sdk::UninitializedAccount, InstructionError::UninitializedAccount),
        (Sdk::NotEnoughAccountKeys, InstructionError::NotEnoughAccountKeys),
        (Sdk::AccountBorrowFailed, InstructionError::AccountBorrowFailed),
        (Sdk::MaxSeedLengthExceeded, InstructionError::MaxSeedLengthExceeded),
        (Sdk::InvalidSeeds, InstructionError::InvalidSeeds),
        (Sdk::BorshIoError(String::new()), InstructionError::BorshIoError),
        (Sdk::AccountNotRentExempt, InstructionError::AccountNotRentExempt),
        (Sdk::UnsupportedSysvar, InstructionError::UnsupportedSysvar),
        (Sdk::IllegalOwner, InstructionError::IllegalOwner),
        (Sdk::MaxAccountsDataSizeExceeded, InstructionError::MaxAccountsDataSizeExceeded),
        (Sdk::InvalidRealloc, InstructionError::InvalidRealloc),
    ];
    for (theirs, ours) in cases {
        assert_eq!(InstructionError::from_exit_code(u64::from(theirs)), ours);
    }
}

#[test]
fn error_codes_arrive() {
    for n in [0u32, 1, 6000, u32::MAX] {
        let code = u64::from(Sdk::Custom(n));
        let failure = reported(InstructionError::from_exit_code(code));
        assert_eq!(assert_custom_program_error(n, &Err::<(), Failure>(failure)), Ok(()));
    }
}
