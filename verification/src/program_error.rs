//! Custom errors of programs.

use vstd::prelude::*;
use solana_sdk::instruction::InstructionError as SdkError;

verus! {

/// Why an instruction failed.
#[derive(Clone, Copy, Debug, PartialEq, Eq, Structural)]
pub enum InstructionError {
    /// The program ended with an error code of its own.
    Custom(u32),
    /// An argument is invalid.
    InvalidArgument,
    /// The data of the instruction is invalid.
    InvalidInstructionData,
    /// The data of an account is invalid.
    InvalidAccountData,
    /// The data of an account is too small.
    AccountDataTooSmall,
    /// An account has too few lamports.
    InsufficientFunds,
    /// The program is not the expected one.
    IncorrectProgramId,
    /// A signature is missing.
    MissingRequiredSignature,
    /// An account is initialized already.
    AccountAlreadyInitialized,
    /// An account is not initialized yet.
    UninitializedAccount,
    /// Too few accounts are given.
    NotEnoughAccountKeys,
    /// An account is borrowed already.
    AccountBorrowFailed,
    /// A seed of an address is too long.
    MaxSeedLengthExceeded,
    /// The seeds lead to no address.
    InvalidSeeds,
    /// Data could not be written or read, for a reason that is not told.
    BorshIoError,
    /// An account is not exempt from rent.
    AccountNotRentExempt,
    /// A system variable is not supported.
    UnsupportedSysvar,
    /// An account has an owner that it may not have.
    IllegalOwner,
    /// The accounts take too many bytes.
    MaxAccountsDataSizeExceeded,
    /// An account may not have its new size.
    InvalidRealloc,
    /// The program ended with a code that stands for nothing.
    InvalidError,
    /// Anything else. No code of a program stands for it.
    Other,
}

impl InstructionError {
    /// The error with the given place in the list of those that every program knows. The first one
    /// is the program's own error zero.
    pub open spec fn builtin(place: int) -> InstructionError {
        if place == 1 {
            InstructionError::Custom(0)
        } else if place == 2 {
            InstructionError::InvalidArgument
        } else if place == 3 {
            InstructionError::InvalidInstructionData
        } else if place == 4 {
            InstructionError::InvalidAccountData
        } else if place == 5 {
            InstructionError::AccountDataTooSmall
        } else if place == 6 {
            InstructionError::InsufficientFunds
        } else if place == 7 {
            InstructionError::IncorrectProgramId
        } else if place == 8 {
            InstructionError::MissingRequiredSignature
        } else if place == 9 {
            InstructionError::AccountAlreadyInitialized
        } else if place == 10 {
            InstructionError::UninitializedAccount
        } else if place == 11 {
            InstructionError::NotEnoughAccountKeys
        } else if place == 12 {
            InstructionError::AccountBorrowFailed
        } else if place == 13 {
            InstructionError::MaxSeedLengthExceeded
        } else if place == 14 {
            InstructionError::InvalidSeeds
        } else if place == 15 {
            InstructionError::BorshIoError
        } else if place == 16 {
            InstructionError::AccountNotRentExempt
        } else if place == 17 {
            InstructionError::UnsupportedSysvar
        } else if place == 18 {
            InstructionError::IllegalOwner
        } else if place == 19 {
            InstructionError::MaxAccountsDataSizeExceeded
        } else if place == 20 {
            InstructionError::InvalidRealloc
        } else {
            InstructionError::InvalidError
        }
    }

    /// The error that stands for the code that a program ended with. A code below the 32nd power
    /// of two is an error code of the program's own. A multiple of that power is the place of one
    /// of the errors that every program knows.
    pub open spec fn from_exit(code: u64) -> InstructionError {
        if code < 0x1_0000_0000 {
            InstructionError::Custom(code as u32)
        } else if code % 0x1_0000_0000 == 0 {
            InstructionError::builtin(code as int / 0x1_0000_0000)
        } else {
            InstructionError::InvalidError
        }
    }
}

/// The code that a program ends with to report an error code of its own.
pub open spec fn exit_code(n: u32) -> u64 {
    if n == 0 {
        0x1_0000_0000
    } else {
        n as u64
    }
}

impl InstructionError {
    /// Calls `From<u64>` of `solana_sdk::instruction::InstructionError`. It takes the codes below
    /// the 32nd power of two for custom errors, and looks the multiples of that power up in a list
    /// of twenty, whose first entry is the custom error zero. Every other code is an invalid error.
    /// The text of the one error that carries a text is always the same, and left out.
    #[verifier::external_body]
    fn convert_exit_code(code: u64) -> (error: InstructionError)
        ensures
            error == InstructionError::from_exit(code),
    {
        match SdkError::from(code) {
            SdkError::Custom(n) => Self::Custom(n),
            SdkError::InvalidArgument => Self::InvalidArgument, SdkError::InvalidInstructionData => Self::InvalidInstructionData,
            SdkError::InvalidAccountData => Self::InvalidAccountData, SdkError::AccountDataTooSmall => Self::AccountDataTooSmall,
            SdkError::InsufficientFunds => Self::InsufficientFunds, SdkError::IncorrectProgramId => Self::IncorrectProgramId,
            SdkError::MissingRequiredSignature => Self::MissingRequiredSignature, SdkError::AccountAlreadyInitialized => Self::AccountAlreadyInitialized,
            SdkError::UninitializedAccount => Self::UninitializedAccount, SdkError::NotEnoughAccountKeys => Self::NotEnoughAccountKeys,
            SdkError::AccountBorrowFailed => Self::AccountBorrowFailed, SdkError::MaxSeedLengthExceeded => Self::MaxSeedLengthExceeded,
            SdkError::InvalidSeeds => Self::InvalidSeeds, SdkError::BorshIoError(_) => Self::BorshIoError,
            SdkError::AccountNotRentExempt => Self::AccountNotRentExempt, SdkError::UnsupportedSysvar => Self::UnsupportedSysvar,
            SdkError::IllegalOwner => Self::IllegalOwner, SdkError::MaxAccountsDataSizeExceeded => Self::MaxAccountsDataSizeExceeded,
            SdkError::InvalidRealloc => Self::InvalidRealloc, SdkError::InvalidError => Self::InvalidError,
            _ => Self::Other
        }
    }

    /// The error that stands for the code that a program ended with.
    pub fn from_exit_code(code: u64) -> (error: InstructionError)
        ensures
            error == InstructionError::from_exit(code),
            !(error is Other),
    {
        InstructionError::convert_exit_code(code)
    }
}

/// Why a transaction failed, as far as it matters here.
#[derive(Clone, Copy, Debug, PartialEq, Eq, Structural)]
pub enum TransactionError {
    /// The instruction with this index failed.
    InstructionError(u8, InstructionError),
    /// Anything else.
    Other,
}

/// Why a program failed, as far as it matters here.
#[derive(Clone, Copy, Debug, PartialEq, Eq, Structural)]
pub enum ProgramError {
    /// The program ended with an error code of its own.
    Custom(u32),
    /// Anything else.
    Other,
}

/// What an error turned out to be.
#[derive(Clone, Copy, Debug, PartialEq, Eq, Structural)]
pub struct Failure {
    /// The error of a transaction that a node reported, if the error is such a report.
    pub transaction: Option<TransactionError>,
    /// The error of a program, if the error is one.
    pub program: Option<ProgramError>,
}

impl Failure {
    /// The error code of the program, if it ended with one.
    pub open spec fn code(self) -> Option<u32> {
        match self.transaction {
            Some(TransactionError::InstructionError(_, InstructionError::Custom(n))) => Some(n),
            _ => match self.program {
                Some(ProgramError::Custom(n)) => Some(n),
                _ => None,
            },
        }
    }

    /// The error code of the program, if it ended with one. What a node reported has precedence.
    pub fn custom_code(&self) -> (code: Option<u32>)
        ensures
            code == self.code(),
    {
        match self.transaction {
            Some(TransactionError::InstructionError(_, InstructionError::Custom(n))) => Some(n),
            _ => match self.program {
                Some(ProgramError::Custom(n)) => Some(n),
                _ => None,
            },
        }
    }
}

/// Why a result is not the error that was expected.
#[derive(Clone, Copy, Debug, PartialEq, Eq, Structural)]
pub enum Mismatch {
    /// It is not an error.
    NotAnError,
    /// It is an error, but not with an error code of the program.
    NotCustom,
    /// It is an error with another error code.
    WrongCode(u32),
}

/// Checks that a result is an error of the program with the expected code.
pub fn assert_custom_program_error<T>(expected_error: u32, actual_result: &Result<T, Failure>) -> (
verdict: Result<(), Mismatch>)
    ensures
        verdict == match actual_result {
            Ok(_) => Err::<(), Mismatch>(Mismatch::NotAnError),
            Err(failure) => match failure.code() {
                None => Err::<(), Mismatch>(Mismatch::NotCustom),
                Some(n) => if n == expected_error {
                    Ok::<(), Mismatch>(())
                } else {
                    Err::<(), Mismatch>(Mismatch::WrongCode(n))
                },
            },
        },
{
    match actual_result {
        Ok(_) => Err(Mismatch::NotAnError),
        Err(failure) => match failure.custom_code() {
            None => Err(Mismatch::NotCustom),
            Some(n) => if n == expected_error {
                Ok(())
            } else {
                Err(Mismatch::WrongCode(n))
            },
        },
    }
}

/// The error code that a program reports is the one that the caller of the transaction is told.
pub proof fn law_error_codes_arrive(n: u32, index: u8, program: Option<ProgramError>)
    ensures
        (Failure {
            transaction: Some(
                TransactionError::InstructionError(
                    index,
                    InstructionError::from_exit(exit_code(n)),
                ),
            ),
            program,
        }).code() == Some(n),
{
}

/// The error code of a program's own error is the one that is told, unless a node has reported a
/// transaction that failed with an error code of a program. Where neither is there, none is told.
pub proof fn law_own_codes_arrive(
    n: u32,
    transaction: Option<TransactionError>,
    program: Option<ProgramError>,
)
    requires
        !(transaction matches Some(
            TransactionError::InstructionError(_, InstructionError::Custom(_)),
        )),
    ensures
        (Failure { transaction, program: Some(ProgramError::Custom(n)) }).code() == Some(n),
        !(program matches Some(ProgramError::Custom(_))) ==> (Failure {
            transaction,
            program,
        }).code() is None,
{
}

/// A code below the 32nd power of two is its own error code. Of the other codes, the first twenty
/// multiples of that power stand for one error each, and no two of them for the same, and all the
/// rest are invalid.
pub proof fn law_codes_are_told_apart(code: u64, other: u64)
    ensures
        code < 0x1_0000_0000 ==> InstructionError::from_exit(code) == InstructionError::Custom(
            code as u32,
        ),
        code >= 0x1_0000_0000 && (code % 0x1_0000_0000 != 0 || code > 0x14_0000_0000) ==>
            InstructionError::from_exit(code) == InstructionError::InvalidError,
        code != other && 0x1_0000_0000 <= code <= 0x14_0000_0000 && code % 0x1_0000_0000 == 0
            && 0x1_0000_0000 <= other <= 0x14_0000_0000 && other % 0x1_0000_0000 == 0 ==>
            InstructionError::from_exit(code) != InstructionError::from_exit(other),
        !(InstructionError::from_exit(code) is Other),
{
}

} // verus!
