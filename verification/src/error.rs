//! What can go wrong.

use vstd::prelude::*;

verus! {

/// The failures that the clients report.
#[derive(Clone, Copy, Debug, PartialEq, Eq, Structural)]
pub enum Error {
    /// No key pair is stored under the name.
    MissingKey,
    /// A signature was offered for an address that does not sign the message.
    MissingSigner,
    /// The message asks for more signatures than it has addresses.
    InvalidAccountIndex,
    /// The clock of a live network cannot be set.
    LiveClock,
    /// The runtime rejected the transaction.
    TransactionFailed,
    /// The data of the clock's account is too short.
    MalformedClock,
}

impl Error {
    /// The text of the failure.
    pub open spec fn text(self) -> Seq<char> {
        match self {
            Error::MissingKey => "missing key: {k}"@,
            Error::MissingSigner => "missing signer"@,
            Error::InvalidAccountIndex => "Transaction contains an invalid account reference"@,
            Error::LiveClock => "Live connection. Setting the clock is not permissible"@,
            Error::TransactionFailed => "failed"@,
            Error::MalformedClock => "io error: unexpected end of file"@,
        }
    }

    /// The text of the failure.
    pub fn message(&self) -> (text: &'static str)
        ensures
            text@ == self.text(),
    {
        match self {
            Error::MissingKey => "missing key: {k}",
            Error::MissingSigner => "missing signer",
            Error::InvalidAccountIndex => "Transaction contains an invalid account reference",
            Error::LiveClock => "Live connection. Setting the clock is not permissible",
            Error::TransactionFailed => "failed",
            Error::MalformedClock => "io error: unexpected end of file",
        }
    }
}

} // verus!
