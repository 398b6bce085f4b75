//! A runtime in memory that programs can be tested with.

use vstd::prelude::*;
use crate::account::{Account, Pubkey, Signature};
use crate::clock::{Clock, decode_clock, is_wire_form};
use crate::error::Error;
use crate::programs::{ProgramTable, by_address};

verus! {

/// The base 58 text that `solana_sdk`'s `Pubkey` is displayed as.
pub uninterp spec fn base58(address: Seq<u8>) -> Seq<char>;

/// Calls `to_string` of `solana_sdk::pubkey::Pubkey`, whose result is a function of the bytes of
/// the address.
#[verifier::external_body]
fn display(address: &Pubkey) -> (text: String)
    ensures
        text@ == base58(address@),
{
    solana_sdk::pubkey::Pubkey::from(address.0).to_string()
}

/// A program that a runtime is to know under a name.
#[derive(Debug)]
pub struct Builtin {
    /// The name.
    pub name: String,
    /// The program.
    pub program_id: Pubkey,
}

/// The name that a runtime knows a native program under.
pub open spec fn builtin_name(program_id: Seq<u8>) -> Seq<char> {
    "test-runtime:"@ + base58(program_id)
}

/// What a runtime is set up with: the native programs, and the builtin that stands for each of
/// them. An entry point is a value of type `E`.
pub struct TestRuntime<E> {
    programs: ProgramTable<E>,
    builtins: Vec<Builtin>,
}

impl<E> TestRuntime<E> {
    /// The native programs.
    pub closed spec fn programs(self) -> Map<Seq<u8>, E> {
        self.programs@
    }

    /// The names and addresses of the builtins, in the order in which they are added.
    pub closed spec fn builtins(self) -> Seq<(Seq<char>, Seq<u8>)> {
        Seq::new(
            self.builtins@.len(),
            |i: int| (self.builtins@[i].name@, self.builtins@[i].program_id@),
        )
    }
}

impl<E: Copy> TestRuntime<E> {
    /// The setup of a runtime with native programs. Each of them gets a builtin of its own, also
    /// where an address occurs twice. Of several entry points for an address the last one counts.
    pub fn new(native_programs: Vec<(Pubkey, E)>) -> (runtime: TestRuntime<E>)
        ensures
            runtime.programs() == by_address(native_programs@),
            runtime.builtins() == Seq::new(
                native_programs@.len(),
                |i: int| (builtin_name(native_programs@[i].0@), native_programs@[i].0@),
            ),
    {
        let mut builtins: Vec<Builtin> = Vec::new();
        let mut i: usize = 0;
        while i < native_programs.len()
            invariant
                i <= native_programs@.len(),
                builtins@.len() == i,
                forall|j: int|
                    0 <= j < i ==> (#[trigger] builtins@[j]).program_id@ == native_programs@[j].0@
                        && builtins@[j].name@ == builtin_name(native_programs@[j].0@),
            decreases native_programs@.len() - i,
        {
            let program_id = native_programs[i].0;
            let name = "test-runtime:".to_owned().concat(display(&program_id).as_str());
            builtins.push(Builtin { name, program_id });
            i = i + 1;
        }
        let runtime = TestRuntime {
            programs: ProgramTable::from_programs(native_programs),
            builtins,
        };
        assert(runtime.builtins() =~= Seq::new(
            native_programs@.len(),
            |i: int| (builtin_name(native_programs@[i].0@), native_programs@[i].0@),
        ));
        runtime
    }

    /// The native programs and the builtins.
    pub fn into_parts(self) -> (parts: (ProgramTable<E>, Vec<Builtin>))
        ensures
            parts.0@ == self.programs(),
            parts.1@.len() == self.builtins().len(),
            forall|i: int|
                0 <= i < parts.1@.len() ==> self.builtins()[i] == (
                    (#[trigger] parts.1@[i]).name@,
                    parts.1@[i].program_id@,
                ),
    {
        (self.programs, self.builtins)
    }
}

/// The minimum balance that `Rent::default().minimum_balance` of `solana_sdk` computes.
pub uninterp spec fn minimum_balance(length: usize) -> u64;

/// The rent of an account for a year: 3480 lamports for each of its bytes and of 128 more.
pub open spec fn yearly_rent(length: usize) -> int {
    3480 * (128 + length)
}

/// Calls `minimum_balance` of the default `solana_sdk::rent::Rent`. It multiplies the rent for a
/// year by two, in floating point, which is exact as long as the rent for a year does not exceed
/// the 53rd power of two. Where that rent does not fit into 64 bits, the call panics.
#[verifier::external_body]
fn rent_minimum_balance(length: usize) -> (balance: u64)
    requires
        yearly_rent(length) <= u64::MAX,
    ensures
        balance == minimum_balance(length),
        yearly_rent(length) <= 0x20_0000_0000_0000 ==> balance == 2 * yearly_rent(length),
{
    solana_sdk::rent::Rent::default().minimum_balance(length)
}

/// Whether the rent for a year of an account of the given size fits into 64 bits.
pub fn rent_fits(length: usize) -> (fits: bool)
    ensures
        fits == (yearly_rent(length) <= u64::MAX),
{
    length as u128 <= u64::MAX as u128 / 3480 - 128
}

/// The balance that exempts an account of the given size from rent.
pub fn get_minimum_balance_for_rent_exemption(length: usize) -> (balance: u64)
    requires
        yearly_rent(length) <= u64::MAX,
    ensures
        balance == minimum_balance(length),
        yearly_rent(length) <= 0x20_0000_0000_0000 ==> balance == 2 * yearly_rent(length),
{
    rent_minimum_balance(length)
}

/// The clock, out of the data of the account that it is kept in.
pub fn get_clock(sysvar: &[u8]) -> (clock: Result<Clock, Error>)
    ensures
        match clock {
            Ok(clock) => is_wire_form(sysvar@, clock),
            Err(error) => sysvar@.len() < 40 && error == Error::MalformedClock,
        },
{
    decode_clock(sysvar)
}

/// What a submitted transaction comes to: the first of its signatures, if the runtime processed it
/// without an error.
pub fn send_transaction(signatures: &Vec<Signature>, processed: bool) -> (outcome: Result<
    Signature,
    Error,
>)
    requires
        signatures@.len() > 0,
    ensures
        outcome == if processed {
            Ok::<Signature, Error>(signatures@[0])
        } else {
            Err::<Signature, Error>(Error::TransactionFailed)
        },
{
    let signature = signatures[0];
    if processed {
        Ok(signature)
    } else {
        Err(Error::TransactionFailed)
    }
}

/// How far the network has confirmed a transaction.
#[derive(Clone, Copy, Debug, PartialEq, Eq, Structural)]
pub enum TransactionConfirmationStatus {
    /// The node has processed it.
    Processed,
    /// The cluster has voted for it.
    Confirmed,
    /// The cluster cannot go back behind it.
    Finalized,
}

/// The status of a transaction. An error is a value of type `E`.
#[derive(Debug)]
pub struct TransactionStatus<E> {
    /// The slot at which it was processed.
    pub slot: u64,
    /// The number of blocks since then.
    pub confirmations: Option<usize>,
    /// How it ended.
    pub status: Result<(), E>,
    /// The error, if it ended with one.
    pub err: Option<E>,
    /// How far it is confirmed.
    pub confirmation_status: Option<TransactionConfirmationStatus>,
}

/// Whether a status reports the end of a transaction that a runtime at the given slot knows of.
pub open spec fn reports<E: Clone>(
    status: Option<TransactionStatus<E>>,
    slot: u64,
    ended: Option<Result<(), E>>,
) -> bool {
    match ended {
        None => status is None,
        Some(result) => {
            &&& status is Some
            &&& status->0.slot == slot
            &&& status->0.confirmations == Some(1usize)
            &&& status->0.status == result
            &&& match result {
                Ok(_) => status->0.err is None && status->0.confirmation_status == Some(
                    TransactionConfirmationStatus::Processed,
                ),
                Err(error) => status->0.err is Some && cloned(error, status->0.err->0)
                    && status->0.confirmation_status is None,
            }
        },
    }
}

/// The status of a transaction that ended in the given way, if it is known how.
pub fn transaction_status<E: Clone>(slot: u64, ended: Option<Result<(), E>>) -> (status: Option<
    TransactionStatus<E>,
>)
    ensures
        reports(status, slot, ended),
{
    match ended {
        None => None,
        Some(result) => {
            let err = match &result {
                Ok(_) => None,
                Err(error) => Some(error.clone()),
            };
            let confirmation_status = match &result {
                Ok(_) => Some(TransactionConfirmationStatus::Processed),
                Err(_) => None,
            };
            Some(
                TransactionStatus {
                    slot,
                    confirmations: Some(1),
                    status: result,
                    err,
                    confirmation_status,
                },
            )
        },
    }
}

/// The statuses of transactions that ended in the given ways, in the same order.
pub fn get_signature_statuses<E: Clone>(slot: u64, ended: Vec<Option<Result<(), E>>>) -> (statuses:
    Vec<Option<TransactionStatus<E>>>)
    ensures
        statuses@.len() == ended@.len(),
        forall|i: int|
            0 <= i < statuses@.len() ==> reports(#[trigger] statuses@[i], slot, ended@[i]),
{
    let mut statuses: Vec<Option<TransactionStatus<E>>> = Vec::new();
    for result in it: ended.into_iter()
        invariant
            statuses@.len() == it.index(),
            it.seq() == ended@,
            forall|i: int|
                0 <= i < statuses@.len() ==> reports(#[trigger] statuses@[i], slot, ended@[i]),
    {
        statuses.push(transaction_status(slot, result));
    }
    statuses
}

/// Whether an account has the size that is asked for, if one is.
pub open spec fn has_size(entry: (Pubkey, Account), size: Option<usize>) -> bool {
    size matches Some(target) ==> entry.1.data@.len() == target
}

/// Those accounts of a program that have the size that is asked for, if one is, in the same order.
pub fn get_program_accounts(accounts: Vec<(Pubkey, Account)>, size: Option<usize>) -> (found: Vec<
    (Pubkey, Account),
>)
    ensures
        found@ == accounts@.filter(|entry: (Pubkey, Account)| has_size(entry, size)),
{
    let ghost wanted = |entry: (Pubkey, Account)| has_size(entry, size);
    let mut found: Vec<(Pubkey, Account)> = Vec::new();
    reveal(Seq::filter);
    for entry in it: accounts.into_iter()
        invariant
            it.seq() == accounts@,
            wanted == (|entry: (Pubkey, Account)| has_size(entry, size)),
            found@ == accounts@.take(it.index() as int).filter(wanted),
    {
        reveal(Seq::filter);
        let ghost i = it.index() as int;
        assert(accounts@.take(i + 1).drop_last() =~= accounts@.take(i));
        assert(accounts@.take(i + 1).last() == entry);
        let keep = match size {
            Some(target) => target == entry.1.data.len(),
            None => true,
        };
        if keep {
            found.push(entry);
        }
    }
    assert(accounts@.take(accounts@.len() as int) =~= accounts@);
    found
}

/// Where no size is asked for, every account is returned.
pub proof fn law_no_size_no_filter(accounts: Seq<(Pubkey, Account)>)
    ensures
        accounts.filter(|entry: (Pubkey, Account)| has_size(entry, None)) == accounts,
    decreases accounts.len(),
{
    reveal(Seq::filter);
    if accounts.len() > 0 {
        law_no_size_no_filter(accounts.drop_last());
        assert(accounts.drop_last().push(accounts.last()) =~= accounts);
    } else {
        assert(accounts =~= Seq::empty());
    }
}

/// The name of the builtin of a program is a prefix and the text of the address.
pub proof fn law_builtin_names(program_id: Seq<u8>)
    ensures
        builtin_name(program_id).len() == 13 + base58(program_id).len(),
        builtin_name(program_id).take(13) == "test-runtime:"@,
        builtin_name(program_id).skip(13) == base58(program_id),
{
    reveal_strlit("test-runtime:");
    assert(builtin_name(program_id).take(13) =~= "test-runtime:"@);
    assert(builtin_name(program_id).skip(13) =~= base58(program_id));
}

/// An empty account owes rent for 128 bytes, and each byte more costs the same again.
pub proof fn law_rent_grows_with_size(length: usize)
    ensures
        yearly_rent(0) == 445_440,
        length < usize::MAX ==> yearly_rent((length + 1) as usize) == yearly_rent(length) + 3_480,
{
}

/// An account is wanted exactly if no size is asked for, or its own.
pub proof fn law_sizes(entry: (Pubkey, Account), target: usize)
    ensures
        has_size(entry, None),
        has_size(entry, Some(target)) <==> entry.1.data@.len() == target,
{
}

/// A status is reported exactly for a transaction whose end is known. It has the slot of the
/// runtime and one confirmation, tells how the transaction ended, and counts as processed exactly
/// if it ended well.
pub proof fn law_reports<E: Clone>(
    status: Option<TransactionStatus<E>>,
    slot: u64,
    ended: Option<Result<(), E>>,
)
    requires
        reports(status, slot, ended),
    ensures
        status is Some <==> ended is Some,
        status matches Some(told) ==> {
            &&& told.slot == slot
            &&& told.confirmations == Some(1usize)
            &&& told.status == ended->0
            &&& told.err is Some <==> told.status is Err
            &&& told.err is Some ==> cloned(told.status->Err_0, told.err->0)
            &&& told.status is Ok ==> told.confirmation_status == Some(
                TransactionConfirmationStatus::Processed,
            )
            &&& told.status is Err ==> told.confirmation_status is None
        },
{
}

/// Asking for a size leaves out exactly the accounts of other sizes.
pub proof fn law_filter_keeps_what_is_wanted(
    accounts: Seq<(Pubkey, Account)>,
    size: Option<usize>,
    entry: (Pubkey, Account),
)
    ensures
        accounts.filter(|e: (Pubkey, Account)| has_size(e, size)).contains(entry) <==>
            accounts.contains(entry) && (size is None || entry.1.data@.len() == size->0),
{
    let wanted = |e: (Pubkey, Account)| has_size(e, size);
    broadcast use vstd::seq_lib::group_filter_ensures;

    let kept = accounts.filter(wanted);
    if kept.contains(entry) {
        let i = choose|i: int| 0 <= i < kept.len() && kept[i] == entry;
        assert(wanted(kept[i]));
        lemma_filter_subset(accounts, wanted, i);
    }
    if accounts.contains(entry) && wanted(entry) {
        let i = choose|i: int| 0 <= i < accounts.len() && accounts[i] == entry;
        assert(kept.contains(accounts[i]));
    }
}

/// What a filter keeps was there before.
proof fn lemma_filter_subset<A>(all: Seq<A>, wanted: spec_fn(A) -> bool, i: int)
    requires
        0 <= i < all.filter(wanted).len(),
    ensures
        all.contains(all.filter(wanted)[i]),
    decreases all.len(),
{
    reveal(Seq::filter);
    if all.len() > 0 {
        let shorter = all.drop_last();
        let kept = shorter.filter(wanted);
        if i < kept.len() {
            lemma_filter_subset(shorter, wanted, i);
            let j = choose|j: int| 0 <= j < shorter.len() && shorter[j] == kept[i];
            assert(all[j] == kept[i]);
        } else {
            assert(all[all.len() - 1] == all.filter(wanted)[i]);
        }
    }
}

} // verus!
