//! A connection to a node, with one key pair that pays.

use vstd::prelude::*;
use crate::account::{Account, Blockhash, signature_bytes, unsigned};
use crate::config::{
    Airdrop,
    CommitmentLevel,
    Connection,
    ConnectionView,
    LAMPORTS_PER_SOL,
    RpcSendTransactionConfig,
    choose_config,
    optimistic_config,
    submit_config,
};
use crate::keypair::{Keypair, keypair_signature, signs_for};
use crate::keys::keypair_bytes;
use crate::message::{
    AccountMetaView,
    Instruction,
    InstructionView,
    MessageView,
    fits,
    instruction_views,
    law_small_messages_fit,
    lists,
    message_of,
    message_uses,
    signing_keys,
};
use crate::transaction::{
    SignerError,
    Transaction,
    held_offers,
    last_for,
    law_who_signs_in_full,
    lemma_last_for_held,
    signs_in_full,
    slots,
    stray_offer,
};

verus! {

/// A connection to a node, with one key pair that pays.
pub struct RpcConnection {
    rpc: Connection,
    payer: Keypair,
    tx_config: Option<RpcSendTransactionConfig>,
}

/// A connection to a node, as a mathematical value.
#[verifier::ext_equal]
pub struct RpcConnectionView {
    pub rpc: ConnectionView,
    pub payer: Seq<u8>,
    pub tx_config: Option<RpcSendTransactionConfig>,
}

impl View for RpcConnection {
    type V = RpcConnectionView;

    closed spec fn view(&self) -> RpcConnectionView {
        RpcConnectionView { rpc: self.rpc@, payer: self.payer@, tx_config: self.tx_config }
    }
}

impl RpcConnectionView {
    /// A connection that takes no precautions.
    pub open spec fn optimistic(payer: Seq<u8>, url: Seq<char>) -> RpcConnectionView {
        RpcConnectionView {
            rpc: ConnectionView { url, commitment: Some(CommitmentLevel::Processed) },
            payer,
            tx_config: Some(RpcSendTransactionConfig::without_preflight()),
        }
    }

    /// The address that pays.
    pub open spec fn payer_address(self) -> Seq<u8> {
        self.payer.subrange(32, 64)
    }
}

/// The number of lamports in some number of sol.
pub open spec fn sol_to_lamports(sol: u64) -> int {
    sol * LAMPORTS_PER_SOL
}

/// The bytes of the payer's key pair, and then those of other key pairs.
pub open spec fn payer_and(payer: Seq<u8>, signers: Seq<Seq<u8>>) -> Seq<Seq<u8>> {
    seq![payer] + signers
}

impl RpcConnection {
    /// A connection that sends transactions in the usual way.
    pub fn new(payer: Keypair, rpc: Connection) -> (connection: RpcConnection)
        ensures
            connection@ == (RpcConnectionView { rpc: rpc@, payer: payer@, tx_config: None }),
    {
        RpcConnection { rpc, payer, tx_config: None }
    }

    /// A connection that sends transactions with settings of its own, if there are any.
    pub fn new_with_config(
        payer: Keypair,
        rpc: Connection,
        tx_config: Option<RpcSendTransactionConfig>,
    ) -> (connection: RpcConnection)
        ensures
            connection@ == (RpcConnectionView { rpc: rpc@, payer: payer@, tx_config }),
    {
        RpcConnection { rpc, payer, tx_config }
    }

    /// A connection that takes no precautions: it trusts a block as soon as it is processed, and
    /// sends transactions without simulating them. That makes tests against a local validator
    /// faster, and the validator's own log of a failure more telling.
    pub fn new_optimistic(payer: Keypair, url: &str) -> (connection: RpcConnection)
        ensures
            connection@ == RpcConnectionView::optimistic(payer@, url@),
    {
        RpcConnection {
            rpc: Connection { url: url.to_owned(), commitment: Some(CommitmentLevel::Processed) },
            payer,
            tx_config: Some(optimistic_config()),
        }
    }

    /// An optimistic connection to a local validator that pays with the given key pair, and the
    /// airdrop that the key pair needs first.
    pub fn new_local_funded_by(payer: Keypair) -> (made: (RpcConnection, Airdrop))
        ensures
            made.0@ == RpcConnectionView::optimistic(payer@, "http://127.0.0.1:8899"@),
            signs_for(payer@, made.1.to@),
            made.1.lamports == sol_to_lamports(1_000),
    {
        let connection = RpcConnection::new_optimistic(payer, "http://127.0.0.1:8899");
        let airdrop = connection.request_airdrop(1_000);
        (connection, airdrop)
    }

    /// An optimistic connection to a local validator that pays with a key pair drawn at random,
    /// and the airdrop that the key pair needs first.
    pub fn new_local_funded() -> (made: (RpcConnection, Airdrop))
        ensures
            made.0@ == RpcConnectionView::optimistic(made.0@.payer, "http://127.0.0.1:8899"@),
            made.1.to@ == made.0@.payer_address(),
            made.1.lamports == sol_to_lamports(1_000),
    {
        RpcConnection::new_local_funded_by(Keypair::new())
    }

    /// The request for some sol for the payer.
    pub fn request_airdrop(&self, sol: u64) -> (airdrop: Airdrop)
        requires
            sol_to_lamports(sol) <= u64::MAX,
        ensures
            airdrop.to@ == self@.payer_address(),
            airdrop.lamports == sol_to_lamports(sol),
    {
        Airdrop { to: self.payer.pubkey(), lamports: sol * LAMPORTS_PER_SOL }
    }

    /// Where the node is.
    pub fn connection(&self) -> (rpc: &Connection)
        ensures
            rpc@ == self@.rpc,
    {
        &self.rpc
    }

    /// The key pair that pays.
    pub fn payer(&self) -> (payer: &Keypair)
        ensures
            payer@ == self@.payer,
    {
        &self.payer
    }

    /// The settings that transactions are sent with, where the connection has the given commitment
    /// level.
    pub fn send_config(&self, commitment: CommitmentLevel) -> (config: RpcSendTransactionConfig)
        ensures
            config == RpcSendTransactionConfig::chosen(self@.tx_config, commitment),
    {
        choose_config(self.tx_config, commitment)
    }

    /// The settings that a transaction is sent with that is not waited for, over a connection with
    /// the given commitment level.
    pub fn submit_config(&self, commitment: CommitmentLevel) -> (config: RpcSendTransactionConfig)
        ensures
            config == RpcSendTransactionConfig::submitted(self@.tx_config, commitment),
    {
        submit_config(self.tx_config, commitment)
    }
}

/// The payer's key pair, and then the others.
fn with_payer<'a>(payer: &'a Keypair, signers: &Vec<&'a Keypair>) -> (all: Vec<&'a Keypair>)
    ensures
        keypair_bytes(all@) == payer_and(payer@, keypair_bytes(signers@)),
{
    let mut all: Vec<&'a Keypair> = Vec::new();
    all.push(payer);
    let mut i: usize = 0;
    while i < signers.len()
        invariant
            i <= signers@.len(),
            all@ == seq![payer] + signers@.take(i as int),
        decreases signers@.len() - i,
    {
        all.push(signers[i]);
        assert(all@ =~= seq![payer] + signers@.take(i + 1));
        i = i + 1;
    }
    assert(keypair_bytes(all@) =~= payer_and(payer@, keypair_bytes(signers@)));
    all
}

/// Makes a transaction that the payer pays for, signed by the payer and by other key pairs.
pub fn create_transaction(
    payer: &Keypair,
    signers: &Vec<&Keypair>,
    instructions: &Vec<Instruction>,
    blockhash: &Blockhash,
) -> (transaction: Transaction)
    requires
        fits(instruction_views(instructions@), payer@.subrange(32, 64)),
        signs_in_full(
            message_of(instruction_views(instructions@), payer@.subrange(32, 64), blockhash@),
            payer_and(payer@, keypair_bytes(signers@)),
        ),
    ensures
        transaction.message@ == message_of(
            instruction_views(instructions@),
            payer@.subrange(32, 64),
            blockhash@,
        ),
        lists(
            transaction.message@,
            message_uses(instruction_views(instructions@), payer@.subrange(32, 64)),
            payer@.subrange(32, 64),
        ),
        signature_bytes(transaction.signatures@) == slots(
            transaction.message@,
            held_offers(
                payer_and(payer@, keypair_bytes(signers@)),
                transaction.message.data@,
            ),
        ),
{
    let all = with_payer(payer, signers);
    Transaction::new_signed_with_payer(instructions, &payer.pubkey(), &all, blockhash)
}

/// Makes a transaction that the payer pays for, signed by the payer and by other key pairs, if
/// they sign it in full.
pub fn try_create_transaction(
    payer: &Keypair,
    signers: &Vec<&Keypair>,
    instructions: &Vec<Instruction>,
    blockhash: &Blockhash,
) -> (made: Result<Transaction, SignerError>)
    ensures
        ({
            let views = instruction_views(instructions@);
            let address = payer@.subrange(32, 64);
            let message = message_of(views, address, blockhash@);
            let offers = held_offers(
                payer_and(payer@, keypair_bytes(signers@)),
                message.data,
            );
            match made {
                Ok(transaction) => {
                    &&& fits(views, address)
                    &&& signs_in_full(message, payer_and(payer@, keypair_bytes(signers@)))
                    &&& transaction.message@ == message
                    &&& lists(message, message_uses(views, address), address)
                    &&& signature_bytes(transaction.signatures@) == slots(message, offers)
                },
                Err(SignerError::MessageTooLarge) => !fits(views, address),
                Err(SignerError::KeypairPubkeyMismatch) => fits(views, address) && stray_offer(
                    message,
                    offers,
                ),
                Err(SignerError::NotEnoughSigners) => fits(views, address) && !stray_offer(
                    message,
                    offers,
                ) && slots(message, offers).contains(unsigned()),
            }
        }),
{
    let all = with_payer(payer, signers);
    match Transaction::try_new_signed_with_payer(instructions, &payer.pubkey(), &all, blockhash) {
        Ok(_) => Ok(create_transaction(payer, signers, instructions, blockhash)),
        Err(error) => Err(error),
    }
}

/// Which slot to ask a node for.
#[derive(Clone, Copy, Debug, PartialEq, Eq, Structural)]
pub enum SlotQuery {
    /// The current slot at the commitment level of the connection.
    Current,
    /// The current slot at this commitment level.
    CurrentAt(CommitmentLevel),
}

/// Which slot to ask a node for, given a commitment level or none.
pub fn get_slot(commitment: Option<CommitmentLevel>) -> (query: SlotQuery)
    ensures
        query == match commitment {
            Some(level) => SlotQuery::CurrentAt(level),
            None => SlotQuery::Current,
        },
{
    match commitment {
        Some(level) => SlotQuery::CurrentAt(level),
        None => SlotQuery::Current,
    }
}

/// The account that a node returned for the one address that it was asked for.
pub fn get_account(list: Vec<Option<Account>>) -> (account: Option<Account>)
    requires
        list@.len() > 0,
    ensures
        account == list@.last(),
{
    let mut list = list;
    list.pop().unwrap()
}

/// How often the statuses of signatures are asked for before giving up.
pub const CONFIRM_ROUNDS: u32 = 7;

/// What to do after the statuses of signatures have been asked for.
#[derive(Clone, Copy, Debug, PartialEq, Eq, Structural)]
pub enum Confirmation {
    /// Ask again.
    AskAgain,
    /// Stop: the signatures are not confirmed.
    GiveUp,
}

/// Whether every status of a list is known.
pub open spec fn all_known<S>(statuses: Seq<Option<S>>) -> bool {
    forall|i: int| 0 <= i < statuses.len() ==> #[trigger] statuses[i] is Some
}

/// Whether every status of a list is known.
pub fn statuses_known<S>(statuses: &Vec<Option<S>>) -> (known: bool)
    ensures
        known == all_known(statuses@),
{
    let mut i: usize = 0;
    while i < statuses.len()
        invariant
            i <= statuses@.len(),
            forall|j: int| 0 <= j < i ==> #[trigger] statuses@[j] is Some,
        decreases statuses@.len() - i,
    {
        if statuses[i].is_none() {
            assert(statuses@[i as int] is None);
            return false;
        }
        i = i + 1;
    }
    true
}

/// What to do in the given round, counted from zero, where all statuses are known: ask again, up to
/// the last round.
pub open spec fn after_round(round: int) -> Confirmation {
    if round + 1 < CONFIRM_ROUNDS {
        Confirmation::AskAgain
    } else {
        Confirmation::GiveUp
    }
}

/// How often statuses are asked for from the given round on, where the node replies to each round
/// in turn, and what ends the rounds. Nothing does as long as a reply is missing or leaves a status
/// unknown.
pub open spec fn rounds_from<S>(replies: Seq<Seq<Option<S>>>, round: int) -> (
    int,
    Option<Confirmation>,
)
    decreases CONFIRM_ROUNDS - round,
{
    if round < 0 || round >= CONFIRM_ROUNDS || round >= replies.len() {
        (0, None)
    } else if !all_known(replies[round]) {
        (1, None)
    } else {
        match after_round(round) {
            Confirmation::AskAgain => {
                let (asked, end) = rounds_from(replies, round + 1);
                (1 + asked, end)
            },
            Confirmation::GiveUp => (1, Some(Confirmation::GiveUp)),
        }
    }
}

/// Where all statuses are known in every round, they are asked for as often as there are rounds,
/// and then given up.
pub proof fn law_rounds_end<S>(replies: Seq<Seq<Option<S>>>)
    requires
        replies.len() >= CONFIRM_ROUNDS,
        forall|i: int| 0 <= i < CONFIRM_ROUNDS ==> all_known(#[trigger] replies[i]),
    ensures
        rounds_from(replies, 0) == (CONFIRM_ROUNDS as int, Some(Confirmation::GiveUp)),
        rounds_from(replies, 0).0 == 7,
{
    lemma_rounds_from(replies, 0);
}

/// From any round on, as many rounds as are left are asked.
proof fn lemma_rounds_from<S>(replies: Seq<Seq<Option<S>>>, round: int)
    requires
        0 <= round < CONFIRM_ROUNDS,
        replies.len() >= CONFIRM_ROUNDS,
        forall|i: int| 0 <= i < CONFIRM_ROUNDS ==> all_known(#[trigger] replies[i]),
    ensures
        rounds_from(replies, round) == (CONFIRM_ROUNDS - round, Some(Confirmation::GiveUp)),
    decreases CONFIRM_ROUNDS - round,
{
    if round + 1 < CONFIRM_ROUNDS {
        lemma_rounds_from(replies, round + 1);
    }
}

/// What to do once the statuses of signatures have been asked for, `round` times before this one.
/// As long as all of them are known the question is repeated, up to the last round.
pub fn confirm_transactions<S>(round: u32, statuses: &Vec<Option<S>>) -> (next: Confirmation)
    requires
        round < CONFIRM_ROUNDS,
        all_known(statuses@),
    ensures
        next == after_round(round as int),
{
    if round + 1 < CONFIRM_ROUNDS {
        Confirmation::AskAgain
    } else {
        Confirmation::GiveUp
    }
}

/// An optimistic connection trusts what is processed and never simulates. Any other one without
/// settings of its own simulates at its own level.
pub proof fn law_optimism(
    payer: Seq<u8>,
    url: Seq<char>,
    rpc: ConnectionView,
    commitment: CommitmentLevel,
)
    ensures
        ({
            let optimistic = RpcConnectionView::optimistic(payer, url);
            let cautious = RpcConnectionView { rpc, payer, tx_config: None };
            let hasty = RpcSendTransactionConfig::chosen(optimistic.tx_config, commitment);
            let careful = RpcSendTransactionConfig::chosen(cautious.tx_config, commitment);
            &&& optimistic.rpc.commitment == Some(CommitmentLevel::Processed)
            &&& hasty.skip_preflight
            &&& RpcSendTransactionConfig::submitted(optimistic.tx_config, commitment).skip_preflight
            &&& !careful.skip_preflight
            &&& RpcSendTransactionConfig::submitted(cautious.tx_config, commitment) == careful
            &&& careful.preflight_commitment == Some(commitment)
        }),
{
}

/// The first signature of a transaction that is made for a payer is the payer's, where no other
/// key pair is for the payer's address.
pub proof fn law_payer_signs_first(
    payer: Seq<u8>,
    signers: Seq<Seq<u8>>,
    message: MessageView,
    uses: Seq<AccountMetaView>,
)
    requires
        lists(message, uses, payer.subrange(32, 64)),
        forall|i: int|
            0 <= i < signers.len() ==> !signs_for(#[trigger] signers[i], payer.subrange(32, 64)),
    ensures
        slots(message, held_offers(payer_and(payer, signers), message.data))[0]
            == keypair_signature(payer, message.data),
{
    let address = payer.subrange(32, 64);
    let all = payer_and(payer, signers);
    assert(signing_keys(message)[0] == address);
    lemma_last_for_held(all, message.data, address);
    assert(signs_for(all[0], address));
    let i = choose|i: int|
        0 <= i < all.len() && signs_for(#[trigger] all[i], address) && last_for(
            held_offers(all, message.data),
            address,
        ) == Some(keypair_signature(all[i], message.data));
    if i > 0 {
        assert(!signs_for(signers[i - 1], address));
    }
}

/// A transaction that key pairs sign in full has, for each address that signs, the signature of
/// one of the key pairs for it.
pub proof fn law_created_transactions_are_signed(
    held: Seq<Seq<u8>>,
    message: MessageView,
    j: int,
)
    requires
        signs_in_full(message, held),
        message.account_keys.no_duplicates(),
        0 <= j < message.num_required_signatures <= message.account_keys.len(),
    ensures
        exists|i: int|
            0 <= i < held.len() && signs_for(#[trigger] held[i], message.account_keys[j]) && slots(
                message,
                held_offers(held, message.data),
            )[j] == keypair_signature(held[i], message.data),
{
    let key = message.account_keys[j];
    let made = slots(message, held_offers(held, message.data));
    assert(signing_keys(message)[j] == key);
    assert(made[j] != unsigned()) by {
        if made[j] == unsigned() {
            assert(made.contains(unsigned()));
        }
    }
    lemma_last_for_held(held, message.data, key);
}

/// An optimistic connection has the payer and the endpoint that it is made with, and pays from the
/// address in the last half of the payer's key pair. A sol is a thousand million lamports.
pub proof fn law_connections_are_as_made(payer: Seq<u8>, url: Seq<char>, sol: u64)
    ensures
        RpcConnectionView::optimistic(payer, url).payer == payer,
        RpcConnectionView::optimistic(payer, url).rpc.url == url,
        RpcConnectionView::optimistic(payer, url).rpc.commitment == Some(
            CommitmentLevel::Processed,
        ),
        RpcConnectionView::optimistic(payer, url).tx_config is Some,
        RpcConnectionView::optimistic(payer, url).payer_address() == payer.subrange(32, 64),
        sol_to_lamports(sol) == sol * 1_000_000_000,
{
}

/// The payer's key pair comes first, and then all the others in their order.
pub proof fn law_payer_comes_first(payer: Seq<u8>, signers: Seq<Seq<u8>>, i: int)
    ensures
        payer_and(payer, signers).len() == signers.len() + 1,
        payer_and(payer, signers)[0] == payer,
        0 <= i < signers.len() ==> payer_and(payer, signers)[i + 1] == signers[i],
{
}

/// Statuses are all known exactly if none is missing. They are asked for in seven rounds: after
/// each of the first six they are asked for again, and after the seventh they are given up.
pub proof fn law_seven_rounds<S>(statuses: Seq<Option<S>>, round: int)
    ensures
        all_known(statuses) <==> !exists|i: int|
            0 <= i < statuses.len() && (#[trigger] statuses[i]) is None,
        0 <= round < 6 ==> after_round(round) == Confirmation::AskAgain,
        round == 6 ==> after_round(round) == Confirmation::GiveUp,
{
}

/// A transaction of few addresses is made, never refused as too large, if the payer and the other
/// key pairs sign it: of the payer's message, each address that has to sign is that of one of them,
/// none of them is for another address, and no signature is all zeros.
pub proof fn law_transactions_are_made(
    payer: Seq<u8>,
    signers: Seq<Seq<u8>>,
    message: MessageView,
    instructions: Seq<InstructionView>,
    known: Seq<Seq<u8>>,
)
    requires
        lists(message, message_uses(instructions, payer.subrange(32, 64)), payer.subrange(32, 64)),
        known.len() <= 255,
        known.contains(payer.subrange(32, 64)),
        instructions.len() <= 65535,
        forall|i: int|
            0 <= i < instructions.len() ==> known.contains((#[trigger] instructions[i]).program_id)
                && instructions[i].accounts.len() <= 65535 && instructions[i].data.len() <= 65535,
        forall|i: int, k: int|
            0 <= i < instructions.len() && 0 <= k < instructions[i].accounts.len()
                ==> known.contains((#[trigger] instructions[i].accounts[k]).pubkey),
        forall|i: int|
            0 <= i < signers.len() ==> message.account_keys.take(
                message.num_required_signatures as int,
            ).contains((#[trigger] signers[i]).subrange(32, 64)),
        forall|key: Seq<u8>| #[trigger]
            message.account_keys.take(message.num_required_signatures as int).contains(key) && key
                != payer.subrange(32, 64) ==> exists|i: int|
                0 <= i < signers.len() && signs_for(#[trigger] signers[i], key),
        keypair_signature(payer, message.data) != unsigned(),
        forall|i: int|
            0 <= i < signers.len() ==> keypair_signature(#[trigger] signers[i], message.data)
                != unsigned(),
    ensures
        fits(instructions, payer.subrange(32, 64)),
        signs_in_full(message, payer_and(payer, signers)),
{
    let address = payer.subrange(32, 64);
    let front = message.account_keys.take(message.num_required_signatures as int);
    let all = payer_and(payer, signers);
    law_small_messages_fit(instructions, address, known);
    assert(front[0] == address);
    assert forall|i: int| 0 <= i < all.len() implies front.contains(
        (#[trigger] all[i]).subrange(32, 64),
    ) by {
        if i > 0 {
            assert(all[i] == signers[i - 1]);
        }
    }
    assert forall|key: Seq<u8>| #[trigger] front.contains(key) implies exists|i: int|
        0 <= i < all.len() && signs_for(#[trigger] all[i], key) && (forall|k: int|
            i < k < all.len() ==> !signs_for(#[trigger] all[k], key)) && keypair_signature(
            all[i],
            message.data,
        ) != unsigned() by {
        let some = if key == address {
            0int
        } else {
            1 + choose|i: int| 0 <= i < signers.len() && signs_for(#[trigger] signers[i], key)
        };
        assert(all[some] == if some == 0 {
            payer
        } else {
            signers[some - 1]
        });
        let last = lemma_last_signer(all, key, some);
        if last > 0 {
            assert(all[last] == signers[last - 1]);
        }
    }
    law_who_signs_in_full(message, front, all);
}

/// Of the key pairs that sign for an address there is a last one.
proof fn lemma_last_signer(all: Seq<Seq<u8>>, key: Seq<u8>, some: int) -> (last: int)
    requires
        0 <= some < all.len(),
        signs_for(all[some], key),
    ensures
        some <= last < all.len(),
        signs_for(all[last], key),
        forall|k: int| last < k < all.len() ==> !signs_for(#[trigger] all[k], key),
    decreases all.len() - some,
{
    if exists|k: int| some < k < all.len() && signs_for(#[trigger] all[k], key) {
        let k = choose|k: int| some < k < all.len() && signs_for(#[trigger] all[k], key);
        lemma_last_signer(all, key, k)
    } else {
        some
    }
}

} // verus!
