//! How requests are to be made.

use vstd::prelude::*;
use crate::account::Pubkey;

verus! {

/// How settled a block has to be.
#[derive(Clone, Copy, Debug, PartialEq, Eq, Structural)]
pub enum CommitmentLevel {
    /// Deprecated name of `Finalized`.
    Max,
    /// Deprecated name of `Processed`.
    Recent,
    /// Deprecated name of `Finalized`.
    Root,
    /// Deprecated name of `Confirmed`.
    Single,
    /// Deprecated name of `Confirmed`.
    SingleGossip,
    /// The node has processed the block.
    Processed,
    /// The cluster has voted for the block.
    Confirmed,
    /// The cluster cannot go back behind the block.
    Finalized,
}

/// How a transaction is written on the wire.
#[derive(Clone, Copy, Debug, PartialEq, Eq, Structural)]
pub enum TransactionEncoding {
    /// Deprecated name of `Base58`.
    Binary,
    /// Base 64.
    Base64,
    /// Base 58.
    Base58,
    /// JSON.
    Json,
    /// JSON with parsed instructions.
    JsonParsed,
}

/// How a transaction is to be sent.
#[derive(Clone, Copy, Debug, PartialEq, Eq, Structural)]
pub struct RpcSendTransactionConfig {
    /// Whether to send without simulating first.
    pub skip_preflight: bool,
    /// The commitment level of the simulation.
    pub preflight_commitment: Option<CommitmentLevel>,
    /// How the transaction is written.
    pub encoding: Option<TransactionEncoding>,
    /// How often the node may try to send.
    pub max_retries: Option<usize>,
    /// The first slot at which the node may answer.
    pub min_context_slot: Option<u64>,
}

impl RpcSendTransactionConfig {
    /// Nothing out of the ordinary.
    pub open spec fn plain() -> RpcSendTransactionConfig {
        RpcSendTransactionConfig {
            skip_preflight: false,
            preflight_commitment: None,
            encoding: None,
            max_retries: None,
            min_context_slot: None,
        }
    }

    /// Plain, but without the simulation.
    pub open spec fn without_preflight() -> RpcSendTransactionConfig {
        RpcSendTransactionConfig { skip_preflight: true, ..RpcSendTransactionConfig::plain() }
    }

    /// The settings of a client, or else plain ones with the simulation at the commitment level of
    /// the connection.
    pub open spec fn chosen(
        own: Option<RpcSendTransactionConfig>,
        commitment: CommitmentLevel,
    ) -> RpcSendTransactionConfig {
        match own {
            Some(config) => config,
            None => RpcSendTransactionConfig {
                preflight_commitment: Some(commitment),
                ..RpcSendTransactionConfig::plain()
            },
        }
    }
}

impl RpcSendTransactionConfig {
    /// How a transaction is sent that is not waited for: plain, with the simulation at the
    /// commitment level of the connection, except by those who never simulate.
    pub open spec fn submitted(
        own: Option<RpcSendTransactionConfig>,
        commitment: CommitmentLevel,
    ) -> RpcSendTransactionConfig {
        if own == Some(RpcSendTransactionConfig::without_preflight()) {
            RpcSendTransactionConfig::without_preflight()
        } else {
            RpcSendTransactionConfig::chosen(None, commitment)
        }
    }
}

impl Default for RpcSendTransactionConfig {
    fn default() -> (config: Self)
        ensures
            config == RpcSendTransactionConfig::plain(),
    {
        RpcSendTransactionConfig {
            skip_preflight: false,
            preflight_commitment: None,
            encoding: None,
            max_retries: None,
            min_context_slot: None,
        }
    }
}

/// The settings without a simulation, for those who have nothing to lose.
pub fn optimistic_config() -> (config: RpcSendTransactionConfig)
    ensures
        config == RpcSendTransactionConfig::without_preflight(),
{
    RpcSendTransactionConfig { skip_preflight: true, ..RpcSendTransactionConfig::default() }
}

/// The settings that a transaction is sent with.
pub fn choose_config(own: Option<RpcSendTransactionConfig>, commitment: CommitmentLevel) -> (config:
    RpcSendTransactionConfig)
    ensures
        config == RpcSendTransactionConfig::chosen(own, commitment),
{
    match own {
        Some(config) => config,
        None => RpcSendTransactionConfig {
            preflight_commitment: Some(commitment),
            ..RpcSendTransactionConfig::default()
        },
    }
}

/// The settings that a transaction is sent with that is not waited for. Of a client's own settings
/// only those that merely leave out the simulation count.
pub fn submit_config(own: Option<RpcSendTransactionConfig>, commitment: CommitmentLevel) -> (config:
    RpcSendTransactionConfig)
    ensures
        config == RpcSendTransactionConfig::submitted(own, commitment),
{
    let optimistic = optimistic_config();
    match own {
        Some(config) => if config == optimistic {
            config
        } else {
            choose_config(None, commitment)
        },
        None => choose_config(None, commitment),
    }
}

/// Where to connect to, and at which commitment level if it is not the usual one.
#[derive(Debug)]
pub struct Connection {
    /// The endpoint.
    pub url: String,
    /// The commitment level, if it is not the one that a connection has of itself.
    pub commitment: Option<CommitmentLevel>,
}

/// Where to connect to, as a mathematical value.
pub struct ConnectionView {
    pub url: Seq<char>,
    pub commitment: Option<CommitmentLevel>,
}

impl View for Connection {
    type V = ConnectionView;

    open spec fn view(&self) -> ConnectionView {
        ConnectionView { url: self.url@, commitment: self.commitment }
    }
}

/// The number of lamports in one sol.
pub const LAMPORTS_PER_SOL: u64 = 1_000_000_000;

/// A request for free lamports.
#[derive(Clone, Copy, Debug, PartialEq, Eq)]
pub struct Airdrop {
    /// Who is to get them.
    pub to: Pubkey,
    /// How many.
    pub lamports: u64,
}

/// A condition on the accounts that a query is to return.
#[derive(Clone, Copy, Debug, PartialEq, Eq, Structural)]
pub enum AccountFilter {
    /// The data has this many bytes.
    DataSize(u64),
}

/// How account data is written on the wire.
#[derive(Clone, Copy, Debug, PartialEq, Eq, Structural)]
pub enum AccountEncoding {
    /// Compressed, and then in base 64.
    Base64Zstd,
}

/// A query for the accounts of a program.
#[derive(Debug)]
pub struct ProgramAccountsQuery {
    /// What the accounts have to satisfy.
    pub filters: Option<Vec<AccountFilter>>,
    /// How their data is to be written.
    pub encoding: Option<AccountEncoding>,
}

/// The query for the accounts of a program, all of them or those of a given size.
pub fn program_accounts_query(size: Option<usize>) -> (query: ProgramAccountsQuery)
    ensures
        query.encoding == Some(AccountEncoding::Base64Zstd),
        size is None ==> query.filters is None,
        size matches Some(s) ==> query.filters is Some && query.filters->0@ == seq![
            AccountFilter::DataSize(s as u64),
        ],
{
    let filters = match size {
        Some(s) => {
            let mut filters: Vec<AccountFilter> = Vec::new();
            filters.push(AccountFilter::DataSize(s as u64));
            assert(filters@ =~= seq![AccountFilter::DataSize(s as u64)]);
            Some(filters)
        },
        None => None,
    };
    ProgramAccountsQuery { filters, encoding: Some(AccountEncoding::Base64Zstd) }
}

/// Settings of one's own are used as they are. Without them nothing is out of the ordinary but that
/// the simulation is at the commitment level of the connection. Those who have nothing to lose
/// leave out the simulation, and change nothing else.
pub proof fn law_settings(own: RpcSendTransactionConfig, commitment: CommitmentLevel)
    ensures
        RpcSendTransactionConfig::chosen(Some(own), commitment) == own,
        ({
            let usual = RpcSendTransactionConfig::chosen(None, commitment);
            &&& !usual.skip_preflight
            &&& usual.preflight_commitment == Some(commitment)
            &&& usual.encoding is None
            &&& usual.max_retries is None
            &&& usual.min_context_slot is None
        }),
        ({
            let hasty = RpcSendTransactionConfig::without_preflight();
            &&& hasty.skip_preflight
            &&& hasty.preflight_commitment is None
            &&& hasty.encoding is None
            &&& hasty.max_retries is None
            &&& hasty.min_context_slot is None
        }),
        ({
            let plain = RpcSendTransactionConfig::plain();
            &&& !plain.skip_preflight
            &&& plain.preflight_commitment is None
            &&& plain.encoding is None
            &&& plain.max_retries is None
            &&& plain.min_context_slot is None
        }),
{
}

/// A transaction that is not waited for is sent without the simulation by those whose settings
/// leave it out and are plain otherwise, and in the usual way by all others.
pub proof fn law_submissions(own: Option<RpcSendTransactionConfig>, commitment: CommitmentLevel)
    ensures
        ({
            let sent = RpcSendTransactionConfig::submitted(own, commitment);
            let hasty = own is Some && own->0.skip_preflight && own->0.preflight_commitment is None
                && own->0.encoding is None && own->0.max_retries is None
                && own->0.min_context_slot is None;
            &&& sent.skip_preflight == hasty
            &&& !hasty ==> sent.preflight_commitment == Some(commitment)
            &&& hasty ==> sent.preflight_commitment is None
            &&& sent.encoding is None
            &&& sent.max_retries is None
            &&& sent.min_context_slot is None
        }),
{
}

/// The value of a connection is what it holds.
pub proof fn law_connections_hold_everything(connection: Connection)
    ensures
        connection@.url == connection.url@,
        connection@.commitment == connection.commitment,
{
}

} // verus!
