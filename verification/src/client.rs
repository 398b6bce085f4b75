//! A client of a live network.

use vstd::prelude::*;
use crate::account::{Blockhash, Pubkey, signature_bytes, unsigned};
use crate::config::{
    Airdrop,
    CommitmentLevel,
    Connection,
    ConnectionView,
    LAMPORTS_PER_SOL,
    RpcSendTransactionConfig,
    choose_config,
    optimistic_config,
    submit_config,
};
use crate::error::Error;
use crate::keypair::{Keypair, keypair_signature, signs_for};
use crate::keys::{Keys, is_walk, keypair_bytes, lemma_walk_values, no_entries};
use crate::message::{
    AccountMetaView,
    Instruction,
    InstructionView,
    Message,
    MessageView,
    fits,
    instruction_views,
    lists,
    message_of,
    message_uses,
    signing_keys,
};
use crate::network::{
    DEVNET_URL,
    LOCALHOST_URL,
    MAINNET_URL,
    Network,
    NetworkView,
    ascii,
    ascii_lower,
    described,
    law_endpoint_round_trip,
    law_names_in_any_case,
    lemma_endpoints_ascii,
    lowercase,
};
use crate::transaction::{
    Offer,
    Transaction,
    all_offers,
    held_offers,
    last_for,
    law_last_offer_counts,
    law_signatures_are_in_their_places,
    lemma_last_for_add,
    lemma_last_for_held,
    offer_bytes,
    sign_message_with,
    slots,
};

verus! {

/// What a client knows: its network, its key pairs, and how it sends transactions.
pub struct Context {
    endpoint: Network,
    kps: Keys,
    tx_config: Option<RpcSendTransactionConfig>,
}

/// What a client knows, as a mathematical value.
#[verifier::ext_equal]
pub struct ContextView {
    pub endpoint: NetworkView,
    pub kps: Map<Seq<char>, Seq<u8>>,
    pub tx_config: Option<RpcSendTransactionConfig>,
}

impl View for Context {
    type V = ContextView;

    closed spec fn view(&self) -> ContextView {
        ContextView { endpoint: self.endpoint@, kps: self.kps@, tx_config: self.tx_config }
    }
}

impl Context {
    /// A context without key pairs that sends transactions in the usual way.
    pub fn new(endpoint: Network) -> (context: Result<Context, Error>)
        ensures
            context is Ok,
            context->Ok_0@ == (ContextView {
                endpoint: endpoint@,
                kps: no_entries(),
                tx_config: None,
            }),
    {
        Ok(Context { endpoint, kps: Keys::new(), tx_config: None })
    }

    /// A context without key pairs that sends transactions without simulating them.
    pub fn new_optimistic(endpoint: Network) -> (context: Result<Context, Error>)
        ensures
            context is Ok,
            context->Ok_0@ == (ContextView {
                endpoint: endpoint@,
                kps: no_entries(),
                tx_config: Some(RpcSendTransactionConfig::without_preflight()),
            }),
    {
        Ok(Context { endpoint, kps: Keys::new(), tx_config: Some(optimistic_config()) })
    }

    /// Changes how transactions are sent.
    pub fn set_config(&mut self, tx_config: RpcSendTransactionConfig)
        ensures
            final(self)@ == (ContextView { tx_config: Some(tx_config), ..old(self)@ }),
    {
        self.tx_config = Some(tx_config);
    }
}

/// A client of a live network.
pub struct Client {
    conn: Connection,
    ctx: Context,
}

/// A client, as a mathematical value.
#[verifier::ext_equal]
pub struct ClientView {
    pub conn: ConnectionView,
    pub ctx: ContextView,
}

impl View for Client {
    type V = ClientView;

    closed spec fn view(&self) -> ClientView {
        ClientView { conn: self.conn@, ctx: self.ctx@ }
    }
}

impl ClientView {
    /// A client as it is made: connected to the endpoint of its network, without key pairs.
    pub open spec fn made(
        endpoint: NetworkView,
        commitment: Option<CommitmentLevel>,
        tx_config: Option<RpcSendTransactionConfig>,
    ) -> ClientView {
        ClientView {
            conn: ConnectionView { url: endpoint.url(), commitment },
            ctx: ContextView { endpoint, kps: no_entries(), tx_config },
        }
    }

    /// The client with one more key pair.
    pub open spec fn with_key(self, name: Seq<char>, keypair: Seq<u8>) -> ClientView {
        ClientView {
            ctx: ContextView { kps: self.ctx.kps.insert(name, keypair), ..self.ctx },
            ..self
        }
    }

    /// Whether the client has a key pair to pay with.
    pub open spec fn has_payer(self) -> bool {
        self.ctx.kps.contains_key("payer"@)
    }

    /// The address that the client pays from.
    pub open spec fn payer(self) -> Seq<u8> {
        self.ctx.kps["payer"@].subrange(32, 64)
    }
}

impl Client {
    /// A client of a network.
    pub fn new_for(endpoint: Network) -> (client: Result<Client, Error>)
        ensures
            client is Ok,
            client->Ok_0@.conn.url == endpoint@.url(),
            client->Ok_0@.ctx.endpoint == endpoint@,
            client->Ok_0@ == ClientView::made(endpoint@, None, None),
    {
        let url = endpoint.to_string();
        match Context::new(endpoint) {
            Ok(ctx) => Ok(Client { conn: Connection { url, commitment: None }, ctx }),
            Err(error) => Err(error),
        }
    }

    /// An optimistic client of a network.
    pub fn new_optimistic_for(endpoint: Network) -> (client: Result<Client, Error>)
        ensures
            client is Ok,
            client->Ok_0@.conn.url == endpoint@.url(),
            client->Ok_0@.ctx.endpoint == endpoint@,
            client->Ok_0@ == ClientView::made(
                endpoint@,
                Some(CommitmentLevel::Processed),
                Some(RpcSendTransactionConfig::without_preflight()),
            ),
    {
        let url = endpoint.to_string();
        match Context::new_optimistic(endpoint) {
            Ok(ctx) => Ok(
                Client {
                    conn: Connection { url, commitment: Some(CommitmentLevel::Processed) },
                    ctx,
                },
            ),
            Err(error) => Err(error),
        }
    }

    /// A client of the network that a description stands for.
    pub fn new(network_desc: &str) -> (client: Result<Client, Error>)
        ensures
            client is Ok,
            client->Ok_0@.conn.url == client->Ok_0@.ctx.endpoint.url(),
            ascii(network_desc@) && ascii_lower(network_desc@) == "devnet"@
                ==> client->Ok_0@.conn.url == DEVNET_URL@,
            ascii(network_desc@) && ascii_lower(network_desc@) == "localhost"@
                ==> client->Ok_0@.conn.url == LOCALHOST_URL@,
            ascii(network_desc@) && ascii_lower(network_desc@) == "mainnet"@
                ==> client->Ok_0@.conn.url == MAINNET_URL@,
            client->Ok_0@ == ClientView::made(
                described(network_desc@, lowercase(network_desc@)),
                None,
                None,
            ),
            ascii(network_desc@) ==> client->Ok_0@ == ClientView::made(
                described(network_desc@, ascii_lower(network_desc@)),
                None,
                None,
            ),
    {
        proof {
            if ascii(network_desc@) {
                law_names_in_any_case(network_desc@, ascii_lower(network_desc@));
            }
        }
        match Network::from_str(network_desc) {
            Ok(endpoint) => Client::new_for(endpoint),
            Err(error) => Err(error),
        }
    }

    /// A client with a key pair to pay with.
    pub fn new_with_payer(network_desc: &str, payer: Keypair) -> (client: Result<Client, Error>)
        ensures
            client is Ok,
            client->Ok_0@.conn.url == client->Ok_0@.ctx.endpoint.url(),
            ascii(network_desc@) && ascii_lower(network_desc@) == "devnet"@
                ==> client->Ok_0@.conn.url == DEVNET_URL@,
            ascii(network_desc@) && ascii_lower(network_desc@) == "localhost"@
                ==> client->Ok_0@.conn.url == LOCALHOST_URL@,
            ascii(network_desc@) && ascii_lower(network_desc@) == "mainnet"@
                ==> client->Ok_0@.conn.url == MAINNET_URL@,
            client->Ok_0@ == ClientView::made(
                described(network_desc@, lowercase(network_desc@)),
                None,
                None,
            ).with_key("payer"@, payer@),
            ascii(network_desc@) ==> client->Ok_0@ == ClientView::made(
                described(network_desc@, ascii_lower(network_desc@)),
                None,
                None,
            ).with_key("payer"@, payer@),
    {
        match Client::new(network_desc) {
            Ok(client) => {
                let mut client = client;
                client.insert_keypair("payer", payer);
                Ok(client)
            },
            Err(error) => Err(error),
        }
    }

    /// A client that sends transactions with settings of its own.
    pub fn new_with_config(network_desc: &str, tx_config: RpcSendTransactionConfig) -> (client:
        Result<Client, Error>)
        ensures
            client is Ok,
            client->Ok_0@.conn.url == client->Ok_0@.ctx.endpoint.url(),
            ascii(network_desc@) && ascii_lower(network_desc@) == "devnet"@
                ==> client->Ok_0@.conn.url == DEVNET_URL@,
            ascii(network_desc@) && ascii_lower(network_desc@) == "localhost"@
                ==> client->Ok_0@.conn.url == LOCALHOST_URL@,
            ascii(network_desc@) && ascii_lower(network_desc@) == "mainnet"@
                ==> client->Ok_0@.conn.url == MAINNET_URL@,
            client->Ok_0@ == ClientView::made(
                described(network_desc@, lowercase(network_desc@)),
                None,
                Some(tx_config),
            ),
            ascii(network_desc@) ==> client->Ok_0@ == ClientView::made(
                described(network_desc@, ascii_lower(network_desc@)),
                None,
                Some(tx_config),
            ),
    {
        match Client::new(network_desc) {
            Ok(client) => {
                let mut client = client;
                client.ctx.set_config(tx_config);
                Ok(client)
            },
            Err(error) => Err(error),
        }
    }

    /// A client with a key pair to pay with that sends transactions with settings of its own.
    pub fn new_with_payer_and_config(
        network_desc: &str,
        payer: Keypair,
        tx_config: RpcSendTransactionConfig,
    ) -> (client: Result<Client, Error>)
        ensures
            client is Ok,
            client->Ok_0@.conn.url == client->Ok_0@.ctx.endpoint.url(),
            ascii(network_desc@) && ascii_lower(network_desc@) == "devnet"@
                ==> client->Ok_0@.conn.url == DEVNET_URL@,
            ascii(network_desc@) && ascii_lower(network_desc@) == "localhost"@
                ==> client->Ok_0@.conn.url == LOCALHOST_URL@,
            ascii(network_desc@) && ascii_lower(network_desc@) == "mainnet"@
                ==> client->Ok_0@.conn.url == MAINNET_URL@,
            client->Ok_0@ == ClientView::made(
                described(network_desc@, lowercase(network_desc@)),
                None,
                Some(tx_config),
            ).with_key("payer"@, payer@),
            ascii(network_desc@) ==> client->Ok_0@ == ClientView::made(
                described(network_desc@, ascii_lower(network_desc@)),
                None,
                Some(tx_config),
            ).with_key("payer"@, payer@),
    {
        match Client::new_with_config(network_desc, tx_config) {
            Ok(client) => {
                let mut client = client;
                client.insert_keypair("payer", payer);
                Ok(client)
            },
            Err(error) => Err(error),
        }
    }

    /// Stores a key pair under a name, in place of the one that was there.
    pub fn insert_keypair(&mut self, desc: &str, kp: Keypair)
        ensures
            final(self)@ == old(self)@.with_key(desc@, kp@),
    {
        self.ctx.kps.insert(desc, kp)
    }

    /// A client that takes no precautions: it trusts a block as soon as it is processed, and sends
    /// transactions without simulating them. That makes tests against a local validator faster,
    /// and the validator's own log of a failure more telling.
    pub fn new_optimistic(network_desc: &str) -> (client: Result<Client, Error>)
        ensures
            client is Ok,
            client->Ok_0@.conn.url == client->Ok_0@.ctx.endpoint.url(),
            ascii(network_desc@) && ascii_lower(network_desc@) == "devnet"@
                ==> client->Ok_0@.conn.url == DEVNET_URL@,
            ascii(network_desc@) && ascii_lower(network_desc@) == "localhost"@
                ==> client->Ok_0@.conn.url == LOCALHOST_URL@,
            ascii(network_desc@) && ascii_lower(network_desc@) == "mainnet"@
                ==> client->Ok_0@.conn.url == MAINNET_URL@,
            client->Ok_0@ == ClientView::made(
                described(network_desc@, lowercase(network_desc@)),
                Some(CommitmentLevel::Processed),
                Some(RpcSendTransactionConfig::without_preflight()),
            ),
            ascii(network_desc@) ==> client->Ok_0@ == ClientView::made(
                described(network_desc@, ascii_lower(network_desc@)),
                Some(CommitmentLevel::Processed),
                Some(RpcSendTransactionConfig::without_preflight()),
            ),
    {
        proof {
            if ascii(network_desc@) {
                law_names_in_any_case(network_desc@, ascii_lower(network_desc@));
            }
        }
        match Network::from_str(network_desc) {
            Ok(endpoint) => Client::new_optimistic_for(endpoint),
            Err(error) => Err(error),
        }
    }

    /// The network of the client.
    pub fn endpoint(&self) -> (endpoint: Network)
        ensures
            endpoint@ == self@.ctx.endpoint,
    {
        self.ctx.endpoint.clone()
    }
}

impl Client {
    /// An optimistic client of a local validator that pays with the given key pair, and the
    /// airdrop that the key pair needs first.
    pub fn new_local_funded_by(payer: Keypair) -> (made: Result<(Client, Airdrop), Error>)
        ensures
            made is Ok,
            made->Ok_0.0@.conn.url == LOCALHOST_URL@,
            made->Ok_0.0@ == ClientView::made(
                NetworkView::Localnet,
                Some(CommitmentLevel::Processed),
                Some(RpcSendTransactionConfig::without_preflight()),
            ).with_key("payer"@, payer@),
            signs_for(payer@, made->Ok_0.1.to@),
            made->Ok_0.1.lamports == 100_000 * LAMPORTS_PER_SOL,
    {
        let url = Network::Localnet.to_string();
        proof {
            lemma_endpoints_ascii();
            law_endpoint_round_trip(NetworkView::Localnet, ascii_lower(LOCALHOST_URL@));
        }
        match Client::new_optimistic(url.as_str()) {
            Ok(client) => {
                let mut client = client;
                let airdrop = Airdrop { to: payer.pubkey(), lamports: 100_000 * LAMPORTS_PER_SOL };
                client.insert_keypair("payer", payer);
                Ok((client, airdrop))
            },
            Err(error) => Err(error),
        }
    }

    /// An optimistic client of a local validator that pays with a key pair drawn at random, and
    /// the airdrop that the key pair needs first.
    pub fn new_local_funded() -> (made: Result<(Client, Airdrop), Error>)
        ensures
            made is Ok,
            made->Ok_0.0@.conn.url == LOCALHOST_URL@,
            made->Ok_0.0@.has_payer(),
            made->Ok_0.0@ == ClientView::made(
                NetworkView::Localnet,
                Some(CommitmentLevel::Processed),
                Some(RpcSendTransactionConfig::without_preflight()),
            ).with_key("payer"@, made->Ok_0.0@.ctx.kps["payer"@]),
            made->Ok_0.1.to@ == made->Ok_0.0@.payer(),
            made->Ok_0.1.lamports == 100_000 * LAMPORTS_PER_SOL,
    {
        Client::new_local_funded_by(Keypair::new())
    }

    /// Where the client connects to.
    pub fn connection(&self) -> (conn: &Connection)
        ensures
            conn@ == self@.conn,
    {
        &self.conn
    }

    /// The settings that the client sends transactions with, over a connection with the given
    /// commitment level.
    pub fn send_config(&self, commitment: CommitmentLevel) -> (config: RpcSendTransactionConfig)
        ensures
            config == RpcSendTransactionConfig::chosen(self@.ctx.tx_config, commitment),
    {
        choose_config(self.ctx.tx_config, commitment)
    }

    /// The settings that a transaction is sent with that is not waited for, over a connection with
    /// the given commitment level.
    pub fn submit_config(&self, commitment: CommitmentLevel) -> (config: RpcSendTransactionConfig)
        ensures
            config == RpcSendTransactionConfig::submitted(self@.ctx.tx_config, commitment),
    {
        submit_config(self.ctx.tx_config, commitment)
    }

    /// The clock of a live network cannot be set.
    pub fn set_clock(&self) -> (outcome: Result<(), Error>)
        ensures
            outcome == Err::<(), Error>(Error::LiveClock),
    {
        Err(Error::LiveClock)
    }

    /// Whether the client has a key pair to pay with.
    pub fn has_payer(&self) -> (yes: bool)
        ensures
            yes == self@.has_payer(),
    {
        self.ctx.kps.get("payer").is_ok()
    }

    /// The address that the client pays from.
    pub fn payer(&self) -> (address: Pubkey)
        requires
            self@.has_payer(),
        ensures
            address@ == self@.payer(),
    {
        match self.ctx.kps.get_pubkey("payer") {
            Ok(address) => address,
            Err(_) => vstd::pervasive::unreached(),
        }
    }

    /// The message that instructions are compiled into, with the client as the payer.
    pub fn compile(
        &self,
        instructions: &Vec<Instruction>,
        latest_blockhash: &Blockhash,
    ) -> (message: Message)
        requires
            self@.has_payer(),
            fits(instruction_views(instructions@), self@.payer()),
        ensures
            message@ == message_of(
                instruction_views(instructions@),
                self@.payer(),
                latest_blockhash@,
            ),
            lists(
                message@,
                message_uses(instruction_views(instructions@), self@.payer()),
                self@.payer(),
            ),
    {
        Message::new_with_blockhash(instructions, &self.payer(), latest_blockhash)
    }

    /// Compiles instructions into a message with the client as the payer, and signs it with the
    /// client's key pairs and with the replies of other signers. A reply has precedence over a key
    /// pair. Of several key pairs for one address, whichever the client happens to come to last
    /// signs.
    pub fn sign_send_instructions(
        &self,
        instructions: &Vec<Instruction>,
        add_signers: Option<&Vec<Offer>>,
        latest_blockhash: &Blockhash,
    ) -> (signed: Result<Transaction, Error>)
        requires
            self@.has_payer(),
            fits(instruction_views(instructions@), self@.payer()),
        ensures
            signed is Ok,
            signed->Ok_0.message@ == message_of(
                instruction_views(instructions@),
                self@.payer(),
                latest_blockhash@,
            ),
            lists(
                signed->Ok_0.message@,
                message_uses(instruction_views(instructions@), self@.payer()),
                self@.payer(),
            ),
            exists|held: Seq<Seq<u8>>| #[trigger]
                is_walk(self@.ctx.kps, held) && signature_bytes(signed->Ok_0.signatures@)
                    == client_slots(signed->Ok_0.message@, held, reply_bytes(add_signers)),
            signed->Ok_0.signatures@.len() == signed->Ok_0.message.num_required_signatures,
            add_signers matches Some(replies) ==> forall|i: int, j: int|
                #![trigger replies@[i], signed->Ok_0.signatures@[j]]
                0 <= i < replies@.len() && 0 <= j < signed->Ok_0.signatures@.len()
                    && signed->Ok_0.message.account_keys@[j]@ == replies@[i].0@ && (forall|k: int|
                    i < k < replies@.len() ==> (#[trigger] replies@[k]).0@ != replies@[i].0@)
                    ==> signed->Ok_0.signatures@[j]@ == replies@[i].1@,
            forall|j: int|
                0 <= j < signed->Ok_0.signatures@.len() && !replied_to(
                    add_signers,
                    signed->Ok_0.message.account_keys@[j]@,
                ) ==> signed_by_holder(
                    self@.ctx.kps,
                    signed->Ok_0.message.account_keys@[j]@,
                    signed->Ok_0.message.data@,
                    (#[trigger] signed->Ok_0.signatures@[j])@,
                ),
    {
        let message = self.compile(instructions, latest_blockhash);
        let held = self.ctx.kps.inner().values();
        let signed = match add_signers {
            Some(replies) => sign_message_with(message, &held, replies),
            None => {
                let replies: Vec<Offer> = Vec::new();
                assert(offer_bytes(replies@) =~= reply_bytes(None));
                sign_message_with(message, &held, &replies)
            },
        };
        assert(is_walk(self@.ctx.kps, keypair_bytes(held@)));
        proof {
            let made = signed->Ok_0;
            let replies = reply_bytes(add_signers);
            let walked = keypair_bytes(held@);
            law_replies_are_all_taken(add_signers);
            assert(signature_bytes(made.signatures@) == client_slots(
                made.message@,
                walked,
                replies,
            ));
            assert(made.signatures@.len() == signature_bytes(made.signatures@).len());
            assert forall|j: int| 0 <= j < made.signatures@.len() implies ({
                let key = made.message.account_keys@[j]@;
                &&& forall|i: int|
                    0 <= i < replies.len() && (#[trigger] replies[i]).0 == key && (forall|k: int|
                        i < k < replies.len() ==> (#[trigger] replies[k]).0 != key)
                        ==> made.signatures@[j]@ == replies[i].1
                &&& !replied_to(add_signers, key) ==> signed_by_holder(
                    self@.ctx.kps,
                    key,
                    made.message.data@,
                    (#[trigger] made.signatures@[j])@,
                )
            }) by {
                law_who_signs(self@.ctx.kps, walked, made.message@, replies, j);
                assert(signature_bytes(made.signatures@)[j] == made.signatures@[j]@);
                assert(made.message@.account_keys[j] == made.message.account_keys@[j]@);
                let key = made.message.account_keys@[j]@;
                let kps = self@.ctx.kps;
                let signature = made.signatures@[j]@;
                if !replied_to(add_signers, key) {
                    assert forall|i: int| 0 <= i < replies.len() implies (#[trigger] replies[i]).0
                        != key by {
                        assert(replies[i].0 == add_signers->0@[i].0@);
                    }
                    if exists|name: Seq<char>| #[trigger]
                        kps.contains_key(name) && signs_for(kps[name], key) {
                        let name = choose|name: Seq<char>| #[trigger]
                            kps.contains_key(name) && signs_for(kps[name], key);
                        assert(kps.contains_key(name) && kps[name].subrange(32, 64) == key);
                        let signer = choose|signer: Seq<char>| #[trigger]
                            kps.contains_key(signer) && kps[signer].subrange(32, 64) == key
                                && signature == keypair_signature(kps[signer], made.message.data@);
                        assert(kps.contains_key(signer) && signs_for(kps[signer], key));
                    } else {
                        assert(!(exists|name: Seq<char>| #[trigger]
                            kps.contains_key(name) && kps[name].subrange(32, 64) == key)) by {
                            if exists|name: Seq<char>| #[trigger]
                                kps.contains_key(name) && kps[name].subrange(32, 64) == key {
                                let name = choose|name: Seq<char>| #[trigger]
                                    kps.contains_key(name) && kps[name].subrange(32, 64) == key;
                                assert(signs_for(kps[name], key));
                            }
                        }
                        assert(signature =~= unsigned());
                    }
                    assert(signed_by_holder(kps, key, made.message.data@, signature));
                }
            }
            if let Some(given) = add_signers {
                assert forall|i: int, j: int|
                    #![trigger given@[i], made.signatures@[j]]
                    0 <= i < given@.len() && 0 <= j < made.signatures@.len()
                        && made.message.account_keys@[j]@ == given@[i].0@ && (forall|k: int|
                        i < k < given@.len() ==> (#[trigger] given@[k]).0@ != given@[i].0@)
                        implies made.signatures@[j]@ == given@[i].1@ by {
                    assert(replies[i] == (given@[i].0@, given@[i].1@));
                    assert forall|k: int| i < k < replies.len() implies (#[trigger] replies[k]).0
                        != replies[i].0 by {
                        assert(replies[k] == (given@[k].0@, given@[k].1@));
                    }
                }
            }
        }
        signed
    }
}

/// Whether another signer replies for an address.
pub open spec fn replied_to(add_signers: Option<&Vec<Offer>>, key: Seq<u8>) -> bool {
    add_signers is Some && exists|i: int|
        0 <= i < add_signers->0@.len() && (#[trigger] add_signers->0@[i]).0@ == key
}

/// Whether a signature is that of a stored key pair for an address, or stands for "not signed yet"
/// where there is none.
pub open spec fn signed_by_holder(
    kps: Map<Seq<char>, Seq<u8>>,
    key: Seq<u8>,
    data: Seq<u8>,
    signature: Seq<u8>,
) -> bool {
    if exists|name: Seq<char>| #[trigger] kps.contains_key(name) && signs_for(kps[name], key) {
        exists|signer: Seq<char>| #[trigger]
            kps.contains_key(signer) && signs_for(kps[signer], key) && signature
                == keypair_signature(kps[signer], data)
    } else {
        signature == unsigned()
    }
}

/// The bytes of the replies of other signers, if there are other signers.
pub open spec fn reply_bytes(replies: Option<&Vec<Offer>>) -> Seq<(Seq<u8>, Seq<u8>)> {
    match replies {
        Some(replies) => offer_bytes(replies@),
        None => Seq::empty(),
    }
}

/// The signatures that a message gets from stored key pairs, met in the order of `held`, and from
/// the replies of other signers.
pub open spec fn client_slots(
    message: MessageView,
    held: Seq<Seq<u8>>,
    replies: Seq<(Seq<u8>, Seq<u8>)>,
) -> Seq<Seq<u8>> {
    slots(message, all_offers(message, held, replies))
}

/// Whether no two stored key pairs sign for an address.
pub open spec fn one_keypair_for(kps: Map<Seq<char>, Seq<u8>>, key: Seq<u8>) -> bool {
    forall|a: Seq<char>, b: Seq<char>|
        #![trigger kps[a], kps[b]]
        kps.contains_key(a) && kps.contains_key(b) && signs_for(kps[a], key) && signs_for(
            kps[b],
            key,
        ) ==> kps[a] == kps[b]
}

/// Whether it is clear who signs a message: for each address that has to sign, another signer
/// replies, or no two stored key pairs sign.
pub open spec fn signers_are_clear(
    kps: Map<Seq<char>, Seq<u8>>,
    message: MessageView,
    replies: Seq<(Seq<u8>, Seq<u8>)>,
) -> bool {
    forall|key: Seq<u8>| #[trigger]
        signing_keys(message).contains(key) && last_for(replies, key) is None ==> one_keypair_for(
            kps,
            key,
        )
}

/// Where it is clear who signs, the order in which the client comes to its key pairs makes no
/// difference to the signatures.
pub proof fn law_order_is_immaterial(
    kps: Map<Seq<char>, Seq<u8>>,
    one: Seq<Seq<u8>>,
    other: Seq<Seq<u8>>,
    message: MessageView,
    replies: Seq<(Seq<u8>, Seq<u8>)>,
)
    requires
        signers_are_clear(kps, message, replies),
        is_walk(kps, one),
        is_walk(kps, other),
    ensures
        client_slots(message, one, replies) == client_slots(message, other, replies),
{
    lemma_walk_values(kps, one);
    lemma_walk_values(kps, other);
    let keys = signing_keys(message);
    assert forall|j: int| 0 <= j < keys.len() implies last_for(
        all_offers(message, one, replies),
        #[trigger] keys[j],
    ) == last_for(all_offers(message, other, replies), keys[j]) by {
        let key = keys[j];
        assert(keys.contains(key));
        lemma_last_for_add(held_offers(one, message.data), replies, key);
        lemma_last_for_add(held_offers(other, message.data), replies, key);
        if last_for(replies, key) is None {
            lemma_last_for_held(one, message.data, key);
            lemma_last_for_held(other, message.data, key);
            lemma_same_signer(kps, one, other, key);
            lemma_same_signer(kps, other, one, key);
        }
    }
    assert(client_slots(message, one, replies) =~= client_slots(message, other, replies));
}

/// A key pair that one walk comes to is come to by every walk.
proof fn lemma_same_signer(
    kps: Map<Seq<char>, Seq<u8>>,
    one: Seq<Seq<u8>>,
    other: Seq<Seq<u8>>,
    key: Seq<u8>,
)
    requires
        one_keypair_for(kps, key),
        is_walk(kps, one),
        is_walk(kps, other),
    ensures
        forall|i: int|
            0 <= i < one.len() && signs_for(#[trigger] one[i], key) ==> exists|j: int|
                0 <= j < other.len() && #[trigger] other[j] == one[i],
        forall|i: int, j: int|
            #![trigger one[i], other[j]]
            0 <= i < one.len() && 0 <= j < other.len() && signs_for(one[i], key) && signs_for(
                other[j],
                key,
            ) ==> one[i] == other[j],
{
    lemma_walk_values(kps, one);
    lemma_walk_values(kps, other);
    assert forall|i: int| 0 <= i < one.len() && signs_for(#[trigger] one[i], key) implies exists|
        j: int,
    | 0 <= j < other.len() && #[trigger] other[j] == one[i] by {
        assert(kps.contains_value(one[i]));
        let name = choose|name: Seq<char>| kps.contains_key(name) && kps[name] == one[i];
        assert(other.contains(kps[name]));
    }
    assert forall|i: int, j: int|
        #![trigger one[i], other[j]]
        0 <= i < one.len() && 0 <= j < other.len() && signs_for(one[i], key) && signs_for(
            other[j],
            key,
        ) implies one[i] == other[j] by {
        assert(kps.contains_value(one[i]));
        assert(kps.contains_value(other[j]));
        let a = choose|name: Seq<char>| kps.contains_key(name) && kps[name] == one[i];
        let b = choose|name: Seq<char>| kps.contains_key(name) && kps[name] == other[j];
        assert(kps[a] == kps[b]);
    }
}

/// An address that signs, for which a key pair is stored and no other signer replies, is signed
/// for by a key pair that is stored for it.
pub proof fn law_stored_signers_sign(
    kps: Map<Seq<char>, Seq<u8>>,
    held: Seq<Seq<u8>>,
    message: MessageView,
    replies: Seq<(Seq<u8>, Seq<u8>)>,
    j: int,
    name: Seq<char>,
)
    requires
        is_walk(kps, held),
        0 <= j < message.num_required_signatures <= message.account_keys.len(),
        message.account_keys.no_duplicates(),
        kps.contains_key(name),
        signs_for(kps[name], message.account_keys[j]),
        last_for(replies, message.account_keys[j]) is None,
    ensures
        exists|signer: Seq<char>| #[trigger]
            kps.contains_key(signer) && signs_for(kps[signer], message.account_keys[j])
                && client_slots(message, held, replies)[j] == keypair_signature(
                kps[signer],
                message.data,
            ),
{
    let key = message.account_keys[j];
    assert(signing_keys(message)[j] == key);
    lemma_walk_values(kps, held);
    lemma_last_for_add(held_offers(held, message.data), replies, key);
    lemma_last_for_held(held, message.data, key);
    assert(held.contains(kps[name]));
    let k = choose|k: int| 0 <= k < held.len() && held[k] == kps[name];
    assert(signs_for(held[k], key));
    let i = choose|i: int|
        0 <= i < held.len() && signs_for(#[trigger] held[i], key) && last_for(
            held_offers(held, message.data),
            key,
        ) == Some(keypair_signature(held[i], message.data));
    assert(kps.contains_value(held[i]));
    let signer = choose|signer: Seq<char>| kps.contains_key(signer) && kps[signer] == held[i];
    assert(kps.contains_key(signer));
}

/// It makes no difference whether a key pair is stored or signs from outside, nor which name it is
/// stored under: two clients with the same payer, of which one stores the key pairs of the other
/// and one more, make the same transaction if the other one asks that key pair, ahead of all other
/// signers. It has to be clear who signs.
pub proof fn law_stored_or_asked(
    one: ClientView,
    other: ClientView,
    keypair: Seq<u8>,
    held: Seq<Seq<u8>>,
    held_by_other: Seq<Seq<u8>>,
    instructions: Seq<InstructionView>,
    blockhash: Seq<u8>,
    replies: Seq<(Seq<u8>, Seq<u8>)>,
)
    requires
        one.has_payer(),
        other.has_payer(),
        one.payer() == other.payer(),
        signers_are_clear(
            one.ctx.kps,
            message_of(instructions, one.payer(), blockhash),
            replies,
        ),
        forall|pair: Seq<u8>| #[trigger]
            one.ctx.kps.contains_value(pair) <==> other.ctx.kps.contains_value(pair) || pair
                == keypair,
        is_walk(one.ctx.kps, held),
        is_walk(other.ctx.kps, held_by_other),
    ensures
        ({
            let message = message_of(instructions, one.payer(), blockhash);
            let reply = (keypair.subrange(32, 64), keypair_signature(keypair, message.data));
            &&& message == message_of(instructions, other.payer(), blockhash)
            &&& client_slots(message, held, replies) == client_slots(
                message,
                held_by_other,
                seq![reply] + replies,
            )
        }),
{
    let message = message_of(instructions, one.payer(), blockhash);
    let data = message.data;
    let reply = (keypair.subrange(32, 64), keypair_signature(keypair, data));
    let kps = one.ctx.kps;
    lemma_walk_values(kps, held);
    lemma_walk_values(other.ctx.kps, held_by_other);
    assert(kps.contains_value(keypair));
    let keys = signing_keys(message);
    assert forall|k: int| 0 <= k < keys.len() implies last_for(
        all_offers(message, held, replies),
        #[trigger] keys[k],
    ) == last_for(all_offers(message, held_by_other, seq![reply] + replies), keys[k]) by {
        let key = keys[k];
        assert(keys.contains(key));
        lemma_last_for_add(held_offers(held, data), replies, key);
        lemma_last_for_add(held_offers(held_by_other, data), seq![reply] + replies, key);
        lemma_last_for_add(seq![reply], replies, key);
        reveal_with_fuel(last_for, 2);
        if last_for(replies, key) is Some {
        } else if signs_for(keypair, key) {
            lemma_signature_of(kps, held, data, keypair);
            assert(last_for(seq![reply], key) == Some(keypair_signature(keypair, data)));
        } else {
            lemma_last_for_held(held, data, key);
            lemma_last_for_held(held_by_other, data, key);
            assert(seq![reply].drop_last() =~= Seq::empty());
            assert(last_for(seq![reply], key) is None);
            if last_for(held_offers(held_by_other, data), key) is Some {
                let j = choose|j: int|
                    0 <= j < held_by_other.len() && signs_for(#[trigger] held_by_other[j], key)
                        && last_for(held_offers(held_by_other, data), key) == Some(
                        keypair_signature(held_by_other[j], data),
                    );
                assert(other.ctx.kps.contains_value(held_by_other[j]));
                assert(kps.contains_value(held_by_other[j]));
                lemma_signature_of(kps, held, data, held_by_other[j]);
            } else if last_for(held_offers(held, data), key) is Some {
                let i = choose|i: int| 0 <= i < held.len() && signs_for(#[trigger] held[i], key);
                assert(kps.contains_value(held[i]));
                assert(other.ctx.kps.contains_value(held[i]));
                let name = choose|name: Seq<char>|
                    other.ctx.kps.contains_key(name) && other.ctx.kps[name] == held[i];
                assert(held_by_other.contains(other.ctx.kps[name]));
                let j = choose|j: int| 0 <= j < held_by_other.len() && held_by_other[j] == held[i];
                assert(signs_for(held_by_other[j], key));
            }
        }
    }
    assert(client_slots(message, held, replies) =~= client_slots(
        message,
        held_by_other,
        seq![reply] + replies,
    ));
}

/// Where no two stored key pairs sign for the address of a stored key pair, what is offered for the
/// address is its signature.
proof fn lemma_signature_of(
    kps: Map<Seq<char>, Seq<u8>>,
    held: Seq<Seq<u8>>,
    data: Seq<u8>,
    keypair: Seq<u8>,
)
    requires
        one_keypair_for(kps, keypair.subrange(32, 64)),
        is_walk(kps, held),
        kps.contains_value(keypair),
    ensures
        last_for(held_offers(held, data), keypair.subrange(32, 64)) == Some(
            keypair_signature(keypair, data),
        ),
{
    let key = keypair.subrange(32, 64);
    let name = choose|name: Seq<char>| kps.contains_key(name) && kps[name] == keypair;
    lemma_walk_values(kps, held);
    lemma_last_for_held(held, data, key);
    assert(held.contains(kps[name]));
    let k = choose|k: int| 0 <= k < held.len() && held[k] == keypair;
    assert(signs_for(held[k], key));
    let i = choose|i: int|
        0 <= i < held.len() && signs_for(#[trigger] held[i], key) && last_for(
            held_offers(held, data),
            key,
        ) == Some(keypair_signature(held[i], data));
    assert(kps.contains_value(held[i]));
    let signer = choose|signer: Seq<char>| kps.contains_key(signer) && kps[signer] == held[i];
    assert(kps[signer] == kps[name]);
}

/// What another signer replies for an address that signs is what the transaction carries.
pub proof fn law_replies_have_precedence(
    held: Seq<Seq<u8>>,
    message: MessageView,
    replies: Seq<(Seq<u8>, Seq<u8>)>,
    j: int,
)
    requires
        0 <= j < message.num_required_signatures <= message.account_keys.len(),
        message.account_keys.no_duplicates(),
        last_for(replies, message.account_keys[j]) is Some,
    ensures
        client_slots(message, held, replies)[j] == last_for(replies, message.account_keys[j])->0,
{
    assert(signing_keys(message)[j] == message.account_keys[j]);
    lemma_last_for_add(held_offers(held, message.data), replies, message.account_keys[j]);
}

/// An address that signs, for which no key pair is stored and no other signer replies, stays
/// unsigned.
pub proof fn law_missing_signers_stay_unsigned(
    kps: Map<Seq<char>, Seq<u8>>,
    held: Seq<Seq<u8>>,
    message: MessageView,
    replies: Seq<(Seq<u8>, Seq<u8>)>,
    j: int,
)
    requires
        is_walk(kps, held),
        0 <= j < message.num_required_signatures <= message.account_keys.len(),
        forall|name: Seq<char>| #[trigger]
            kps.contains_key(name) ==> !signs_for(kps[name], message.account_keys[j]),
        last_for(replies, message.account_keys[j]) is None,
    ensures
        client_slots(message, held, replies)[j] == unsigned(),
{
    let key = message.account_keys[j];
    assert(signing_keys(message)[j] == key);
    lemma_walk_values(kps, held);
    lemma_last_for_add(held_offers(held, message.data), replies, key);
    lemma_last_for_held(held, message.data, key);
    if last_for(held_offers(held, message.data), key) is Some {
        let i = choose|i: int| 0 <= i < held.len() && signs_for(#[trigger] held[i], key);
        assert(kps.contains_value(held[i]));
        let name = choose|name: Seq<char>| kps.contains_key(name) && kps[name] == held[i];
        assert(kps.contains_key(name));
    }
}

/// The first signature of a message that the client compiles is that of a key pair for the payer,
/// unless another signer replies for the payer.
pub proof fn law_payer_signs_first(
    client: ClientView,
    held: Seq<Seq<u8>>,
    message: MessageView,
    uses: Seq<AccountMetaView>,
    replies: Seq<(Seq<u8>, Seq<u8>)>,
)
    requires
        client.has_payer(),
        is_walk(client.ctx.kps, held),
        lists(message, uses, client.payer()),
        last_for(replies, client.payer()) is None,
    ensures
        exists|signer: Seq<char>| #[trigger]
            client.ctx.kps.contains_key(signer) && signs_for(
                client.ctx.kps[signer],
                client.payer(),
            ) && client_slots(message, held, replies)[0] == keypair_signature(
                client.ctx.kps[signer],
                message.data,
            ),
{
    law_stored_signers_sign(client.ctx.kps, held, message, replies, 0, "payer"@);
}

/// A client pays from the address of the key pair that is stored as its payer, and storing others
/// makes no difference to that.
pub proof fn law_stored_payer_pays(
    client: ClientView,
    payer: Seq<u8>,
    name: Seq<char>,
    keypair: Seq<u8>,
)
    ensures
        client.with_key("payer"@, payer).has_payer(),
        signs_for(payer, client.with_key("payer"@, payer).payer()),
        name != "payer"@ ==> client.with_key(name, keypair).has_payer() == client.has_payer(),
        name != "payer"@ && client.has_payer() ==> client.with_key(name, keypair).payer()
            == client.payer(),
{
}

/// An optimistic client trusts what is processed and never simulates, whatever key pairs it is
/// given. Any other client without settings of its own simulates at the level of its connection.
pub proof fn law_optimism(
    endpoint: NetworkView,
    commitment: CommitmentLevel,
    name: Seq<char>,
    keypair: Seq<u8>,
)
    ensures
        ({
            let optimistic = ClientView::made(
                endpoint,
                Some(CommitmentLevel::Processed),
                Some(RpcSendTransactionConfig::without_preflight()),
            ).with_key(name, keypair);
            let cautious = ClientView::made(endpoint, None, None).with_key(name, keypair);
            let hasty = RpcSendTransactionConfig::chosen(optimistic.ctx.tx_config, commitment);
            let careful = RpcSendTransactionConfig::chosen(cautious.ctx.tx_config, commitment);
            &&& optimistic.conn.commitment == Some(CommitmentLevel::Processed)
            &&& hasty.skip_preflight
            &&& RpcSendTransactionConfig::submitted(
                optimistic.ctx.tx_config,
                commitment,
            ).skip_preflight
            &&& !careful.skip_preflight
            &&& RpcSendTransactionConfig::submitted(cautious.ctx.tx_config, commitment) == careful
            &&& careful.preflight_commitment == Some(commitment)
        }),
{
}

/// Every reply of another signer is taken, with its address and its signature, and in its order.
pub proof fn law_replies_are_all_taken(add_signers: Option<&Vec<Offer>>)
    ensures
        add_signers is None ==> reply_bytes(add_signers).len() == 0,
        add_signers matches Some(given) ==> reply_bytes(add_signers).len() == given@.len()
            && forall|i: int|
            0 <= i < given@.len() ==> #[trigger] reply_bytes(add_signers)[i] == (
                given@[i].0.0@,
                given@[i].1.0@,
            ),
{
}

/// Who signs at the place of an address that has to sign: whoever replied for it last, or else a
/// stored key pair for it, or else nobody. Each address has one place.
pub proof fn law_who_signs(
    kps: Map<Seq<char>, Seq<u8>>,
    held: Seq<Seq<u8>>,
    message: MessageView,
    replies: Seq<(Seq<u8>, Seq<u8>)>,
    j: int,
)
    requires
        is_walk(kps, held),
        0 <= j < message.num_required_signatures <= message.account_keys.len(),
        message.account_keys.no_duplicates(),
    ensures
        ({
            let made = client_slots(message, held, replies);
            let key = message.account_keys[j];
            let replied = exists|i: int| 0 <= i < replies.len() && (#[trigger] replies[i]).0 == key;
            let stored = exists|name: Seq<char>| #[trigger]
                kps.contains_key(name) && kps[name].subrange(32, 64) == key;
            &&& made.len() == message.num_required_signatures
            &&& forall|i: int|
                0 <= i < replies.len() && (#[trigger] replies[i]).0 == key && (forall|k: int|
                    i < k < replies.len() ==> (#[trigger] replies[k]).0 != key) ==> made[j]
                    == replies[i].1
            &&& !replied && stored ==> exists|signer: Seq<char>| #[trigger]
                kps.contains_key(signer) && kps[signer].subrange(32, 64) == key && made[j]
                    == keypair_signature(kps[signer], message.data)
            &&& !replied && !stored ==> made[j].len() == 64 && forall|b: int|
                0 <= b < 64 ==> #[trigger] made[j][b] == 0
        }),
{
    let made = client_slots(message, held, replies);
    let key = message.account_keys[j];
    law_signatures_are_in_their_places(message, all_offers(message, held, replies), j);
    law_last_offer_counts(replies, key);
    assert forall|i: int|
        0 <= i < replies.len() && (#[trigger] replies[i]).0 == key && (forall|k: int|
            i < k < replies.len() ==> (#[trigger] replies[k]).0 != key) implies made[j]
        == replies[i].1 by {
        law_replies_have_precedence(held, message, replies, j);
    }
    if last_for(replies, key) is None {
        if exists|name: Seq<char>| #[trigger] kps.contains_key(name) && kps[name].subrange(32, 64)
            == key {
            let name = choose|name: Seq<char>| #[trigger]
                kps.contains_key(name) && kps[name].subrange(32, 64) == key;
            assert(signs_for(kps[name], key));
            law_stored_signers_sign(kps, held, message, replies, j, name);
            let signer = choose|signer: Seq<char>| #[trigger]
                kps.contains_key(signer) && signs_for(kps[signer], key) && made[j]
                    == keypair_signature(kps[signer], message.data);
            assert(kps.contains_key(signer) && kps[signer].subrange(32, 64) == key);
        } else {
            law_missing_signers_stay_unsigned(kps, held, message, replies, j);
        }
    }
}

/// A client as it is made is connected to the endpoint of its own network, at the level and with
/// the settings that it is made with, and stores no key pair. One more key pair makes no difference
/// to any of that, nor to the other key pairs.
pub proof fn law_clients_are_as_made(
    endpoint: NetworkView,
    commitment: Option<CommitmentLevel>,
    tx_config: Option<RpcSendTransactionConfig>,
    client: ClientView,
    name: Seq<char>,
    keypair: Seq<u8>,
    other: Seq<char>,
)
    ensures
        ({
            let made = ClientView::made(endpoint, commitment, tx_config);
            &&& made.conn.url == match endpoint {
                NetworkView::Localnet => "https://localhost:8899/"@,
                NetworkView::Devnet => "https://api.devnet.solana.com/"@,
                NetworkView::Mainnet => "https://api.mainnet-beta.solana.com"@,
                NetworkView::Custom(url) => url,
            }
            &&& made.conn.commitment == commitment
            &&& made.ctx.endpoint == endpoint
            &&& made.ctx.tx_config == tx_config
            &&& !made.ctx.kps.contains_key(other)
        }),
        ({
            let more = client.with_key(name, keypair);
            &&& more.conn == client.conn
            &&& more.ctx.endpoint == client.ctx.endpoint
            &&& more.ctx.tx_config == client.ctx.tx_config
            &&& more.ctx.kps.contains_key(name)
            &&& more.ctx.kps[name] == keypair
            &&& other != name ==> (more.ctx.kps.contains_key(other)
                <==> client.ctx.kps.contains_key(other))
            &&& other != name && client.ctx.kps.contains_key(other) ==> more.ctx.kps[other]
                == client.ctx.kps[other]
        }),
        client.has_payer() <==> client.ctx.kps.contains_key("payer"@),
        client.payer() == client.ctx.kps["payer"@].subrange(32, 64),
{
}

} // verus!
