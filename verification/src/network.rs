//! The networks that a client can talk to.

use vstd::prelude::*;
use crate::error::Error;

verus! {

/// The endpoint of the development network.
pub const DEVNET_URL: &'static str = "https://api.devnet.solana.com/";

/// The endpoint of a validator on this machine.
pub const LOCALHOST_URL: &'static str = "https://localhost:8899/";

/// The endpoint of the main network.
pub const MAINNET_URL: &'static str = "https://api.mainnet-beta.solana.com";

/// A network.
#[derive(Debug, PartialEq, Eq)]
pub enum Network {
    /// A validator on this machine.
    Localnet,
    /// The development network.
    Devnet,
    /// The main network.
    Mainnet,
    /// Any other network, by its endpoint.
    Custom(String),
}

/// A network, as a mathematical value.
pub enum NetworkView {
    Localnet,
    Devnet,
    Mainnet,
    Custom(Seq<char>),
}

impl View for Network {
    type V = NetworkView;

    open spec fn view(&self) -> NetworkView {
        match self {
            Network::Localnet => NetworkView::Localnet,
            Network::Devnet => NetworkView::Devnet,
            Network::Mainnet => NetworkView::Mainnet,
            Network::Custom(url) => NetworkView::Custom(url@),
        }
    }
}

impl NetworkView {
    /// The endpoint of a network.
    pub open spec fn url(self) -> Seq<char> {
        match self {
            NetworkView::Localnet => LOCALHOST_URL@,
            NetworkView::Devnet => DEVNET_URL@,
            NetworkView::Mainnet => MAINNET_URL@,
            NetworkView::Custom(url) => url,
        }
    }
}

/// The network that a description stands for, given its lower case: a network's name in any case,
/// its endpoint letter for letter, or else the endpoint of a custom network.
pub open spec fn described(desc: Seq<char>, lower: Seq<char>) -> NetworkView {
    if lower == "devnet"@ || desc == DEVNET_URL@ {
        NetworkView::Devnet
    } else if lower == "localhost"@ || desc == LOCALHOST_URL@ {
        NetworkView::Localnet
    } else if lower == "mainnet"@ || desc == MAINNET_URL@ {
        NetworkView::Mainnet
    } else {
        NetworkView::Custom(desc)
    }
}

/// The lower case that `str::to_lowercase` gives of a text.
pub uninterp spec fn lowercase(text: Seq<char>) -> Seq<char>;

/// Whether a text is all ASCII.
pub open spec fn ascii(text: Seq<char>) -> bool {
    forall|i: int| 0 <= i < text.len() ==> (#[trigger] text[i] as u32) < 128
}

/// The lower case of an ASCII character.
pub open spec fn ascii_lower_char(c: char) -> char {
    if 'A' <= c && c <= 'Z' {
        (c as u32 + 32) as char
    } else {
        c
    }
}

/// The lower case of an ASCII text.
pub open spec fn ascii_lower(text: Seq<char>) -> Seq<char> {
    Seq::new(text.len(), |i: int| ascii_lower_char(text[i]))
}

/// Calls `str::to_lowercase`, whose result is a function of the text. The letters `A` to `Z` of an
/// ASCII text become `a` to `z`, and its other characters stay.
#[verifier::external_body]
fn to_lowercase(text: &str) -> (lower: String)
    ensures
        lower@ == lowercase(text@),
        ascii(text@) ==> lower@ == ascii_lower(text@),
{
    text.to_lowercase()
}

/// Whether two texts agree.
fn same_text(a: &str, b: &str) -> (same: bool)
    ensures
        same == (a@ == b@),
{
    a.to_owned() == b.to_owned()
}

impl Network {
    /// The network that a description stands for, given the lower case of the description.
    pub fn from_lowered(s: &str, lower: &str) -> (network: Network)
        ensures
            network@ == described(s@, lower@),
    {
        if same_text(lower, "devnet") || same_text(s, DEVNET_URL) {
            Network::Devnet
        } else if same_text(lower, "localhost") || same_text(s, LOCALHOST_URL) {
            Network::Localnet
        } else if same_text(lower, "mainnet") || same_text(s, MAINNET_URL) {
            Network::Mainnet
        } else {
            Network::Custom(s.to_owned())
        }
    }

    /// The network that a description stands for. Every description stands for one.
    pub fn from_str(s: &str) -> (network: Result<Network, Error>)
        ensures
            network is Ok,
            network->Ok_0@ == described(s@, lowercase(s@)),
            ascii(s@) ==> network->Ok_0@ == described(s@, ascii_lower(s@)),
    {
        let lower = to_lowercase(s);
        Ok(Network::from_lowered(s, lower.as_str()))
    }

    /// The endpoint of the network.
    pub fn to_string(&self) -> (url: String)
        ensures
            url@ == self@.url(),
    {
        match self {
            Network::Localnet => LOCALHOST_URL.to_owned(),
            Network::Devnet => DEVNET_URL.to_owned(),
            Network::Mainnet => MAINNET_URL.to_owned(),
            Network::Custom(url) => url.clone(),
        }
    }
}

impl Clone for Network {
    fn clone(&self) -> (network: Self)
        ensures
            network == *self,
    {
        match self {
            Network::Localnet => Network::Localnet,
            Network::Devnet => Network::Devnet,
            Network::Mainnet => Network::Mainnet,
            Network::Custom(url) => Network::Custom(url.clone()),
        }
    }
}

impl std::str::FromStr for Network {
    type Err = Error;

    /// The network that a description stands for. Every description stands for one.
    fn from_str(s: &str) -> (network: Result<Self, Error>)
        ensures
            network is Ok,
            network->Ok_0@ == described(s@, lowercase(s@)),
            ascii(s@) ==> network->Ok_0@ == described(s@, ascii_lower(s@)),
    {
        Network::from_str(s)
    }
}

/// The endpoints of the known networks are ASCII.
pub proof fn lemma_endpoints_ascii()
    ensures
        ascii(DEVNET_URL@),
        ascii(LOCALHOST_URL@),
        ascii(MAINNET_URL@),
{
    reveal_strlit("https://api.devnet.solana.com/");
    reveal_strlit("https://localhost:8899/");
    reveal_strlit("https://api.mainnet-beta.solana.com");
}

/// The endpoint of a network stands for that network, unless a custom network has taken the name
/// or the endpoint of another one. `lower` is the lower case of the endpoint, which is known where
/// the endpoint is ASCII.
pub proof fn law_endpoint_round_trip(network: NetworkView, lower: Seq<char>)
    requires
        ascii(network.url()) ==> lower == ascii_lower(network.url()),
        network matches NetworkView::Custom(url) ==> described(url, lower) is Custom,
    ensures
        described(network.url(), lower) == network,
{
    lemma_endpoints_ascii();
    reveal_strlit("https://api.devnet.solana.com/");
    reveal_strlit("https://localhost:8899/");
    reveal_strlit("https://api.mainnet-beta.solana.com");
    reveal_strlit("devnet");
    reveal_strlit("localhost");
    reveal_strlit("mainnet");
    assert(!(network is Custom) ==> lower.len() == network.url().len());
}

/// The name of a network stands for it in whatever case its letters are written.
pub proof fn law_names_in_any_case(desc: Seq<char>, lower: Seq<char>)
    requires
        ascii(desc),
        lower == ascii_lower(desc),
    ensures
        lower == "devnet"@ ==> described(desc, lower) == NetworkView::Devnet,
        lower == "localhost"@ ==> described(desc, lower) == NetworkView::Localnet,
        lower == "mainnet"@ ==> described(desc, lower) == NetworkView::Mainnet,
{
    reveal_strlit("https://api.devnet.solana.com/");
    reveal_strlit("https://localhost:8899/");
    reveal_strlit("devnet");
    reveal_strlit("localhost");
    reveal_strlit("mainnet");
    assert(lower.len() == desc.len());
}

/// A description is that of a custom network exactly if it is neither a known name in any case nor
/// a known endpoint. The endpoint of a custom network is its description, and each known name and
/// each known endpoint stands for its own network.
pub proof fn law_descriptions_are_told_apart(desc: Seq<char>, lower: Seq<char>)
    requires
        ascii(desc) ==> lower == ascii_lower(desc),
    ensures
        described(desc, lower) is Custom <==> {
            &&& lower != "devnet"@
            &&& lower != "localhost"@
            &&& lower != "mainnet"@
            &&& desc != "https://api.devnet.solana.com/"@
            &&& desc != "https://localhost:8899/"@
            &&& desc != "https://api.mainnet-beta.solana.com"@
        },
        described(desc, lower) is Custom ==> described(desc, lower) == NetworkView::Custom(desc),
        lower == "devnet"@ ==> described(desc, lower) == NetworkView::Devnet,
        lower == "localhost"@ ==> described(desc, lower) == NetworkView::Localnet,
        lower == "mainnet"@ ==> described(desc, lower) == NetworkView::Mainnet,
        desc == "https://api.devnet.solana.com/"@ ==> described(desc, lower)
            == NetworkView::Devnet,
        desc == "https://localhost:8899/"@ ==> described(desc, lower) == NetworkView::Localnet,
        desc == "https://api.mainnet-beta.solana.com"@ ==> described(desc, lower)
            == NetworkView::Mainnet,
{
    lemma_endpoints_ascii();
    reveal_strlit("https://api.devnet.solana.com/");
    reveal_strlit("https://localhost:8899/");
    reveal_strlit("https://api.mainnet-beta.solana.com");
    reveal_strlit("devnet");
    reveal_strlit("localhost");
    reveal_strlit("mainnet");
    assert(ascii(desc) ==> lower.len() == desc.len());
    assert("devnet"@.len() == 6 && "localhost"@.len() == 9 && "mainnet"@.len() == 7);
    assert(desc == DEVNET_URL@ ==> ascii(desc) && lower.len() == 30);
    assert(desc == LOCALHOST_URL@ ==> ascii(desc) && lower.len() == 23);
    assert(desc == MAINNET_URL@ ==> ascii(desc) && lower.len() == 35);
}

/// Each network has an endpoint of its own, and a custom network the one that it is made with.
pub proof fn law_endpoints(network: Network, url: Seq<char>)
    ensures
        NetworkView::Localnet.url() == "https://localhost:8899/"@,
        NetworkView::Devnet.url() == "https://api.devnet.solana.com/"@,
        NetworkView::Mainnet.url() == "https://api.mainnet-beta.solana.com"@,
        NetworkView::Custom(url).url() == url,
        network@ == match network {
            Network::Localnet => NetworkView::Localnet,
            Network::Devnet => NetworkView::Devnet,
            Network::Mainnet => NetworkView::Mainnet,
            Network::Custom(url) => NetworkView::Custom(url@),
        },
{
}

/// Of an ASCII text, the letters `A` to `Z` are raised by 32, and nothing else changes.
pub proof fn law_lower_case(text: Seq<char>, i: int)
    requires
        0 <= i < text.len(),
    ensures
        ascii_lower(text).len() == text.len(),
        65 <= text[i] as u32 && text[i] as u32 <= 90 ==> ascii_lower(text)[i] as u32 == text[i]
            as u32 + 32,
        text[i] as u32 <= 64 || 91 <= text[i] as u32 ==> ascii_lower(text)[i] == text[i],
        ascii(text) ==> (text[i] as u32) < 128,
{
}

} // verus!
