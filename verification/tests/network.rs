use solana_simulation::network::{Network, DEVNET_URL, LOCALHOST_URL, MAINNET_URL};

#[test]
fn names_in_any_case() {
    assert_eq!(Network::from_str("devnet").unwrap(), Network::Devnet);
    assert_eq!(Network::from_str("DevNet").unwrap(), Network::Devnet);
    assert_eq!(Network::from_str("LOCALHOST").unwrap(), Network::Localnet);
    assert_eq!(Network::from_str("localhost").unwrap(), Network::Localnet);
    assert_eq!(Network::from_str("MainNet").unwrap(), Network::Mainnet);
    assert_eq!(Network::from_str("mainnet").unwrap(), Network::Mainnet);
}

#[test]
fn lower_case_is_not_only_ascii() {
    // U+0130, a capital I with a dot, becomes two characters.
    assert_eq!(
        Network::from_str("MA\u{130}NNET").unwrap(),
        Network::Custom("MA\u{130}NNET".to_string())
    );
    // U+212A, the kelvin sign, becomes a plain `k`.
    assert_eq!(
        Network::from_lowered("\u{212a}", "\u{212a}".to_lowercase().as_str()),
        Network::Custom("\u{212a}".to_string())
    );
}

#[test]
fn names_by_their_lower_case() {
    assert_eq!(Network::from_lowered("anything", "devnet"), Network::Devnet);
    assert_eq!(Network::from_lowered("anything", "localhost"), Network::Localnet);
    assert_eq!(Network::from_lowered("anything", "mainnet"), Network::Mainnet);
    assert_eq!(
        Network::from_lowered("DEVNET", "DEVNET"),
        Network::Custom("DEVNET".to_string())
    );
    assert_eq!(Network::from_lowered(DEVNET_URL, ""), Network::Devnet);
}

#[test]
fn endpoints_stand_for_their_networks() {
    for network in [Network::Localnet, Network::Devnet, Network::Mainnet] {
        assert_eq!(Network::from_str(&network.to_string()).unwrap(), network);
    }
    let custom = Network::Custom("http://10.0.0.1:8899".to_string());
    assert_eq!(Network::from_str(&custom.to_string()).unwrap(), custom);
    assert_eq!(LOCALHOST_URL, "https://localhost:8899/");
    assert_eq!(MAINNET_URL, "https://api.mainnet-beta.solana.com");
    assert_eq!(Network::Devnet.to_string(), "https://api.devnet.solana.com/");
}

#[test]
fn endpoints_are_taken_letter_for_letter() {
    let shouted = DEVNET_URL.to_uppercase();
    assert_eq!(Network::from_str(&shouted).unwrap(), Network::Custom(shouted.clone()));
    let bare = "https://localhost:8899";
    assert_eq!(Network::from_str(bare).unwrap(), Network::Custom(bare.to_string()));
}

#[test]
fn custom_network_with_a_known_name_is_not_found_again() {
    let taken = Network::Custom("DEVNET".to_string());
    assert_eq!(Network::from_str(&taken.to_string()).unwrap(), Network::Devnet);
}

#[test]
fn networks_are_parsed_and_cloned() {
    let network: Network = "http://example.test".parse().unwrap();
    assert_eq!(network.clone(), network);
    assert_eq!(network, Network::Custom("http://example.test".to_string()));
    assert_eq!("".parse::<Network>().unwrap(), Network::Custom(String::new()));
}
