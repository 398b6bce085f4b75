use solana_sdk::hash::Hash as SdkHash;
use solana_sdk::instruction::{AccountMeta as SdkMeta, Instruction as SdkInstruction};
use solana_sdk::message::Message as SdkMessage;
use solana_simulation::account::{Blockhash, Pubkey};
use solana_simulation::message::{
    contains_key, message_fits, signers_to_ask, AccountMeta, Instruction, Message,
};

fn key(n: u16) -> Pubkey {
    let mut bytes = [0u8; 32];
    bytes[0] = 9;
    bytes[1] = (n >> 8) as u8;
    bytes[2] = n as u8;
    Pubkey(bytes)
}

fn meta(n: u16, is_signer: bool, is_writable: bool) -> AccountMeta {
    AccountMeta { pubkey: key(n), is_signer, is_writable }
}

fn sdk(instruction: &Instruction) -> SdkInstruction {
    SdkInstruction {
        program_id: instruction.program_id.0.into(),
        accounts: instruction
            .accounts
            .iter()
            .map(|m| SdkMeta {
                pubkey: m.pubkey.0.into(),
                is_signer: m.is_signer,
                is_writable: m.is_writable,
            })
            .collect(),
        data: instruction.data.clone(),
    }
}

fn sample() -> Vec<Instruction> {
    vec![
        Instruction {
            program_id: key(100),
            accounts: vec![meta(5, false, false), meta(4, true, false), meta(3, false, true)],
            data: vec![1, 2, 3],
        },
        Instruction {
            program_id: key(101),
            accounts: vec![meta(5, true, true), meta(1, false, false)],
            data: vec![],
        },
    ]
}

#[test]
fn messages_are_compiled_like_those_of_the_sdk() {
    let instructions = sample();
    let message = Message::new_with_blockhash(&instructions, &key(1), &Blockhash([8; 32]));
    let calls: Vec<SdkInstruction> = instructions.iter().map(sdk).collect();
    let expected = SdkMessage::new_with_blockhash(
        &calls,
        Some(&key(1).0.into()),
        &SdkHash::new_from_array([8; 32]),
    );
    assert_eq!(message.num_required_signatures, expected.header.num_required_signatures);
    assert_eq!(message.data, expected.serialize());
    let keys: Vec<Pubkey> =
        expected.account_keys.iter().map(|key| Pubkey(key.to_bytes())).collect();
    assert_eq!(message.account_keys, keys);
}

#[test]
fn payer_comes_first_and_signers_in_front() {
    let message = Message::new_with_blockhash(&sample(), &key(1), &Blockhash([0; 32]));
    assert_eq!(message.num_required_signatures, 3);
    assert_eq!(message.account_keys.len(), 6);
    assert_eq!(message.account_keys[0], key(1));
    let signers = message.signer_keys();
    assert_eq!(signers.len(), 3);
    assert!(contains_key(&signers, &key(4)));
    assert!(contains_key(&signers, &key(5)));
    assert!(!contains_key(&signers, &key(3)));
    for n in [1, 3, 4, 5, 100, 101] {
        assert_eq!(message.account_keys.iter().filter(|k| **k == key(n)).count(), 1);
    }
}

#[test]
fn block_hash_is_part_of_what_is_signed() {
    let one = Message::new_with_blockhash(&sample(), &key(1), &Blockhash([1; 32]));
    let other = Message::new_with_blockhash(&sample(), &key(1), &Blockhash([2; 32]));
    assert_ne!(one.data, other.data);
    assert_eq!(one.account_keys, other.account_keys);
}

#[test]
fn message_without_instructions() {
    let message = Message::new_with_blockhash(&vec![], &key(7), &Blockhash([0; 32]));
    assert_eq!(message.account_keys, vec![key(7)]);
    assert_eq!(message.num_required_signatures, 1);
}

#[test]
fn signer_keys_stop_at_the_end_of_the_addresses() {
    let message =
        Message { num_required_signatures: 3, account_keys: vec![key(1), key(2)], data: vec![] };
    assert_eq!(message.signer_keys(), vec![key(1), key(2)]);
    let message =
        Message { num_required_signatures: 1, account_keys: vec![key(1), key(2)], data: vec![] };
    assert_eq!(message.signer_keys(), vec![key(1)]);
}

#[test]
fn number_of_signers_is_limited() {
    let signing = |n: u16| {
        vec![Instruction {
            program_id: key(1000),
            accounts: (1..n).map(|i| meta(i, true, true)).collect(),
            data: vec![],
        }]
    };
    assert!(message_fits(&signing(255), &key(0)));
    let message = Message::new_with_blockhash(&signing(255), &key(0), &Blockhash([0; 32]));
    assert_eq!(message.num_required_signatures, 255);
    assert!(!message_fits(&signing(256), &key(0)));
}

#[test]
fn number_of_readonly_addresses_is_limited() {
    let reading = |n: u16| {
        vec![Instruction {
            program_id: key(1000),
            accounts: (1..n).map(|i| meta(i, false, false)).collect(),
            data: vec![],
        }]
    };
    assert!(message_fits(&reading(255), &key(0)));
    let message = Message::new_with_blockhash(&reading(255), &key(0), &Blockhash([0; 32]));
    assert_eq!(message.account_keys.len(), 256);
    assert!(!message_fits(&reading(256), &key(0)));
}

#[test]
fn lengths_are_limited() {
    let sized = |accounts: usize, data: usize| {
        vec![Instruction {
            program_id: key(1000),
            accounts: vec![meta(1, false, true); accounts],
            data: vec![0; data],
        }]
    };
    assert!(message_fits(&sized(65535, 65535), &key(0)));
    let message = Message::new_with_blockhash(&sized(65535, 65535), &key(0), &Blockhash([0; 32]));
    assert_eq!(message.account_keys.len(), 3);
    assert!(!message_fits(&sized(65536, 0), &key(0)));
    assert!(!message_fits(&sized(0, 65536), &key(0)));
}

#[test]
fn only_signers_are_asked() {
    let message = Message {
        num_required_signatures: 2,
        account_keys: vec![key(1), key(2), key(3)],
        data: vec![],
    };
    let keys = vec![key(3), key(2), key(9), key(1), key(2)];
    assert_eq!(signers_to_ask(&message, &keys), vec![1, 3, 4]);
    assert!(signers_to_ask(&message, &vec![]).is_empty());
}

#[test]
fn addresses_are_searched_for() {
    assert!(contains_key(&vec![key(1), key(2)], &key(2)));
    assert!(!contains_key(&vec![key(1), key(2)], &key(3)));
    assert!(!contains_key(&vec![], &key(3)));
}
