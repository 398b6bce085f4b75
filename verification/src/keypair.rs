//! Ed25519 key pairs.

use vstd::prelude::*;
use crate::account::{Pubkey, Signature};
use solana_sdk::signature::Signer;

verus! {

/// Whether `solana_sdk`'s `Keypair::from_bytes` accepts these bytes.
pub uninterp spec fn keypair_accepted(bytes: Seq<u8>) -> bool;

/// The bytes of the signature that `solana_sdk`'s `Keypair::sign_message` gives for the key pair
/// with these bytes.
pub uninterp spec fn keypair_signature(keypair: Seq<u8>, message: Seq<u8>) -> Seq<u8>;

/// The public half that `solana_sdk`'s `keypair_from_seed` computes for a secret half.
pub uninterp spec fn public_half(secret: Seq<u8>) -> Seq<u8>;

/// Whether the key pair with these bytes signs for an address: its public half is the address.
pub open spec fn signs_for(keypair: Seq<u8>, address: Seq<u8>) -> bool {
    keypair.subrange(32, 64) == address
}

/// A key pair: 32 bytes of secret, then 32 bytes of address.
#[derive(Debug)]
pub struct Keypair {
    bytes: [u8; 64],
}

impl View for Keypair {
    type V = Seq<u8>;

    closed spec fn view(&self) -> Seq<u8> {
        self.bytes@
    }
}

/// Calls `solana_sdk::signature::Keypair::from_bytes`, and says whether it succeeded. Which bytes
/// it takes for a key pair is what `keypair_accepted` names.
#[verifier::external_body]
fn decodes(bytes: &[u8; 64]) -> (accepted: bool)
    ensures
        accepted == keypair_accepted(bytes@),
{
    solana_sdk::signature::Keypair::from_bytes(bytes).is_ok()
}

/// Calls `sign_message` of `solana_sdk::signature::Keypair`, which is deterministic: the signature
/// is a function of the bytes of the key pair and of the message.
#[verifier::external_body]
fn sign_bytes(bytes: &[u8; 64], message: &[u8]) -> (signature: [u8; 64])
    requires
        keypair_accepted(bytes@),
    ensures
        signature@ == keypair_signature(bytes@, message@),
{
    solana_sdk::signature::Keypair::from_bytes(bytes).unwrap().sign_message(message).into()
}

/// Calls `solana_sdk::signature::Keypair::new`, which draws a key pair from the randomness of the
/// operating system. All that is claimed of the draw is that it is a key pair.
#[verifier::external_body]
fn random_bytes() -> (bytes: [u8; 64])
    ensures
        keypair_accepted(bytes@),
{
    solana_sdk::signature::Keypair::new().to_bytes()
}

/// Calls `solana_sdk::signature::keypair_from_seed`, which takes the first 32 bytes of the seed for
/// the secret half and computes the public half from it.
#[verifier::external_body]
fn seeded_bytes(seed: &[u8; 32]) -> (bytes: [u8; 64])
    ensures
        keypair_accepted(bytes@),
        bytes@ == seed@ + public_half(seed@),
{
    solana_sdk::signature::keypair_from_seed(seed).unwrap().to_bytes()
}

impl Keypair {
    #[verifier::type_invariant]
    spec fn accepted(self) -> bool {
        keypair_accepted(self.bytes@)
    }

    /// A key pair out of its bytes, if they are the bytes of one.
    pub fn from_bytes(bytes: [u8; 64]) -> (keypair: Option<Keypair>)
        ensures
            keypair is Some <==> keypair_accepted(bytes@),
            keypair is Some ==> keypair->0@ == bytes@,
    {
        if decodes(&bytes) {
            Some(Keypair { bytes })
        } else {
            None
        }
    }

    /// A key pair drawn at random.
    pub fn new() -> (keypair: Keypair)
        ensures
            keypair_accepted(keypair@),
    {
        Keypair { bytes: random_bytes() }
    }

    /// The key pair whose secret half is the seed.
    pub fn from_seed(seed: &[u8; 32]) -> (keypair: Keypair)
        ensures
            keypair_accepted(keypair@),
            keypair@ == seed@ + public_half(seed@),
    {
        Keypair { bytes: seeded_bytes(seed) }
    }

    /// The bytes of the key pair.
    pub fn to_bytes(&self) -> (bytes: [u8; 64])
        ensures
            bytes@ == self@,
            keypair_accepted(self@),
    {
        proof {
            use_type_invariant(&*self);
        }
        self.bytes
    }

    /// The address that the key pair signs for.
    pub fn pubkey(&self) -> (address: Pubkey)
        ensures
            signs_for(self@, address@),
            address@ == self@.subrange(32, 64),
    {
        let mut address: [u8; 32] = [0; 32];
        let mut i: usize = 0;
        while i < 32
            invariant
                i <= 32,
                forall|j: int| 0 <= j < i ==> address@[j] == self.bytes@[32 + j],
            decreases 32 - i,
        {
            address[i] = self.bytes[32 + i];
            i = i + 1;
        }
        assert(address@ =~= self@.subrange(32, 64));
        Pubkey(address)
    }

    /// The signature of a message.
    pub fn sign_message(&self, message: &[u8]) -> (signature: Signature)
        ensures
            signature@ == keypair_signature(self@, message@),
    {
        proof {
            use_type_invariant(&*self);
        }
        Signature(sign_bytes(&self.bytes, message))
    }
}

/// A key pair signs for an address exactly if the address is the last 32 of its 64 bytes.
pub proof fn law_last_half_signs(keypair: Seq<u8>, address: Seq<u8>)
    requires
        keypair.len() == 64,
    ensures
        signs_for(keypair, address) <==> address.len() == 32 && forall|i: int|
            0 <= i < 32 ==> #[trigger] address[i] == keypair[32 + i],
{
    let half = keypair.subrange(32, 64);
    if address.len() == 32 && forall|i: int|
        0 <= i < 32 ==> #[trigger] address[i] == keypair[32 + i] {
        assert(half =~= address);
    }
}

} // verus!
