//! Transactions, and the signatures that go into them.

use vstd::prelude::*;
use crate::account::{Blockhash, Pubkey, Signature, key_bytes, signature_bytes, unsigned};
use crate::error::Error;
use crate::keypair::{Keypair, keypair_signature, signs_for};
use crate::keys::keypair_bytes;
use crate::message::{
    Instruction,
    Message,
    MessageView,
    fits,
    instruction_views,
    lists,
    message_fits,
    message_of,
    message_uses,
    signing_keys,
};
use solana_sdk::hash::Hash as SdkHash;
use solana_sdk::instruction::{AccountMeta as SdkAccountMeta, Instruction as SdkInstruction};
use solana_sdk::signature::Keypair as SdkKeypair;
use solana_sdk::transaction::Transaction as SdkTransaction;

verus! {

/// A message with a place for the signature of each address that has to sign it.
#[derive(Clone, Debug)]
pub struct Transaction {
    /// One signature for each address that has to sign, in the order of the addresses.
    pub signatures: Vec<Signature>,
    /// What is signed.
    pub message: Message,
}

/// A signature, offered for an address.
pub type Offer = (Pubkey, Signature);

/// The bytes of a list of offers.
pub open spec fn offer_bytes(offers: Seq<Offer>) -> Seq<(Seq<u8>, Seq<u8>)> {
    Seq::new(offers.len(), |i: int| (offers[i].0@, offers[i].1@))
}

/// What key pairs offer to sign a message with: each its own signature, for its own address.
pub open spec fn held_offers(held: Seq<Seq<u8>>, data: Seq<u8>) -> Seq<(Seq<u8>, Seq<u8>)> {
    Seq::new(
        held.len(),
        |i: int| (held[i].subrange(32, 64), keypair_signature(held[i], data)),
    )
}

/// The last signature that is offered for an address.
pub open spec fn last_for(offers: Seq<(Seq<u8>, Seq<u8>)>, key: Seq<u8>) -> Option<Seq<u8>>
    decreases offers.len(),
{
    if offers.len() == 0 {
        None
    } else if offers.last().0 == key {
        Some(offers.last().1)
    } else {
        last_for(offers.drop_last(), key)
    }
}

/// The place of an address in a list, the first one if there are several.
pub open spec fn first_place(keys: Seq<Seq<u8>>, key: Seq<u8>, place: Option<usize>) -> bool {
    match place {
        Some(p) => p < keys.len() && keys[p as int] == key && forall|j: int|
            0 <= j < p ==> keys[j] != key,
        None => !keys.contains(key),
    }
}

/// The signature at the place of the `j`th signing address: the last one that was offered for it.
/// An address that occurs twice is signed for at its first place only.
pub open spec fn slot(keys: Seq<Seq<u8>>, offers: Seq<(Seq<u8>, Seq<u8>)>, j: int) -> Seq<u8> {
    if exists|i: int| 0 <= i < j && keys[i] == keys[j] {
        unsigned()
    } else {
        match last_for(offers, keys[j]) {
            Some(signature) => signature,
            None => unsigned(),
        }
    }
}

/// The signatures of a message once the offers are in place.
pub open spec fn slots(message: MessageView, offers: Seq<(Seq<u8>, Seq<u8>)>) -> Seq<Seq<u8>> {
    Seq::new(
        signing_keys(message).len(),
        |j: int| slot(signing_keys(message), offers, j),
    )
}

/// Whether a message asks for more signatures than it has addresses.
pub open spec fn overdrawn(message: MessageView) -> bool {
    message.account_keys.len() < message.num_required_signatures
}

/// Whether a signature is offered for an address that does not sign the message.
pub open spec fn stray_offer(message: MessageView, offers: Seq<(Seq<u8>, Seq<u8>)>) -> bool {
    exists|i: int|
        0 <= i < offers.len() && !signing_keys(message).contains((#[trigger] offers[i]).0)
}

impl Transaction {
    /// A transaction that nobody has signed.
    pub fn new_unsigned(message: Message) -> (transaction: Transaction)
        ensures
            transaction.message == message,
            transaction.signatures@.len() == message.num_required_signatures,
            forall|j: int|
                0 <= j < transaction.signatures@.len() ==> #[trigger] transaction.signatures@[j]@
                    == unsigned(),
    {
        let mut signatures: Vec<Signature> = Vec::new();
        let mut i: u8 = 0;
        while i < message.num_required_signatures
            invariant
                i <= message.num_required_signatures,
                signatures@.len() == i,
                forall|j: int| 0 <= j < i ==> #[trigger] signatures@[j]@ == unsigned(),
            decreases message.num_required_signatures - i,
        {
            signatures.push(Signature::default());
            i = i + 1;
        }
        Transaction { signatures, message }
    }

    /// The place at which each address signs, if it does.
    pub fn get_signing_keypair_positions(&self, pubkeys: &Vec<Pubkey>) -> (positions: Result<
        Vec<Option<usize>>,
        Error,
    >)
        ensures
            match positions {
                Ok(places) => !overdrawn(self.message@) && places@.len() == pubkeys@.len()
                    && forall|i: int|
                    0 <= i < places@.len() ==> first_place(
                        signing_keys(self.message@),
                        pubkeys@[i]@,
                        #[trigger] places@[i],
                    ),
                Err(error) => overdrawn(self.message@) && error == Error::InvalidAccountIndex,
            },
    {
        if self.message.account_keys.len() < self.message.num_required_signatures as usize {
            return Err(Error::InvalidAccountIndex);
        }
        let keys = self.message.signer_keys();
        let mut places: Vec<Option<usize>> = Vec::new();
        let mut i: usize = 0;
        while i < pubkeys.len()
            invariant
                i <= pubkeys@.len(),
                places@.len() == i,
                key_bytes(keys@) == signing_keys(self.message@),
                forall|j: int|
                    0 <= j < i ==> first_place(
                        signing_keys(self.message@),
                        pubkeys@[j]@,
                        #[trigger] places@[j],
                    ),
            decreases pubkeys@.len() - i,
        {
            places.push(find_key(&keys, &pubkeys[i]));
            i = i + 1;
        }
        Ok(places)
    }
}

/// The first place of an address in a list.
fn find_key(keys: &Vec<Pubkey>, key: &Pubkey) -> (place: Option<usize>)
    ensures
        first_place(key_bytes(keys@), key@, place),
{
    let ghost list = key_bytes(keys@);
    let mut i: usize = 0;
    while i < keys.len()
        invariant
            i <= keys@.len(),
            list == key_bytes(keys@),
            forall|j: int| 0 <= j < i ==> list[j] != key@,
        decreases keys@.len() - i,
    {
        assert(list[i as int] == keys@[i as int]@);
        if keys[i] == *key {
            return Some(i);
        }
        i = i + 1;
    }
    None
}

/// What is offered for an address is offered by one of the key pairs for it.
pub proof fn lemma_last_for_held(held: Seq<Seq<u8>>, data: Seq<u8>, key: Seq<u8>)
    ensures
        match last_for(held_offers(held, data), key) {
            Some(signature) => exists|i: int|
                0 <= i < held.len() && signs_for(#[trigger] held[i], key) && signature
                    == keypair_signature(held[i], data),
            None => forall|i: int| 0 <= i < held.len() ==> !signs_for(#[trigger] held[i], key),
        },
    decreases held.len(),
{
    let offers = held_offers(held, data);
    if held.len() > 0 {
        let shorter = held.drop_last();
        assert(offers.drop_last() =~= held_offers(shorter, data));
        lemma_last_for_held(shorter, data, key);
        assert(offers.last() == (
            held.last().subrange(32, 64),
            keypair_signature(held.last(), data),
        ));
        if offers.last().0 == key {
            assert(signs_for(held[held.len() - 1], key));
        } else {
            assert(!signs_for(held[held.len() - 1], key));
            match last_for(offers, key) {
                Some(signature) => {
                    let i = choose|i: int|
                        0 <= i < shorter.len() && signs_for(#[trigger] shorter[i], key)
                            && signature == keypair_signature(shorter[i], data);
                    assert(signs_for(held[i], key));
                },
                None => {
                    assert forall|i: int| 0 <= i < held.len() implies !signs_for(
                        #[trigger] held[i],
                        key,
                    ) by {
                        if i < shorter.len() {
                            assert(!signs_for(shorter[i], key));
                        }
                    }
                },
            }
        }
    }
}

/// Puts signatures in the places of the addresses that they are offered for.
pub fn place_signatures(message: Message, offers: &Vec<Offer>) -> (placed: Result<
    Transaction,
    Error,
>)
    ensures
        match placed {
            Ok(transaction) => {
                &&& !overdrawn(message@)
                &&& !stray_offer(message@, offer_bytes(offers@))
                &&& transaction.message == message
                &&& signature_bytes(transaction.signatures@) == slots(
                    message@,
                    offer_bytes(offers@),
                )
            },
            Err(error) => {
                ||| overdrawn(message@) && error == Error::InvalidAccountIndex
                ||| !overdrawn(message@) && stray_offer(message@, offer_bytes(offers@)) && error
                    == Error::MissingSigner
            },
        },
{
    let mut transaction = Transaction::new_unsigned(message);
    let mut pubkeys: Vec<Pubkey> = Vec::new();
    let mut i: usize = 0;
    while i < offers.len()
        invariant
            i <= offers@.len(),
            pubkeys@.len() == i,
            forall|j: int| 0 <= j < i ==> #[trigger] pubkeys@[j] == offers@[j].0,
        decreases offers@.len() - i,
    {
        pubkeys.push(offers[i].0);
        i = i + 1;
    }
    let positions = match transaction.get_signing_keypair_positions(&pubkeys) {
        Ok(positions) => positions,
        Err(error) => {
            return Err(error);
        },
    };
    let ghost keys = signing_keys(message@);
    let ghost given = offer_bytes(offers@);
    let mut i: usize = 0;
    while i < positions.len()
        invariant
            i <= positions@.len(),
            positions@.len() == offers@.len(),
            pubkeys@.len() == offers@.len(),
            keys == signing_keys(message@),
            given == offer_bytes(offers@),
            !overdrawn(message@),
            forall|j: int| 0 <= j < offers@.len() ==> #[trigger] pubkeys@[j] == offers@[j].0,
            forall|j: int|
                0 <= j < positions@.len() ==> first_place(
                    keys,
                    pubkeys@[j]@,
                    #[trigger] positions@[j],
                ),
            forall|j: int| 0 <= j < i ==> #[trigger] positions@[j] is Some,
        decreases positions@.len() - i,
    {
        if positions[i].is_none() {
            assert(!keys.contains(given[i as int].0));
            return Err(Error::MissingSigner);
        }
        i = i + 1;
    }
    assert(!stray_offer(message@, given)) by {
        if stray_offer(message@, given) {
            let j = choose|j: int| 0 <= j < given.len() && !keys.contains((#[trigger] given[j]).0);
            assert(positions@[j] is Some);
            assert(given[j].0 == pubkeys@[j]@);
            assert(keys[positions@[j]->0 as int] == given[j].0);
        }
    }
    let mut i: usize = 0;
    while i < positions.len()
        invariant
            i <= positions@.len(),
            positions@.len() == offers@.len(),
            pubkeys@.len() == offers@.len(),
            keys == signing_keys(message@),
            keys.len() == message@.num_required_signatures,
            given == offer_bytes(offers@),
            forall|j: int| 0 <= j < offers@.len() ==> #[trigger] pubkeys@[j] == offers@[j].0,
            forall|j: int|
                0 <= j < positions@.len() ==> first_place(
                    keys,
                    pubkeys@[j]@,
                    #[trigger] positions@[j],
                ),
            forall|j: int| 0 <= j < positions@.len() ==> #[trigger] positions@[j] is Some,
            transaction.message == message,
            transaction.signatures@.len() == message@.num_required_signatures,
            forall|j: int|
                0 <= j < keys.len() ==> #[trigger] transaction.signatures@[j]@ == slot(
                    keys,
                    given.take(i as int),
                    j,
                ),
        decreases positions@.len() - i,
    {
        let ghost before = transaction.signatures@;
        if let Some(place) = positions[i] {
            assert(first_place(keys, pubkeys@[i as int]@, positions@[i as int]));
            transaction.signatures.set(place, offers[i].1);
            proof {
                let shorter = given.take(i as int);
                let longer = given.take(i + 1);
                assert(longer.drop_last() =~= shorter);
                assert(longer.last() == given[i as int]);
                assert forall|j: int|
                    0 <= j < keys.len() implies #[trigger] transaction.signatures@[j]@ == slot(
                    keys,
                    longer,
                    j,
                ) by {
                    assert(before[j]@ == slot(keys, shorter, j));
                    if j != place && keys[j] == keys[place as int] {
                        assert(exists|k: int| 0 <= k < j && keys[k] == keys[j]);
                    }
                }
            }
        }
        i = i + 1;
    }
    assert(given.take(i as int) =~= given);
    assert(signature_bytes(transaction.signatures@) =~= slots(message@, given));
    Ok(transaction)
}

/// The offers for one address, in order.
pub open spec fn matching(offers: Seq<(Seq<u8>, Seq<u8>)>, key: Seq<u8>) -> Seq<(Seq<u8>, Seq<u8>)>
    decreases offers.len(),
{
    if offers.len() == 0 {
        Seq::empty()
    } else {
        let rest = matching(offers.drop_last(), key);
        if offers.last().0 == key {
            rest.push(offers.last())
        } else {
            rest
        }
    }
}

/// The offers for each address of a list, address by address.
pub open spec fn gathered(
    keys: Seq<Seq<u8>>,
    offers: Seq<(Seq<u8>, Seq<u8>)>,
) -> Seq<(Seq<u8>, Seq<u8>)>
    decreases keys.len(),
{
    if keys.len() == 0 {
        Seq::empty()
    } else {
        gathered(keys.drop_last(), offers) + matching(offers, keys.last())
    }
}

/// Of two lists of offers in a row, the second one has the last word.
pub proof fn lemma_last_for_add(
    first: Seq<(Seq<u8>, Seq<u8>)>,
    second: Seq<(Seq<u8>, Seq<u8>)>,
    key: Seq<u8>,
)
    ensures
        last_for(first + second, key) == match last_for(second, key) {
            Some(signature) => Some(signature),
            None => last_for(first, key),
        },
    decreases second.len(),
{
    if second.len() == 0 {
        assert(first + second =~= first);
    } else {
        assert((first + second).drop_last() =~= first + second.drop_last());
        lemma_last_for_add(first, second.drop_last(), key);
    }
}

/// Leaving out the offers for other addresses does not change which one is the last for this one.
proof fn lemma_last_for_matching(
    offers: Seq<(Seq<u8>, Seq<u8>)>,
    wanted: Seq<u8>,
    key: Seq<u8>,
)
    ensures
        last_for(matching(offers, wanted), key) == if key == wanted {
            last_for(offers, key)
        } else {
            None
        },
        forall|i: int|
            0 <= i < matching(offers, wanted).len() ==> (#[trigger] matching(offers, wanted)[i]).0
                == wanted,
    decreases offers.len(),
{
    if offers.len() > 0 {
        lemma_last_for_matching(offers.drop_last(), wanted, key);
        if offers.last().0 == wanted {
            let rest = matching(offers.drop_last(), wanted);
            assert(matching(offers, wanted) == rest.push(offers.last()));
            assert(rest.push(offers.last()).drop_last() =~= rest);
        }
    }
}

/// Gathering offers address by address does not change which one is the last for any of the
/// addresses, and leaves none for others.
proof fn lemma_last_for_gathered(
    keys: Seq<Seq<u8>>,
    offers: Seq<(Seq<u8>, Seq<u8>)>,
    key: Seq<u8>,
)
    ensures
        last_for(gathered(keys, offers), key) == if keys.contains(key) {
            last_for(offers, key)
        } else {
            None
        },
    decreases keys.len(),
{
    if keys.len() > 0 {
        let shorter = keys.drop_last();
        lemma_last_for_gathered(shorter, offers, key);
        lemma_last_for_matching(offers, keys.last(), key);
        lemma_last_for_add(gathered(shorter, offers), matching(offers, keys.last()), key);
        if keys.contains(key) && key != keys.last() {
            let i = choose|i: int| 0 <= i < keys.len() && keys[i] == key;
            assert(shorter[i] == key);
        }
        if shorter.contains(key) {
            let i = choose|i: int| 0 <= i < shorter.len() && shorter[i] == key;
            assert(keys[i] == key);
        }
        assert(keys[keys.len() - 1] == keys.last());
    }
}

/// Every gathered offer is for one of the addresses.
proof fn lemma_gathered_for(keys: Seq<Seq<u8>>, offers: Seq<(Seq<u8>, Seq<u8>)>)
    ensures
        forall|i: int|
            0 <= i < gathered(keys, offers).len() ==> keys.contains(
                (#[trigger] gathered(keys, offers)[i]).0,
            ),
    decreases keys.len(),
{
    if keys.len() > 0 {
        let shorter = keys.drop_last();
        lemma_gathered_for(shorter, offers);
        lemma_last_for_matching(offers, keys.last(), keys.last());
        assert forall|i: int| 0 <= i < gathered(keys, offers).len() implies keys.contains(
            (#[trigger] gathered(keys, offers)[i]).0,
        ) by {
            let first = gathered(shorter, offers);
            if i < first.len() {
                assert(shorter.contains(first[i].0));
                let k = choose|k: int| 0 <= k < shorter.len() && shorter[k] == first[i].0;
                assert(keys[k] == first[i].0);
            } else {
                assert(matching(offers, keys.last())[i - first.len()].0 == keys.last());
                assert(keys[keys.len() - 1] == keys.last());
            }
        }
    }
}

/// Two lists of offers in a row are matched one after the other.
proof fn lemma_matching_add(
    first: Seq<(Seq<u8>, Seq<u8>)>,
    second: Seq<(Seq<u8>, Seq<u8>)>,
    key: Seq<u8>,
)
    ensures
        matching(first + second, key) == matching(first, key) + matching(second, key),
    decreases second.len(),
{
    if second.len() == 0 {
        assert(first + second =~= first);
        assert(matching(first, key) + matching(second, key) =~= matching(first, key));
    } else {
        assert((first + second).drop_last() =~= first + second.drop_last());
        lemma_matching_add(first, second.drop_last(), key);
        assert(matching(first + second, key) =~= matching(first, key) + matching(second, key));
    }
}

/// Gathers the signatures of a message: for each address that has to sign, those of the key pairs
/// that sign for it, and then those among the replies that are for it.
fn gather_signatures(message: &Message, held: &Vec<&Keypair>, replies: &Vec<Offer>) -> (offers: Vec<
    Offer,
>)
    ensures
        offer_bytes(offers@) == gathered(
            signing_keys(message@),
            held_offers(keypair_bytes(held@), message.data@) + offer_bytes(replies@),
        ),
{
    let ghost own = held_offers(keypair_bytes(held@), message.data@);
    let ghost other = offer_bytes(replies@);
    let keys = message.signer_keys();
    let ghost wanted = signing_keys(message@);
    let mut offers: Vec<Offer> = Vec::new();
    let mut i: usize = 0;
    assert(offer_bytes(offers@) =~= gathered(wanted.take(0), own + other));
    while i < keys.len()
        invariant
            i <= keys@.len(),
            wanted == key_bytes(keys@),
            own == held_offers(keypair_bytes(held@), message.data@),
            other == offer_bytes(replies@),
            offer_bytes(offers@) == gathered(wanted.take(i as int), own + other),
        decreases keys@.len() - i,
    {
        let key = keys[i];
        let ghost start = offer_bytes(offers@);
        assert(start =~= start + matching(own.take(0), key@));
        let mut k: usize = 0;
        while k < held.len()
            invariant
                k <= held@.len(),
                own == held_offers(keypair_bytes(held@), message.data@),
                offer_bytes(offers@) == start + matching(own.take(k as int), key@),
            decreases held@.len() - k,
        {
            let address = held[k].pubkey();
            let ghost before = offer_bytes(offers@);
            assert(own.take(k + 1).drop_last() =~= own.take(k as int));
            assert(own.take(k + 1).last() == own[k as int]);
            assert(keypair_bytes(held@)[k as int] == held@[k as int]@);
            if address == key {
                offers.push((address, held[k].sign_message(message.data.as_slice())));
                assert(offer_bytes(offers@) =~= before.push(own[k as int]));
            }
            assert(offer_bytes(offers@) =~= start + matching(own.take(k + 1), key@));
            k = k + 1;
        }
        assert(own.take(k as int) =~= own);
        let ghost middle = offer_bytes(offers@);
        assert(middle =~= middle + matching(other.take(0), key@));
        let mut k: usize = 0;
        while k < replies.len()
            invariant
                k <= replies@.len(),
                other == offer_bytes(replies@),
                offer_bytes(offers@) == middle + matching(other.take(k as int), key@),
            decreases replies@.len() - k,
        {
            let ghost before = offer_bytes(offers@);
            assert(other.take(k + 1).drop_last() =~= other.take(k as int));
            assert(other.take(k + 1).last() == other[k as int]);
            if replies[k].0 == key {
                offers.push(replies[k]);
                assert(offer_bytes(offers@) =~= before.push(other[k as int]));
            }
            assert(offer_bytes(offers@) =~= middle + matching(other.take(k + 1), key@));
            k = k + 1;
        }
        assert(other.take(k as int) =~= other);
        proof {
            lemma_matching_add(own, other, key@);
            assert(wanted.take(i + 1).drop_last() =~= wanted.take(i as int));
            assert(wanted.take(i + 1).last() == key@);
            assert(offer_bytes(offers@) =~= gathered(wanted.take(i + 1), own + other));
        }
        i = i + 1;
    }
    assert(wanted.take(i as int) =~= wanted);
    offers
}

/// What key pairs and the replies of other signers offer for a message.
pub open spec fn all_offers(
    message: MessageView,
    held: Seq<Seq<u8>>,
    replies: Seq<(Seq<u8>, Seq<u8>)>,
) -> Seq<(Seq<u8>, Seq<u8>)> {
    held_offers(held, message.data) + replies
}

/// Signs a message with key pairs and with the replies of other signers. A reply has precedence
/// over a key pair, and a later one over an earlier one. What is offered for an address that does
/// not sign is left aside, and an address that nothing is offered for stays unsigned.
pub fn sign_message_with(message: Message, held: &Vec<&Keypair>, replies: &Vec<Offer>) -> (signed:
    Result<Transaction, Error>)
    ensures
        match signed {
            Ok(transaction) => {
                &&& !overdrawn(message@)
                &&& transaction.message == message
                &&& signature_bytes(transaction.signatures@) == slots(
                    message@,
                    all_offers(message@, keypair_bytes(held@), offer_bytes(replies@)),
                )
            },
            Err(error) => overdrawn(message@) && error == Error::InvalidAccountIndex,
        },
{
    let offers = gather_signatures(&message, held, replies);
    proof {
        let keys = signing_keys(message@);
        let all = all_offers(message@, keypair_bytes(held@), offer_bytes(replies@));
        lemma_gathered_for(keys, all);
        if !overdrawn(message@) {
            assert forall|j: int| 0 <= j < keys.len() implies slot(keys, all, j) == slot(
                keys,
                gathered(keys, all),
                j,
            ) by {
                lemma_last_for_gathered(keys, all, keys[j]);
            }
            assert(slots(message@, all) =~= slots(message@, gathered(keys, all)));
        }
    }
    place_signatures(message, &offers)
}

/// Whether key pairs sign a message in full: none of them is for an address that does not sign,
/// and no signature is missing.
pub open spec fn signs_in_full(message: MessageView, held: Seq<Seq<u8>>) -> bool {
    let offers = held_offers(held, message.data);
    &&& !stray_offer(message, offers)
    &&& !slots(message, offers).contains(unsigned())
}

/// Calls `Transaction::new_signed_with_payer` of `solana_sdk`, and hands out the signatures of the
/// transaction. The message that is signed is the one that `Message::new_with_blockhash` makes of
/// the same instructions, payer and block hash, and each signature is that of the last key pair
/// for the address. The call panics where the instructions do not fit into a message, where a key
/// pair is for an address that does not sign, and where a signature is missing.
#[verifier::external_body]
fn signed_with_payer(
    instructions: &Vec<Instruction>,
    payer: &Pubkey,
    signers: &Vec<&Keypair>,
    blockhash: &Blockhash,
) -> (signatures: Vec<Signature>)
    requires
        fits(instruction_views(instructions@), payer@),
        signs_in_full(
            message_of(instruction_views(instructions@), payer@, blockhash@),
            keypair_bytes(signers@),
        ),
    ensures
        signature_bytes(signatures@) == slots(
            message_of(instruction_views(instructions@), payer@, blockhash@),
            held_offers(
                keypair_bytes(signers@),
                message_of(instruction_views(instructions@), payer@, blockhash@).data,
            ),
        ),
{
    let calls: Vec<_> = instructions.iter().map(|ix| SdkInstruction::new_with_bytes(
        ix.program_id.0.into(),
        &ix.data,
        ix.accounts.iter().map(|m| SdkAccountMeta {
            pubkey: m.pubkey.0.into(), is_signer: m.is_signer, is_writable: m.is_writable
        }).collect()
    )).collect();
    let pairs: Vec<_> = signers.iter()
        .map(|pair| SdkKeypair::from_bytes(&pair.to_bytes()).unwrap()).collect();
    SdkTransaction::new_signed_with_payer(
        &calls,
        Some(&payer.0.into()),
        &pairs.iter().collect::<Vec<_>>(),
        SdkHash::new_from_array(blockhash.0)
    ).signatures.into_iter().map(|made| Signature(made.into())).collect()
}

/// Why a signed transaction cannot be made.
#[derive(Clone, Copy, Debug, PartialEq, Eq, Structural)]
pub enum SignerError {
    /// The instructions do not fit into one message.
    MessageTooLarge,
    /// A key pair is for an address that does not sign.
    KeypairPubkeyMismatch,
    /// A signature is missing.
    NotEnoughSigners,
}

impl Transaction {
    /// Makes a transaction of instructions, signed by key pairs.
    pub fn new_signed_with_payer(
        instructions: &Vec<Instruction>,
        payer: &Pubkey,
        signers: &Vec<&Keypair>,
        blockhash: &Blockhash,
    ) -> (transaction: Transaction)
        requires
            fits(instruction_views(instructions@), payer@),
            signs_in_full(
                message_of(instruction_views(instructions@), payer@, blockhash@),
                keypair_bytes(signers@),
            ),
        ensures
            transaction.message@ == message_of(
                instruction_views(instructions@),
                payer@,
                blockhash@,
            ),
            lists(
                transaction.message@,
                message_uses(instruction_views(instructions@), payer@),
                payer@,
            ),
            signature_bytes(transaction.signatures@) == slots(
                transaction.message@,
                held_offers(keypair_bytes(signers@), transaction.message.data@),
            ),
    {
        let signatures = signed_with_payer(instructions, payer, signers, blockhash);
        let message = Message::new_with_blockhash(instructions, payer, blockhash);
        Transaction { signatures, message }
    }

    /// Makes a transaction of instructions, signed by key pairs, if they sign it in full.
    pub fn try_new_signed_with_payer(
        instructions: &Vec<Instruction>,
        payer: &Pubkey,
        signers: &Vec<&Keypair>,
        blockhash: &Blockhash,
    ) -> (made: Result<Transaction, SignerError>)
        ensures
            ({
                let views = instruction_views(instructions@);
                let message = message_of(views, payer@, blockhash@);
                let offers = held_offers(keypair_bytes(signers@), message.data);
                match made {
                    Ok(transaction) => {
                        &&& fits(views, payer@)
                        &&& signs_in_full(message, keypair_bytes(signers@))
                        &&& transaction.message@ == message
                        &&& lists(message, message_uses(views, payer@), payer@)
                        &&& signature_bytes(transaction.signatures@) == slots(message, offers)
                    },
                    Err(SignerError::MessageTooLarge) => !fits(views, payer@),
                    Err(SignerError::KeypairPubkeyMismatch) => fits(views, payer@) && stray_offer(
                        message,
                        offers,
                    ),
                    Err(SignerError::NotEnoughSigners) => fits(views, payer@) && !stray_offer(
                        message,
                        offers,
                    ) && slots(message, offers).contains(unsigned()),
                }
            }),
    {
        if !message_fits(instructions, payer) {
            return Err(SignerError::MessageTooLarge);
        }
        let message = Message::new_with_blockhash(instructions, payer, blockhash);
        let ghost offered = held_offers(keypair_bytes(signers@), message.data@);
        let mut offers: Vec<Offer> = Vec::new();
        let mut i: usize = 0;
        while i < signers.len()
            invariant
                i <= signers@.len(),
                offered == held_offers(keypair_bytes(signers@), message.data@),
                offer_bytes(offers@) == offered.take(i as int),
            decreases signers@.len() - i,
        {
            assert(keypair_bytes(signers@)[i as int] == signers@[i as int]@);
            let ghost before = offer_bytes(offers@);
            offers.push((signers[i].pubkey(), signers[i].sign_message(message.data.as_slice())));
            assert(offer_bytes(offers@) =~= before.push(offered[i as int]));
            assert(offer_bytes(offers@) =~= offered.take(i + 1));
            i = i + 1;
        }
        assert(offered.take(i as int) =~= offered);
        let placed = match place_signatures(message, &offers) {
            Ok(placed) => placed,
            Err(_) => {
                return Err(SignerError::KeypairPubkeyMismatch);
            },
        };
        assert(slots(message@, offered).len() == signature_bytes(placed.signatures@).len());
        let mut i: usize = 0;
        while i < placed.signatures.len()
            invariant
                i <= placed.signatures@.len(),
                placed.signatures@.len() == slots(message@, offered).len(),
                message@ == message_of(instruction_views(instructions@), payer@, blockhash@),
                offered == held_offers(keypair_bytes(signers@), message.data@),
                fits(instruction_views(instructions@), payer@),
                !stray_offer(message@, offered),
                signature_bytes(placed.signatures@) == slots(message@, offered),
                forall|j: int| 0 <= j < i ==> slots(message@, offered)[j] != unsigned(),
            decreases placed.signatures@.len() - i,
        {
            assert(signature_bytes(placed.signatures@)[i as int] == placed.signatures@[i as int]@);
            if placed.signatures[i] == Signature::default() {
                assert(slots(message@, offered)[i as int] == unsigned());
                return Err(SignerError::NotEnoughSigners);
            }
            i = i + 1;
        }
        Ok(Transaction::new_signed_with_payer(instructions, payer, signers, blockhash))
    }
}

/// The signature that counts for an address is the last one that is offered for it.
pub proof fn law_last_offer_counts(offers: Seq<(Seq<u8>, Seq<u8>)>, key: Seq<u8>)
    ensures
        last_for(offers, key) is None <==> forall|k: int|
            0 <= k < offers.len() ==> (#[trigger] offers[k]).0 != key,
        forall|i: int|
            0 <= i < offers.len() && (#[trigger] offers[i]).0 == key && (forall|k: int|
                i < k < offers.len() ==> (#[trigger] offers[k]).0 != key) ==> last_for(offers, key)
                == Some(offers[i].1),
    decreases offers.len(),
{
    if offers.len() > 0 {
        let shorter = offers.drop_last();
        law_last_offer_counts(shorter, key);
        assert(offers[offers.len() - 1] == offers.last());
        if offers.last().0 != key {
            assert forall|i: int|
                0 <= i < offers.len() && (#[trigger] offers[i]).0 == key && (forall|k: int|
                    i < k < offers.len() ==> (#[trigger] offers[k]).0 != key) implies last_for(
                offers,
                key,
            ) == Some(offers[i].1) by {
                assert(shorter[i] == offers[i]);
                assert forall|k: int| i < k < shorter.len() implies (#[trigger] shorter[k]).0
                    != key by {
                    assert(offers[k].0 != key);
                }
            }
            if last_for(offers, key) is None {
                assert forall|k: int| 0 <= k < offers.len() implies (#[trigger] offers[k]).0
                    != key by {
                    if k < shorter.len() {
                        assert(shorter[k].0 != key);
                    }
                }
            }
            if forall|k: int| 0 <= k < offers.len() ==> (#[trigger] offers[k]).0 != key {
                assert forall|k: int| 0 <= k < shorter.len() implies (#[trigger] shorter[k]).0
                    != key by {
                    assert(offers[k].0 != key);
                }
            }
        } else {
            assert(offers[offers.len() - 1].0 == key);
        }
    }
}

/// A transaction has one place for each address that has to sign. It holds the last signature that
/// is offered for the address, or 64 zeros if none is. An address that has signed at an earlier
/// place does not sign again.
pub proof fn law_signatures_are_in_their_places(
    message: MessageView,
    offers: Seq<(Seq<u8>, Seq<u8>)>,
    j: int,
)
    requires
        0 <= j < message.num_required_signatures <= message.account_keys.len(),
    ensures
        slots(message, offers).len() == message.num_required_signatures,
        (forall|k: int| 0 <= k < j ==> message.account_keys[k] != message.account_keys[j])
            ==> forall|i: int|
            0 <= i < offers.len() && (#[trigger] offers[i]).0 == message.account_keys[j] && (
            forall|k: int|
                i < k < offers.len() ==> (#[trigger] offers[k]).0 != message.account_keys[j])
                ==> slots(message, offers)[j] == offers[i].1,
        (exists|k: int| 0 <= k < j && message.account_keys[k] == message.account_keys[j]) || (
        forall|i: int| 0 <= i < offers.len() ==> (#[trigger] offers[i]).0 != message.account_keys[j])
            ==> slots(message, offers)[j] == Seq::new(64, |b: int| 0u8),
{
    let keys = signing_keys(message);
    law_last_offer_counts(offers, message.account_keys[j]);
    assert(forall|k: int| 0 <= k < keys.len() ==> #[trigger] keys[k] == message.account_keys[k]);
    if exists|k: int| 0 <= k < j && keys[k] == keys[j] {
        let k = choose|k: int| 0 <= k < j && keys[k] == keys[j];
        assert(message.account_keys[k] == message.account_keys[j]);
    }
    if exists|k: int| 0 <= k < j && message.account_keys[k] == message.account_keys[j] {
        let k = choose|k: int| 0 <= k < j && message.account_keys[k] == message.account_keys[j];
        assert(keys[k] == keys[j]);
    }
    assert(unsigned() =~= Seq::new(64, |b: int| 0u8));
}

/// A message is overdrawn exactly if it asks for more signatures than it has addresses. An offer is
/// stray exactly if it is for an address that does not have to sign.
pub proof fn law_what_is_refused(message: MessageView, offers: Seq<(Seq<u8>, Seq<u8>)>)
    ensures
        overdrawn(message) <==> message.num_required_signatures > message.account_keys.len(),
        message.num_required_signatures <= message.account_keys.len() ==> (stray_offer(
            message,
            offers,
        ) <==> exists|i: int|
            0 <= i < offers.len() && !message.account_keys.take(
                message.num_required_signatures as int,
            ).contains((#[trigger] offers[i]).0)),
{
}

/// Each key pair offers its own signature for the address in its last half, and the bytes of a list
/// of offers are those of each of them.
pub proof fn law_offers_hold_everything(
    held: Seq<Seq<u8>>,
    data: Seq<u8>,
    offers: Seq<Offer>,
    replies: Seq<(Seq<u8>, Seq<u8>)>,
    message: MessageView,
)
    ensures
        held_offers(held, data).len() == held.len(),
        forall|i: int|
            0 <= i < held.len() ==> #[trigger] held_offers(held, data)[i] == (
                held[i].subrange(32, 64),
                keypair_signature(held[i], data),
            ),
        offer_bytes(offers).len() == offers.len(),
        forall|i: int|
            0 <= i < offers.len() ==> #[trigger] offer_bytes(offers)[i] == (
                offers[i].0.0@,
                offers[i].1.0@,
            ),
        all_offers(message, held, replies).len() == held.len() + replies.len(),
        forall|i: int|
            0 <= i < held.len() ==> #[trigger] all_offers(message, held, replies)[i] == (
                held[i].subrange(32, 64),
                keypair_signature(held[i], message.data),
            ),
        forall|i: int|
            0 <= i < replies.len() ==> all_offers(message, held, replies)[held.len() + i]
                == #[trigger] replies[i],
{
}

/// The place of an address is the first one at which it stands.
pub proof fn law_first_place_is_the_place(keys: Seq<Seq<u8>>, key: Seq<u8>, place: Option<usize>)
    requires
        first_place(keys, key, place),
    ensures
        place is None <==> forall|j: int| 0 <= j < keys.len() ==> #[trigger] keys[j] != key,
        place matches Some(p) ==> p < keys.len() && keys[p as int] == key && forall|j: int|
            0 <= j < p ==> #[trigger] keys[j] != key,
{
}

/// Key pairs sign a message in full exactly if each of them is for an address that has to sign, and
/// there is one for each such address whose signature is not all zeros: of several, the last one.
pub proof fn law_who_signs_in_full(
    message: MessageView,
    front: Seq<Seq<u8>>,
    held: Seq<Seq<u8>>,
)
    requires
        message.num_required_signatures <= message.account_keys.len(),
        message.account_keys.no_duplicates(),
        front == message.account_keys.take(message.num_required_signatures as int),
    ensures
        signs_in_full(message, held) <==> {
            &&& forall|i: int|
                0 <= i < held.len() ==> front.contains((#[trigger] held[i]).subrange(32, 64))
            &&& forall|key: Seq<u8>| #[trigger]
                front.contains(key) ==> exists|i: int|
                    0 <= i < held.len() && signs_for(#[trigger] held[i], key) && (forall|k: int|
                        i < k < held.len() ==> !signs_for(#[trigger] held[k], key))
                        && keypair_signature(held[i], message.data) != unsigned()
        },
{
    if signs_in_full(message, held) {
        lemma_signs_in_full(message, front, held);
    }
    if (forall|i: int|
        0 <= i < held.len() ==> front.contains((#[trigger] held[i]).subrange(32, 64))) && (forall|
        key: Seq<u8>,
    | #[trigger]
        front.contains(key) ==> exists|i: int|
            0 <= i < held.len() && signs_for(#[trigger] held[i], key) && (forall|k: int|
                i < k < held.len() ==> !signs_for(#[trigger] held[k], key)) && keypair_signature(
                held[i],
                message.data,
            ) != unsigned()) {
        lemma_all_sign(message, front, held);
    }
}

/// What it takes to sign in full.
proof fn lemma_signs_in_full(message: MessageView, front: Seq<Seq<u8>>, held: Seq<Seq<u8>>)
    requires
        message.num_required_signatures <= message.account_keys.len(),
        message.account_keys.no_duplicates(),
        front == message.account_keys.take(message.num_required_signatures as int),
        signs_in_full(message, held),
    ensures
        forall|i: int|
            0 <= i < held.len() ==> front.contains((#[trigger] held[i]).subrange(32, 64)),
        forall|key: Seq<u8>| #[trigger]
            front.contains(key) ==> exists|i: int|
                0 <= i < held.len() && signs_for(#[trigger] held[i], key) && (forall|k: int|
                    i < k < held.len() ==> !signs_for(#[trigger] held[k], key)) && keypair_signature(
                    held[i],
                    message.data,
                ) != unsigned(),
{
    let offers = held_offers(held, message.data);
    let made = slots(message, offers);
    law_what_is_refused(message, offers);
    assert forall|i: int| 0 <= i < held.len() implies front.contains(
        (#[trigger] held[i]).subrange(32, 64),
    ) by {
        assert(front.contains(offers[i].0));
    }
    assert forall|key: Seq<u8>| #[trigger] front.contains(key) implies exists|i: int|
        0 <= i < held.len() && signs_for(#[trigger] held[i], key) && (forall|k: int|
            i < k < held.len() ==> !signs_for(#[trigger] held[k], key)) && keypair_signature(
            held[i],
            message.data,
        ) != unsigned() by {
        let j = choose|j: int| 0 <= j < front.len() && front[j] == key;
        assert(message.account_keys[j] == key);
        law_signatures_are_in_their_places(message, offers, j);
        law_last_offer_counts(offers, key);
        assert(unsigned() =~= Seq::new(64, |b: int| 0u8));
        assert(made[j] != unsigned()) by {
            if made[j] == unsigned() {
                assert(made.contains(unsigned()));
            }
        }
        let i = lemma_last_place(offers, key);
        assert(offers[i].0 == held[i].subrange(32, 64));
        assert forall|k: int| i < k < held.len() implies !signs_for(#[trigger] held[k], key) by {
            assert(offers[k].0 == held[k].subrange(32, 64));
        }
        assert(made[j] == offers[i].1);
        assert(signs_for(held[i], key));
    }
}

/// Where all sign, a message is signed in full.
proof fn lemma_all_sign(message: MessageView, front: Seq<Seq<u8>>, held: Seq<Seq<u8>>)
    requires
        message.num_required_signatures <= message.account_keys.len(),
        message.account_keys.no_duplicates(),
        front == message.account_keys.take(message.num_required_signatures as int),
        forall|i: int|
            0 <= i < held.len() ==> front.contains((#[trigger] held[i]).subrange(32, 64)),
        forall|key: Seq<u8>| #[trigger]
            front.contains(key) ==> exists|i: int|
                0 <= i < held.len() && signs_for(#[trigger] held[i], key) && (forall|k: int|
                    i < k < held.len() ==> !signs_for(#[trigger] held[k], key)) && keypair_signature(
                    held[i],
                    message.data,
                ) != unsigned(),
    ensures
        signs_in_full(message, held),
{
    let offers = held_offers(held, message.data);
    let made = slots(message, offers);
    law_what_is_refused(message, offers);
    if stray_offer(message, offers) {
        let i = choose|i: int| 0 <= i < offers.len() && !front.contains((#[trigger] offers[i]).0);
        assert(front.contains(held[i].subrange(32, 64)));
    }
    assert forall|j: int| 0 <= j < made.len() implies #[trigger] made[j] != unsigned() by {
        law_signatures_are_in_their_places(message, offers, j);
        let key = message.account_keys[j];
        assert(front[j] == key);
        assert(front.contains(key));
        let i = choose|i: int|
            0 <= i < held.len() && signs_for(#[trigger] held[i], key) && (forall|k: int|
                i < k < held.len() ==> !signs_for(#[trigger] held[k], key)) && keypair_signature(
                held[i],
                message.data,
            ) != unsigned();
        assert(offers[i].0 == key);
        assert forall|k: int| i < k < offers.len() implies (#[trigger] offers[k]).0 != key by {
            assert(!signs_for(held[k], key));
        }
        assert(made[j] == offers[i].1);
    }
    assert(!made.contains(unsigned()));
}

/// The place of the last offer for an address, if there is one.
proof fn lemma_last_place(offers: Seq<(Seq<u8>, Seq<u8>)>, key: Seq<u8>) -> (i: int)
    ensures
        last_for(offers, key) is Some ==> 0 <= i < offers.len() && offers[i].0 == key && last_for(
            offers,
            key,
        ) == Some(offers[i].1) && forall|k: int|
            i < k < offers.len() ==> (#[trigger] offers[k]).0 != key,
    decreases offers.len(),
{
    if offers.len() == 0 {
        0
    } else if offers.last().0 == key {
        offers.len() - 1
    } else {
        let shorter = offers.drop_last();
        let i = lemma_last_place(shorter, key);
        if last_for(offers, key) is Some {
            assert(shorter[i] == offers[i]);
            assert forall|k: int| i < k < offers.len() implies (#[trigger] offers[k]).0 != key by {
                if k < shorter.len() {
                    assert(shorter[k].0 != key);
                }
            }
        }
        i
    }
}

} // verus!
