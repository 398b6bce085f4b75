//! Instructions, and the messages that they are compiled into.

use vstd::prelude::*;
use crate::account::{Blockhash, Pubkey, key_bytes};
use solana_sdk::hash::Hash as SdkHash;
use solana_sdk::instruction::{AccountMeta as SdkAccountMeta, Instruction as SdkInstruction};
use solana_sdk::message::Message as SdkMessage;

verus! {

/// An account that an instruction uses, and how.
#[derive(Clone, Copy, Debug)]
pub struct AccountMeta {
    /// The address of the account.
    pub pubkey: Pubkey,
    /// Whether the account has to sign.
    pub is_signer: bool,
    /// Whether the instruction may change the account.
    pub is_writable: bool,
}

/// A call of a program.
#[derive(Clone, Debug)]
pub struct Instruction {
    /// The program.
    pub program_id: Pubkey,
    /// The accounts that are handed to it.
    pub accounts: Vec<AccountMeta>,
    /// The bytes that are handed to it.
    pub data: Vec<u8>,
}

/// Instructions compiled for signing.
#[derive(Clone, Debug)]
pub struct Message {
    /// How many of the addresses, counted from the front, have to sign.
    pub num_required_signatures: u8,
    /// Every address that the message uses.
    pub account_keys: Vec<Pubkey>,
    /// The wire form of the message, which is what gets signed.
    pub data: Vec<u8>,
}

/// An account that an instruction uses, as a mathematical value.
pub struct AccountMetaView {
    pub pubkey: Seq<u8>,
    pub is_signer: bool,
    pub is_writable: bool,
}

/// A call of a program, as a mathematical value.
pub struct InstructionView {
    pub program_id: Seq<u8>,
    pub accounts: Seq<AccountMetaView>,
    pub data: Seq<u8>,
}

/// A message, as a mathematical value.
#[verifier::ext_equal]
pub struct MessageView {
    pub num_required_signatures: u8,
    pub account_keys: Seq<Seq<u8>>,
    pub data: Seq<u8>,
}

impl View for AccountMeta {
    type V = AccountMetaView;

    open spec fn view(&self) -> AccountMetaView {
        AccountMetaView {
            pubkey: self.pubkey@,
            is_signer: self.is_signer,
            is_writable: self.is_writable,
        }
    }
}

/// The uses of a list of accounts.
pub open spec fn meta_views(metas: Seq<AccountMeta>) -> Seq<AccountMetaView> {
    Seq::new(metas.len(), |i: int| metas[i]@)
}

impl View for Instruction {
    type V = InstructionView;

    open spec fn view(&self) -> InstructionView {
        InstructionView {
            program_id: self.program_id@,
            accounts: meta_views(self.accounts@),
            data: self.data@,
        }
    }
}

/// The calls of a list of instructions.
pub open spec fn instruction_views(instructions: Seq<Instruction>) -> Seq<InstructionView> {
    Seq::new(instructions.len(), |i: int| instructions[i]@)
}

impl View for Message {
    type V = MessageView;

    open spec fn view(&self) -> MessageView {
        MessageView {
            num_required_signatures: self.num_required_signatures,
            account_keys: key_bytes(self.account_keys@),
            data: self.data@,
        }
    }
}

/// Every use of an address that the instructions make, in order.
pub open spec fn uses_of(instructions: Seq<InstructionView>) -> Seq<AccountMetaView>
    decreases instructions.len(),
{
    if instructions.len() == 0 {
        Seq::empty()
    } else {
        let last = instructions.last();
        uses_of(instructions.drop_last()).push(
            AccountMetaView { pubkey: last.program_id, is_signer: false, is_writable: false },
        ) + last.accounts
    }
}

/// Every use of an address that a message makes: those of its instructions, and the payer, who
/// signs and is charged.
pub open spec fn message_uses(instructions: Seq<InstructionView>, payer: Seq<u8>) -> Seq<
    AccountMetaView,
> {
    uses_of(instructions).push(
        AccountMetaView { pubkey: payer, is_signer: true, is_writable: true },
    )
}

/// Whether some use of an address satisfies a condition.
pub open spec fn used_as(
    uses: Seq<AccountMetaView>,
    key: Seq<u8>,
    condition: spec_fn(AccountMetaView) -> bool,
) -> bool {
    exists|i: int| 0 <= i < uses.len() && #[trigger] uses[i].pubkey == key && condition(uses[i])
}

/// A group of the addresses that a message uses.
#[derive(Clone, Copy, PartialEq, Eq, Structural)]
pub enum Role {
    /// All of them.
    Any,
    /// Those that sign.
    Signer,
    /// Those that neither sign nor may be changed.
    Readonly,
}

impl Role {
    /// Whether an address belongs to the group.
    pub open spec fn holds(self, uses: Seq<AccountMetaView>, key: Seq<u8>) -> bool {
        match self {
            Role::Any => used_as(uses, key, |m: AccountMetaView| true),
            Role::Signer => used_as(uses, key, |m: AccountMetaView| m.is_signer),
            Role::Readonly => {
                &&& used_as(uses, key, |m: AccountMetaView| true)
                &&& !used_as(uses, key, |m: AccountMetaView| m.is_signer || m.is_writable)
            },
        }
    }

    /// The addresses of the group.
    pub open spec fn keys(self, uses: Seq<AccountMetaView>) -> Set<Seq<u8>> {
        Set::new(|key: Seq<u8>| self.holds(uses, key))
    }
}

/// Whether the instructions fit into one message: the number of signers and the number of
/// read-only addresses that do not sign are stored in one byte each, every length in two.
pub open spec fn fits(instructions: Seq<InstructionView>, payer: Seq<u8>) -> bool {
    let uses = message_uses(instructions, payer);
    &&& Role::Signer.keys(uses).len() <= 255
    &&& Role::Readonly.keys(uses).len() <= 255
    &&& Role::Any.keys(uses).len() <= 65535
    &&& instructions.len() <= 65535
    &&& forall|i: int|
        0 <= i < instructions.len() ==> (#[trigger] instructions[i]).accounts.len() <= 65535
            && instructions[i].data.len() <= 65535
}

/// The message that `solana_sdk`'s `Message::new_with_blockhash` compiles.
pub uninterp spec fn message_of(
    instructions: Seq<InstructionView>,
    payer: Seq<u8>,
    blockhash: Seq<u8>,
) -> MessageView;

/// How a compiled message lists the addresses that it uses: each of them once, the payer first,
/// and those that sign before those that do not.
pub open spec fn lists(message: MessageView, uses: Seq<AccountMetaView>, payer: Seq<u8>) -> bool {
    let keys = message.account_keys;
    let signing = message.num_required_signatures as int;
    &&& keys.no_duplicates()
    &&& 0 < signing <= keys.len()
    &&& keys[0] == payer
    &&& forall|key: Seq<u8>| #[trigger] keys.contains(key) <==> Role::Any.holds(uses, key)
    &&& forall|key: Seq<u8>| #[trigger]
        keys.take(signing).contains(key) <==> Role::Signer.holds(uses, key)
}

/// Calls `Message::new_with_blockhash` of `solana_sdk`, and `serialize` on its result for the wire
/// form. What comes out is a function of the instructions, the payer and the block hash. It lists
/// each address once, the payer first and the signers in front. The first of the two calls panics
/// where the number of signers, or of read-only addresses that do not sign, exceeds a byte, the
/// second where a length exceeds two bytes: `fits` leaves those inputs out.
#[verifier::external_body]
fn new_with_blockhash(
    instructions: &Vec<Instruction>,
    payer: &Pubkey,
    blockhash: &Blockhash,
) -> (message: Message)
    requires
        fits(instruction_views(instructions@), payer@),
    ensures
        message@ == message_of(instruction_views(instructions@), payer@, blockhash@),
        lists(message@, message_uses(instruction_views(instructions@), payer@), payer@),
{
    let calls: Vec<_> = instructions.iter().map(|ix| SdkInstruction::new_with_bytes(
        ix.program_id.0.into(),
        &ix.data,
        ix.accounts.iter().map(|m| SdkAccountMeta {
            pubkey: m.pubkey.0.into(), is_signer: m.is_signer, is_writable: m.is_writable
        }).collect(),
    )).collect();
    let hash = SdkHash::new_from_array(blockhash.0);
    let made = SdkMessage::new_with_blockhash(&calls, Some(&payer.0.into()), &hash);
    Message {
        num_required_signatures: made.header.num_required_signatures,
        account_keys: made.account_keys.iter().map(|key| Pubkey(key.to_bytes())).collect(),
        data: made.serialize(),
    }
}

/// Every use of an address that a message makes.
fn collect_uses(instructions: &Vec<Instruction>, payer: &Pubkey) -> (uses: Vec<AccountMeta>)
    ensures
        meta_views(uses@) == message_uses(instruction_views(instructions@), payer@),
{
    let mut uses: Vec<AccountMeta> = Vec::new();
    let ghost views = instruction_views(instructions@);
    let mut i: usize = 0;
    assert(meta_views(uses@) =~= uses_of(views.take(0)));
    while i < instructions.len()
        invariant
            i <= instructions@.len(),
            views == instruction_views(instructions@),
            meta_views(uses@) == uses_of(views.take(i as int)),
        decreases instructions@.len() - i,
    {
        let ghost before = meta_views(uses@);
        let instruction = &instructions[i];
        uses.push(
            AccountMeta { pubkey: instruction.program_id, is_signer: false, is_writable: false },
        );
        let ghost program = AccountMetaView {
            pubkey: instruction.program_id@,
            is_signer: false,
            is_writable: false,
        };
        assert(meta_views(uses@) =~= before.push(program) + instruction@.accounts.take(0));
        let mut k: usize = 0;
        while k < instruction.accounts.len()
            invariant
                k <= instruction.accounts@.len(),
                meta_views(uses@) == before.push(program) + instruction@.accounts.take(k as int),
            decreases instruction.accounts@.len() - k,
        {
            let ghost so_far = meta_views(uses@);
            uses.push(instruction.accounts[k]);
            assert(meta_views(uses@) =~= so_far.push(instruction@.accounts[k as int]));
            assert(instruction@.accounts.take(k + 1) =~= instruction@.accounts.take(
                k as int,
            ).push(instruction@.accounts[k as int]));
            assert(meta_views(uses@) =~= before.push(program) + instruction@.accounts.take(k + 1));
            k = k + 1;
        }
        assert(instruction@.accounts.take(k as int) =~= instruction@.accounts);
        assert(views.take(i + 1).drop_last() =~= views.take(i as int));
        assert(views.take(i + 1).last() == instruction@);
        i = i + 1;
    }
    assert(views.take(i as int) =~= views);
    let ghost before = meta_views(uses@);
    uses.push(AccountMeta { pubkey: *payer, is_signer: true, is_writable: true });
    assert(meta_views(uses@) =~= message_uses(views, payer@));
    uses
}

/// Whether some use of an address is a signature (`signer`) or a signature or a change
/// (otherwise).
fn used_strongly(uses: &Vec<AccountMeta>, key: &Pubkey, signer: bool) -> (found: bool)
    ensures
        signer ==> found == used_as(meta_views(uses@), key@, |m: AccountMetaView| m.is_signer),
        !signer ==> found == used_as(
            meta_views(uses@),
            key@,
            |m: AccountMetaView| m.is_signer || m.is_writable,
        ),
{
    let ghost views = meta_views(uses@);
    let mut i: usize = 0;
    while i < uses.len()
        invariant
            i <= uses@.len(),
            views == meta_views(uses@),
            forall|j: int|
                0 <= j < i && #[trigger] views[j].pubkey == key@ ==> !views[j].is_signer && (signer
                    || !views[j].is_writable),
        decreases uses@.len() - i,
    {
        assert(views[i as int] == uses[i as int]@);
        if uses[i].pubkey == *key && (uses[i].is_signer || (!signer && uses[i].is_writable)) {
            assert(views[i as int].pubkey == key@);
            return true;
        }
        i = i + 1;
    }
    false
}

/// The addresses that are used, each of them once.
fn distinct_keys(uses: &Vec<AccountMeta>) -> (keys: Vec<Pubkey>)
    ensures
        key_bytes(keys@).no_duplicates(),
        forall|key: Seq<u8>| #[trigger]
            key_bytes(keys@).contains(key) <==> Role::Any.holds(meta_views(uses@), key),
{
    let ghost views = meta_views(uses@);
    let mut keys: Vec<Pubkey> = Vec::new();
    let mut i: usize = 0;
    while i < uses.len()
        invariant
            i <= uses@.len(),
            views == meta_views(uses@),
            key_bytes(keys@).no_duplicates(),
            forall|key: Seq<u8>| #[trigger]
                key_bytes(keys@).contains(key) <==> Role::Any.holds(views.take(i as int), key),
        decreases uses@.len() - i,
    {
        let key = uses[i].pubkey;
        let ghost before = key_bytes(keys@);
        let ghost prefix = views.take(i as int);
        let ghost longer = views.take(i + 1);
        assert(longer[i as int].pubkey == key@);
        let known = contains_key(&keys, &key);
        if !known {
            keys.push(key);
            assert(key_bytes(keys@) =~= before.push(key@));
        }
        assert forall|k: Seq<u8>| #[trigger]
            key_bytes(keys@).contains(k) <==> Role::Any.holds(longer, k) by {
            if Role::Any.holds(longer, k) {
                let j = choose|j: int| 0 <= j < longer.len() && #[trigger] longer[j].pubkey == k;
                if j < i {
                    assert(prefix[j].pubkey == k);
                }
            }
            if Role::Any.holds(prefix, k) {
                let j = choose|j: int| 0 <= j < prefix.len() && #[trigger] prefix[j].pubkey == k;
                assert(longer[j].pubkey == k);
            }
            assert(before.contains(k) <==> Role::Any.holds(prefix, k));
            if !known {
                assert(key_bytes(keys@)[before.len() as int] == key@);
                if before.contains(k) {
                    let j = choose|j: int| 0 <= j < before.len() && before[j] == k;
                    assert(key_bytes(keys@)[j] == k);
                }
            }
        }
        i = i + 1;
    }
    assert(views.take(i as int) =~= views);
    keys
}

/// How many of the addresses, each of them listed once, belong to a group.
fn count_keys(uses: &Vec<AccountMeta>, keys: &Vec<Pubkey>, role: Role) -> (count: usize)
    requires
        key_bytes(keys@).no_duplicates(),
        forall|key: Seq<u8>| #[trigger]
            key_bytes(keys@).contains(key) <==> Role::Any.holds(meta_views(uses@), key),
    ensures
        count == role.keys(meta_views(uses@)).len(),
{
    let ghost views = meta_views(uses@);
    let ghost all = key_bytes(keys@);
    let ghost mut members: Seq<Seq<u8>> = Seq::empty();
    let mut count: usize = 0;
    let mut i: usize = 0;
    while i < keys.len()
        invariant
            i <= keys@.len(),
            count <= i,
            count == members.len(),
            views == meta_views(uses@),
            all == key_bytes(keys@),
            all.no_duplicates(),
            forall|key: Seq<u8>| #[trigger]
                all.contains(key) <==> Role::Any.holds(views, key),
            members.no_duplicates(),
            forall|key: Seq<u8>| #[trigger]
                members.contains(key) <==> role.holds(views, key) && all.take(i as int).contains(
                    key,
                ),
        decreases keys@.len() - i,
    {
        let member = match role {
            Role::Any => true,
            Role::Signer => used_strongly(uses, &keys[i], true),
            Role::Readonly => !used_strongly(uses, &keys[i], false),
        };
        let ghost key = all[i as int];
        assert(member == role.holds(views, key)) by {
            assert(all.contains(key));
        }
        let ghost before = members;
        if member {
            count = count + 1;
            proof {
                members = before.push(key);
                assert(!all.take(i as int).contains(key));
                assert(!before.contains(key));
            }
        }
        assert forall|k: Seq<u8>| #[trigger] members.contains(k) <==> role.holds(views, k)
            && all.take(i + 1).contains(k) by {
            let prefix = all.take(i as int);
            let longer = all.take(i + 1);
            assert(longer =~= prefix.push(key));
            assert(before.contains(k) <==> role.holds(views, k) && prefix.contains(k));
            if prefix.contains(k) {
                let j = choose|j: int| 0 <= j < prefix.len() && prefix[j] == k;
                assert(longer[j] == k);
            }
            assert(longer[i as int] == key);
            if member {
                assert(members[before.len() as int] == key);
                if before.contains(k) {
                    let j = choose|j: int| 0 <= j < before.len() && before[j] == k;
                    assert(members[j] == k);
                }
            }
        }
        i = i + 1;
    }
    proof {
        assert(all.take(i as int) =~= all);
        members.unique_seq_to_set();
        assert forall|k: Seq<u8>| role.holds(views, k) implies Role::Any.holds(views, k) by {
            if role == Role::Signer {
                let j = choose|j: int|
                    0 <= j < views.len() && #[trigger] views[j].pubkey == k && views[j].is_signer;
                assert(views[j].pubkey == k);
            }
        }
        assert(members.to_set() =~= role.keys(views)) by {
            assert forall|k: Seq<u8>| members.to_set().contains(k) <==> role.keys(views).contains(
                k,
            ) by {
                assert(members.contains(k) <==> role.holds(views, k) && all.contains(k));
            }
        }
    }
    count
}

/// The addresses that have to sign a message.
pub open spec fn signing_keys(message: MessageView) -> Seq<Seq<u8>> {
    if message.num_required_signatures <= message.account_keys.len() {
        message.account_keys.take(message.num_required_signatures as int)
    } else {
        message.account_keys
    }
}

impl Message {
    /// Compiles instructions into a message.
    pub fn new_with_blockhash(
        instructions: &Vec<Instruction>,
        payer: &Pubkey,
        blockhash: &Blockhash,
    ) -> (message: Message)
        requires
            fits(instruction_views(instructions@), payer@),
        ensures
            message@ == message_of(instruction_views(instructions@), payer@, blockhash@),
            lists(message@, message_uses(instruction_views(instructions@), payer@), payer@),
    {
        new_with_blockhash(instructions, payer, blockhash)
    }

    /// The addresses that have to sign: as many as the message asks for, from the front.
    pub fn signer_keys(&self) -> (keys: Vec<Pubkey>)
        ensures
            key_bytes(keys@) == signing_keys(self@),
    {
        let mut keys: Vec<Pubkey> = Vec::new();
        let mut i: usize = 0;
        while i < self.num_required_signatures as usize && i < self.account_keys.len()
            invariant
                i <= self.num_required_signatures,
                i <= self.account_keys@.len(),
                keys@ == self.account_keys@.take(i as int),
            decreases self.account_keys@.len() - i,
        {
            keys.push(self.account_keys[i]);
            assert(keys@ =~= self.account_keys@.take(i + 1));
            i = i + 1;
        }
        assert(key_bytes(keys@) =~= signing_keys(self@));
        keys
    }
}

/// Whether an address occurs in a list.
pub fn contains_key(keys: &Vec<Pubkey>, key: &Pubkey) -> (found: bool)
    ensures
        found == key_bytes(keys@).contains(key@),
{
    let mut i: usize = 0;
    while i < keys.len()
        invariant
            i <= keys@.len(),
            forall|j: int| 0 <= j < i ==> key_bytes(keys@)[j] != key@,
        decreases keys@.len() - i,
    {
        if keys[i] == *key {
            assert(key_bytes(keys@)[i as int] == key@);
            return true;
        }
        i = i + 1;
    }
    false
}

/// Whether `asked` are the places of the addresses that have to sign a message, in order.
pub open spec fn places_to_ask(
    message: MessageView,
    keys: Seq<Seq<u8>>,
    asked: Seq<usize>,
) -> bool {
    &&& forall|a: int, b: int|
        #![trigger asked[a], asked[b]]
        0 <= a < b < asked.len() ==> asked[a] < asked[b]
    &&& forall|a: int|
        0 <= a < asked.len() ==> (#[trigger] asked[a]) < keys.len() && signing_keys(
            message,
        ).contains(keys[asked[a] as int])
    &&& forall|i: int|
        0 <= i < keys.len() && signing_keys(message).contains(#[trigger] keys[i])
            ==> asked.contains(i as usize)
}

/// Which of the signers with the given addresses are to be asked to sign a message: the places of
/// those whose address has to sign, in order.
pub fn signers_to_ask(message: &Message, keys: &Vec<Pubkey>) -> (asked: Vec<usize>)
    ensures
        places_to_ask(message@, key_bytes(keys@), asked@),
{
    let signing = message.signer_keys();
    let ghost all = key_bytes(keys@);
    let mut asked: Vec<usize> = Vec::new();
    let mut i: usize = 0;
    while i < keys.len()
        invariant
            i <= keys@.len(),
            all == key_bytes(keys@),
            key_bytes(signing@) == signing_keys(message@),
            forall|a: int| 0 <= a < asked@.len() ==> (#[trigger] asked@[a]) < i,
            places_to_ask(message@, all.take(i as int), asked@),
        decreases keys@.len() - i,
    {
        let ghost before = asked@;
        let ghost prefix = all.take(i as int);
        let ghost longer = all.take(i + 1);
        assert(longer[i as int] == keys@[i as int]@);
        if contains_key(&signing, &keys[i]) {
            asked.push(i);
            assert(asked@[before.len() as int] == i);
        }
        assert forall|k: int|
            0 <= k < longer.len() && signing_keys(message@).contains(
                #[trigger] longer[k],
            ) implies asked@.contains(k as usize) by {
            if k < i {
                assert(prefix[k] == longer[k]);
                let a = choose|a: int| 0 <= a < before.len() && before[a] == k as usize;
                assert(asked@[a] == k as usize);
            }
        }
        assert forall|a: int| 0 <= a < asked@.len() implies (#[trigger] asked@[a]) < longer.len()
            && signing_keys(message@).contains(longer[asked@[a] as int]) by {
            if a < before.len() {
                assert(asked@[a] == before[a]);
                assert(prefix[before[a] as int] == longer[before[a] as int]);
            }
        }
        i = i + 1;
    }
    assert(all.take(i as int) =~= all);
    asked
}

/// Whether the instructions fit into one message.
pub fn message_fits(instructions: &Vec<Instruction>, payer: &Pubkey) -> (yes: bool)
    ensures
        yes == fits(instruction_views(instructions@), payer@),
{
    let uses = collect_uses(instructions, payer);
    let keys = distinct_keys(&uses);
    if count_keys(&uses, &keys, Role::Signer) > 255 || count_keys(&uses, &keys, Role::Readonly)
        > 255 || count_keys(&uses, &keys, Role::Any) > 65535 || instructions.len() > 65535 {
        return false;
    }
    let ghost views = instruction_views(instructions@);
    let mut i: usize = 0;
    while i < instructions.len()
        invariant
            i <= instructions@.len(),
            views == instruction_views(instructions@),
            forall|j: int|
                0 <= j < i ==> (#[trigger] views[j]).accounts.len() <= 65535 && views[j].data.len()
                    <= 65535,
        decreases instructions@.len() - i,
    {
        assert(views[i as int] == instructions[i as int]@);
        if instructions[i].accounts.len() > 65535 || instructions[i].data.len() > 65535 {
            return false;
        }
        i = i + 1;
    }
    true
}

/// Every use that instructions make is that of a program or of an account.
proof fn lemma_use_is_made(instructions: Seq<InstructionView>, n: int)
    requires
        0 <= n < uses_of(instructions).len(),
    ensures
        ({
            let used = uses_of(instructions)[n];
            ||| exists|i: int|
                0 <= i < instructions.len() && used == (AccountMetaView {
                    pubkey: (#[trigger] instructions[i]).program_id,
                    is_signer: false,
                    is_writable: false,
                })
            ||| exists|i: int, k: int|
                0 <= i < instructions.len() && 0 <= k < instructions[i].accounts.len() && used
                    == #[trigger] instructions[i].accounts[k]
        }),
    decreases instructions.len(),
{
    if instructions.len() > 0 {
        let shorter = instructions.drop_last();
        let last = instructions[instructions.len() - 1];
        let before = uses_of(shorter);
        let used = uses_of(instructions)[n];
        if n < before.len() {
            lemma_use_is_made(shorter, n);
            if exists|i: int|
                0 <= i < shorter.len() && used == (AccountMetaView {
                    pubkey: (#[trigger] shorter[i]).program_id,
                    is_signer: false,
                    is_writable: false,
                }) {
                let i = choose|i: int|
                    0 <= i < shorter.len() && used == (AccountMetaView {
                        pubkey: (#[trigger] shorter[i]).program_id,
                        is_signer: false,
                        is_writable: false,
                    });
                assert(instructions[i] == shorter[i]);
            } else {
                let (i, k) = choose|i: int, k: int|
                    0 <= i < shorter.len() && 0 <= k < shorter[i].accounts.len() && used
                        == #[trigger] shorter[i].accounts[k];
                assert(used == instructions[i].accounts[k]);
            }
        } else if n == before.len() {
            assert(used.pubkey == last.program_id);
        } else {
            assert(used == instructions[instructions.len() - 1].accounts[n - before.len() - 1]);
        }
    }
}

/// Every program and every account of the instructions is used.
proof fn lemma_use_is_listed(instructions: Seq<InstructionView>, i: int)
    requires
        0 <= i < instructions.len(),
    ensures
        uses_of(instructions).contains(
            AccountMetaView {
                pubkey: instructions[i].program_id,
                is_signer: false,
                is_writable: false,
            },
        ),
        forall|k: int|
            0 <= k < instructions[i].accounts.len() ==> uses_of(instructions).contains(
                #[trigger] instructions[i].accounts[k],
            ),
    decreases instructions.len(),
{
    let shorter = instructions.drop_last();
    let last = instructions.last();
    let before = uses_of(shorter);
    let all = uses_of(instructions);
    if i < shorter.len() {
        lemma_use_is_listed(shorter, i);
        assert(shorter[i] == instructions[i]);
        assert forall|used: AccountMetaView| before.contains(used) implies #[trigger] all.contains(
            used,
        ) by {
            let n = choose|n: int| 0 <= n < before.len() && before[n] == used;
            assert(all[n] == used);
        }
        assert forall|k: int| 0 <= k < instructions[i].accounts.len() implies all.contains(
            #[trigger] instructions[i].accounts[k],
        ) by {
            assert(before.contains(shorter[i].accounts[k]));
        }
    } else {
        assert(all[before.len() as int].pubkey == last.program_id);
        assert(all.contains(all[before.len() as int]));
        assert forall|k: int| 0 <= k < instructions[i].accounts.len() implies all.contains(
            #[trigger] instructions[i].accounts[k],
        ) by {
            assert(all[before.len() + 1 + k] == instructions[i].accounts[k]);
        }
    }
}

/// Who uses an address, and how, in terms of the instructions.
proof fn lemma_uses(instructions: Seq<InstructionView>, payer: Seq<u8>, key: Seq<u8>)
    ensures
        ({
            let uses = message_uses(instructions, payer);
            &&& used_as(uses, key, |m: AccountMetaView| true) <==> {
                ||| key == payer
                ||| exists|i: int|
                    0 <= i < instructions.len() && (#[trigger] instructions[i]).program_id == key
                ||| exists|i: int, k: int|
                    0 <= i < instructions.len() && 0 <= k < instructions[i].accounts.len() && (
                    #[trigger] instructions[i].accounts[k]).pubkey == key
            }
            &&& used_as(uses, key, |m: AccountMetaView| m.is_signer) <==> {
                ||| key == payer
                ||| exists|i: int, k: int|
                    0 <= i < instructions.len() && 0 <= k < instructions[i].accounts.len() && (
                    #[trigger] instructions[i].accounts[k]).pubkey == key
                        && instructions[i].accounts[k].is_signer
            }
            &&& used_as(uses, key, |m: AccountMetaView| m.is_signer || m.is_writable) <==> {
                ||| key == payer
                ||| exists|i: int, k: int|
                    0 <= i < instructions.len() && 0 <= k < instructions[i].accounts.len() && (
                    #[trigger] instructions[i].accounts[k]).pubkey == key && (
                    instructions[i].accounts[k].is_signer
                        || instructions[i].accounts[k].is_writable)
            }
        }),
{
    let made = uses_of(instructions);
    let uses = message_uses(instructions, payer);
    assert(uses[made.len() as int].pubkey == payer);
    assert forall|n: int| 0 <= n < uses.len() implies ({
        let used = #[trigger] uses[n];
        ||| used == (AccountMetaView { pubkey: payer, is_signer: true, is_writable: true })
        ||| exists|i: int|
            0 <= i < instructions.len() && used == (AccountMetaView {
                pubkey: (#[trigger] instructions[i]).program_id,
                is_signer: false,
                is_writable: false,
            })
        ||| exists|i: int, k: int|
            0 <= i < instructions.len() && 0 <= k < instructions[i].accounts.len() && used
                == #[trigger] instructions[i].accounts[k]
    }) by {
        if n < made.len() {
            lemma_use_is_made(instructions, n);
            assert(uses[n] == made[n]);
        }
    }
    assert forall|i: int|
        0 <= i < instructions.len() && (#[trigger] instructions[i]).program_id
            == key implies used_as(uses, key, |m: AccountMetaView| true) by {
        lemma_use_is_listed(instructions, i);
        let used = AccountMetaView { pubkey: key, is_signer: false, is_writable: false };
        let n = choose|n: int| 0 <= n < made.len() && made[n] == used;
        assert(uses[n].pubkey == key);
    }
    assert forall|i: int, k: int|
        0 <= i < instructions.len() && 0 <= k < instructions[i].accounts.len() && (
        #[trigger] instructions[i].accounts[k]).pubkey == key implies exists|n: int|
        0 <= n < uses.len() && #[trigger] uses[n] == instructions[i].accounts[k] by {
        lemma_use_is_listed(instructions, i);
        assert(made.contains(instructions[i].accounts[k]));
        let n = choose|n: int| 0 <= n < made.len() && made[n] == instructions[i].accounts[k];
        assert(uses[n] == instructions[i].accounts[k]);
    }
    if exists|i: int, k: int|
        0 <= i < instructions.len() && 0 <= k < instructions[i].accounts.len() && (
        #[trigger] instructions[i].accounts[k]).pubkey == key {
        let (i, k) = choose|i: int, k: int|
            0 <= i < instructions.len() && 0 <= k < instructions[i].accounts.len() && (
            #[trigger] instructions[i].accounts[k]).pubkey == key;
        let n = choose|n: int|
            0 <= n < uses.len() && #[trigger] uses[n] == instructions[i].accounts[k];
        assert(uses[n].pubkey == key);
    }
    if exists|i: int, k: int|
        0 <= i < instructions.len() && 0 <= k < instructions[i].accounts.len() && (
        #[trigger] instructions[i].accounts[k]).pubkey == key
            && instructions[i].accounts[k].is_signer {
        let (i, k) = choose|i: int, k: int|
            0 <= i < instructions.len() && 0 <= k < instructions[i].accounts.len() && (
            #[trigger] instructions[i].accounts[k]).pubkey == key
                && instructions[i].accounts[k].is_signer;
        let n = choose|n: int|
            0 <= n < uses.len() && #[trigger] uses[n] == instructions[i].accounts[k];
        assert(uses[n].pubkey == key);
    }
    if exists|i: int, k: int|
        0 <= i < instructions.len() && 0 <= k < instructions[i].accounts.len() && (
        #[trigger] instructions[i].accounts[k]).pubkey == key && (
        instructions[i].accounts[k].is_signer || instructions[i].accounts[k].is_writable) {
        let (i, k) = choose|i: int, k: int|
            0 <= i < instructions.len() && 0 <= k < instructions[i].accounts.len() && (
            #[trigger] instructions[i].accounts[k]).pubkey == key && (
            instructions[i].accounts[k].is_signer || instructions[i].accounts[k].is_writable);
        let n = choose|n: int|
            0 <= n < uses.len() && #[trigger] uses[n] == instructions[i].accounts[k];
        assert(uses[n].pubkey == key);
    }
}

/// Instructions fit into a message exactly if no more than 255 addresses sign, the payer among
/// them, no more than 255 are neither signed for nor changed, no more than 65535 are used in all,
/// and there are no more than 65535 instructions, none of them with more accounts or bytes than
/// that.
pub proof fn law_what_fits(
    instructions: Seq<InstructionView>,
    payer: Seq<u8>,
    used: Set<Seq<u8>>,
    signing: Set<Seq<u8>>,
    changed: Set<Seq<u8>>,
)
    requires
        forall|key: Seq<u8>| #[trigger]
            used.contains(key) <==> {
                ||| key == payer
                ||| exists|i: int|
                    0 <= i < instructions.len() && (#[trigger] instructions[i]).program_id == key
                ||| exists|i: int, k: int|
                    0 <= i < instructions.len() && 0 <= k < instructions[i].accounts.len() && (
                    #[trigger] instructions[i].accounts[k]).pubkey == key
            },
        forall|key: Seq<u8>| #[trigger]
            signing.contains(key) <==> {
                ||| key == payer
                ||| exists|i: int, k: int|
                    0 <= i < instructions.len() && 0 <= k < instructions[i].accounts.len() && (
                    #[trigger] instructions[i].accounts[k]).pubkey == key
                        && instructions[i].accounts[k].is_signer
            },
        forall|key: Seq<u8>| #[trigger]
            changed.contains(key) <==> {
                ||| key == payer
                ||| exists|i: int, k: int|
                    0 <= i < instructions.len() && 0 <= k < instructions[i].accounts.len() && (
                    #[trigger] instructions[i].accounts[k]).pubkey == key && (
                    instructions[i].accounts[k].is_signer
                        || instructions[i].accounts[k].is_writable)
            },
    ensures
        fits(instructions, payer) <==> {
            &&& signing.len() <= 255
            &&& used.difference(changed).len() <= 255
            &&& used.len() <= 65535
            &&& instructions.len() <= 65535
            &&& forall|i: int|
                0 <= i < instructions.len() ==> (#[trigger] instructions[i]).accounts.len()
                    <= 65535 && instructions[i].data.len() <= 65535
        },
{
    let uses = message_uses(instructions, payer);
    assert(Role::Any.keys(uses) =~= used) by {
        assert forall|key: Seq<u8>|
            #![trigger used.contains(key)]
            Role::Any.keys(uses).contains(key) == used.contains(key) by {
            lemma_uses(instructions, payer, key);
        }
    }
    assert(Role::Signer.keys(uses) =~= signing) by {
        assert forall|key: Seq<u8>|
            #![trigger signing.contains(key)]
            Role::Signer.keys(uses).contains(key) == signing.contains(key) by {
            lemma_uses(instructions, payer, key);
        }
    }
    assert(Role::Readonly.keys(uses) =~= used.difference(changed)) by {
        assert forall|key: Seq<u8>|
            #![trigger used.contains(key)]
            Role::Readonly.keys(uses).contains(key) == (used.contains(key) && !changed.contains(
                key,
            )) by {
            lemma_uses(instructions, payer, key);
        }
    }
}

/// Instructions that use no more than 255 addresses in all, the payer among them, fit into a
/// message, as long as their number and their sizes do.
pub proof fn law_small_messages_fit(
    instructions: Seq<InstructionView>,
    payer: Seq<u8>,
    known: Seq<Seq<u8>>,
)
    requires
        known.len() <= 255,
        known.contains(payer),
        instructions.len() <= 65535,
        forall|i: int|
            0 <= i < instructions.len() ==> known.contains((#[trigger] instructions[i]).program_id)
                && instructions[i].accounts.len() <= 65535 && instructions[i].data.len() <= 65535,
        forall|i: int, k: int|
            0 <= i < instructions.len() && 0 <= k < instructions[i].accounts.len()
                ==> known.contains((#[trigger] instructions[i].accounts[k]).pubkey),
    ensures
        fits(instructions, payer),
{
    let uses = message_uses(instructions, payer);
    known.lemma_cardinality_of_set();
    vstd::seq_lib::seq_to_set_is_finite(known);
    assert forall|key: Seq<u8>| used_as(uses, key, |m: AccountMetaView| true) implies #[trigger]
    known.to_set().contains(key) by {
        lemma_uses(instructions, payer, key);
    }
    assert forall|role: Role| #[trigger] role.keys(uses).subset_of(known.to_set()) by {
        assert forall|key: Seq<u8>| role.keys(uses).contains(key) implies #[trigger]
        known.to_set().contains(key) by {
            lemma_uses(instructions, payer, key);
            if role == Role::Signer {
                let n = choose|n: int|
                    0 <= n < uses.len() && #[trigger] uses[n].pubkey == key && uses[n].is_signer;
                assert(uses[n].pubkey == key);
            }
        }
    }
    assert(Role::Any.keys(uses).subset_of(known.to_set()));
    assert(Role::Signer.keys(uses).subset_of(known.to_set()));
    assert(Role::Readonly.keys(uses).subset_of(known.to_set()));
    vstd::set_lib::lemma_len_subset(Role::Any.keys(uses), known.to_set());
    vstd::set_lib::lemma_len_subset(Role::Signer.keys(uses), known.to_set());
    vstd::set_lib::lemma_len_subset(Role::Readonly.keys(uses), known.to_set());
}

/// Instructions that use addresses no more than 255 times in all fit into a message, as long as
/// their number and their sizes do.
pub proof fn law_few_uses_fit(instructions: Seq<InstructionView>, payer: Seq<u8>)
    requires
        message_uses(instructions, payer).len() <= 255,
        instructions.len() <= 65535,
        forall|i: int|
            0 <= i < instructions.len() ==> (#[trigger] instructions[i]).accounts.len() <= 65535
                && instructions[i].data.len() <= 65535,
    ensures
        fits(instructions, payer),
{
    let uses = message_uses(instructions, payer);
    let known = Seq::new(uses.len(), |n: int| uses[n].pubkey);
    assert forall|key: Seq<u8>| used_as(uses, key, |m: AccountMetaView| true) implies #[trigger]
    known.contains(key) by {
        let n = choose|n: int| 0 <= n < uses.len() && #[trigger] uses[n].pubkey == key;
        assert(known[n] == key);
    }
    lemma_uses(instructions, payer, payer);
    assert forall|i: int| 0 <= i < instructions.len() implies known.contains(
        (#[trigger] instructions[i]).program_id,
    ) by {
        lemma_uses(instructions, payer, instructions[i].program_id);
    }
    assert forall|i: int, k: int|
        0 <= i < instructions.len() && 0 <= k < instructions[i].accounts.len() implies known.contains(
        (#[trigger] instructions[i].accounts[k]).pubkey,
    ) by {
        lemma_uses(instructions, payer, instructions[i].accounts[k].pubkey);
    }
    law_small_messages_fit(instructions, payer, known);
}

/// A compiled message lists the payer first, then whoever else has to sign, and every address that
/// the instructions use, each once. Who has to sign is the payer, and every account that some
/// instruction asks to sign.
pub proof fn law_what_messages_list(
    message: MessageView,
    instructions: Seq<InstructionView>,
    payer: Seq<u8>,
    key: Seq<u8>,
)
    requires
        lists(message, message_uses(instructions, payer), payer),
    ensures
        message.account_keys.no_duplicates(),
        1 <= message.num_required_signatures <= message.account_keys.len(),
        message.account_keys[0] == payer,
        message.account_keys.contains(key) <==> {
            ||| key == payer
            ||| exists|i: int|
                0 <= i < instructions.len() && (#[trigger] instructions[i]).program_id == key
            ||| exists|i: int, k: int|
                0 <= i < instructions.len() && 0 <= k < instructions[i].accounts.len() && (
                #[trigger] instructions[i].accounts[k]).pubkey == key
        },
        (exists|j: int|
            0 <= j < message.num_required_signatures && #[trigger] message.account_keys[j] == key)
            <==> {
            ||| key == payer
            ||| exists|i: int, k: int|
                0 <= i < instructions.len() && 0 <= k < instructions[i].accounts.len() && (
                #[trigger] instructions[i].accounts[k]).pubkey == key
                    && instructions[i].accounts[k].is_signer
        },
{
    lemma_uses(instructions, payer, key);
    let front = message.account_keys.take(message.num_required_signatures as int);
    assert(front.contains(key) <==> Role::Signer.holds(message_uses(instructions, payer), key));
    if front.contains(key) {
        let j = choose|j: int| 0 <= j < front.len() && front[j] == key;
        assert(message.account_keys[j] == key);
    }
    if exists|j: int|
        0 <= j < message.num_required_signatures && #[trigger] message.account_keys[j] == key {
        let j = choose|j: int|
            0 <= j < message.num_required_signatures && #[trigger] message.account_keys[j] == key;
        assert(front[j] == key);
    }
}

/// The addresses that have to sign are the first ones, as many as the message asks for, or all if
/// it asks for more than it has.
pub proof fn law_signers_are_in_front(message: MessageView, j: int)
    ensures
        message.num_required_signatures <= message.account_keys.len() ==> signing_keys(
            message,
        ).len() == message.num_required_signatures,
        message.num_required_signatures > message.account_keys.len() ==> signing_keys(
            message,
        ).len() == message.account_keys.len(),
        0 <= j < signing_keys(message).len() ==> signing_keys(message)[j]
            == message.account_keys[j],
{
}

/// Whoever is asked to sign has to, everyone who has to is asked, and nobody twice.
pub proof fn law_signers_are_asked_once(
    message: MessageView,
    keys: Seq<Seq<u8>>,
    asked: Seq<usize>,
    i: usize,
)
    requires
        places_to_ask(message, keys, asked),
        message.num_required_signatures <= message.account_keys.len(),
        i < keys.len(),
    ensures
        asked.contains(i) <==> exists|j: int|
            0 <= j < message.num_required_signatures && #[trigger] message.account_keys[j]
                == keys[i as int],
        forall|a: int, b: int|
            #![trigger asked[a], asked[b]]
            0 <= a < b < asked.len() ==> asked[a] < asked[b],
        forall|a: int| 0 <= a < asked.len() ==> (#[trigger] asked[a]) < keys.len(),
{
    let signing = signing_keys(message);
    if asked.contains(i) {
        let a = choose|a: int| 0 <= a < asked.len() && asked[a] == i;
        assert(asked[a] == i);
        assert(signing.contains(keys[i as int]));
        let j = choose|j: int| 0 <= j < signing.len() && signing[j] == keys[i as int];
        assert(message.account_keys[j] == keys[i as int]);
    }
    if exists|j: int|
        0 <= j < message.num_required_signatures && #[trigger] message.account_keys[j]
            == keys[i as int] {
        let j = choose|j: int|
            0 <= j < message.num_required_signatures && #[trigger] message.account_keys[j]
                == keys[i as int];
        assert(signing[j] == keys[i as int]);
        assert(signing.contains(keys[i as int]));
        assert(asked.contains((i as int) as usize));
    }
}

/// The values of instructions and messages are those that they hold.
pub proof fn law_views_hold_everything(
    instructions: Seq<Instruction>,
    message: Message,
    i: int,
    k: int,
    j: int,
)
    requires
        0 <= i < instructions.len(),
        0 <= k < instructions[i].accounts@.len(),
        0 <= j < message.account_keys@.len(),
    ensures
        instruction_views(instructions).len() == instructions.len(),
        instruction_views(instructions)[i].program_id == instructions[i].program_id.0@,
        instruction_views(instructions)[i].data == instructions[i].data@,
        instruction_views(instructions)[i].accounts.len() == instructions[i].accounts@.len(),
        instruction_views(instructions)[i].accounts[k].pubkey
            == instructions[i].accounts@[k].pubkey.0@,
        instruction_views(instructions)[i].accounts[k].is_signer
            == instructions[i].accounts@[k].is_signer,
        instruction_views(instructions)[i].accounts[k].is_writable
            == instructions[i].accounts@[k].is_writable,
        message@.num_required_signatures == message.num_required_signatures,
        message@.account_keys.len() == message.account_keys@.len(),
        message@.account_keys[j] == message.account_keys@[j].0@,
        message@.data == message.data@,
{
}

} // verus!
