//! Addresses, hashes, signatures and accounts as plain values.

use vstd::prelude::*;
use vstd::std_specs::cmp::PartialEqSpec;

verus! {

/// The address of an account.
#[derive(Clone, Copy, Debug)]
pub struct Pubkey(pub [u8; 32]);

/// The hash of a recent block.
#[derive(Clone, Copy, Debug)]
pub struct Blockhash(pub [u8; 32]);

/// An ed25519 signature.
#[derive(Clone, Copy, Debug)]
pub struct Signature(pub [u8; 64]);

impl View for Pubkey {
    type V = Seq<u8>;

    open spec fn view(&self) -> Seq<u8> {
        self.0@
    }
}

impl View for Blockhash {
    type V = Seq<u8>;

    open spec fn view(&self) -> Seq<u8> {
        self.0@
    }
}

impl View for Signature {
    type V = Seq<u8>;

    open spec fn view(&self) -> Seq<u8> {
        self.0@
    }
}

/// The bytes of each address of a list.
pub open spec fn key_bytes(keys: Seq<Pubkey>) -> Seq<Seq<u8>> {
    Seq::new(keys.len(), |i: int| keys[i]@)
}

/// The bytes of each signature of a list.
pub open spec fn signature_bytes(signatures: Seq<Signature>) -> Seq<Seq<u8>> {
    Seq::new(signatures.len(), |i: int| signatures[i]@)
}

/// The bytes of the signature that stands for "not signed yet".
pub open spec fn unsigned() -> Seq<u8> {
    Seq::new(64, |i: int| 0u8)
}

/// Whether two byte strings agree.
fn same_bytes(a: &[u8], b: &[u8]) -> (same: bool)
    ensures
        same == (a@ == b@),
{
    if a.len() != b.len() {
        return false;
    }
    let mut i: usize = 0;
    while i < a.len()
        invariant
            i <= a@.len(),
            a@.len() == b@.len(),
            forall|j: int| 0 <= j < i ==> a@[j] == b@[j],
        decreases a@.len() - i,
    {
        if a[i] != b[i] {
            return false;
        }
        i = i + 1;
    }
    assert(a@ =~= b@);
    true
}

impl PartialEq for Pubkey {
    fn eq(&self, other: &Self) -> (same: bool) {
        same_bytes(self.0.as_slice(), other.0.as_slice())
    }
}

impl vstd::std_specs::cmp::PartialEqSpecImpl for Pubkey {
    open spec fn obeys_eq_spec() -> bool {
        true
    }

    open spec fn eq_spec(&self, other: &Self) -> bool {
        self@ == other@
    }
}

impl Eq for Pubkey {

}

impl PartialEq for Blockhash {
    fn eq(&self, other: &Self) -> (same: bool) {
        same_bytes(self.0.as_slice(), other.0.as_slice())
    }
}

impl vstd::std_specs::cmp::PartialEqSpecImpl for Blockhash {
    open spec fn obeys_eq_spec() -> bool {
        true
    }

    open spec fn eq_spec(&self, other: &Self) -> bool {
        self@ == other@
    }
}

impl Eq for Blockhash {

}

impl PartialEq for Signature {
    fn eq(&self, other: &Self) -> (same: bool) {
        same_bytes(self.0.as_slice(), other.0.as_slice())
    }
}

impl vstd::std_specs::cmp::PartialEqSpecImpl for Signature {
    open spec fn obeys_eq_spec() -> bool {
        true
    }

    open spec fn eq_spec(&self, other: &Self) -> bool {
        self@ == other@
    }
}

impl Eq for Signature {

}

impl Default for Signature {
    /// The signature that stands for "not signed yet".
    fn default() -> (signature: Self)
        ensures
            signature@ == unsigned(),
    {
        let signature = Signature([0; 64]);
        assert(signature@ =~= unsigned());
        signature
    }
}

/// An account as the ledger stores it.
#[derive(Clone, Debug)]
pub struct Account {
    /// The balance.
    pub lamports: u64,
    /// The stored bytes.
    pub data: Vec<u8>,
    /// The program that owns the account.
    pub owner: Pubkey,
    /// Whether the data is a program.
    pub executable: bool,
    /// The epoch at which the account next owes rent.
    pub rent_epoch: u64,
}

/// Addresses, hashes and signatures are equal exactly if all of their bytes are.
pub proof fn law_equality_is_of_all_bytes(
    a: Pubkey,
    b: Pubkey,
    c: Blockhash,
    d: Blockhash,
    e: Signature,
    f: Signature,
)
    ensures
        a.eq_spec(&b) <==> forall|i: int| 0 <= i < 32 ==> #[trigger] a.0[i] == b.0[i],
        c.eq_spec(&d) <==> forall|i: int| 0 <= i < 32 ==> #[trigger] c.0[i] == d.0[i],
        e.eq_spec(&f) <==> forall|i: int| 0 <= i < 64 ==> #[trigger] e.0[i] == f.0[i],
{
    if forall|i: int| 0 <= i < 32 ==> #[trigger] a.0[i] == b.0[i] {
        assert(a@ =~= b@);
    }
    if forall|i: int| 0 <= i < 32 ==> #[trigger] c.0[i] == d.0[i] {
        assert(c@ =~= d@);
    }
    if forall|i: int| 0 <= i < 64 ==> #[trigger] e.0[i] == f.0[i] {
        assert(e@ =~= f@);
    }
    if a@ == b@ {
        assert forall|i: int| 0 <= i < 32 implies #[trigger] a.0[i] == b.0[i] by {
            assert(a@[i] == b@[i]);
        }
    }
    if c@ == d@ {
        assert forall|i: int| 0 <= i < 32 implies #[trigger] c.0[i] == d.0[i] by {
            assert(c@[i] == d@[i]);
        }
    }
    if e@ == f@ {
        assert forall|i: int| 0 <= i < 64 implies #[trigger] e.0[i] == f.0[i] by {
            assert(e@[i] == f@[i]);
        }
    }
}

/// The bytes of lists of addresses and signatures are those of each entry, and the signature that
/// stands for "not signed yet" is 64 zeros.
pub proof fn law_lists_hold_everything(
    keys: Seq<Pubkey>,
    signatures: Seq<Signature>,
    hash: Blockhash,
)
    ensures
        key_bytes(keys).len() == keys.len(),
        forall|i: int| 0 <= i < keys.len() ==> #[trigger] key_bytes(keys)[i] == keys[i].0@,
        signature_bytes(signatures).len() == signatures.len(),
        forall|i: int|
            0 <= i < signatures.len() ==> #[trigger] signature_bytes(signatures)[i]
                == signatures[i].0@,
        hash@ == hash.0@,
        unsigned().len() == 64,
        forall|i: int| 0 <= i < 64 ==> #[trigger] unsigned()[i] == 0,
{
}

} // verus!
