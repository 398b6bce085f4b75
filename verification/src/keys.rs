//! Key pairs stored under names.

use vstd::prelude::*;
use hashbrown::HashMap;
use crate::account::Pubkey;
use crate::error::Error;
use crate::keypair::{Keypair, signs_for};

verus! {

/// The table behind `Keys`: a `hashbrown::HashMap` from names to key pairs.
#[verifier::external_body]
#[derive(Debug)]
pub struct KeyTable {
    map: HashMap<String, Keypair>,
}

/// What a table holds: the bytes of the key pair under each name.
pub uninterp spec fn table_entries(table: KeyTable) -> Map<Seq<char>, Seq<u8>>;

/// The contents of an empty table.
pub open spec fn no_entries() -> Map<Seq<char>, Seq<u8>> {
    Map::empty()
}

/// Calls `hashbrown::HashMap::new`: the map is empty.
#[verifier::external_body]
fn table_new() -> (table: KeyTable)
    ensures
        table_entries(table) == no_entries(),
{
    KeyTable { map: HashMap::new() }
}

/// Calls `hashbrown::HashMap::insert`: the name now stands for the key pair, whatever it stood for
/// before, and every other name is left alone.
#[verifier::external_body]
fn table_insert(table: &mut KeyTable, name: String, keypair: Keypair)
    ensures
        table_entries(*final(table)) == table_entries(*old(table)).insert(name@, keypair@),
{
    table.map.insert(name, keypair);
}

/// Calls `hashbrown::HashMap::get`: the key pair under the name, if there is one.
#[verifier::external_body]
fn table_get<'a>(table: &'a KeyTable, name: &str) -> (found: Option<&'a Keypair>)
    ensures
        found is Some <==> table_entries(*table).contains_key(name@),
        found is Some ==> found->0@ == table_entries(*table)[name@],
{
    table.map.get(name)
}

/// Calls `hashbrown::HashMap::remove`: the name stands for nothing any more, and the key pair that
/// it stood for is handed out. Every other name is left alone.
#[verifier::external_body]
fn table_remove(table: &mut KeyTable, name: &str) -> (removed: Option<Keypair>)
    ensures
        removed is Some <==> table_entries(*old(table)).contains_key(name@),
        removed is Some ==> removed->0@ == table_entries(*old(table))[name@],
        table_entries(*final(table)) == table_entries(*old(table)).remove(name@),
{
    table.map.remove(name)
}

/// Calls `hashbrown::HashMap::iter`: every key pair of the map once for each name that it stands
/// under, in an order that nothing is claimed of.
#[verifier::external_body]
fn table_values<'a>(table: &'a KeyTable) -> (values: Vec<&'a Keypair>)
    ensures
        is_walk(table_entries(*table), keypair_bytes(values@)),
{
    table.map.iter().map(|entry| entry.1).collect()
}

/// The bytes of each key pair of a list.
pub open spec fn keypair_bytes(keypairs: Seq<&Keypair>) -> Seq<Seq<u8>> {
    Seq::new(keypairs.len(), |i: int| keypairs[i]@)
}

/// Whether `values` are the values of `entries`, one for each name, in the order of `names`.
pub open spec fn walks(
    entries: Map<Seq<char>, Seq<u8>>,
    names: Seq<Seq<char>>,
    values: Seq<Seq<u8>>,
) -> bool {
    &&& names.no_duplicates()
    &&& names.len() == values.len()
    &&& forall|name: Seq<char>| #[trigger]
        entries.contains_key(name) <==> names.contains(name)
    &&& forall|i: int| 0 <= i < names.len() ==> #[trigger] values[i] == entries[names[i]]
}

/// Whether `values` are the values of `entries`, one for each name, in some order.
pub open spec fn is_walk(entries: Map<Seq<char>, Seq<u8>>, values: Seq<Seq<u8>>) -> bool {
    exists|names: Seq<Seq<char>>| walks(entries, names, values)
}

/// A walk holds exactly the values that are stored.
pub proof fn lemma_walk_values(entries: Map<Seq<char>, Seq<u8>>, values: Seq<Seq<u8>>)
    requires
        is_walk(entries, values),
    ensures
        forall|i: int|
            0 <= i < values.len() ==> entries.contains_value(#[trigger] values[i]),
        forall|name: Seq<char>| #[trigger]
            entries.contains_key(name) ==> values.contains(entries[name]),
{
    let names = choose|names: Seq<Seq<char>>| walks(entries, names, values);
    assert forall|i: int| 0 <= i < values.len() implies entries.contains_value(
        #[trigger] values[i],
    ) by {
        assert(names.contains(names[i]));
        assert(entries.contains_key(names[i]));
    }
    assert forall|name: Seq<char>| #[trigger] entries.contains_key(name) implies values.contains(
        entries[name],
    ) by {
        let i = choose|i: int| 0 <= i < names.len() && names[i] == name;
        assert(values[i] == entries[name]);
    }
}

impl View for KeyTable {
    type V = Map<Seq<char>, Seq<u8>>;

    open spec fn view(&self) -> Map<Seq<char>, Seq<u8>> {
        table_entries(*self)
    }
}

impl KeyTable {
    /// An empty table.
    pub fn new() -> (table: KeyTable)
        ensures
            table@ == no_entries(),
    {
        table_new()
    }

    /// Stores a key pair under a name.
    pub fn insert(&mut self, name: &str, keypair: Keypair)
        ensures
            final(self)@ == old(self)@.insert(name@, keypair@),
    {
        table_insert(self, name.to_owned(), keypair)
    }

    /// The key pair under a name.
    pub fn get(&self, name: &str) -> (found: Option<&Keypair>)
        ensures
            found is Some <==> self@.contains_key(name@),
            found is Some ==> found->0@ == self@[name@],
    {
        table_get(self, name)
    }

    /// Removes the key pair under a name.
    pub fn remove(&mut self, name: &str) -> (removed: Option<Keypair>)
        ensures
            removed is Some <==> old(self)@.contains_key(name@),
            removed is Some ==> removed->0@ == old(self)@[name@],
            final(self)@ == old(self)@.remove(name@),
    {
        table_remove(self, name)
    }

    /// Every key pair of the table, in no particular order.
    pub fn values(&self) -> (values: Vec<&Keypair>)
        ensures
            is_walk(self@, keypair_bytes(values@)),
    {
        table_values(self)
    }
}

/// Key pairs stored under names.
#[derive(Debug)]
pub struct Keys(KeyTable);

impl View for Keys {
    type V = Map<Seq<char>, Seq<u8>>;

    closed spec fn view(&self) -> Map<Seq<char>, Seq<u8>> {
        self.0@
    }
}

impl Keys {
    /// No key pairs.
    pub fn new() -> (keys: Keys)
        ensures
            keys@ == no_entries(),
    {
        Keys(KeyTable::new())
    }

    /// Stores a key pair under a name, in place of the one that was there.
    pub fn insert(&mut self, k: &str, v: Keypair)
        ensures
            final(self)@ == old(self)@.insert(k@, v@),
    {
        self.0.insert(k, v)
    }

    /// The key pair under a name.
    pub fn get(&self, k: &str) -> (found: Result<&Keypair, Error>)
        ensures
            match found {
                Ok(keypair) => self@.contains_key(k@) && keypair@ == self@[k@],
                Err(error) => !self@.contains_key(k@) && error == Error::MissingKey,
            },
    {
        match self.0.get(k) {
            Some(keypair) => Ok(keypair),
            None => Err(Error::MissingKey),
        }
    }

    /// The address of the key pair under a name.
    pub fn get_pubkey(&self, k: &str) -> (found: Result<Pubkey, Error>)
        ensures
            match found {
                Ok(address) => self@.contains_key(k@) && signs_for(self@[k@], address@),
                Err(error) => !self@.contains_key(k@) && error == Error::MissingKey,
            },
    {
        match self.get(k) {
            Ok(keypair) => Ok(keypair.pubkey()),
            Err(error) => Err(error),
        }
    }

    /// The table behind the names.
    pub fn inner(&self) -> (table: &KeyTable)
        ensures
            table@ == self@,
    {
        &self.0
    }

    /// The table behind the names, to be changed.
    pub fn inner_mut(&mut self) -> (table: &mut KeyTable)
        ensures
            table@ == old(self)@,
            final(self)@ == final(table)@,
    {
        &mut self.0
    }
}

impl Default for Keys {
    fn default() -> (keys: Self)
        ensures
            keys@ == no_entries(),
    {
        Keys::new()
    }
}

/// A name stands for the key pair that was last stored under it, until it is removed. Neither makes
/// a difference to any other name.
pub proof fn law_stored_keys_are_found(
    entries: Map<Seq<char>, Seq<u8>>,
    name: Seq<char>,
    keypair: Seq<u8>,
    other: Seq<char>,
)
    ensures
        entries.insert(name, keypair).contains_key(name),
        entries.insert(name, keypair)[name] == keypair,
        !entries.remove(name).contains_key(name),
        other != name ==> entries.remove(name).contains_key(other) == entries.contains_key(other),
        other != name && entries.contains_key(other) ==> entries.remove(name)[other]
            == entries[other],
        other != name ==> entries.insert(name, keypair).contains_key(other)
            == entries.contains_key(other),
        other != name && entries.contains_key(other) ==> entries.insert(name, keypair)[other]
            == entries[other],
{
}

/// A new table stands for nothing, and the bytes of a list of key pairs are those of each of them.
pub proof fn law_lists_hold_everything(name: Seq<char>, keypairs: Seq<&Keypair>)
    ensures
        !no_entries().contains_key(name),
        keypair_bytes(keypairs).len() == keypairs.len(),
        forall|i: int|
            0 <= i < keypairs.len() ==> #[trigger] keypair_bytes(keypairs)[i] == keypairs[i]@,
{
}

/// A walk comes to one value for each name, and to no others.
pub proof fn law_walks_come_to_everything(
    entries: Map<Seq<char>, Seq<u8>>,
    values: Seq<Seq<u8>>,
    value: Seq<u8>,
)
    requires
        is_walk(entries, values),
    ensures
        values.contains(value) <==> exists|name: Seq<char>| #[trigger]
            entries.contains_key(name) && entries[name] == value,
{
    lemma_walk_values(entries, values);
    if values.contains(value) {
        let i = choose|i: int| 0 <= i < values.len() && values[i] == value;
        assert(entries.contains_value(values[i]));
        let name = choose|name: Seq<char>| entries.contains_key(name) && entries[name] == value;
        assert(entries.contains_key(name));
    }
}

} // verus!
