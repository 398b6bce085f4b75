//! The native programs of each test runtime.

use vstd::prelude::*;
use crate::account::{Pubkey, key_bytes};
use crate::message::contains_key;

verus! {

/// Programs by address. An entry point is a value of type `E`.
pub struct ProgramTable<E> {
    entries: Vec<(Pubkey, E)>,
}

/// What a list of programs comes to: of several entries for an address, the last one counts.
pub open spec fn by_address<E>(programs: Seq<(Pubkey, E)>) -> Map<Seq<u8>, E>
    decreases programs.len(),
{
    if programs.len() == 0 {
        Map::empty()
    } else {
        by_address(programs.drop_last()).insert(programs.last().0@, programs.last().1)
    }
}

impl<E> View for ProgramTable<E> {
    type V = Map<Seq<u8>, E>;

    closed spec fn view(&self) -> Map<Seq<u8>, E> {
        by_address(self.entries@)
    }
}

impl<E: Copy> ProgramTable<E> {
    /// The table of a list of programs.
    pub fn from_programs(programs: Vec<(Pubkey, E)>) -> (table: ProgramTable<E>)
        ensures
            table@ == by_address(programs@),
    {
        ProgramTable { entries: programs }
    }

    /// The entry point of a program.
    pub fn get(&self, program_id: &Pubkey) -> (found: Option<E>)
        ensures
            match found {
                Some(entrypoint) => self@.contains_key(program_id@) && self@[program_id@]
                    == entrypoint,
                None => !self@.contains_key(program_id@),
            },
    {
        let mut i: usize = self.entries.len();
        assert(self.entries@.take(i as int) =~= self.entries@);
        while i > 0
            invariant
                i <= self.entries@.len(),
                self@.contains_key(program_id@) <==> by_address(
                    self.entries@.take(i as int),
                ).contains_key(program_id@),
                self@.contains_key(program_id@) ==> self@[program_id@] == by_address(
                    self.entries@.take(i as int),
                )[program_id@],
            decreases i,
        {
            i = i - 1;
            assert(self.entries@.take(i + 1).drop_last() =~= self.entries@.take(i as int));
            assert(self.entries@.take(i + 1).last() == self.entries@[i as int]);
            if self.entries[i].0 == *program_id {
                return Some(self.entries[i].1);
            }
        }
        None
    }

    /// Another table with the same programs.
    pub fn duplicate(&self) -> (table: ProgramTable<E>)
        ensures
            table@ == self@,
    {
        let mut entries: Vec<(Pubkey, E)> = Vec::new();
        let mut i: usize = 0;
        while i < self.entries.len()
            invariant
                i <= self.entries@.len(),
                entries@ == self.entries@.take(i as int),
            decreases self.entries@.len() - i,
        {
            entries.push((self.entries[i].0, self.entries[i].1));
            assert(entries@ =~= self.entries@.take(i + 1));
            i = i + 1;
        }
        assert(self.entries@.take(i as int) =~= self.entries@);
        ProgramTable { entries }
    }
}

/// The features that are active in a bank.
pub struct FeatureSet {
    active: Vec<Pubkey>,
}

impl View for FeatureSet {
    type V = Set<Seq<u8>>;

    closed spec fn view(&self) -> Set<Seq<u8>> {
        key_bytes(self.active@).to_set()
    }
}

impl FeatureSet {
    /// The set of the listed features.
    pub fn new(active: Vec<Pubkey>) -> (features: FeatureSet)
        ensures
            features@ == key_bytes(active@).to_set(),
    {
        FeatureSet { active }
    }

    /// Whether a feature is active.
    pub fn is_active(&self, feature_id: &Pubkey) -> (active: bool)
        ensures
            active == self@.contains(feature_id@),
    {
        contains_key(&self.active, feature_id)
    }

    /// Makes a feature active.
    pub fn activate(&mut self, feature_id: &Pubkey)
        ensures
            final(self)@ == old(self)@.insert(feature_id@),
    {
        let ghost before = key_bytes(self.active@);
        self.active.push(*feature_id);
        proof {
            let after = key_bytes(self.active@);
            assert(after =~= before.push(feature_id@));
            assert(after.to_set() =~= before.to_set().insert(feature_id@)) by {
                assert forall|key: Seq<u8>| after.contains(key) <==> before.contains(key) || key
                    == feature_id@ by {
                    if before.contains(key) {
                        let i = choose|i: int| 0 <= i < before.len() && before[i] == key;
                        assert(after[i] == key);
                    }
                    assert(after[before.len() as int] == feature_id@);
                }
            }
        }
    }
}

/// The programs of each bank. A bank is recognized by a feature of its own.
pub struct GlobalProgramMap<E> {
    banks: Vec<(Pubkey, ProgramTable<E>)>,
}

impl<E> View for GlobalProgramMap<E> {
    type V = Seq<(Seq<u8>, Map<Seq<u8>, E>)>;

    closed spec fn view(&self) -> Seq<(Seq<u8>, Map<Seq<u8>, E>)> {
        Seq::new(self.banks@.len(), |i: int| (self.banks@[i].0@, self.banks@[i].1@))
    }
}

/// Whether a feature stands for a bank.
pub open spec fn stands_for_bank<E>(
    banks: Seq<(Seq<u8>, Map<Seq<u8>, E>)>,
    id: Seq<u8>,
) -> bool {
    exists|i: int| 0 <= i < banks.len() && (#[trigger] banks[i]).0 == id
}

/// The programs of the first bank whose feature is active.
pub open spec fn first_active<E>(
    banks: Seq<(Seq<u8>, Map<Seq<u8>, E>)>,
    active: Set<Seq<u8>>,
) -> Option<Map<Seq<u8>, E>>
    decreases banks.len(),
{
    if banks.len() == 0 {
        None
    } else {
        match first_active(banks.drop_last(), active) {
            Some(programs) => Some(programs),
            None => if active.contains(banks.last().0) {
                Some(banks.last().1)
            } else {
                None
            },
        }
    }
}

/// Calls `solana_sdk::pubkey::Pubkey::new_unique`, which counts up a number that the whole process
/// shares. Nothing is claimed of the address, since it depends on how often that was done before.
#[verifier::external_body]
fn new_unique() -> (id: Pubkey) {
    Pubkey(solana_sdk::pubkey::Pubkey::new_unique().to_bytes())
}

impl<E: Copy> GlobalProgramMap<E> {
    /// No banks.
    pub fn new() -> (map: GlobalProgramMap<E>)
        ensures
            map@.len() == 0,
    {
        GlobalProgramMap { banks: Vec::new() }
    }

    /// Whether a feature stands for a bank.
    pub fn has_bank(&self, id: &Pubkey) -> (found: bool)
        ensures
            found == stands_for_bank(self@, id@),
    {
        let mut i: usize = 0;
        while i < self.banks.len()
            invariant
                i <= self.banks@.len(),
                forall|j: int| 0 <= j < i ==> (#[trigger] self@[j]).0 != id@,
            decreases self.banks@.len() - i,
        {
            assert(self@[i as int].0 == self.banks@[i as int].0@);
            if self.banks[i].0 == *id {
                return true;
            }
            i = i + 1;
        }
        false
    }

    /// Adds the programs of a bank that is recognized by the given feature, and makes the feature
    /// active.
    pub fn insert_as(&mut self, id: Pubkey, feature: &mut FeatureSet, map: ProgramTable<E>)
        requires
            !stands_for_bank(old(self)@, id@),
        ensures
            final(self)@ == old(self)@.push((id@, map@)),
            final(feature)@ == old(feature)@.insert(id@),
    {
        let ghost before = self@;
        self.banks.push((id, map));
        assert(self@ =~= before.push((id@, map@)));
        feature.activate(&id);
    }

    /// Adds the programs of a bank that is to be recognized by the given feature, and makes the
    /// feature active, unless it stands for another bank already. Whether it did is returned.
    pub fn insert_drawn(
        &mut self,
        id: Pubkey,
        feature: &mut FeatureSet,
        map: ProgramTable<E>,
    ) -> (inserted: bool)
        ensures
            inserted == !stands_for_bank(old(self)@, id@),
            inserted ==> final(self)@ == old(self)@.push((id@, map@)) && final(feature)@ == old(
                feature,
            )@.insert(id@),
            !inserted ==> final(self)@ == old(self)@ && final(feature)@ == old(feature)@,
    {
        if self.has_bank(&id) {
            false
        } else {
            self.insert_as(id, feature, map);
            true
        }
    }

    /// Draws a feature, adds the programs of a bank under it, and makes it active. Nothing happens
    /// if the feature turns out to stand for another bank already. Either way it is returned. Which
    /// feature is drawn depends on what else the process has drawn, and is left open.
    pub fn insert(&mut self, feature: &mut FeatureSet, map: ProgramTable<E>) -> (id: Result<
        Pubkey,
        Pubkey,
    >)
        ensures
            match id {
                Ok(id) => {
                    &&& !stands_for_bank(old(self)@, id@)
                    &&& final(self)@ == old(self)@.push((id@, map@))
                    &&& final(feature)@ == old(feature)@.insert(id@)
                },
                Err(id) => {
                    &&& stands_for_bank(old(self)@, id@)
                    &&& final(self)@ == old(self)@
                    &&& final(feature)@ == old(feature)@
                },
            },
    {
        let id = new_unique();
        if self.insert_drawn(id, feature, map) {
            Ok(id)
        } else {
            Err(id)
        }
    }

    /// The programs of the first bank whose feature is active.
    pub fn get_programs(&self, feature: &FeatureSet) -> (programs: Option<ProgramTable<E>>)
        ensures
            match programs {
                Some(table) => first_active(self@, feature@) == Some(table@),
                None => first_active(self@, feature@) is None,
            },
    {
        let mut i: usize = 0;
        while i < self.banks.len()
            invariant
                i <= self.banks@.len(),
                first_active(self@.take(i as int), feature@) is None,
            decreases self.banks@.len() - i,
        {
            assert(self@.take(i + 1).drop_last() =~= self@.take(i as int));
            assert(self@.take(i + 1).last() == (
                self.banks@[i as int].0@,
                self.banks@[i as int].1@,
            ));
            if feature.is_active(&self.banks[i].0) {
                proof {
                    lemma_first_active_prefix(self@, feature@, i + 1);
                }
                return Some(self.banks[i].1.duplicate());
            }
            i = i + 1;
        }
        assert(self@.take(i as int) =~= self@);
        None
    }
}

/// A bank that was found is still the first one when others follow it.
proof fn lemma_first_active_prefix<E>(
    banks: Seq<(Seq<u8>, Map<Seq<u8>, E>)>,
    active: Set<Seq<u8>>,
    n: int,
)
    requires
        0 <= n <= banks.len(),
        first_active(banks.take(n), active) is Some,
    ensures
        first_active(banks, active) == first_active(banks.take(n), active),
    decreases banks.len(),
{
    if n == banks.len() {
        assert(banks.take(n) =~= banks);
    } else {
        let shorter = banks.drop_last();
        assert(shorter.take(n) =~= banks.take(n));
        lemma_first_active_prefix(shorter, active, n);
    }
}

/// A bank finds its own programs: where none of the banks before it has an active feature, its
/// features lead to what was added for it.
pub proof fn law_bank_finds_its_programs<E>(
    banks: Seq<(Seq<u8>, Map<Seq<u8>, E>)>,
    active: Set<Seq<u8>>,
    id: Seq<u8>,
    programs: Map<Seq<u8>, E>,
)
    requires
        !stands_for_bank(banks, id),
        forall|i: int| 0 <= i < banks.len() ==> !active.contains((#[trigger] banks[i]).0),
    ensures
        first_active(banks.push((id, programs)), active.insert(id)) == Some(programs),
{
    assert(banks.push((id, programs)).drop_last() =~= banks);
    lemma_none_active(banks, active.insert(id));
}

/// Where no bank has an active feature, none is found.
proof fn lemma_none_active<E>(
    banks: Seq<(Seq<u8>, Map<Seq<u8>, E>)>,
    active: Set<Seq<u8>>,
)
    requires
        forall|i: int| 0 <= i < banks.len() ==> !active.contains((#[trigger] banks[i]).0),
    ensures
        first_active(banks, active) is None,
    decreases banks.len(),
{
    if banks.len() > 0 {
        let shorter = banks.drop_last();
        assert forall|i: int| 0 <= i < shorter.len() implies !active.contains(
            (#[trigger] shorter[i]).0,
        ) by {
            assert(!active.contains(banks[i].0));
        }
        lemma_none_active(shorter, active);
        assert(!active.contains(banks[banks.len() - 1].0));
    }
}

/// Adding a bank makes no difference to the banks before it: features that found programs find the
/// same ones, and features without the new one find nothing new.
pub proof fn law_other_banks_unaffected<E>(
    banks: Seq<(Seq<u8>, Map<Seq<u8>, E>)>,
    active: Set<Seq<u8>>,
    id: Seq<u8>,
    programs: Map<Seq<u8>, E>,
)
    ensures
        first_active(banks, active) is Some || !active.contains(id) ==> first_active(
            banks.push((id, programs)),
            active,
        ) == first_active(banks, active),
{
    assert(banks.push((id, programs)).drop_last() =~= banks);
}

/// Whether each bank has a feature of its own.
pub open spec fn distinct_banks<E>(banks: Seq<(Seq<u8>, Map<Seq<u8>, E>)>) -> bool {
    forall|i: int, j: int|
        #![trigger banks[i], banks[j]]
        0 <= i < j < banks.len() ==> banks[i].0 != banks[j].0
}

/// Adding a bank under a feature that stands for none keeps the features apart.
pub proof fn law_banks_stay_distinct<E>(
    banks: Seq<(Seq<u8>, Map<Seq<u8>, E>)>,
    id: Seq<u8>,
    programs: Map<Seq<u8>, E>,
)
    requires
        distinct_banks(banks),
        !stands_for_bank(banks, id),
    ensures
        distinct_banks(banks.push((id, programs))),
{
}

/// A program is known exactly if it is in the list, and of several entries for it the last one
/// counts.
pub proof fn law_last_entry_counts<E>(programs: Seq<(Pubkey, E)>, id: Seq<u8>)
    ensures
        by_address(programs).contains_key(id) <==> exists|i: int|
            0 <= i < programs.len() && (#[trigger] programs[i]).0.0@ == id,
        forall|i: int|
            0 <= i < programs.len() && (#[trigger] programs[i]).0.0@ == id && (forall|j: int|
                i < j < programs.len() ==> (#[trigger] programs[j]).0.0@ != id) ==> by_address(
                programs,
            )[id] == programs[i].1,
    decreases programs.len(),
{
    if programs.len() > 0 {
        let shorter = programs.drop_last();
        law_last_entry_counts(shorter, id);
        assert(programs[programs.len() - 1] == programs.last());
        assert forall|i: int|
            0 <= i < programs.len() && (#[trigger] programs[i]).0.0@ == id && (forall|j: int|
                i < j < programs.len() ==> (#[trigger] programs[j]).0.0@ != id) implies by_address(
            programs,
        )[id] == programs[i].1 by {
            if i < shorter.len() {
                assert(shorter[i] == programs[i]);
                assert(programs[programs.len() - 1].0.0@ != id);
                assert forall|j: int| i < j < shorter.len() implies (#[trigger] shorter[j]).0.0@
                    != id by {
                    assert(programs[j].0.0@ != id);
                }
            }
        }
        if exists|i: int| 0 <= i < shorter.len() && (#[trigger] shorter[i]).0.0@ == id {
            let i = choose|i: int| 0 <= i < shorter.len() && (#[trigger] shorter[i]).0.0@ == id;
            assert(programs[i].0.0@ == id);
        }
        if exists|i: int| 0 <= i < programs.len() && (#[trigger] programs[i]).0.0@ == id {
            let i = choose|i: int| 0 <= i < programs.len() && (#[trigger] programs[i]).0.0@ == id;
            if i < shorter.len() {
                assert(shorter[i].0.0@ == id);
            }
        }
    }
}

/// The programs that are found are those of the first bank in the list whose feature is active, and
/// none are found exactly if no bank has an active feature.
pub proof fn law_first_bank_counts<E>(
    banks: Seq<(Seq<u8>, Map<Seq<u8>, E>)>,
    active: Set<Seq<u8>>,
)
    ensures
        first_active(banks, active) is None <==> forall|i: int|
            0 <= i < banks.len() ==> !active.contains((#[trigger] banks[i]).0),
        forall|i: int|
            0 <= i < banks.len() && active.contains((#[trigger] banks[i]).0) && (forall|j: int|
                0 <= j < i ==> !active.contains((#[trigger] banks[j]).0)) ==> first_active(
                banks,
                active,
            ) == Some(banks[i].1),
    decreases banks.len(),
{
    if banks.len() > 0 {
        let shorter = banks.drop_last();
        law_first_bank_counts(shorter, active);
        assert(banks[banks.len() - 1] == banks.last());
        assert forall|i: int|
            0 <= i < banks.len() && active.contains((#[trigger] banks[i]).0) && (forall|j: int|
                0 <= j < i ==> !active.contains((#[trigger] banks[j]).0)) implies first_active(
            banks,
            active,
        ) == Some(banks[i].1) by {
            if i < shorter.len() {
                assert(shorter[i] == banks[i]);
                assert forall|j: int| 0 <= j < i implies !active.contains(
                    (#[trigger] shorter[j]).0,
                ) by {
                    assert(!active.contains(banks[j].0));
                }
            } else {
                assert forall|j: int| 0 <= j < shorter.len() implies !active.contains(
                    (#[trigger] shorter[j]).0,
                ) by {
                    assert(!active.contains(banks[j].0));
                }
            }
        }
        if first_active(banks, active) is None {
            assert forall|i: int| 0 <= i < banks.len() implies !active.contains(
                (#[trigger] banks[i]).0,
            ) by {
                if i < shorter.len() {
                    assert(!active.contains(shorter[i].0));
                }
            }
        }
        if forall|i: int| 0 <= i < banks.len() ==> !active.contains((#[trigger] banks[i]).0) {
            assert forall|i: int| 0 <= i < shorter.len() implies !active.contains(
                (#[trigger] shorter[i]).0,
            ) by {
                assert(!active.contains(banks[i].0));
            }
            assert(!active.contains(banks[banks.len() - 1].0));
        }
    }
}

/// A feature stands for a bank exactly if some bank was added under it.
pub proof fn law_banks_have_their_features<E>(
    banks: Seq<(Seq<u8>, Map<Seq<u8>, E>)>,
    id: Seq<u8>,
)
    ensures
        stands_for_bank(banks, id) <==> !(forall|i: int|
            0 <= i < banks.len() ==> (#[trigger] banks[i]).0 != id),
{
}

} // verus!
