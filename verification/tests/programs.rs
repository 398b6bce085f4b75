use solana_simulation::account::Pubkey;
use solana_simulation::programs::{FeatureSet, GlobalProgramMap, ProgramTable};

fn key(n: u8) -> Pubkey {
    Pubkey([n; 32])
}

fn table(programs: &[(u8, u32)]) -> ProgramTable<u32> {
    ProgramTable::from_programs(programs.iter().map(|(n, e)| (key(*n), *e)).collect())
}

#[test]
fn last_entry_point_of_an_address_counts() {
    let programs = table(&[(1, 10), (2, 20), (1, 11)]);
    assert_eq!(programs.get(&key(1)), Some(11));
    assert_eq!(programs.get(&key(2)), Some(20));
    assert_eq!(programs.get(&key(3)), None);
    let copy = programs.duplicate();
    assert_eq!(copy.get(&key(1)), Some(11));
    assert_eq!(copy.get(&key(3)), None);
}

#[test]
fn features_become_active() {
    let mut features = FeatureSet::new(vec![key(1)]);
    assert!(features.is_active(&key(1)));
    assert!(!features.is_active(&key(2)));
    features.activate(&key(2));
    assert!(features.is_active(&key(1)));
    assert!(features.is_active(&key(2)));
    assert!(!features.is_active(&key(3)));
}

#[test]
fn features_are_those_of_the_sdk() {
    let mut theirs = solana_sdk::feature_set::FeatureSet::default();
    let mut ours =
        FeatureSet::new(theirs.active.keys().map(|id| Pubkey(id.to_bytes())).collect());
    let id = solana_sdk::pubkey::Pubkey::from([9; 32]);
    assert_eq!(ours.is_active(&key(9)), theirs.is_active(&id));
    theirs.activate(&id, 0);
    ours.activate(&key(9));
    assert!(theirs.is_active(&id));
    assert!(ours.is_active(&key(9)));
}

#[test]
fn banks_find_their_programs() {
    let mut map: GlobalProgramMap<u32> = GlobalProgramMap::new();
    let mut first = FeatureSet::new(vec![key(200)]);
    let mut second = FeatureSet::new(vec![key(200)]);
    assert!(map.get_programs(&first).is_none());
    map.insert_as(key(1), &mut first, table(&[(9, 90)]));
    assert!(map.has_bank(&key(1)));
    assert!(!map.has_bank(&key(2)));
    assert!(map.get_programs(&second).is_none());
    map.insert_as(key(2), &mut second, table(&[(9, 91)]));
    assert_eq!(map.get_programs(&first).unwrap().get(&key(9)), Some(90));
    assert_eq!(map.get_programs(&second).unwrap().get(&key(9)), Some(91));
    assert!(first.is_active(&key(1)) && !first.is_active(&key(2)));
}

#[test]
fn first_active_bank_counts() {
    let mut map: GlobalProgramMap<u32> = GlobalProgramMap::new();
    let mut features = FeatureSet::new(vec![]);
    map.insert_as(key(2), &mut features, table(&[(9, 90)]));
    map.insert_as(key(1), &mut features, table(&[(9, 91)]));
    assert_eq!(map.get_programs(&features).unwrap().get(&key(9)), Some(90));
}

#[test]
fn features_that_stand_for_a_bank_are_refused() {
    let mut map: GlobalProgramMap<u32> = GlobalProgramMap::new();
    let mut first = FeatureSet::new(vec![]);
    let mut second = FeatureSet::new(vec![]);
    assert!(map.insert_drawn(key(1), &mut first, table(&[(9, 90)])));
    assert!(!map.insert_drawn(key(1), &mut second, table(&[(9, 91)])));
    assert!(!second.is_active(&key(1)));
    assert_eq!(map.get_programs(&first).unwrap().get(&key(9)), Some(90));
    assert!(map.insert_drawn(key(2), &mut second, table(&[(9, 92)])));
    assert_eq!(map.get_programs(&second).unwrap().get(&key(9)), Some(92));
}

#[test]
fn fresh_banks_are_distinct() {
    let mut map: GlobalProgramMap<u32> = GlobalProgramMap::new();
    let mut seen: Vec<Pubkey> = Vec::new();
    for n in 0..10u32 {
        let mut features = FeatureSet::new(vec![]);
        let id = map.insert(&mut features, table(&[(9, n)])).unwrap();
        assert!(!seen.contains(&id));
        assert!(features.is_active(&id));
        assert!(map.has_bank(&id));
        assert_eq!(map.get_programs(&features).unwrap().get(&key(9)), Some(n));
        seen.push(id);
    }
}
