use routie::arena::{ArenaIndex, SeqIndexedStore};
use routie::occupancy::OrderedSkipMap;
use routie::road::JunctionId;

#[test]
fn arena_push_returns_dense_ids() {
    let mut store: SeqIndexedStore<JunctionId, i32> = SeqIndexedStore::new();
    let a = store.push(10);
    let b = store.push(20);
    assert_eq!(a, JunctionId(0));
    assert_eq!(b, JunctionId(1));
    assert_eq!(store.len(), 2);
    assert_eq!(store.get(&b), Some(&20));
}

#[test]
fn arena_get_out_of_range_is_none() {
    let mut store: SeqIndexedStore<JunctionId, i32> = SeqIndexedStore::new();
    store.push(1);
    assert_eq!(store.get(&JunctionId(1)), None);
    assert!(store.get_mut(&JunctionId(5)).is_none());
}

#[test]
fn arena_get_mut_writes_through() {
    let mut store: SeqIndexedStore<JunctionId, i32> = SeqIndexedStore::new();
    let id = store.push(1);
    *store.get_mut(&id).unwrap() = 7;
    assert_eq!(store.get(&id), Some(&7));
}

#[test]
fn arena_enumerate_in_insertion_order() {
    let mut store: SeqIndexedStore<JunctionId, &str> = SeqIndexedStore::new();
    store.push("a");
    store.push("b");
    store.push("c");
    let all = store.enumerate();
    let ids: Vec<usize> = all.iter().map(|(id, _)| id.index()).collect();
    let values: Vec<&str> = all.iter().map(|(_, v)| **v).collect();
    assert_eq!(ids, vec![0, 1, 2]);
    assert_eq!(values, vec!["a", "b", "c"]);
}

#[test]
fn ordered_map_enumerates_by_key() {
    let mut map: OrderedSkipMap<&str> = OrderedSkipMap::new();
    map.insert(30, "c");
    map.insert(10, "a");
    map.insert(20, "b");
    let keys: Vec<u64> = map.enumerate().iter().map(|e| e.0).collect();
    assert_eq!(keys, vec![10, 20, 30]);
    assert_eq!(map.len(), 3);
}

#[test]
fn ordered_map_keeps_equal_keys_in_insertion_order() {
    let mut map: OrderedSkipMap<&str> = OrderedSkipMap::new();
    map.insert(5, "first");
    map.insert(5, "second");
    map.insert(1, "zero");
    let values: Vec<&str> = map.enumerate().iter().map(|e| e.1).collect();
    assert_eq!(values, vec!["zero", "first", "second"]);
}

#[test]
fn ordered_map_range_is_inclusive() {
    let mut map: OrderedSkipMap<u8> = OrderedSkipMap::new();
    for k in [1u64, 2, 3, 4, 5] {
        map.insert(k, k as u8);
    }
    let keys: Vec<u64> = map.enumerate_range(2, 4).iter().map(|e| e.0).collect();
    assert_eq!(keys, vec![2, 3, 4]);
    assert!(map.enumerate_range(6, 9).is_empty());
}

#[test]
fn ordered_map_remove_takes_first_under_key() {
    let mut map: OrderedSkipMap<&str> = OrderedSkipMap::new();
    map.insert(5, "first");
    map.insert(5, "second");
    map.insert(7, "other");
    assert_eq!(map.remove(5), Some("first"));
    assert_eq!(map.remove(6), None);
    let values: Vec<&str> = map.enumerate().iter().map(|e| e.1).collect();
    assert_eq!(values, vec!["second", "other"]);
}

#[test]
fn arena_enumerate_mut_writes_through() {
    let mut store: SeqIndexedStore<JunctionId, i32> = SeqIndexedStore::new();
    store.push(1);
    store.push(2);
    for (id, value) in store.enumerate_mut() {
        *value += 10 * id.index() as i32;
    }
    assert_eq!(store.get(&JunctionId(0)), Some(&1));
    assert_eq!(store.get(&JunctionId(1)), Some(&12));
}
