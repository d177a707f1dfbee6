use ids::DenseIntMap;
use ids::IntMap;
use ids::SparseIntMap;

#[test]
fn dense_add_assigns_successive_keys() {
    let mut m: DenseIntMap<&'static str> = DenseIntMap::default();
    assert_eq!(m.add("a"), 0);
    assert_eq!(m.add("b"), 1);
    assert_eq!(m.add("c"), 2);
    assert_eq!(m.get(0), Some("a"));
    assert_eq!(m.get(1), Some("b"));
    assert_eq!(m.get(2), Some("c"));
    assert_eq!(m.get(3), None);
}

#[test]
fn dense_put_grows_and_advances_counter() {
    let mut m: DenseIntMap<u32> = DenseIntMap::default();
    m.put(5, Some(50));
    assert_eq!(m.get(5), Some(50));
    assert_eq!(m.get(4), None);
    assert_eq!(m.next_key(), 6);
    assert_eq!(m.add(60), 6);
    m.put(3, Some(30));
    assert_eq!(m.next_key(), 7);
}

#[test]
fn dense_rmv_clears_without_shrinking() {
    let mut m: DenseIntMap<u32> = DenseIntMap::default();
    m.add(10);
    m.add(11);
    m.rmv(0);
    assert_eq!(m.get(0), None);
    assert_eq!(m.get(1), Some(11));
    assert_eq!(m.next_key(), 2);
    m.rmv(9);
    assert_eq!(m.next_key(), 2);
}

#[test]
fn dense_flattening_renumbers_in_ascending_order() {
    let mut m: DenseIntMap<&'static str> = DenseIntMap::default();
    m.add("a");
    m.add("b");
    m.add("c");
    m.rmv(1);
    let (compacted, mapping) = m.get_flattening().unwrap();
    assert_eq!(mapping.len(), 2);
    assert_eq!(mapping.get(&0), Some(&0));
    assert_eq!(mapping.get(&2), Some(&1));
    assert_eq!(mapping.get(&1), None);
    assert_eq!(compacted.get(0), Some("a"));
    assert_eq!(compacted.get(1), Some("c"));
    assert_eq!(compacted.get(2), None);
    assert_eq!(compacted.next_key(), 2);
    // the original is untouched
    assert_eq!(m.get(2), Some("c"));
}

#[test]
fn dense_flattening_of_empty_map_is_empty() {
    let m: DenseIntMap<u8> = DenseIntMap::default();
    let (compacted, mapping) = m.get_flattening().unwrap();
    assert!(mapping.is_empty());
    assert_eq!(compacted.next_key(), 0);
}

#[test]
fn sparse_add_assigns_successive_keys() {
    let mut m: SparseIntMap<&'static str> = SparseIntMap::default();
    assert_eq!(m.add("a"), 0);
    assert_eq!(m.add("b"), 1);
    assert_eq!(m.get(0), Some("a"));
    assert_eq!(m.get(1), Some("b"));
    assert_eq!(m.get(2), None);
}

#[test]
fn sparse_put_and_rmv_follow_the_contract() {
    let mut m: SparseIntMap<u32> = SparseIntMap::default();
    m.put(100, Some(7));
    assert_eq!(m.get(100), Some(7));
    assert_eq!(m.next_key(), 101);
    m.put(100, None);
    assert_eq!(m.get(100), None);
    assert_eq!(m.next_key(), 101);
    m.rmv(3);
    assert_eq!(m.next_key(), 101);
}

#[test]
fn sparse_flattening_covers_every_survivor() {
    let mut m: SparseIntMap<&'static str> = SparseIntMap::default();
    m.add("a");
    m.add("b");
    m.add("c");
    m.rmv(0);
    let (compacted, mapping) = m.get_flattening().unwrap();
    assert_eq!(mapping.len(), 2);
    // every surviving key is renumbered below the survivor count, without
    // collisions, and resolves to its old payload
    let new_b = *mapping.get(&1).unwrap();
    let new_c = *mapping.get(&2).unwrap();
    assert!(new_b < 2 && new_c < 2);
    assert_ne!(new_b, new_c);
    assert_eq!(mapping.get(&0), None);
    assert_eq!(compacted.get(new_b), Some("b"));
    assert_eq!(compacted.get(new_c), Some("c"));
    assert_eq!(compacted.next_key(), 2);
}
