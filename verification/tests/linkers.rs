use ids::Id16;
use ids::Id8;
use ids::IdError;
use ids::IdInner;
use ids::IdLinker;
use ids::IdMapping;
use ids::Identifier;

type Left = IdInner<'static, Id8>;
type Right = IdInner<'static, Id16>;

fn left(index: usize) -> Left {
    Left::from_index(index).unwrap()
}

fn right(index: usize) -> Right {
    Right::from_index(index).unwrap()
}

#[test]
fn lookups_work_from_either_side() {
    let mut linker: IdLinker<Left, Right> = IdLinker::new();
    linker.insert(left(1), right(500));
    assert_eq!(linker.get_by_left(left(1)).unwrap().to_index(), 500);
    assert_eq!(linker.get_by_right(right(500)).unwrap().to_index(), 1);
    assert!(linker.get_by_left(left(2)).is_none());
    assert!(linker.get_by_right(right(2)).is_none());
}

#[test]
fn insert_discards_pairings_sharing_either_side() {
    let mut linker: IdLinker<Left, Right> = IdLinker::new();
    linker.insert(left(1), right(10));
    linker.insert(left(2), right(20));
    // (1, 10) shares its left with the new pair, (2, 20) shares nothing
    linker.insert(left(1), right(30));
    assert_eq!(linker.get_by_left(left(1)).unwrap().to_index(), 30);
    assert!(linker.get_by_right(right(10)).is_none());
    assert_eq!(linker.get_by_left(left(2)).unwrap().to_index(), 20);
}

#[test]
fn deletes_remove_one_side_only() {
    let mut linker: IdLinker<Left, Right> = IdLinker::new();
    linker.insert(left(1), right(10));
    linker.insert(left(2), right(20));
    linker.delete_by_left(&left(1));
    assert!(linker.get_by_left(left(1)).is_none());
    assert!(linker.get_by_right(right(10)).is_none());
    linker.delete_by_right(&right(20));
    assert!(linker.get_by_left(left(2)).is_none());
    linker.delete_by_left(&left(9));
}

#[test]
fn put_of_two_absent_sides_changes_nothing() {
    let mut linker: IdLinker<Left, Right> = IdLinker::new();
    linker.insert(left(1), right(10));
    linker.put(None, None);
    assert_eq!(linker.get_by_left(left(1)).unwrap().to_index(), 10);
    assert!(linker.get_by_left(left(2)).is_none());
}

#[test]
fn put_of_both_sides_replaces_both_prior_pairings() {
    let mut linker: IdLinker<Left, Right> = IdLinker::new();
    let a = left(1);
    let b = right(10);
    let c = right(30);
    let d = left(4);
    linker.insert(a, c);
    linker.insert(d, b);
    linker.put(Some(a), Some(b));
    // exactly (a, b) remains of the two prior pairings
    assert_eq!(linker.get_by_left(a).unwrap().to_index(), 10);
    assert_eq!(linker.get_by_right(b).unwrap().to_index(), 1);
    assert!(linker.get_by_right(c).is_none());
    assert!(linker.get_by_left(d).is_none());
}

#[test]
fn put_of_one_side_deletes_on_that_side() {
    let mut linker: IdLinker<Left, Right> = IdLinker::new();
    linker.insert(left(1), right(10));
    linker.insert(left(2), right(20));
    linker.put(Some(left(1)), None);
    assert!(linker.get_by_left(left(1)).is_none());
    linker.put(None, Some(right(20)));
    assert!(linker.get_by_left(left(2)).is_none());
}

#[test]
fn left_update_rewrites_every_left_identifier() {
    let mut linker: IdLinker<Left, Right> = IdLinker::new();
    linker.insert(left(0), right(10));
    linker.insert(left(2), right(20));
    let mut mapping: IdMapping<Left> = IdMapping::new();
    mapping.push_pair(left(0), left(0));
    mapping.push_pair(left(2), left(1));
    linker.update_left_ids(&mapping).unwrap();
    assert_eq!(linker.get_by_left(left(0)).unwrap().to_index(), 10);
    assert_eq!(linker.get_by_left(left(1)).unwrap().to_index(), 20);
    assert!(linker.get_by_left(left(2)).is_none());
}

#[test]
fn right_update_rewrites_every_right_identifier() {
    let mut linker: IdLinker<Left, Right> = IdLinker::new();
    linker.insert(left(0), right(5));
    linker.insert(left(1), right(9));
    let mut mapping: IdMapping<Right> = IdMapping::new();
    mapping.push_pair(right(5), right(0));
    mapping.push_pair(right(9), right(1));
    linker.update_right_ids(&mapping).unwrap();
    assert_eq!(linker.get_by_left(left(0)).unwrap().to_index(), 0);
    assert_eq!(linker.get_by_left(left(1)).unwrap().to_index(), 1);
    assert!(linker.get_by_right(right(5)).is_none());
}

#[test]
fn incomplete_left_update_fails_and_leaves_the_linker_alone() {
    let mut linker: IdLinker<Left, Right> = IdLinker::new();
    linker.insert(left(0), right(10));
    linker.insert(left(2), right(20));
    let mut mapping: IdMapping<Left> = IdMapping::new();
    mapping.push_pair(left(0), left(0));
    assert_eq!(linker.update_left_ids(&mapping), Err(IdError::IncompleteRemap));
    assert_eq!(linker.get_by_left(left(2)).unwrap().to_index(), 20);
}

#[test]
fn incomplete_right_update_fails_and_leaves_the_linker_alone() {
    let mut linker: IdLinker<Left, Right> = IdLinker::new();
    linker.insert(left(0), right(10));
    let mapping: IdMapping<Right> = IdMapping::new();
    assert_eq!(linker.update_right_ids(&mapping), Err(IdError::IncompleteRemap));
    assert_eq!(linker.get_by_left(left(0)).unwrap().to_index(), 10);
}

#[test]
fn updaters_give_the_linker_back() {
    let mut linker: IdLinker<Left, Right> = IdLinker::new();
    linker.insert(left(3), right(7));
    let linker = linker.left_updater().into_inner();
    let linker = linker.right_updater().into_inner();
    assert_eq!(linker.get_by_left(left(3)).unwrap().to_index(), 7);
}

#[test]
fn mapping_lookup_matches_recorded_pairs() {
    let mut mapping: IdMapping<Left> = IdMapping::new();
    assert_eq!(mapping.len(), 0);
    mapping.push_pair(left(4), left(0));
    mapping.push_pair(left(9), left(1));
    assert_eq!(mapping.len(), 2);
    assert_eq!(mapping.lookup(left(4)).unwrap().to_index(), 0);
    assert_eq!(mapping.lookup(left(9)).unwrap().to_index(), 1);
    assert!(mapping.lookup(left(5)).is_none());
    assert_eq!(mapping.lookup_index(9), Some(1));
    assert_eq!(mapping.lookup_index(3), None);
}
