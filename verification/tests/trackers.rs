use ids::Id8;
use ids::IdCounter;
use ids::IdError;
use ids::IdInner;
use ids::IdLinker;
use ids::IdTracker;
use ids::IdentifiedBy;
use ids::Identifier;

type Id = IdInner<'static, Id8>;

struct Item {
    id: Id,
    label: &'static str,
}

impl Item {
    fn new(label: &'static str) -> Item {
        Item { id: <Id as Identifier>::first(), label }
    }
}

impl IdentifiedBy<Id> for Item {
    fn id_of(&self) -> Id {
        self.id
    }

    fn get_id(&self) -> Id {
        self.id
    }

    fn set_id(&mut self, id: Id) {
        self.id = id;
    }
}

fn id(index: usize) -> Id {
    Id::from_index(index).unwrap()
}

#[test]
fn counter_issues_successive_values() {
    let mut counter: IdCounter<Id> = IdCounter::default();
    assert_eq!(counter.next().to_index(), 0);
    assert_eq!(counter.next().to_index(), 1);
    assert_eq!(counter.next().to_index(), 2);
}

#[test]
fn put_stamps_successive_identifiers() {
    let mut tracker: IdTracker<Id, Item> = IdTracker::default();
    let h0 = tracker.put(Item::new("zero"));
    let h1 = tracker.put(Item::new("one"));
    let h2 = tracker.put(Item::new("two"));
    assert_eq!(h0.lock().unwrap().get_id().to_index(), 0);
    assert_eq!(h1.lock().unwrap().get_id().to_index(), 1);
    assert_eq!(h2.lock().unwrap().get_id().to_index(), 2);
}

#[test]
fn get_after_put_returns_the_same_object() {
    let mut tracker: IdTracker<Id, Item> = IdTracker::default();
    let handle = tracker.put(Item::new("only"));
    let fetched = tracker.get(id(0)).expect("identifier 0 should be live");
    // mutating through the returned handle is visible through the fetched
    // one: they share the object
    handle.lock().unwrap().label = "renamed";
    assert_eq!(fetched.lock().unwrap().label, "renamed");
    assert_eq!(fetched.lock().unwrap().get_id().to_index(), 0);
}

#[test]
fn get_of_unissued_or_removed_identifiers_is_nothing() {
    let mut tracker: IdTracker<Id, Item> = IdTracker::default();
    assert!(tracker.get(id(0)).is_none());
    tracker.put(Item::new("zero"));
    tracker.put(Item::new("one"));
    assert!(tracker.get(id(7)).is_none());
    tracker.remove(id(0));
    assert!(tracker.get(id(0)).is_none());
    assert!(tracker.get(id(1)).is_some());
}

#[test]
fn removed_identifiers_are_not_reissued_before_flattening() {
    let mut tracker: IdTracker<Id, Item> = IdTracker::default();
    tracker.put(Item::new("zero"));
    tracker.put(Item::new("one"));
    tracker.remove(id(1));
    let h = tracker.put(Item::new("two"));
    assert_eq!(h.lock().unwrap().get_id().to_index(), 2);
}

#[test]
fn flatten_renumbers_survivors_contiguously() {
    let mut tracker: IdTracker<Id, Item> = IdTracker::default();
    tracker.put(Item::new("zero"));
    tracker.put(Item::new("one"));
    let h2 = tracker.put(Item::new("two"));
    tracker.remove(id(1));
    let mapping = tracker.flatten().unwrap();
    assert_eq!(mapping.len(), 2);
    let m0 = mapping.lookup(id(0)).unwrap();
    let m2 = mapping.lookup(id(2)).unwrap();
    assert_eq!(m0.to_index(), 0);
    assert_eq!(m2.to_index(), 1);
    assert!(mapping.lookup(id(1)).is_none());
    // the surviving objects moved to their new positions and were restamped
    let at0 = tracker.get(id(0)).unwrap();
    assert_eq!(at0.lock().unwrap().label, "zero");
    assert_eq!(at0.lock().unwrap().get_id().to_index(), 0);
    let at1 = tracker.get(id(1)).unwrap();
    assert_eq!(at1.lock().unwrap().label, "two");
    assert_eq!(at1.lock().unwrap().get_id().to_index(), 1);
    assert!(tracker.get(id(2)).is_none());
    // the handle held from before the compaction still reaches the object
    assert_eq!(h2.lock().unwrap().get_id().to_index(), 1);
    // the next insertion continues after the compacted range
    let h3 = tracker.put(Item::new("three"));
    assert_eq!(h3.lock().unwrap().get_id().to_index(), 2);
}

#[test]
fn flatten_of_empty_tracker_is_empty() {
    let mut tracker: IdTracker<Id, Item> = IdTracker::default();
    let mapping = tracker.flatten().unwrap();
    assert_eq!(mapping.len(), 0);
    assert!(tracker.get(id(0)).is_none());
}

#[test]
fn flatten_with_updates_only_the_requested_side() {
    let mut tracker: IdTracker<Id, Item> = IdTracker::default();
    tracker.put(Item::new("zero"));
    tracker.put(Item::new("one"));
    tracker.put(Item::new("two"));
    tracker.remove(id(1));
    // pairs (1, 0) and (2, 2): the rights live in the tracker's space
    let mut linker: IdLinker<Id, Id> = IdLinker::new();
    linker.insert(id(1), id(0));
    linker.insert(id(2), id(2));
    let mut stores = vec![linker.right_updater()];
    let mapping = tracker.flatten_with(&mut stores).unwrap();
    assert_eq!(mapping.lookup(id(0)).unwrap().to_index(), 0);
    assert_eq!(mapping.lookup(id(2)).unwrap().to_index(), 1);
    let linker = stores.pop().unwrap().into_inner();
    // the left sides are untouched; the rights follow the renumbering
    assert_eq!(linker.get_by_left(id(1)).unwrap().to_index(), 0);
    assert_eq!(linker.get_by_left(id(2)).unwrap().to_index(), 1);
    assert!(linker.get_by_left(id(0)).is_none());
}

#[test]
fn flatten_with_no_stores_behaves_like_flatten() {
    let mut tracker: IdTracker<Id, Item> = IdTracker::default();
    tracker.put(Item::new("zero"));
    let mut stores: Vec<ids::RightLinkerUpdater<Id, Id>> = Vec::new();
    let mapping = tracker.flatten_with(&mut stores).unwrap();
    assert_eq!(mapping.lookup(id(0)).unwrap().to_index(), 0);
    assert!(stores.is_empty());
}
