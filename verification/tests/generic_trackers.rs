use ids::utils::trackers::generic::IdTracker;
use ids::DenseIdTracker;
use ids::DenseIntMap;
use ids::Handle;
use ids::Id8;
use ids::IdInner;
use ids::IdTrackerInner;
use ids::IdentifiedBy;
use ids::Identifier;

type Id = IdInner<'static, Id8>;

struct Item {
    id: Id,
    label: &'static str,
}

impl Item {
    fn new(label: &'static str) -> Item {
        Item { id: <Id as Identifier>::first(), label }
    }
}

impl IdentifiedBy<Id> for Item {
    fn id_of(&self) -> Id {
        self.id
    }

    fn get_id(&self) -> Id {
        self.id
    }

    fn set_id(&mut self, id: Id) {
        self.id = id;
    }
}

type DenseInner = IdTrackerInner<Id, Item, DenseIntMap<Handle<Item>>>;

fn id(index: usize) -> Id {
    Id::from_index(index).unwrap()
}

#[test]
fn dense_tracker_stamps_successive_identifiers() {
    let mut tracker: DenseIdTracker<Id, Item> = DenseIdTracker::default();
    let h0 = tracker.put(Item::new("zero"));
    let h1 = tracker.put(Item::new("one"));
    assert_eq!(h0.lock().unwrap().get_id().to_index(), 0);
    assert_eq!(h1.lock().unwrap().get_id().to_index(), 1);
    assert_eq!(tracker.get(id(1)).unwrap().lock().unwrap().label, "one");
    assert!(tracker.get(id(2)).is_none());
}

#[test]
fn dense_tracker_flattening_keeps_ascending_order() {
    let mut tracker: DenseIdTracker<Id, Item> = DenseIdTracker::default();
    tracker.put(Item::new("zero"));
    tracker.put(Item::new("one"));
    tracker.put(Item::new("two"));
    tracker.put(Item::new("three"));
    tracker.remove(id(1));
    tracker.remove(id(2));
    let mapping = tracker.flatten().unwrap();
    assert_eq!(mapping.lookup(id(0)).unwrap().to_index(), 0);
    assert_eq!(mapping.lookup(id(3)).unwrap().to_index(), 1);
    assert!(mapping.lookup(id(1)).is_none());
    assert!(mapping.lookup(id(2)).is_none());
    let survivor = tracker.get(id(1)).unwrap();
    assert_eq!(survivor.lock().unwrap().label, "three");
    assert_eq!(survivor.lock().unwrap().get_id().to_index(), 1);
}

#[test]
fn inner_tracker_insert_shares_the_object() {
    let mut tracker: DenseInner = DenseInner::default();
    let original = Handle::new(Item::new("shared"));
    let stored = tracker.insert(original.clone()).unwrap();
    assert_eq!(stored.lock().unwrap().get_id().to_index(), 0);
    let fetched = tracker.get(id(0)).unwrap();
    stored.lock().unwrap().label = "renamed";
    assert_eq!(fetched.lock().unwrap().label, "renamed");
}
