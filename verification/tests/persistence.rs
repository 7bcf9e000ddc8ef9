//! The persistence round trip: a store written out and read back
//! carries every item's id, name, completed flag and relative order
//! exactly.

use indk::persist::{archive, restore, Archive, Data};
use indk::proto::Item;
use indk::store::Store;

fn item(id: u128, name: &str, completed: bool) -> Item {
    Item { id, name: name.to_string(), completed }
}

#[test]
fn a_persisted_store_reloads_exactly() {
    let mut store = Store::new();
    store.create(item(1, "milk", false));
    store.create(item(2, "smørrebrød", true));
    store.create(item(3, "", false));
    let before = store.snapshot();

    let written = archive(&store);
    let reloaded = match restore(written) {
        Some(reloaded) => reloaded,
        None => panic!("a snapshot taken from a store is never corrupt"),
    };
    assert_eq!(reloaded.snapshot(), before);
}

#[test]
fn an_empty_store_round_trips() {
    let store = Store::new();
    let reloaded = match restore(archive(&store)) {
        Some(reloaded) => reloaded,
        None => panic!("a snapshot taken from a store is never corrupt"),
    };
    assert_eq!(reloaded.snapshot(), Vec::new());
}

#[test]
fn a_snapshot_with_a_repeated_id_is_refused() {
    let envelope = Archive::V1(Data {
        items: vec![item(1, "milk", false), item(1, "eggs", false)],
    });
    assert!(restore(envelope).is_none());
}

#[test]
fn from_items_rebuilds_map_and_order() {
    let list = vec![item(5, "tea", true), item(2, "milk", false)];
    let store = match Store::from_items(list.clone()) {
        Some(store) => store,
        None => panic!("distinct ids must be accepted"),
    };
    assert_eq!(store.snapshot(), list);
    assert_eq!(store.len(), 2);
}
