//! The synchronization engine end to end: store, hub, session
//! handler and replicas exercised together on concrete runs.

use indk::hub::Hub;
use indk::proto::{Item, Request, Response};
use indk::replica::apply;
use indk::session::{handle, Outcome};
use indk::store::Store;

fn item(id: u128, name: &str, completed: bool) -> Item {
    Item { id, name: name.to_string(), completed }
}

#[test]
fn creation_indices_follow_append_order() {
    let mut store = Store::new();
    assert_eq!(store.create(item(1, "milk", false)), Some(0));
    assert_eq!(store.create(item(2, "eggs", false)), Some(1));
    assert_eq!(store.create(item(3, "tea", true)), Some(2));
    let snap = store.snapshot();
    assert_eq!(snap.len(), 3);
    assert_eq!(snap[0], item(1, "milk", false));
    assert_eq!(snap[1], item(2, "eggs", false));
    assert_eq!(snap[2], item(3, "tea", true));
}

#[test]
fn creation_index_counts_items_still_held() {
    let mut store = Store::new();
    assert_eq!(store.create(item(1, "milk", false)), Some(0));
    assert_eq!(store.create(item(2, "eggs", false)), Some(1));
    assert_eq!(store.remove(1), Some(0));
    // two items were created before, but only one is still held
    assert_eq!(store.create(item(3, "tea", false)), Some(1));
    let snap = store.snapshot();
    assert_eq!(snap[0].id, 2);
    assert_eq!(snap[1].id, 3);
}

#[test]
fn creating_a_taken_id_changes_nothing() {
    let mut store = Store::new();
    assert_eq!(store.create(item(7, "milk", false)), Some(0));
    assert_eq!(store.create(item(7, "eggs", true)), None);
    let snap = store.snapshot();
    assert_eq!(snap.len(), 1);
    assert_eq!(snap[0], item(7, "milk", false));
}

#[test]
fn removing_an_absent_id_is_silent_and_harmless() {
    let mut store = Store::new();
    store.create(item(1, "milk", false));
    let before = store.snapshot();
    let out = handle(&mut store, Request::RemoveItem(99));
    assert_eq!(out, Outcome::Silent);
    assert_eq!(store.snapshot(), before);
}

#[test]
fn removing_a_present_id_removes_exactly_that_id() {
    let mut store = Store::new();
    store.create(item(1, "milk", false));
    store.create(item(2, "eggs", false));
    store.create(item(3, "tea", false));
    let out = handle(&mut store, Request::RemoveItem(2));
    assert_eq!(
        out,
        Outcome::ReplyBroadcast(Response::ItemRemoved { id: 2, index: 1 })
    );
    let snap = store.snapshot();
    assert_eq!(snap.len(), 2);
    assert_eq!(snap[0].id, 1);
    assert_eq!(snap[1].id, 3);
}

#[test]
fn renaming_an_absent_id_still_answers_everyone() {
    let mut store = Store::new();
    store.create(item(1, "milk", false));
    let before = store.snapshot();
    let out = handle(
        &mut store,
        Request::RenameItem { id: 42, name: "butter".to_string() },
    );
    assert_eq!(
        out,
        Outcome::ReplyBroadcast(Response::ItemRenamed { id: 42, name: "butter".to_string() })
    );
    assert_eq!(store.snapshot(), before);
}

#[test]
fn completing_an_absent_id_still_answers_everyone() {
    let mut store = Store::new();
    store.create(item(1, "milk", false));
    let before = store.snapshot();
    let out = handle(
        &mut store,
        Request::CompleteItem { id: 42, completed: true },
    );
    assert_eq!(
        out,
        Outcome::ReplyBroadcast(Response::ItemCompleted { id: 42, completed: true })
    );
    assert_eq!(store.snapshot(), before);
}

#[test]
fn renaming_a_present_id_updates_only_the_name() {
    let mut store = Store::new();
    store.create(item(1, "milk", false));
    store.create(item(2, "eggs", true));
    let out = handle(
        &mut store,
        Request::RenameItem { id: 1, name: "oat milk".to_string() },
    );
    assert_eq!(
        out,
        Outcome::ReplyBroadcast(Response::ItemRenamed { id: 1, name: "oat milk".to_string() })
    );
    let snap = store.snapshot();
    assert_eq!(snap[0], item(1, "oat milk", false));
    assert_eq!(snap[1], item(2, "eggs", true));
}

#[test]
fn completing_a_present_id_updates_only_the_flag() {
    let mut store = Store::new();
    store.create(item(1, "milk", false));
    let out = handle(&mut store, Request::CompleteItem { id: 1, completed: true });
    assert_eq!(
        out,
        Outcome::ReplyBroadcast(Response::ItemCompleted { id: 1, completed: true })
    );
    assert_eq!(store.snapshot()[0], item(1, "milk", true));
}

#[test]
fn get_items_answers_the_requester_only() {
    let mut store = Store::new();
    store.create(item(1, "milk", true));
    let before = store.snapshot();
    let out = handle(&mut store, Request::GetItems);
    assert_eq!(out, Outcome::Reply(Response::Items(before.clone())));
    assert_eq!(store.snapshot(), before);
}

#[test]
fn hub_broadcast_reaches_everyone_but_the_requester() {
    let mut hub = Hub::new();
    hub.register(10);
    hub.register(20);
    hub.register(30);
    assert_eq!(hub.recipients(Some(20)), vec![10, 30]);
    assert_eq!(hub.recipients(None), vec![10, 20, 30]);
}

#[test]
fn hub_unregister_removes_exactly_one_session() {
    let mut hub = Hub::new();
    hub.register(10);
    hub.register(20);
    hub.unregister(10);
    assert_eq!(hub.recipients(None), vec![20]);
    // unregistering an absent handle is harmless
    hub.unregister(10);
    assert_eq!(hub.recipients(None), vec![20]);
}

#[test]
fn replica_applies_a_full_snapshot() {
    let mut list = vec![item(9, "old", false)];
    apply(&mut list, Response::Items(vec![item(1, "milk", false), item(2, "eggs", true)]));
    assert_eq!(list, vec![item(1, "milk", false), item(2, "eggs", true)]);
}

#[test]
fn replica_ignores_events_for_unknown_ids() {
    let mut list = vec![item(1, "milk", false)];
    apply(&mut list, Response::ItemRemoved { id: 5, index: 0 });
    apply(&mut list, Response::ItemRenamed { id: 5, name: "x".to_string() });
    apply(&mut list, Response::ItemCompleted { id: 5, completed: true });
    assert_eq!(list, vec![item(1, "milk", false)]);
}

#[test]
fn replica_mirrors_value_mutations() {
    let mut store = Store::new();
    store.create(item(1, "milk", false));
    store.create(item(2, "eggs", false));
    let mut list = store.snapshot();

    for request in [
        Request::RenameItem { id: 2, name: "brown eggs".to_string() },
        Request::CompleteItem { id: 1, completed: true },
    ] {
        match handle(&mut store, request) {
            Outcome::ReplyBroadcast(event) => apply(&mut list, event),
            _ => panic!("a value mutation must answer everyone"),
        }
    }
    assert_eq!(list, store.snapshot());
    assert_eq!(list[0], item(1, "milk", true));
    assert_eq!(list[1], item(2, "brown eggs", false));
}

// Session A connects, then session B. A creates an item: A gets the
// event as its direct reply, B via broadcast. A removes it: B hears
// the removal, and a later full-list query is empty for both.
#[test]
fn two_sessions_stay_in_step() {
    let mut store = Store::new();
    let mut hub = Hub::new();
    let session_a: u64 = 1;
    let session_b: u64 = 2;
    hub.register(session_a);
    hub.register(session_b);
    let mut list_a: Vec<Item> = Vec::new();
    let mut list_b: Vec<Item> = Vec::new();

    let u1: u128 = 0x11111111_2222_3333_4444_555555555555;
    let out = handle(&mut store, Request::CreateItem(item(u1, "milk", false)));
    let event = match out {
        Outcome::ReplyBroadcast(event) => event,
        _ => panic!("a creation must answer everyone"),
    };
    assert_eq!(
        event,
        Response::ItemCreated { item: item(u1, "milk", false), index: 0 }
    );
    // A hears it as the direct reply, B via the broadcast
    assert_eq!(hub.recipients(Some(session_a)), vec![session_b]);
    apply(&mut list_a, event.clone());
    apply(&mut list_b, event);
    assert_eq!(list_a, store.snapshot());
    assert_eq!(list_b, store.snapshot());

    let out = handle(&mut store, Request::RemoveItem(u1));
    let event = match out {
        Outcome::ReplyBroadcast(event) => event,
        _ => panic!("removing a present id must answer everyone"),
    };
    assert_eq!(event, Response::ItemRemoved { id: u1, index: 0 });
    apply(&mut list_a, event.clone());
    apply(&mut list_b, event);

    match handle(&mut store, Request::GetItems) {
        Outcome::Reply(Response::Items(items)) => assert_eq!(items, Vec::new()),
        _ => panic!("a full-list query must answer the requester"),
    }
    assert_eq!(list_a, Vec::new());
    assert_eq!(list_b, Vec::new());
}

// Two sessions race to create distinct items; whichever interleaving
// the server commits, every session reconstructs that single order.
#[test]
fn racing_creations_converge_on_the_server_order() {
    for first_is_a in [true, false] {
        let mut store = Store::new();
        let item_a = item(0xA, "from a", false);
        let item_b = item(0xB, "from b", false);
        let (first, second) = if first_is_a {
            (item_a.clone(), item_b.clone())
        } else {
            (item_b.clone(), item_a.clone())
        };
        let mut events = Vec::new();
        for it in [first.clone(), second.clone()] {
            match handle(&mut store, Request::CreateItem(it)) {
                Outcome::ReplyBroadcast(event) => events.push(event),
                _ => panic!("a creation must answer everyone"),
            }
        }
        let mut list_a: Vec<Item> = Vec::new();
        let mut list_b: Vec<Item> = Vec::new();
        for event in &events {
            apply(&mut list_a, event.clone());
            apply(&mut list_b, event.clone());
        }
        assert_eq!(list_a, store.snapshot());
        assert_eq!(list_b, store.snapshot());
        assert_eq!(store.snapshot(), vec![first, second]);
    }
}
