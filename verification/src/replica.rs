//! A client's local copy of the list, kept consistent by applying
//! the server's event stream in arrival order.
//!
//! The transport hands every decoded event to `apply`; nothing else
//! touches the local list. What one event does is fixed by
//! [`apply_event`], over which the synchronization laws are stated.

use vstd::prelude::*;
use crate::proto::Item;
use crate::proto::Response;
use crate::proto::has_id;
use crate::proto::first_hit;
use crate::proto::remove_first;
use crate::proto::rename_first;
use crate::proto::complete_first;
use crate::proto::with_name;
use crate::proto::with_completed;
use crate::proto::lemma_first_hit;

verus! {

/// What one server event does to a local copy of the list: a full
/// snapshot replaces it; a creation inserts at the reported index; a
/// removal, rename or completion acts on the first item carrying the
/// id, and an absent id changes nothing.
pub open spec fn apply_event(s: Seq<Item>, event: Response) -> Seq<Item> {
    match event {
        Response::Items(v) => v@,
        Response::ItemCreated { item, index } => s.insert(index as int, item),
        Response::ItemRemoved { id, index: _ } => remove_first(s, id),
        Response::ItemRenamed { id, name } => rename_first(s, id, name),
        Response::ItemCompleted { id, completed } => complete_first(s, id, completed),
    }
}

/// The position of the first item carrying the id, when one is there.
fn position_of(list: &Vec<Item>, id: u128) -> (r: Option<usize>)
    ensures
        match r {
            Some(j) => has_id(list@, id) && j == first_hit(list@, id),
            None => !has_id(list@, id),
        },
{
    let mut j: usize = 0;
    while j < list.len()
        invariant
            0 <= j <= list@.len(),
            forall|k: int| 0 <= k < j ==> list@[k].id != id,
        decreases list@.len() - j,
    {
        if list[j].id == id {
            proof {
                lemma_first_hit(list@, id);
            }
            return Some(j);
        }
        j += 1;
    }
    proof {
        lemma_first_hit(list@, id);
    }
    None
}

/// Applies one server event to the local list.
///
/// A creation event's index is trusted to be within bounds: the
/// server only ever reports an index into the list it broadcast from.
pub fn apply(list: &mut Vec<Item>, event: Response)
    requires
        event matches Response::ItemCreated { item, index } ==> index <= old(list)@.len(),
    ensures
        final(list)@ == apply_event(old(list)@, event),
{
    match event {
        Response::Items(v) => {
            *list = v;
        },
        Response::ItemCreated { item, index } => {
            list.insert(index, item);
        },
        Response::ItemRemoved { id, index: _ } => {
            match position_of(list, id) {
                Some(j) => {
                    proof {
                        lemma_first_hit(list@, id);
                    }
                    list.remove(j);
                },
                None => {},
            }
        },
        Response::ItemRenamed { id, name } => {
            match position_of(list, id) {
                Some(j) => {
                    proof {
                        lemma_first_hit(list@, id);
                    }
                    let ghost pre = list@;
                    let completed = list[j].completed;
                    let kept = list[j].id;
                    list[j] = Item { id: kept, name, completed };
                    proof {
                        assert(list@ == pre.update(j as int, with_name(pre[j as int], name)));
                    }
                },
                None => {},
            }
        },
        Response::ItemCompleted { id, completed } => {
            match position_of(list, id) {
                Some(j) => {
                    proof {
                        lemma_first_hit(list@, id);
                    }
                    let name = list[j].name.clone();
                    let kept = list[j].id;
                    let ghost pre = list@;
                    list[j] = Item { id: kept, name, completed };
                    proof {
                        assert(list@ == pre.update(
                            j as int,
                            with_completed(pre[j as int], completed),
                        ));
                    }
                },
                None => {},
            }
        },
    }
}

} // verus!
